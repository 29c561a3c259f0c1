use mp4muxer::tokens::{
    media_lang_validator, normalize_media_name, split_token, strip_media_quotes, to_clap_args,
    trim_white_space, is_white_space, QuoteState,
};

#[test]
fn compound_token_becomes_arguments() {
    assert_eq!(to_clap_args("video.hevc,fr=23.97"), vec!["video.hevc", "--fr=23.97"]);
    assert_eq!(
        to_clap_args("audio.ac3,lang=rus,name=\"Dub, Blu-ray\""),
        vec!["audio.ac3", "--lang=rus", "--name=\"Dub, Blu-ray\""]
    );
}

#[test]
fn bare_file_is_one_argument() {
    assert_eq!(to_clap_args("audio.ec3"), vec!["audio.ec3"]);
    assert_eq!(to_clap_args(""), vec![""]);
}

#[test]
fn single_quotes_protect_commas() {
    assert_eq!(to_clap_args("a,name='Dub, Blu-ray',ts=48000"), vec!["a", "--name='Dub, Blu-ray'", "--ts=48000"]);
}

#[test]
fn other_quote_inside_a_span_is_plain() {
    assert_eq!(split_token("a,name=\"it's, fine\",x"), vec!["a", "name=\"it's, fine\"", "x"]);
    assert_eq!(split_token("a,name='say \"hi, there\"',x"), vec!["a", "name='say \"hi, there\"'", "x"]);
}

#[test]
fn unterminated_quote_keeps_later_commas() {
    assert_eq!(to_clap_args("a,name='x,lang=rus"), vec!["a", "--name='x,lang=rus"]);
}

#[test]
fn empty_pieces_are_kept() {
    assert_eq!(split_token("a,,b,"), vec!["a", "", "b", ""]);
}

#[test]
fn quote_state_transitions() {
    assert_eq!(QuoteState::Unquoted.step('\''), QuoteState::InSingle);
    assert_eq!(QuoteState::InSingle.step('\''), QuoteState::Unquoted);
    assert_eq!(QuoteState::InSingle.step('"'), QuoteState::InSingle);
    assert_eq!(QuoteState::Unquoted.step('"'), QuoteState::InDouble);
    assert_eq!(QuoteState::InDouble.step('\''), QuoteState::InDouble);
    assert_eq!(QuoteState::InDouble.step(','), QuoteState::InDouble);
}

#[test]
fn plain_name_is_unchanged() {
    assert_eq!(normalize_media_name("plain name"), "plain name");
    assert_eq!(normalize_media_name(""), "");
}

#[test]
fn quoted_name_keeps_its_comma() {
    assert_eq!(normalize_media_name("'Dub, Blu-ray'"), "Dub, Blu-ray");
    assert_eq!(normalize_media_name("\"Dub, Blu-ray\""), "Dub, Blu-ray");
}

#[test]
fn nested_quotes_are_all_removed() {
    assert_eq!(normalize_media_name("\"'x'\""), "x");
    assert_eq!(normalize_media_name("'\"'Cool video'\"'"), "Cool video");
    let once = normalize_media_name("\"'x'\"");
    assert_eq!(normalize_media_name(once), once);
}

#[test]
fn name_is_trimmed_before_quotes_go() {
    assert_eq!(normalize_media_name("  \"x\"  "), "x");
    assert_eq!(normalize_media_name("\t name \n"), "name");
    assert_eq!(normalize_media_name("\" x \""), " x ");
}

#[test]
fn unmatched_or_lone_quotes_stay() {
    assert_eq!(normalize_media_name("'x\""), "'x\"");
    assert_eq!(normalize_media_name("\""), "\"");
    assert_eq!(normalize_media_name("\"\"\""), "\"");
    assert_eq!(normalize_media_name("''"), "");
}

#[test]
fn language_code_has_three_characters() {
    assert!(media_lang_validator("rus").is_ok());
    assert!(media_lang_validator("eng").is_ok());
    assert_eq!(media_lang_validator("ru"), Err("must be 3 characters long e.g. 'eng'".to_string()));
    assert!(media_lang_validator("russ").is_err());
    assert!(media_lang_validator("").is_err());
    assert!(media_lang_validator("été").is_ok());
}

#[test]
fn white_space_is_trimmed_at_both_ends_only() {
    assert_eq!(trim_white_space("  Dub, Blu-ray \t"), "Dub, Blu-ray");
    assert_eq!(trim_white_space("\u{a0}x y\u{2003}"), "x y");
    assert_eq!(trim_white_space("   "), "");
    assert_eq!(trim_white_space("x"), "x");
}

#[test]
fn quote_stripping_alone_keeps_white_space() {
    assert_eq!(strip_media_quotes(" 'x' "), " 'x' ");
    assert_eq!(strip_media_quotes("'\" x \"'"), " x ");
    assert_eq!(strip_media_quotes("'a'b'"), "a'b");
}

#[test]
fn white_space_matches_std_on_every_char() {
    for u in 0u32..=0x10FFFF {
        if let Some(c) = char::from_u32(u) {
            assert_eq!(is_white_space(c), c.is_whitespace(), "U+{:04X}", u);
        }
    }
}
