use mp4muxer::compound::{parse_input_file, InputFileError};
use mp4muxer::framerate::FramerateError;
use mp4muxer::input::{InputFile, InputFiles, Occurrence};

fn occ<T>(value: T, index: usize) -> Occurrence<T> {
    Occurrence { value, index }
}

fn s(v: &str) -> String {
    v.to_string()
}

fn bare(file: &str) -> InputFile {
    InputFile { file: s(file), name: None, language: None, timescale: None, framerate: None }
}

#[test]
fn modifiers_attach_by_position() {
    let files = vec![occ(s("f0"), 0), occ(s("f1"), 5), occ(s("f2"), 9)];
    let names = vec![occ(s("n3"), 3), occ(s("n7"), 7)];
    let languages = vec![occ(s("eng"), 11)];
    let r = InputFiles::from_occurrences(&files, &names, &languages, &vec![], &vec![]);
    assert_eq!(r.files.len(), 3);
    assert_eq!(r.files[0].name, Some(s("n3")));
    assert_eq!(r.files[1].name, Some(s("n7")));
    assert_eq!(r.files[2].name, None);
    assert_eq!(r.files[0].language, None);
    assert_eq!(r.files[1].language, None);
    assert_eq!(r.files[2].language, Some(s("eng")));
}

#[test]
fn language_after_second_file() {
    // --input-file a.h264 --input-file b.ec3 --language rus --output-file out.mp4
    let files = vec![occ(s("a.h264"), 1), occ(s("b.ec3"), 3)];
    let languages = vec![occ(s("rus"), 5)];
    let r = InputFiles::from_occurrences(&files, &vec![], &languages, &vec![], &vec![]);
    let mut b = bare("b.ec3");
    b.language = Some(s("rus"));
    assert_eq!(r.files, vec![bare("a.h264"), b]);
}

#[test]
fn modifier_before_first_file_goes_to_it() {
    let files = vec![occ(s("a"), 2), occ(s("b"), 4)];
    let timescales = vec![occ(48000u32, 0)];
    let r = InputFiles::from_occurrences(&files, &vec![], &vec![], &timescales, &vec![]);
    assert_eq!(r.files[0].timescale, Some(48000));
    assert_eq!(r.files[1].timescale, None);
}

#[test]
fn last_of_several_in_one_span_wins() {
    let files = vec![occ(s("a"), 0), occ(s("b"), 6)];
    let framerates = vec![occ((24u32, 1u32), 2), occ((25u32, 1u32), 4), occ((30u32, 1u32), 8)];
    let r = InputFiles::from_occurrences(&files, &vec![], &vec![], &vec![], &framerates);
    assert_eq!(r.files[0].framerate, Some((25, 1)));
    assert_eq!(r.files[1].framerate, Some((30, 1)));
}

#[test]
fn all_four_kinds_and_file_order() {
    let files = vec![occ(s("v.h265"), 0), occ(s("a.ec3"), 4), occ(s("c.ac4"), 10)];
    let names = vec![occ(s("'Cool video'"), 1), occ(s("Dub"), 12)];
    let languages = vec![occ(s("rus"), 5), occ(s("eng"), 11)];
    let timescales = vec![occ(90000u32, 2)];
    let framerates = vec![occ((24000u32, 1001u32), 3)];
    let r = InputFiles::from_occurrences(&files, &names, &languages, &timescales, &framerates);
    let expected = vec![
        InputFile {
            file: s("v.h265"),
            name: Some(s("'Cool video'")),
            language: None,
            timescale: Some(90000),
            framerate: Some((24000, 1001)),
        },
        InputFile { file: s("a.ec3"), name: None, language: Some(s("rus")), timescale: None, framerate: None },
        InputFile { file: s("c.ac4"), name: Some(s("Dub")), language: Some(s("eng")), timescale: None, framerate: None },
    ];
    assert_eq!(r.files, expected);
}

#[test]
fn every_occurrence_is_assigned_once() {
    let files = vec![occ(s("a"), 0), occ(s("b"), 3), occ(s("c"), 6)];
    let names = vec![occ(s("x"), 1), occ(s("y"), 7)];
    let languages = vec![occ(s("rus"), 4), occ(s("eng"), 5 + 3)];
    let timescales = vec![occ(1000u32, 2), occ(2000u32, 5)];
    let r = InputFiles::from_occurrences(&files, &names, &languages, &timescales, &vec![]);
    let count: usize = r
        .files
        .iter()
        .map(|f| {
            f.name.is_some() as usize
                + f.language.is_some() as usize
                + f.timescale.is_some() as usize
                + f.framerate.is_some() as usize
        })
        .sum();
    assert_eq!(count, names.len() + languages.len() + timescales.len());
}

#[test]
fn no_files_gives_no_records() {
    let names = vec![occ(s("x"), 1)];
    let r = InputFiles::from_occurrences(&vec![], &names, &vec![], &vec![], &vec![]);
    assert!(r.files.is_empty());
}

#[test]
fn compound_token_gives_a_record() {
    let r = parse_input_file("audio.ac3,lang=rus,name=\"Dub, Blu-ray\",ts=48000").unwrap();
    assert_eq!(
        r,
        InputFile {
            file: s("audio.ac3"),
            name: Some(s("\"Dub, Blu-ray\"")),
            language: Some(s("rus")),
            timescale: Some(48000),
            framerate: None,
        }
    );
    let v = parse_input_file("video.hevc,fr=23.97").unwrap();
    assert_eq!(v.framerate, Some((23970, 1000)));
    assert_eq!(parse_input_file("video.hevc").unwrap(), bare("video.hevc"));
}

#[test]
fn both_input_styles_agree() {
    let compound = vec![
        parse_input_file("a.h264").unwrap(),
        parse_input_file("b.ec3,lang=rus").unwrap(),
    ];
    let files = vec![occ(s("a.h264"), 1), occ(s("b.ec3"), 3)];
    let languages = vec![occ(s("rus"), 5)];
    let positional = InputFiles::from_occurrences(&files, &vec![], &languages, &vec![], &vec![]);
    assert_eq!(positional.files, compound);
}

#[test]
fn compound_token_errors() {
    assert_eq!(parse_input_file(",lang=rus"), Err(InputFileError::MissingFile));
    assert_eq!(parse_input_file(""), Err(InputFileError::MissingFile));
    assert_eq!(parse_input_file("a,foo=1"), Err(InputFileError::UnknownOption));
    assert_eq!(parse_input_file("a,lang"), Err(InputFileError::MissingValue));
    assert_eq!(parse_input_file("a,lang=ru"), Err(InputFileError::InvalidLanguage));
    assert_eq!(parse_input_file("a,ts=x"), Err(InputFileError::InvalidTimescale));
    assert_eq!(
        parse_input_file("a,fr=abc"),
        Err(InputFileError::InvalidFramerate(FramerateError::InvalidValue))
    );
    assert_eq!(parse_input_file("a,lang=rus,lang=eng"), Err(InputFileError::RepeatedOption));
    assert_eq!(parse_input_file("a,"), Err(InputFileError::UnknownOption));
}

#[test]
fn value_may_hold_an_equals_sign() {
    let r = parse_input_file("a,name=x=y").unwrap();
    assert_eq!(r.name, Some(s("x=y")));
    let e = parse_input_file("a,name=").unwrap();
    assert_eq!(e.name, Some(s("")));
}

#[test]
fn inline_modifiers_fill_what_flags_left() {
    let files = vec![occ(s("v.hevc,fr=23.97,lang=eng"), 0), occ(s("b.ec3,lang=rus,name='Dub, Blu-ray'"), 3)];
    let languages = vec![occ(s("fra"), 1)];
    let r = InputFiles::from_occurrences(&files, &vec![], &languages, &vec![], &vec![]);
    let v = mp4muxer::compound::resolve_inline(r.files[0].clone()).unwrap();
    assert_eq!(
        v,
        InputFile {
            file: s("v.hevc"),
            name: None,
            language: Some(s("fra")),
            timescale: None,
            framerate: Some((23970, 1000)),
        }
    );
    let b = mp4muxer::compound::resolve_inline(r.files[1].clone()).unwrap();
    assert_eq!(b.file, s("b.ec3"));
    assert_eq!(b.language, Some(s("rus")));
    assert_eq!(b.name, Some(s("'Dub, Blu-ray'")));
}

#[test]
fn inline_errors_surface() {
    let bad = InputFile { file: s("a,lang=xx"), name: None, language: None, timescale: None, framerate: None };
    assert_eq!(mp4muxer::compound::resolve_inline(bad), Err(InputFileError::InvalidLanguage));
}
