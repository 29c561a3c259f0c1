//! The compound input token: a file followed by comma-separated `key=value`
//! modifiers, as in `audio.ac3,lang=rus,name="Dub, Blu-ray"`.
use vstd::prelude::*;
use vstd::string::*;
use crate::framerate::{framerate_of, parse_framerate, FramerateError};
use crate::input::{InputFile, InputFileView};
use crate::numeric::{chars_of, find_char, parse_u32_range, position_of, range_is, u32_of};
use crate::tokens::{bounds_of_words, lemma_split_words_len, split_words, word_bounds};

verus! {

/// Why a compound input token was refused.
#[derive(Clone, Copy, Debug, PartialEq, Eq, Structural)]
pub enum InputFileError {
    /// The token names no file.
    MissingFile,
    /// A modifier's key is none of `lang`, `name`, `ts`, `fr`.
    UnknownOption,
    /// A modifier has no `=` and no value.
    MissingValue,
    /// A modifier is given twice.
    RepeatedOption,
    /// The language code is not three characters long.
    InvalidLanguage,
    /// The timescale is no unsigned integer.
    InvalidTimescale,
    /// The framerate literal was refused, for this reason.
    InvalidFramerate(FramerateError),
}

/// The key of a modifier: what comes before its first `=`, or all of it.
pub open spec fn option_key(w: Seq<char>) -> Seq<char> {
    w.take(position_of(w, '=') as int)
}

/// The value of a modifier: what comes after its first `=`.
pub open spec fn option_value(w: Seq<char>) -> Seq<char> {
    w.skip(position_of(w, '=') + 1int)
}

/// Whether the modifier has an `=`.
pub open spec fn has_value(w: Seq<char>) -> bool {
    position_of(w, '=') < w.len()
}

/// The record after the modifier `w` is applied to `acc`.
pub open spec fn apply_option(w: Seq<char>, acc: InputFileView) -> Result<
    InputFileView,
    InputFileError,
> {
    let key = option_key(w);
    let val = option_value(w);
    if key == "lang"@ {
        if !has_value(w) {
            Err(InputFileError::MissingValue)
        } else if acc.language is Some {
            Err(InputFileError::RepeatedOption)
        } else if val.len() != 3 {
            Err(InputFileError::InvalidLanguage)
        } else {
            Ok(InputFileView { language: Some(val), ..acc })
        }
    } else if key == "name"@ {
        if !has_value(w) {
            Err(InputFileError::MissingValue)
        } else if acc.name is Some {
            Err(InputFileError::RepeatedOption)
        } else {
            Ok(InputFileView { name: Some(val), ..acc })
        }
    } else if key == "ts"@ {
        if !has_value(w) {
            Err(InputFileError::MissingValue)
        } else if acc.timescale is Some {
            Err(InputFileError::RepeatedOption)
        } else {
            match u32_of(val) {
                Some(t) => Ok(InputFileView { timescale: Some(t), ..acc }),
                None => Err(InputFileError::InvalidTimescale),
            }
        }
    } else if key == "fr"@ {
        if !has_value(w) {
            Err(InputFileError::MissingValue)
        } else if acc.framerate is Some {
            Err(InputFileError::RepeatedOption)
        } else {
            match framerate_of(val) {
                Ok(f) => Ok(InputFileView { framerate: Some(f), ..acc }),
                Err(e) => Err(InputFileError::InvalidFramerate(e)),
            }
        }
    } else {
        Err(InputFileError::UnknownOption)
    }
}

/// The record after the modifiers `words` are applied to `acc` in order,
/// or the first refusal.
pub open spec fn apply_options(words: Seq<Seq<char>>, acc: InputFileView) -> Result<
    InputFileView,
    InputFileError,
>
    decreases words.len(),
{
    if words.len() == 0 {
        Ok(acc)
    } else {
        match apply_option(words[0], acc) {
            Ok(a) => apply_options(words.drop_first(), a),
            Err(e) => Err(e),
        }
    }
}

/// The record that the compound token `s` describes: its first piece is the
/// file, each later piece a modifier.
pub open spec fn input_file_of(s: Seq<char>) -> Result<InputFileView, InputFileError> {
    let words = split_words(s);
    if words[0].len() == 0 {
        Err(InputFileError::MissingFile)
    } else {
        apply_options(
            words.drop_first(),
            InputFileView {
                file: words[0],
                name: None,
                language: None,
                timescale: None,
                framerate: None,
            },
        )
    }
}

/// Applies the modifier that stands in `token` at `v[a..b]` to `acc`.
fn apply_modifier(token: &str, v: &Vec<char>, a: usize, b: usize, acc: InputFile) -> (r: Result<
    InputFile,
    InputFileError,
>)
    requires
        v@ == token@,
        a <= b <= v.len(),
    ensures
        match r {
            Ok(f) => apply_option(v@.subrange(a as int, b as int), acc@) == Ok::<
                InputFileView,
                InputFileError,
            >(f@),
            Err(e) => apply_option(v@.subrange(a as int, b as int), acc@) == Err::<
                InputFileView,
                InputFileError,
            >(e),
        },
{
    let ghost w = v@.subrange(a as int, b as int);
    let e = find_char(v, a, b, '=');
    assert(option_key(w) =~= v@.subrange(a as int, e as int));
    let with_value = e < b;
    let vs = if with_value {
        e + 1
    } else {
        b
    };
    assert(with_value ==> option_value(w) =~= v@.subrange(vs as int, b as int));
    let mut acc = acc;
    if range_is(v, a, e, "lang") {
        if !with_value {
            Err(InputFileError::MissingValue)
        } else if acc.language.is_some() {
            Err(InputFileError::RepeatedOption)
        } else if b - vs != 3 {
            Err(InputFileError::InvalidLanguage)
        } else {
            acc.language = Some(token.substring_char(vs, b).to_owned());
            Ok(acc)
        }
    } else if range_is(v, a, e, "name") {
        if !with_value {
            Err(InputFileError::MissingValue)
        } else if acc.name.is_some() {
            Err(InputFileError::RepeatedOption)
        } else {
            acc.name = Some(token.substring_char(vs, b).to_owned());
            Ok(acc)
        }
    } else if range_is(v, a, e, "ts") {
        if !with_value {
            Err(InputFileError::MissingValue)
        } else if acc.timescale.is_some() {
            Err(InputFileError::RepeatedOption)
        } else {
            match parse_u32_range(v, vs, b) {
                Some(t) => {
                    acc.timescale = Some(t);
                    Ok(acc)
                },
                None => Err(InputFileError::InvalidTimescale),
            }
        }
    } else if range_is(v, a, e, "fr") {
        if !with_value {
            Err(InputFileError::MissingValue)
        } else if acc.framerate.is_some() {
            Err(InputFileError::RepeatedOption)
        } else {
            match parse_framerate(token.substring_char(vs, b)) {
                Ok(f) => {
                    acc.framerate = Some(f);
                    Ok(acc)
                },
                Err(x) => Err(InputFileError::InvalidFramerate(x)),
            }
        }
    } else {
        Err(InputFileError::UnknownOption)
    }
}

/// The record that a compound input token describes, as in
/// `audio.ac3,lang=rus,name="Dub, Blu-ray"`: commas inside quotes belong to
/// the value, each modifier may be given once, and the language must be
/// three characters long.
pub fn parse_input_file(token: &str) -> (r: Result<InputFile, InputFileError>)
    ensures
        match r {
            Ok(f) => input_file_of(token@) == Ok::<InputFileView, InputFileError>(f@),
            Err(e) => input_file_of(token@) == Err::<InputFileView, InputFileError>(e),
        },
{
    let v = chars_of(token);
    let bounds = word_bounds(&v);
    let ghost words = split_words(v@);
    proof {
        lemma_split_words_len(v@);
    }
    let (a0, b0) = bounds[0];
    assert(bounds@[0] == bounds[0]);
    if a0 == b0 {
        return Err(InputFileError::MissingFile);
    }
    let mut acc = InputFile {
        file: token.substring_char(a0, b0).to_owned(),
        name: None,
        language: None,
        timescale: None,
        framerate: None,
    };
    let mut k: usize = 1;
    while k < bounds.len()
        invariant
            v@ == token@,
            words == split_words(v@),
            bounds.len() == words.len(),
            bounds_of_words(v@, bounds@, words),
            1 <= k <= bounds.len(),
            input_file_of(token@) == apply_options(words.skip(k as int), acc@),
        decreases bounds.len() - k,
    {
        let (a, b) = bounds[k];
        assert(bounds@[k as int] == bounds[k as int]);
        assert(words.skip(k as int)[0] == words[k as int]);
        assert(words.skip(k as int).drop_first() =~= words.skip(k + 1));
        match apply_modifier(token, &v, a, b, acc) {
            Ok(next) => {
                acc = next;
            },
            Err(e) => {
                return Err(e);
            },
        }
        k = k + 1;
    }
    assert(words.skip(k as int).len() == 0);
    Ok(acc)
}

/// The value that a separate flag gave, or else the inline one.
pub open spec fn flag_or_inline<T>(flag: Option<T>, inline: Option<T>) -> Option<T> {
    if flag is Some {
        flag
    } else {
        inline
    }
}

/// The record when its file field is read as a compound token: the file is
/// the token's first piece, and its inline modifiers fill in what the
/// separate flags left unset.
pub open spec fn resolved(rec: InputFileView, c: InputFileView) -> InputFileView {
    InputFileView {
        file: c.file,
        name: flag_or_inline(rec.name, c.name),
        language: flag_or_inline(rec.language, c.language),
        timescale: flag_or_inline(rec.timescale, c.timescale),
        framerate: flag_or_inline(rec.framerate, c.framerate),
    }
}

/// Reads the file field of `rec` as a compound token, so that both ways of
/// giving modifiers can be mixed: `-i b.ec3,lang=rus` and
/// `-i b.ec3 -l rus` give the same record. Where both give a modifier of
/// one kind, the separate flag wins.
pub fn resolve_inline(rec: InputFile) -> (r: Result<InputFile, InputFileError>)
    ensures
        match input_file_of(rec.file@) {
            Ok(c) => r matches Ok(f) && f@ == resolved(rec@, c),
            Err(e) => r == Err::<InputFile, InputFileError>(e),
        },
{
    let c = match parse_input_file(rec.file.as_str()) {
        Ok(c) => c,
        Err(e) => {
            return Err(e);
        },
    };
    let InputFile { file: _, name, language, timescale, framerate } = rec;
    Ok(
        InputFile {
            file: c.file,
            name: if name.is_some() {
                name
            } else {
                c.name
            },
            language: if language.is_some() {
                language
            } else {
                c.language
            },
            timescale: if timescale.is_some() {
                timescale
            } else {
                c.timescale
            },
            framerate: if framerate.is_some() {
                framerate
            } else {
                c.framerate
            },
        },
    )
}

} // verus!
