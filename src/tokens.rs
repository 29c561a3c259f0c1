//! Compound input tokens such as `audio.ac3,lang=rus,name="Dub, Blu-ray"`:
//! splitting at the commas that stand outside quotes, and the media names and
//! language codes that they carry.
use vstd::prelude::*;
use vstd::string::*;
use crate::numeric::chars_of;

verus! {

/// Which quoted span, if any, the scan of a token is inside.
#[derive(Clone, Copy, Debug, PartialEq, Eq, Structural)]
pub enum QuoteState {
    Unquoted,
    InSingle,
    InDouble,
}

impl QuoteState {
    /// The state after reading `c`: a quote mark opens a span of its kind
    /// when none is open, and closes the span of its own kind; inside the
    /// other kind of span it is an ordinary character.
    pub open spec fn after(self, c: char) -> QuoteState {
        if c == '\'' {
            match self {
                QuoteState::Unquoted => QuoteState::InSingle,
                QuoteState::InSingle => QuoteState::Unquoted,
                QuoteState::InDouble => QuoteState::InDouble,
            }
        } else if c == '"' {
            match self {
                QuoteState::Unquoted => QuoteState::InDouble,
                QuoteState::InDouble => QuoteState::Unquoted,
                QuoteState::InSingle => QuoteState::InSingle,
            }
        } else {
            self
        }
    }

    /// The state after reading `c`.
    pub fn step(self, c: char) -> (r: QuoteState)
        ensures
            r == self.after(c),
    {
        if c == '\'' {
            match self {
                QuoteState::Unquoted => QuoteState::InSingle,
                QuoteState::InSingle => QuoteState::Unquoted,
                QuoteState::InDouble => QuoteState::InDouble,
            }
        } else if c == '"' {
            match self {
                QuoteState::Unquoted => QuoteState::InDouble,
                QuoteState::InDouble => QuoteState::Unquoted,
                QuoteState::InSingle => QuoteState::InSingle,
            }
        } else {
            self
        }
    }
}

/// The state after reading all of `s` from the start.
pub open spec fn state_after(s: Seq<char>) -> QuoteState
    decreases s.len(),
{
    if s.len() == 0 {
        QuoteState::Unquoted
    } else {
        state_after(s.drop_last()).after(s.last())
    }
}

/// Whether the character at `k` is a comma outside any quoted span.
pub open spec fn is_separator(s: Seq<char>, k: int) -> bool {
    s[k] == ',' && state_after(s.take(k)) == QuoteState::Unquoted
}

/// The pieces of `s` between its separators, in order (one empty piece for
/// an empty `s`). A quote that is never closed keeps every later comma in
/// its piece.
pub open spec fn split_words(s: Seq<char>) -> Seq<Seq<char>>
    decreases s.len(),
{
    if s.len() == 0 {
        seq![Seq::empty()]
    } else {
        let w = split_words(s.drop_last());
        if is_separator(s, s.len() - 1) {
            w.push(Seq::empty())
        } else {
            w.update(w.len() - 1, w.last().push(s.last()))
        }
    }
}

/// There is always one piece at least.
pub proof fn lemma_split_words_len(s: Seq<char>)
    ensures
        split_words(s).len() >= 1,
    decreases s.len(),
{
    if s.len() > 0 {
        lemma_split_words_len(s.drop_last());
    }
}

/// Whether each pair of `bounds` marks where the word of the same rank in
/// `words` stands in `v`.
pub open spec fn bounds_of_words(
    v: Seq<char>,
    bounds: Seq<(usize, usize)>,
    words: Seq<Seq<char>>,
) -> bool {
    forall|k: int|
        0 <= k < bounds.len() ==> {
            &&& (#[trigger] bounds[k]).0 <= bounds[k].1 <= v.len()
            &&& v.subrange(bounds[k].0 as int, bounds[k].1 as int) == words[k]
        }
}

/// Where each piece of `v` starts and ends.
pub fn word_bounds(v: &Vec<char>) -> (r: Vec<(usize, usize)>)
    ensures
        r.len() == split_words(v@).len(),
        bounds_of_words(v@, r@, split_words(v@)),
{
    let mut r: Vec<(usize, usize)> = Vec::new();
    let mut state = QuoteState::Unquoted;
    let mut start: usize = 0;
    let mut i: usize = 0;
    assert(v@.take(0) =~= Seq::<char>::empty());
    while i < v.len()
        invariant
            0 <= start <= i <= v.len(),
            state == state_after(v@.take(i as int)),
            r.len() + 1 == split_words(v@.take(i as int)).len(),
            split_words(v@.take(i as int)).last() == v@.subrange(start as int, i as int),
            bounds_of_words(v@, r@, split_words(v@.take(i as int))),
        decreases v.len() - i,
    {
        let ghost p = v@.take(i as int);
        let ghost q = v@.take(i + 1);
        assert(q.drop_last() =~= p);
        assert(q.take(i as int) =~= p);
        assert(q.last() == v@[i as int]);
        proof {
            lemma_split_words_len(p);
        }
        let c = v[i];
        if c == ',' && state == QuoteState::Unquoted {
            assert(is_separator(q, i as int));
            assert(split_words(q) == split_words(p).push(Seq::empty()));
            let ghost r0 = r@;
            r.push((start, i));
            assert forall|k: int| 0 <= k < r.len() implies #[trigger] r@[k].0 <= r@[k].1 <= v.len()
                && v@.subrange(r@[k].0 as int, r@[k].1 as int) == split_words(q)[k] by {
                if k < r.len() - 1 {
                    assert(r@[k] == r0[k]);
                    assert(split_words(q)[k] == split_words(p)[k]);
                } else {
                    assert(split_words(q)[k] == split_words(p).last());
                }
            }
            start = i + 1;
            assert(v@.subrange(start as int, (i + 1) as int) =~= Seq::<char>::empty());
        } else {
            assert(!is_separator(q, i as int));
            assert(split_words(q) == split_words(p).update(
                split_words(p).len() - 1,
                split_words(p).last().push(c),
            ));
            assert forall|k: int| 0 <= k < r.len() implies #[trigger] r@[k].0 <= r@[k].1 <= v.len()
                && v@.subrange(r@[k].0 as int, r@[k].1 as int) == split_words(q)[k] by {
                assert(split_words(q)[k] == split_words(p)[k]);
            }
            assert(v@.subrange(start as int, (i + 1) as int) =~= v@.subrange(
                start as int,
                i as int,
            ).push(c));
        }
        state = state.step(c);
        i = i + 1;
    }
    assert(v@.take(v.len() as int) =~= v@);
    let ghost r0 = r@;
    r.push((start, v.len()));
    assert forall|k: int| 0 <= k < r.len() implies #[trigger] r@[k].0 <= r@[k].1 <= v.len()
        && v@.subrange(r@[k].0 as int, r@[k].1 as int) == split_words(v@)[k] by {
        if k < r.len() - 1 {
            assert(r@[k] == r0[k]);
        }
    }
    r
}

/// The pieces of `s` between the commas that stand outside quotes.
pub fn split_token(s: &str) -> (r: Vec<String>)
    ensures
        r.len() == split_words(s@).len(),
        forall|k: int| 0 <= k < r.len() ==> r[k]@ == split_words(s@)[k],
{
    let v = chars_of(s);
    let bounds = word_bounds(&v);
    let mut r: Vec<String> = Vec::new();
    let mut k: usize = 0;
    while k < bounds.len()
        invariant
            v@ == s@,
            bounds.len() == split_words(v@).len(),
            bounds_of_words(v@, bounds@, split_words(v@)),
            k <= bounds.len(),
            r.len() == k,
            forall|j: int| 0 <= j < k ==> r[j]@ == split_words(s@)[j],
        decreases bounds.len() - k,
    {
        let (a, b) = bounds[k];
        assert(bounds@[k as int].0 <= bounds@[k as int].1 <= v.len());
        r.push(s.substring_char(a, b).to_owned());
        k = k + 1;
    }
    r
}

/// The arguments that a compound token stands for: its first piece as it is,
/// each later piece as a long option (`lang=rus` becomes `--lang=rus`).
pub fn to_clap_args(string: &str) -> (r: Vec<String>)
    ensures
        r.len() == split_words(string@).len(),
        r[0]@ == split_words(string@)[0],
        forall|k: int| 1 <= k < r.len() ==> r[k]@ == "--"@ + split_words(string@)[k],
{
    proof {
        lemma_split_words_len(string@);
    }
    let words = split_token(string);
    let mut r: Vec<String> = Vec::new();
    let mut k: usize = 0;
    while k < words.len()
        invariant
            words.len() == split_words(string@).len(),
            forall|j: int| 0 <= j < words.len() ==> words[j]@ == split_words(string@)[j],
            k <= words.len(),
            r.len() == k,
            k > 0 ==> r[0]@ == split_words(string@)[0],
            forall|j: int| 1 <= j < k ==> r[j]@ == "--"@ + split_words(string@)[j],
        decreases words.len() - k,
    {
        if k == 0 {
            r.push(words[k].clone());
        } else {
            r.push("--".to_owned().concat(words[k].as_str()));
        }
        k = k + 1;
    }
    r
}

/// Whether `c` has the Unicode White_Space property, which these 25 code
/// points have.
pub open spec fn white_space(c: char) -> bool {
    let u = c as u32;
    ||| 0x9 <= u <= 0xd
    ||| u == 0x20
    ||| u == 0x85
    ||| u == 0xa0
    ||| u == 0x1680
    ||| 0x2000 <= u <= 0x200a
    ||| u == 0x2028
    ||| u == 0x2029
    ||| u == 0x202f
    ||| u == 0x205f
    ||| u == 0x3000
}

/// Whether `c` has the Unicode White_Space property.
pub fn is_white_space(c: char) -> (r: bool)
    ensures
        r == white_space(c),
{
    let u = c as u32;
    (0x9 <= u && u <= 0xd) || u == 0x20 || u == 0x85 || u == 0xa0 || u == 0x1680 || (0x2000 <= u
        && u <= 0x200a) || u == 0x2028 || u == 0x2029 || u == 0x202f || u == 0x205f || u == 0x3000
}

/// `s` without the white space at its start.
pub open spec fn trim_start(s: Seq<char>) -> Seq<char>
    decreases s.len(),
{
    if s.len() > 0 && white_space(s[0]) {
        trim_start(s.drop_first())
    } else {
        s
    }
}

/// `s` without the white space at its end.
pub open spec fn trim_end(s: Seq<char>) -> Seq<char>
    decreases s.len(),
{
    if s.len() > 0 && white_space(s.last()) {
        trim_end(s.drop_last())
    } else {
        s
    }
}

/// Whether `s` starts and ends with the same quote mark, two characters at least.
pub open spec fn quoted(s: Seq<char>) -> bool {
    &&& s.len() >= 2
    &&& (s[0] == '"' && s.last() == '"') || (s[0] == '\'' && s.last() == '\'')
}

/// `s` with its enclosing pairs of matching quotes removed, layer after layer.
pub open spec fn strip_quotes(s: Seq<char>) -> Seq<char>
    decreases s.len(),
{
    if quoted(s) {
        strip_quotes(s.subrange(1, s.len() - 1))
    } else {
        s
    }
}

/// A media name as it is handed on: white space trimmed from both ends,
/// then every layer of enclosing matching quotes removed.
pub open spec fn normalized(s: Seq<char>) -> Seq<char> {
    strip_quotes(trim_end(trim_start(s)))
}

/// `s` with every layer of enclosing matching quotes removed; what lies
/// inside, commas included, is kept.
pub fn strip_media_quotes(s: &str) -> (r: &str)
    ensures
        r@ == strip_quotes(s@),
{
    let v = chars_of(s);
    let mut a: usize = 0;
    let mut b: usize = v.len();
    let ghost target = strip_quotes(s@);
    assert(v@.subrange(0, b as int) =~= v@);
    while b - a >= 2 && ((v[a] == '"' && v[b - 1] == '"') || (v[a] == '\'' && v[b - 1] == '\''))
        invariant
            a <= b <= v.len(),
            target == strip_quotes(v@.subrange(a as int, b as int)),
        decreases b - a,
    {
        let ghost w = v@.subrange(a as int, b as int);
        assert(quoted(w));
        assert(w.subrange(1, w.len() - 1) =~= v@.subrange(a + 1, b - 1));
        a = a + 1;
        b = b - 1;
    }
    assert(!quoted(v@.subrange(a as int, b as int)));
    s.substring_char(a, b)
}

/// `s` without white space at either end.
pub fn trim_white_space(s: &str) -> (r: &str)
    ensures
        r@ == trim_end(trim_start(s@)),
{
    let v = chars_of(s);
    let n = v.len();
    let mut a: usize = 0;
    assert(v@.subrange(0, n as int) =~= v@);
    while a < n && is_white_space(v[a])
        invariant
            a <= n == v.len(),
            trim_start(v@) == trim_start(v@.subrange(a as int, n as int)),
        decreases n - a,
    {
        assert(v@.subrange(a as int, n as int).drop_first() =~= v@.subrange(a + 1, n as int));
        a = a + 1;
    }
    let mut b: usize = n;
    assert(trim_start(v@) == v@.subrange(a as int, n as int));
    while b > a && is_white_space(v[b - 1])
        invariant
            a <= b <= n == v.len(),
            trim_end(trim_start(v@)) == trim_end(v@.subrange(a as int, b as int)),
        decreases b - a,
    {
        assert(v@.subrange(a as int, b as int).drop_last() =~= v@.subrange(a as int, b - 1));
        b = b - 1;
    }
    s.substring_char(a, b)
}

/// The media name `s` with surrounding white space and every layer of
/// enclosing matching quotes removed; what lies inside, commas included,
/// is kept.
pub fn normalize_media_name(s: &str) -> (r: &str)
    ensures
        r@ == normalized(s@),
{
    strip_media_quotes(trim_white_space(s))
}

/// Removing quotes a second time changes nothing.
pub proof fn lemma_strip_quotes_idempotent(s: Seq<char>)
    ensures
        strip_quotes(strip_quotes(s)) == strip_quotes(s),
        !quoted(strip_quotes(s)),
    decreases s.len(),
{
    if quoted(s) {
        lemma_strip_quotes_idempotent(s.subrange(1, s.len() - 1));
    }
}

/// A name without white space at its ends and without enclosing matching
/// quotes is handed on unchanged.
pub proof fn lemma_plain_name_unchanged(s: Seq<char>)
    requires
        s.len() > 0 ==> !white_space(s[0]) && !white_space(s.last()),
        !quoted(s),
    ensures
        normalized(s) == s,
{
}

/// Whether `v` is a language code of the required length: three characters.
pub fn media_lang_validator(v: &str) -> (r: Result<(), String>)
    ensures
        r is Ok <==> v@.len() == 3,
        r matches Err(m) ==> m@ == "must be 3 characters long e.g. 'eng'"@,
{
    if v.unicode_len() == 3 {
        Ok(())
    } else {
        Err("must be 3 characters long e.g. 'eng'".to_owned())
    }
}

} // verus!
