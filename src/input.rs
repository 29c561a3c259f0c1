//! Per-file input records, and the positional correlation that rebuilds them
//! from independently repeated flags.
use vstd::prelude::*;

verus! {

/// One occurrence of a repeated flag: its value, and the position of the
/// occurrence among the command-line tokens.
#[derive(Clone, Copy, Debug, PartialEq, Eq)]
pub struct Occurrence<T> {
    pub value: T,
    pub index: usize,
}

/// One input file and the modifiers that apply to it.
#[derive(Clone, Debug, PartialEq, Eq)]
pub struct InputFile {
    pub file: String,
    pub name: Option<String>,
    pub language: Option<String>,
    pub timescale: Option<u32>,
    pub framerate: Option<(u32, u32)>,
}

/// An input record with its strings seen as character sequences.
pub struct InputFileView {
    pub file: Seq<char>,
    pub name: Option<Seq<char>>,
    pub language: Option<Seq<char>>,
    pub timescale: Option<u32>,
    pub framerate: Option<(u32, u32)>,
}

/// The characters of an optional string.
pub open spec fn opt_view(s: Option<String>) -> Option<Seq<char>> {
    match s {
        Some(t) => Some(t@),
        None => None,
    }
}

impl View for InputFile {
    type V = InputFileView;

    open spec fn view(&self) -> InputFileView {
        InputFileView {
            file: self.file@,
            name: opt_view(self.name),
            language: opt_view(self.language),
            timescale: self.timescale,
            framerate: self.framerate,
        }
    }
}

/// The input files in command-line order, which is their track order.
#[derive(Clone, Debug, PartialEq, Eq)]
pub struct InputFiles {
    pub files: Vec<InputFile>,
}

/// The positions of a sequence of occurrences.
pub open spec fn positions<T>(q: Seq<Occurrence<T>>) -> Seq<usize> {
    q.map_values(|o: Occurrence<T>| o.index)
}

/// Whether the positions never decrease.
pub open spec fn ordered(p: Seq<usize>) -> bool {
    forall|i: int, j: int| 0 <= i < j < p.len() ==> p[i] <= p[j]
}

/// Whether position `p` lies in the span of the `i`-th file, given the
/// positions of all files: not before the file itself (the first file's span
/// has no lower end) and before the next file (the last file's span has no
/// upper end).
pub open spec fn in_span(files: Seq<usize>, i: int, p: usize) -> bool {
    &&& i == 0 || files[i] <= p
    &&& i + 1 >= files.len() || p < files[i + 1]
}

/// The value of the last occurrence in `q` that lies in the span of the
/// `i`-th file, if any.
pub open spec fn last_in_span<T>(files: Seq<usize>, i: int, q: Seq<Occurrence<T>>) -> Option<T>
    decreases q.len(),
{
    if q.len() == 0 {
        None
    } else if in_span(files, i, q.last().index) {
        Some(q.last().value)
    } else {
        last_in_span(files, i, q.drop_last())
    }
}

/// What each file receives from `q`, file by file.
pub open spec fn attached<T>(files: Seq<usize>, q: Seq<Occurrence<T>>) -> Seq<Option<T>> {
    Seq::new(files.len(), |i: int| last_in_span(files, i, q))
}

/// The records that the correlation builds: one per file occurrence, in
/// order, each with the last modifier of each kind that lies in its span.
pub open spec fn correlated(
    files: Seq<Occurrence<String>>,
    names: Seq<Occurrence<String>>,
    languages: Seq<Occurrence<String>>,
    timescales: Seq<Occurrence<u32>>,
    framerates: Seq<Occurrence<(u32, u32)>>,
) -> Seq<InputFile> {
    let f = positions(files);
    Seq::new(
        files.len(),
        |i: int|
            InputFile {
                file: files[i].value,
                name: last_in_span(f, i, names),
                language: last_in_span(f, i, languages),
                timescale: last_in_span(f, i, timescales),
                framerate: last_in_span(f, i, framerates),
            },
    )
}

/// Where a cursor into `q` stands when the `i`-th file comes up: the first
/// file starts at the front, and every later one just past the occurrences
/// that lie before its own position.
pub open spec fn cursor_at<T>(files: Seq<usize>, i: int, q: Seq<Occurrence<T>>, c: int) -> bool {
    &&& 0 <= c <= q.len()
    &&& i == 0 ==> c == 0
    &&& i > 0 ==> forall|j: int| 0 <= j < c ==> (#[trigger] q[j]).index < files[i]
    &&& i > 0 ==> forall|j: int| c <= j < q.len() ==> (#[trigger] q[j]).index >= files[i]
}

/// When exactly the occurrences of `q[c..e]` lie in the span of file `i`,
/// the last of them is what the file receives.
proof fn lemma_last_in_span<T>(files: Seq<usize>, i: int, q: Seq<Occurrence<T>>, c: int, e: int)
    requires
        0 <= c <= e <= q.len(),
        forall|j: int| c <= j < e ==> in_span(files, i, (#[trigger] q[j]).index),
        forall|j: int|
            0 <= j < q.len() && !(c <= j < e) ==> !in_span(files, i, (#[trigger] q[j]).index),
    ensures
        last_in_span(files, i, q) == if e > c {
            Some(q[e - 1].value)
        } else {
            None::<T>
        },
    decreases q.len(),
{
    if q.len() > 0 {
        let p = q.drop_last();
        assert(forall|j: int| 0 <= j < p.len() ==> p[j] == q[j]);
        if q.len() > e {
            lemma_last_in_span(files, i, p, c, e);
        } else if e > c {
        } else {
            lemma_last_in_span(files, i, p, q.len() - 1, q.len() - 1);
        }
    }
}

/// Whether position `p` comes before `bound`; every position comes before
/// no bound at all.
fn below(p: usize, bound: Option<usize>) -> (r: bool)
    ensures
        r == (bound is None || p < bound->0),
{
    match bound {
        Some(b) => p < b,
        None => true,
    }
}

/// Moves a cursor over the occurrences of `q` that lie in the span of the
/// `i`-th file, whose upper end is `bound` (none for the last file).
fn take_span<T>(
    Ghost(files): Ghost<Seq<usize>>,
    i: usize,
    q: &Vec<Occurrence<T>>,
    c: usize,
    bound: Option<usize>,
) -> (e: usize)
    requires
        i < files.len(),
        ordered(files),
        ordered(positions(q@)),
        cursor_at(files, i as int, q@, c as int),
        bound == if i + 1 < files.len() {
            Some(files[i + 1])
        } else {
            None::<usize>
        },
    ensures
        c <= e <= q.len(),
        last_in_span(files, i as int, q@) == if e > c {
            Some(q@[e - 1].value)
        } else {
            None::<T>
        },
        i + 1 < files.len() ==> cursor_at(files, i + 1, q@, e as int),
{
    let mut e = c;
    while e < q.len() && below(q[e].index, bound)
        invariant
            c <= e <= q.len(),
            forall|j: int|
                c <= j < e ==> (bound is None || (#[trigger] q@[j]).index < bound->0),
        decreases q.len() - e,
    {
        e = e + 1;
    }
    proof {
        assert forall|j: int| 0 <= j < q.len() implies positions(q@)[j] == (#[trigger] q@[j]).index by {
        }
        assert forall|j: int| e <= j < q.len() implies (#[trigger] q@[j]).index >= bound->0 by {
            assert(positions(q@)[e as int] <= positions(q@)[j]);
        }
        assert forall|j: int| c <= j < e implies in_span(files, i as int, (#[trigger] q@[j]).index) by {
        }
        assert forall|j: int|
            0 <= j < q.len() && !(c <= j < e) implies !in_span(files, i as int, (#[trigger] q@[j]).index) by {
        }
        lemma_last_in_span(files, i as int, q@, c as int, e as int);
        if i + 1 < files.len() {
            assert forall|j: int| 0 <= j < e implies (#[trigger] q@[j]).index < files[i + 1] by {
                if j < c {
                    assert(files[i as int] <= files[i + 1]);
                }
            }
        }
    }
    e
}

/// The number of present values in `s`.
pub open spec fn count_some<T>(s: Seq<Option<T>>) -> nat
    decreases s.len(),
{
    if s.len() == 0 {
        0
    } else {
        count_some(s.drop_last()) + if s.last() is Some {
            1nat
        } else {
            0nat
        }
    }
}

/// How many modifiers, of all kinds together, the records carry.
pub open spec fn assigned_count(records: Seq<InputFile>) -> nat {
    count_some(records.map_values(|r: InputFile| r.name)) + count_some(
        records.map_values(|r: InputFile| r.language),
    ) + count_some(records.map_values(|r: InputFile| r.timescale)) + count_some(
        records.map_values(|r: InputFile| r.framerate),
    )
}

/// Whether no span holds two occurrences of `q`.
pub open spec fn one_per_span<T>(files: Seq<usize>, q: Seq<Occurrence<T>>) -> bool {
    forall|i: int, j: int, k: int|
        #![trigger in_span(files, i, q[j].index), in_span(files, i, q[k].index)]
        0 <= i < files.len() && 0 <= j < q.len() && 0 <= k < q.len() && in_span(
            files,
            i,
            q[j].index,
        ) && in_span(files, i, q[k].index) ==> j == k
}

proof fn lemma_span_from(files: Seq<usize>, p: usize, m: int)
    requires
        0 <= m < files.len(),
        ordered(files),
        m == 0 || files[m] <= p,
    ensures
        exists|i: int| 0 <= i < files.len() && in_span(files, i, p),
    decreases files.len() - m,
{
    if !in_span(files, m, p) {
        lemma_span_from(files, p, m + 1);
    }
}

/// Every position lies in the span of exactly one file, so that each
/// modifier occurrence is consumed by exactly one record.
pub proof fn lemma_one_span(files: Seq<usize>, p: usize)
    requires
        files.len() > 0,
        ordered(files),
    ensures
        exists|i: int| 0 <= i < files.len() && in_span(files, i, p),
        forall|i: int, k: int|
            0 <= i < files.len() && 0 <= k < files.len() && in_span(files, i, p) && in_span(
                files,
                k,
                p,
            ) ==> i == k,
{
    lemma_span_from(files, p, 0);
    assert forall|i: int, k: int|
        0 <= i < files.len() && 0 <= k < files.len() && in_span(files, i, p) && in_span(
            files,
            k,
            p,
        ) implies i == k by {
        if i < k {
            assert(files[i + 1] <= files[k]);
        } else if k < i {
            assert(files[k + 1] <= files[i]);
        }
    }
}

proof fn lemma_count_some_none<T>(s: Seq<Option<T>>)
    requires
        forall|i: int| 0 <= i < s.len() ==> s[i] is None,
    ensures
        count_some(s) == 0,
    decreases s.len(),
{
    if s.len() > 0 {
        lemma_count_some_none(s.drop_last());
    }
}

proof fn lemma_count_some_update<T>(s: Seq<Option<T>>, k: int, x: T)
    requires
        0 <= k < s.len(),
        s[k] is None,
    ensures
        count_some(s.update(k, Some(x))) == count_some(s) + 1,
    decreases s.len(),
{
    if k == s.len() - 1 {
        assert(s.update(k, Some(x)).drop_last() =~= s.drop_last());
    } else {
        lemma_count_some_update(s.drop_last(), k, x);
        assert(s.update(k, Some(x)).drop_last() =~= s.drop_last().update(k, Some(x)));
    }
}

/// When no span holds two occurrences of `q`, the files receive every
/// occurrence: as many files receive a value as there are occurrences.
pub proof fn lemma_all_attached<T>(files: Seq<usize>, q: Seq<Occurrence<T>>)
    requires
        files.len() > 0,
        ordered(files),
        one_per_span(files, q),
    ensures
        count_some(attached(files, q)) == q.len(),
    decreases q.len(),
{
    if q.len() == 0 {
        lemma_count_some_none(attached(files, q));
    } else {
        let p = q.drop_last();
        let n = q.len() - 1;
        assert forall|i: int, j: int, k: int|
            #![trigger in_span(files, i, p[j].index), in_span(files, i, p[k].index)]
            0 <= i < files.len() && 0 <= j < p.len() && 0 <= k < p.len() && in_span(
                files,
                i,
                p[j].index,
            ) && in_span(files, i, p[k].index) implies j == k by {
            assert(p[j] == q[j] && p[k] == q[k]);
        }
        lemma_all_attached(files, p);
        lemma_one_span(files, q[n].index);
        let i0 = choose|i: int| 0 <= i < files.len() && in_span(files, i, q[n].index);
        assert forall|j: int|
            0 <= j < p.len() && !(0 <= j < 0) implies !in_span(files, i0, (#[trigger] p[j]).index) by {
            assert(p[j] == q[j]);
        }
        lemma_last_in_span(files, i0, p, 0, 0);
        assert(attached(files, q) =~= attached(files, p).update(i0, Some(q[n].value)));
        lemma_count_some_update(attached(files, p), i0, q[n].value);
    }
}

/// Every modifier occurrence ends up in a record, when no span holds two
/// occurrences of one kind: the records carry as many modifiers as were
/// given.
pub proof fn lemma_every_modifier_assigned(
    files: Seq<Occurrence<String>>,
    names: Seq<Occurrence<String>>,
    languages: Seq<Occurrence<String>>,
    timescales: Seq<Occurrence<u32>>,
    framerates: Seq<Occurrence<(u32, u32)>>,
)
    requires
        files.len() > 0,
        ordered(positions(files)),
        one_per_span(positions(files), names),
        one_per_span(positions(files), languages),
        one_per_span(positions(files), timescales),
        one_per_span(positions(files), framerates),
    ensures
        assigned_count(correlated(files, names, languages, timescales, framerates)) == names.len()
            + languages.len() + timescales.len() + framerates.len(),
{
    let f = positions(files);
    let r = correlated(files, names, languages, timescales, framerates);
    lemma_all_attached(f, names);
    lemma_all_attached(f, languages);
    lemma_all_attached(f, timescales);
    lemma_all_attached(f, framerates);
    assert(r.map_values(|x: InputFile| x.name) =~= attached(f, names));
    assert(r.map_values(|x: InputFile| x.language) =~= attached(f, languages));
    assert(r.map_values(|x: InputFile| x.timescale) =~= attached(f, timescales));
    assert(r.map_values(|x: InputFile| x.framerate) =~= attached(f, framerates));
}

impl InputFiles {
    /// Rebuilds the per-file records from the occurrences of the file flag
    /// and of the four modifier flags. Each file receives, of each kind, the
    /// last occurrence that lies between its own position and the next
    /// file's; the first file also takes those before it, and the last one
    /// those after it.
    pub fn from_occurrences(
        files: &Vec<Occurrence<String>>,
        names: &Vec<Occurrence<String>>,
        languages: &Vec<Occurrence<String>>,
        timescales: &Vec<Occurrence<u32>>,
        framerates: &Vec<Occurrence<(u32, u32)>>,
    ) -> (r: InputFiles)
        requires
            ordered(positions(files@)),
            ordered(positions(names@)),
            ordered(positions(languages@)),
            ordered(positions(timescales@)),
            ordered(positions(framerates@)),
        ensures
            r.files@ == correlated(files@, names@, languages@, timescales@, framerates@),
    {
        let ghost f = positions(files@);
        let ghost want = correlated(files@, names@, languages@, timescales@, framerates@);
        let mut out: Vec<InputFile> = Vec::new();
        let mut cn: usize = 0;
        let mut cl: usize = 0;
        let mut ct: usize = 0;
        let mut cf: usize = 0;
        let mut i: usize = 0;
        while i < files.len()
            invariant
                f == positions(files@),
                want == correlated(files@, names@, languages@, timescales@, framerates@),
                ordered(f),
                ordered(positions(names@)),
                ordered(positions(languages@)),
                ordered(positions(timescales@)),
                ordered(positions(framerates@)),
                i <= files.len(),
                i < files.len() ==> cursor_at(f, i as int, names@, cn as int),
                i < files.len() ==> cursor_at(f, i as int, languages@, cl as int),
                i < files.len() ==> cursor_at(f, i as int, timescales@, ct as int),
                i < files.len() ==> cursor_at(f, i as int, framerates@, cf as int),
                out@ == want.take(i as int),
            decreases files.len() - i,
        {
            let bound = if i + 1 < files.len() {
                Some(files[i + 1].index)
            } else {
                None
            };
            let en = take_span(Ghost(f), i, names, cn, bound);
            let el = take_span(Ghost(f), i, languages, cl, bound);
            let et = take_span(Ghost(f), i, timescales, ct, bound);
            let ef = take_span(Ghost(f), i, framerates, cf, bound);
            let name = if en > cn {
                Some(names[en - 1].value.clone())
            } else {
                None
            };
            let language = if el > cl {
                Some(languages[el - 1].value.clone())
            } else {
                None
            };
            let timescale = if et > ct {
                Some(timescales[et - 1].value)
            } else {
                None
            };
            let framerate = if ef > cf {
                Some(framerates[ef - 1].value)
            } else {
                None
            };
            let record = InputFile {
                file: files[i].value.clone(),
                name,
                language,
                timescale,
                framerate,
            };
            out.push(record);
            assert(out@ =~= want.take(i + 1));
            cn = en;
            cl = el;
            ct = et;
            cf = ef;
            i = i + 1;
        }
        assert(want.take(files.len() as int) =~= want);
        InputFiles { files: out }
    }
}

} // verus!
