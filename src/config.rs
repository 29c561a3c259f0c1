//! Container options, their validation, and the ordered plan of calls that
//! configures the muxing engine.
use vstd::prelude::*;
use vstd::string::*;
use crate::input::{InputFile, InputFileView};
use crate::numeric::{chars_of, range_is};
use crate::tokens::{normalize_media_name, normalized};

verus! {

/// The layout of the output file.
#[derive(Clone, Copy, Debug, PartialEq, Eq, Structural)]
pub enum OutputFormat {
    /// A plain MP4 file.
    Mp4,
    /// A fragmented MP4 file.
    FragMp4,
}

impl OutputFormat {
    /// The name under which the engine knows the format.
    pub open spec fn text(self) -> Seq<char> {
        match self {
            OutputFormat::Mp4 => "mp4"@,
            OutputFormat::FragMp4 => "frag-mp4"@,
        }
    }

    /// The name under which the engine knows the format.
    pub fn name(&self) -> (r: String)
        ensures
            r@ == self.text(),
    {
        match self {
            OutputFormat::Mp4 => "mp4".to_owned(),
            OutputFormat::FragMp4 => "frag-mp4".to_owned(),
        }
    }
}

/// The format that `s` names, if any.
pub open spec fn format_of(s: Seq<char>) -> Option<OutputFormat> {
    if s == "mp4"@ {
        Some(OutputFormat::Mp4)
    } else if s == "frag-mp4"@ {
        Some(OutputFormat::FragMp4)
    } else {
        None
    }
}

/// The format that `s` names, if any.
pub fn parse_output_format(s: &str) -> (r: Option<OutputFormat>)
    ensures
        r == format_of(s@),
{
    let v = chars_of(s);
    assert(v@.subrange(0, v.len() as int) =~= v@);
    if range_is(&v, 0, v.len(), "mp4") {
        Some(OutputFormat::Mp4)
    } else if range_is(&v, 0, v.len(), "frag-mp4") {
        Some(OutputFormat::FragMp4)
    } else {
        None
    }
}

/// Container-level options, as the command line gave them.
#[derive(Clone, Debug, PartialEq, Eq)]
pub struct MuxOptions {
    /// Replace an existing output file.
    pub overwrite: bool,
    pub output_file: String,
    /// The timescale of the whole presentation.
    pub mpeg4_timescale: Option<u32>,
    pub mpeg4_brand: Option<String>,
    /// A comma-separated list of compatible brands.
    pub mpeg4_comp_brand: Option<String>,
    /// `mp4` or `frag-mp4`.
    pub output_format: String,
    /// The longest fragment, in milliseconds.
    pub mpeg4_max_frag_duration: Option<u32>,
    pub dv_profile: Option<u8>,
    pub dv_bl_compatible_id: Option<u8>,
    /// The stream whose sample entry is named `dvh1`.
    pub dvh1flag: Option<i32>,
    /// The stream whose sample entry is named `hvc1`.
    pub hvc1flag: Option<i32>,
}

/// Why a set of container options was refused.
#[derive(Clone, Copy, Debug, PartialEq, Eq, Structural)]
pub enum OptionsError {
    /// The output format is neither `mp4` nor `frag-mp4`.
    InvalidOutputFormat,
    /// The Dolby Vision profile is none of 4, 5, 7, 8, 9.
    InvalidDvProfile,
    /// The base layer compatible ID is none of 1, 2, 4.
    InvalidBlCompatibleId,
    /// Profile 8 needs a base layer compatible ID.
    MissingBlCompatibleId,
    /// Only one of the `dvh1` and `hvc1` sample entry names can be chosen.
    ConflictingSampleEntry,
}

/// Whether `p` is a Dolby Vision profile that can be chosen.
pub open spec fn valid_dv_profile(p: u8) -> bool {
    p == 4 || p == 5 || p == 7 || p == 8 || p == 9
}

/// Whether `b` is a base layer compatible ID that can be chosen.
pub open spec fn valid_bl_compatible_id(b: u8) -> bool {
    b == 1 || b == 2 || b == 4
}

/// The first rule that the options break, in the order in which they are
/// checked, or none.
pub open spec fn options_error(o: MuxOptions) -> Option<OptionsError> {
    if format_of(o.output_format@) is None {
        Some(OptionsError::InvalidOutputFormat)
    } else if o.dv_profile is Some && !valid_dv_profile(o.dv_profile->0) {
        Some(OptionsError::InvalidDvProfile)
    } else if o.dv_bl_compatible_id is Some && !valid_bl_compatible_id(o.dv_bl_compatible_id->0) {
        Some(OptionsError::InvalidBlCompatibleId)
    } else if o.dv_profile == Some(8u8) && o.dv_bl_compatible_id is None {
        Some(OptionsError::MissingBlCompatibleId)
    } else if o.dvh1flag is Some && o.hvc1flag is Some {
        Some(OptionsError::ConflictingSampleEntry)
    } else {
        None
    }
}

impl MuxOptions {
    /// Checks the options against the rules of the command line, and gives
    /// the output format that they name.
    pub fn check(&self) -> (r: Result<OutputFormat, OptionsError>)
        ensures
            match options_error(*self) {
                Some(e) => r == Err::<OutputFormat, OptionsError>(e),
                None => r == Ok::<OutputFormat, OptionsError>(format_of(self.output_format@)->0),
            },
    {
        let format = match parse_output_format(self.output_format.as_str()) {
            Some(f) => f,
            None => {
                return Err(OptionsError::InvalidOutputFormat);
            },
        };
        if let Some(p) = self.dv_profile {
            if !(p == 4 || p == 5 || p == 7 || p == 8 || p == 9) {
                return Err(OptionsError::InvalidDvProfile);
            }
        }
        if let Some(b) = self.dv_bl_compatible_id {
            if !(b == 1 || b == 2 || b == 4) {
                return Err(OptionsError::InvalidBlCompatibleId);
            }
        }
        if self.dv_profile == Some(8u8) && self.dv_bl_compatible_id.is_none() {
            return Err(OptionsError::MissingBlCompatibleId);
        }
        if self.dvh1flag.is_some() && self.hvc1flag.is_some() {
            return Err(OptionsError::ConflictingSampleEntry);
        }
        Ok(format)
    }
}

/// Dolby Vision profile 8 is refused without a base layer compatible ID,
/// and passes this rule with one.
pub proof fn lemma_profile_8_needs_compatible_id(o: MuxOptions)
    requires
        o.dv_profile == Some(8u8),
    ensures
        o.dv_bl_compatible_id is None ==> options_error(o) is Some,
        o.dv_bl_compatible_id is Some ==> options_error(o) != Some(
            OptionsError::MissingBlCompatibleId,
        ),
{
}

/// The `dvh1` and `hvc1` sample entry names are never accepted together.
pub proof fn lemma_sample_entry_names_exclusive(o: MuxOptions)
    requires
        o.dvh1flag is Some,
        o.hvc1flag is Some,
    ensures
        options_error(o) is Some,
{
}

/// One call of the configuration sequence.
#[derive(Clone, Debug, PartialEq, Eq)]
pub enum ConfigStep {
    /// Make sure the input file can be opened for reading.
    CheckInput { file: String },
    /// Set the framerate of the video stream that is added next.
    SetVideoFramerate { nome: u32, deno: u32 },
    /// Add an input stream; an empty language or name and a zero timescale
    /// leave the choice to the engine.
    SetInput { file: String, language: String, name: String, timescale: u32 },
    SetOutput { file: String },
    SetMoovTimescale { timescale: u32 },
    SetMbrand { brand: String },
    SetCbrand { brands: String },
    SetOutputFormat { format: OutputFormat },
    SetMaxDuration { duration: u32 },
    SetDvProfile { profile: u8 },
    SetDvBlCompatibleId { id: u8 },
    SetSampleEntryDvh1 { stream: i32 },
    SetSampleEntryHvc1 { stream: i32 },
    ConsistencyCheck,
}

/// A configuration call with its strings seen as character sequences.
pub enum Step {
    CheckInput { file: Seq<char> },
    SetVideoFramerate { nome: u32, deno: u32 },
    SetInput { file: Seq<char>, language: Seq<char>, name: Seq<char>, timescale: u32 },
    SetOutput { file: Seq<char> },
    SetMoovTimescale { timescale: u32 },
    SetMbrand { brand: Seq<char> },
    SetCbrand { brands: Seq<char> },
    SetOutputFormat { format: OutputFormat },
    SetMaxDuration { duration: u32 },
    SetDvProfile { profile: u8 },
    SetDvBlCompatibleId { id: u8 },
    SetSampleEntryDvh1 { stream: i32 },
    SetSampleEntryHvc1 { stream: i32 },
    ConsistencyCheck,
}

impl View for ConfigStep {
    type V = Step;

    open spec fn view(&self) -> Step {
        match self {
            ConfigStep::CheckInput { file } => Step::CheckInput { file: file@ },
            ConfigStep::SetVideoFramerate { nome, deno } => Step::SetVideoFramerate {
                nome: *nome,
                deno: *deno,
            },
            ConfigStep::SetInput { file, language, name, timescale } => Step::SetInput {
                file: file@,
                language: language@,
                name: name@,
                timescale: *timescale,
            },
            ConfigStep::SetOutput { file } => Step::SetOutput { file: file@ },
            ConfigStep::SetMoovTimescale { timescale } => Step::SetMoovTimescale {
                timescale: *timescale,
            },
            ConfigStep::SetMbrand { brand } => Step::SetMbrand { brand: brand@ },
            ConfigStep::SetCbrand { brands } => Step::SetCbrand { brands: brands@ },
            ConfigStep::SetOutputFormat { format } => Step::SetOutputFormat { format: *format },
            ConfigStep::SetMaxDuration { duration } => Step::SetMaxDuration {
                duration: *duration,
            },
            ConfigStep::SetDvProfile { profile } => Step::SetDvProfile { profile: *profile },
            ConfigStep::SetDvBlCompatibleId { id } => Step::SetDvBlCompatibleId { id: *id },
            ConfigStep::SetSampleEntryDvh1 { stream } => Step::SetSampleEntryDvh1 {
                stream: *stream,
            },
            ConfigStep::SetSampleEntryHvc1 { stream } => Step::SetSampleEntryHvc1 {
                stream: *stream,
            },
            ConfigStep::ConsistencyCheck => Step::ConsistencyCheck,
        }
    }
}

/// The calls of a plan, seen as `Step`s.
pub open spec fn steps_view(v: Seq<ConfigStep>) -> Seq<Step> {
    v.map_values(|s: ConfigStep| s@)
}

/// The records, seen as views.
pub open spec fn files_view(v: Seq<InputFile>) -> Seq<InputFileView> {
    v.map_values(|f: InputFile| f@)
}

/// The characters of an optional string, or none.
pub open spec fn or_empty(s: Option<Seq<char>>) -> Seq<char> {
    match s {
        Some(t) => t,
        None => Seq::empty(),
    }
}

/// The calls for one input file: the check that it can be read, its
/// framerate if one was given, then the call that adds it.
pub open spec fn file_steps(f: InputFileView) -> Seq<Step> {
    let rate = match f.framerate {
        Some((n, d)) => seq![Step::SetVideoFramerate { nome: n, deno: d }],
        None => Seq::empty(),
    };
    seq![Step::CheckInput { file: f.file }] + rate + seq![
        Step::SetInput {
            file: f.file,
            language: or_empty(f.language),
            name: normalized(or_empty(f.name)),
            timescale: match f.timescale {
                Some(t) => t,
                None => 0,
            },
        },
    ]
}

/// The calls for all input files, in their order.
pub open spec fn input_steps(files: Seq<InputFileView>) -> Seq<Step>
    decreases files.len(),
{
    if files.len() == 0 {
        Seq::empty()
    } else {
        input_steps(files.drop_last()) + file_steps(files.last())
    }
}

/// One call if the option is given, none otherwise.
pub open spec fn step_if<T>(o: Option<T>, f: spec_fn(T) -> Step) -> Seq<Step> {
    match o {
        Some(x) => seq![f(x)],
        None => Seq::empty(),
    }
}

/// The calls for the output file, the presentation timescale, the brands
/// and the output format.
pub open spec fn output_steps(o: MuxOptions, format: OutputFormat) -> Seq<Step> {
    seq![Step::SetOutput { file: o.output_file@ }] + step_if(
        o.mpeg4_timescale,
        |t: u32| Step::SetMoovTimescale { timescale: t },
    ) + step_if(o.mpeg4_brand, |b: String| Step::SetMbrand { brand: b@ }) + step_if(
        o.mpeg4_comp_brand,
        |b: String| Step::SetCbrand { brands: b@ },
    ) + seq![Step::SetOutputFormat { format }]
}

/// The calls for the fragment duration, the Dolby Vision settings and the
/// sample entry names, then the consistency check.
pub open spec fn stream_steps(o: MuxOptions) -> Seq<Step> {
    step_if(o.mpeg4_max_frag_duration, |d: u32| Step::SetMaxDuration { duration: d }) + step_if(
        o.dv_profile,
        |p: u8| Step::SetDvProfile { profile: p },
    ) + step_if(o.dv_bl_compatible_id, |i: u8| Step::SetDvBlCompatibleId { id: i }) + step_if(
        o.dvh1flag,
        |s: i32| Step::SetSampleEntryDvh1 { stream: s },
    ) + step_if(o.hvc1flag, |s: i32| Step::SetSampleEntryHvc1 { stream: s }) + seq![
        Step::ConsistencyCheck,
    ]
}

/// The calls for the container options, in their fixed order, ending with
/// the consistency check.
pub open spec fn global_steps(o: MuxOptions, format: OutputFormat) -> Seq<Step> {
    output_steps(o, format) + stream_steps(o)
}

/// Why no configuration is planned.
#[derive(Clone, Copy, Debug, PartialEq, Eq, Structural)]
pub enum PlanError {
    /// At least one input file is needed.
    NoInputFile,
    /// A record's language code is not three characters long.
    InvalidLanguage,
    /// The container options break a rule.
    Options(OptionsError),
    /// The output file exists and overwriting was not asked for.
    OutputExists,
}

/// Whether the record carries a language code that is not three
/// characters long.
pub open spec fn bad_language(f: InputFile) -> bool {
    f.language is Some && f.language->0@.len() != 3
}

/// Whether some record carries a language code of the wrong length.
fn any_bad_language(files: &Vec<InputFile>) -> (r: bool)
    ensures
        r == exists|i: int| 0 <= i < files.len() && bad_language(#[trigger] files@[i]),
{
    let mut i: usize = 0;
    while i < files.len()
        invariant
            i <= files.len(),
            forall|j: int| 0 <= j < i ==> !bad_language(#[trigger] files@[j]),
        decreases files.len() - i,
    {
        if let Some(l) = &files[i].language {
            if l.as_str().unicode_len() != 3 {
                assert(bad_language(files@[i as int]));
                return true;
            }
        }
        i = i + 1;
    }
    false
}

/// The reason no configuration is planned, or none.
pub open spec fn plan_error(files: Seq<InputFile>, o: MuxOptions, output_exists: bool) -> Option<
    PlanError,
> {
    if files.len() == 0 {
        Some(PlanError::NoInputFile)
    } else if exists|i: int| 0 <= i < files.len() && bad_language(#[trigger] files[i]) {
        Some(PlanError::InvalidLanguage)
    } else if options_error(o) is Some {
        Some(PlanError::Options(options_error(o)->0))
    } else if output_exists && !o.overwrite {
        Some(PlanError::OutputExists)
    } else {
        None
    }
}

/// All the calls, in order.
pub open spec fn planned_steps(files: Seq<InputFile>, o: MuxOptions) -> Seq<Step> {
    input_steps(files_view(files)) + global_steps(o, format_of(o.output_format@)->0)
}

/// Appends `step` to `out`.
fn push_step(out: &mut Vec<ConfigStep>, step: ConfigStep)
    ensures
        steps_view(final(out)@) == steps_view(old(out)@).push(step@),
        final(out)@ == old(out)@.push(step),
{
    out.push(step);
    assert(steps_view(out@) =~= steps_view(old(out)@).push(step@));
}

/// Appends the calls for one input file.
fn push_file_steps(out: &mut Vec<ConfigStep>, f: &InputFile)
    ensures
        steps_view(final(out)@) == steps_view(old(out)@) + file_steps(f@),
{
    let ghost start = steps_view(out@);
    push_step(out, ConfigStep::CheckInput { file: f.file.clone() });
    if let Some((n, d)) = f.framerate {
        push_step(out, ConfigStep::SetVideoFramerate { nome: n, deno: d });
    }
    let language = match &f.language {
        Some(l) => l.clone(),
        None => String::new(),
    };
    let raw_name = match &f.name {
        Some(n) => n.clone(),
        None => String::new(),
    };
    let name = normalize_media_name(raw_name.as_str()).to_owned();
    let timescale = match f.timescale {
        Some(t) => t,
        None => 0,
    };
    push_step(out, ConfigStep::SetInput { file: f.file.clone(), language, name, timescale });
    assert(steps_view(out@) =~= start + file_steps(f@));
}

/// Appends the calls of `output_steps`.
fn push_output_steps(out: &mut Vec<ConfigStep>, options: &MuxOptions, format: OutputFormat)
    ensures
        steps_view(final(out)@) == steps_view(old(out)@) + output_steps(*options, format),
{
    let ghost start = steps_view(out@);
    push_step(out, ConfigStep::SetOutput { file: options.output_file.clone() });
    if let Some(t) = options.mpeg4_timescale {
        push_step(out, ConfigStep::SetMoovTimescale { timescale: t });
    }
    if let Some(b) = &options.mpeg4_brand {
        push_step(out, ConfigStep::SetMbrand { brand: b.clone() });
    }
    if let Some(b) = &options.mpeg4_comp_brand {
        push_step(out, ConfigStep::SetCbrand { brands: b.clone() });
    }
    push_step(out, ConfigStep::SetOutputFormat { format });
    assert(steps_view(out@) =~= start + output_steps(*options, format));
}

/// Appends the calls of `stream_steps`.
fn push_stream_steps(out: &mut Vec<ConfigStep>, options: &MuxOptions)
    ensures
        steps_view(final(out)@) == steps_view(old(out)@) + stream_steps(*options),
{
    let ghost start = steps_view(out@);
    if let Some(d) = options.mpeg4_max_frag_duration {
        push_step(out, ConfigStep::SetMaxDuration { duration: d });
    }
    if let Some(p) = options.dv_profile {
        push_step(out, ConfigStep::SetDvProfile { profile: p });
    }
    if let Some(b) = options.dv_bl_compatible_id {
        push_step(out, ConfigStep::SetDvBlCompatibleId { id: b });
    }
    if let Some(s) = options.dvh1flag {
        push_step(out, ConfigStep::SetSampleEntryDvh1 { stream: s });
    }
    if let Some(s) = options.hvc1flag {
        push_step(out, ConfigStep::SetSampleEntryHvc1 { stream: s });
    }
    push_step(out, ConfigStep::ConsistencyCheck);
    assert(steps_view(out@) =~= start + stream_steps(*options));
}

/// Plans the configuration of the muxing engine: for each input file in
/// order, the check that it can be read, its framerate, and the call that
/// adds it; then the container options in their fixed order, and the
/// consistency check. Nothing is planned, and so no call is made, when there
/// is no input file, when a language code is not three characters long,
/// when an option breaks a rule, or when the output file
/// exists and overwriting was not asked for.
pub fn plan_configuration(files: &Vec<InputFile>, options: &MuxOptions, output_exists: bool) -> (r:
    Result<Vec<ConfigStep>, PlanError>)
    ensures
        match r {
            Ok(steps) => plan_error(files@, *options, output_exists) is None && steps_view(steps@)
                == planned_steps(files@, *options),
            Err(e) => plan_error(files@, *options, output_exists) == Some(e),
        },
{
    if files.len() == 0 {
        return Err(PlanError::NoInputFile);
    }
    if any_bad_language(files) {
        return Err(PlanError::InvalidLanguage);
    }
    let format = match options.check() {
        Ok(f) => f,
        Err(e) => {
            return Err(PlanError::Options(e));
        },
    };
    if output_exists && !options.overwrite {
        return Err(PlanError::OutputExists);
    }
    let mut out: Vec<ConfigStep> = Vec::new();
    let mut i: usize = 0;
    assert(steps_view(out@) =~= input_steps(files_view(files@).take(0)));
    while i < files.len()
        invariant
            i <= files.len(),
            steps_view(out@) == input_steps(files_view(files@).take(i as int)),
        decreases files.len() - i,
    {
        push_file_steps(&mut out, &files[i]);
        assert(files_view(files@).take(i + 1).drop_last() =~= files_view(files@).take(i as int));
        i = i + 1;
    }
    assert(files_view(files@).take(files.len() as int) =~= files_view(files@));
    let ghost inputs = steps_view(out@);
    push_output_steps(&mut out, options, format);
    push_stream_steps(&mut out, options);
    assert(steps_view(out@) =~= inputs + global_steps(*options, format));
    Ok(out)
}

/// With an existing output file, the plan is refused before any call
/// exactly when overwriting was not asked for; with overwriting it goes on.
pub proof fn lemma_existing_output(files: Seq<InputFile>, o: MuxOptions)
    requires
        files.len() > 0,
        forall|i: int| 0 <= i < files.len() ==> !bad_language(#[trigger] files[i]),
        options_error(o) is None,
    ensures
        !o.overwrite ==> plan_error(files, o, true) == Some(PlanError::OutputExists),
        o.overwrite ==> plan_error(files, o, true) is None,
{
}

} // verus!
