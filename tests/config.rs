use mp4muxer::config::{plan_configuration, ConfigStep, MuxOptions, OptionsError, OutputFormat, PlanError};
use mp4muxer::input::InputFile;

fn options() -> MuxOptions {
    MuxOptions {
        overwrite: false,
        output_file: "out.mp4".to_string(),
        mpeg4_timescale: None,
        mpeg4_brand: None,
        mpeg4_comp_brand: None,
        output_format: "mp4".to_string(),
        mpeg4_max_frag_duration: None,
        dv_profile: None,
        dv_bl_compatible_id: None,
        dvh1flag: None,
        hvc1flag: None,
    }
}

fn file(path: &str) -> InputFile {
    InputFile { file: path.to_string(), name: None, language: None, timescale: None, framerate: None }
}

#[test]
fn profile_8_needs_compatible_id() {
    let mut o = options();
    o.dv_profile = Some(8);
    assert_eq!(o.check(), Err(OptionsError::MissingBlCompatibleId));
    o.dv_bl_compatible_id = Some(2);
    assert_eq!(o.check(), Ok(OutputFormat::Mp4));
}

#[test]
fn dvh1_and_hvc1_exclude_each_other() {
    let mut o = options();
    o.dvh1flag = Some(1);
    o.hvc1flag = Some(2);
    assert_eq!(o.check(), Err(OptionsError::ConflictingSampleEntry));
    o.dvh1flag = None;
    assert_eq!(o.check(), Ok(OutputFormat::Mp4));
}

#[test]
fn out_of_set_values_are_refused() {
    let mut o = options();
    o.dv_profile = Some(6);
    assert_eq!(o.check(), Err(OptionsError::InvalidDvProfile));
    o.dv_profile = Some(5);
    o.dv_bl_compatible_id = Some(3);
    assert_eq!(o.check(), Err(OptionsError::InvalidBlCompatibleId));
    o.dv_bl_compatible_id = Some(4);
    assert_eq!(o.check(), Ok(OutputFormat::Mp4));
    o.output_format = "mov".to_string();
    assert_eq!(o.check(), Err(OptionsError::InvalidOutputFormat));
    o.output_format = "frag-mp4".to_string();
    assert_eq!(o.check(), Ok(OutputFormat::FragMp4));
}

#[test]
fn existing_output_needs_overwrite() {
    let files = vec![file("a.h264")];
    let mut o = options();
    assert_eq!(plan_configuration(&files, &o, true), Err(PlanError::OutputExists));
    assert!(plan_configuration(&files, &o, false).is_ok());
    o.overwrite = true;
    assert!(plan_configuration(&files, &o, true).is_ok());
}

#[test]
fn plan_needs_an_input_and_valid_options() {
    let o = options();
    assert_eq!(plan_configuration(&vec![], &o, false), Err(PlanError::NoInputFile));
    let mut bad = options();
    bad.dv_profile = Some(8);
    assert_eq!(
        plan_configuration(&vec![file("a")], &bad, false),
        Err(PlanError::Options(OptionsError::MissingBlCompatibleId))
    );
}

#[test]
fn minimal_plan() {
    let steps = plan_configuration(&vec![file("a.ec3")], &options(), false).unwrap();
    assert_eq!(
        steps,
        vec![
            ConfigStep::CheckInput { file: "a.ec3".to_string() },
            ConfigStep::SetInput {
                file: "a.ec3".to_string(),
                language: String::new(),
                name: String::new(),
                timescale: 0,
            },
            ConfigStep::SetOutput { file: "out.mp4".to_string() },
            ConfigStep::SetOutputFormat { format: OutputFormat::Mp4 },
            ConfigStep::ConsistencyCheck,
        ]
    );
}

#[test]
fn full_plan_in_fixed_order() {
    let v = InputFile {
        file: "v.265".to_string(),
        name: Some("\"'Cool video'\"".to_string()),
        language: None,
        timescale: None,
        framerate: Some((24000, 1001)),
    };
    let a = InputFile {
        file: "a.ec3".to_string(),
        name: Some("'Dub, Blu-ray'".to_string()),
        language: Some("rus".to_string()),
        timescale: Some(48000),
        framerate: None,
    };
    let o = MuxOptions {
        overwrite: true,
        output_file: "out.mp4".to_string(),
        mpeg4_timescale: Some(600),
        mpeg4_brand: Some("mp42".to_string()),
        mpeg4_comp_brand: Some("mp42,iso6,isom,msdh,dby1".to_string()),
        output_format: "frag-mp4".to_string(),
        mpeg4_max_frag_duration: Some(2000),
        dv_profile: Some(8),
        dv_bl_compatible_id: Some(2),
        dvh1flag: None,
        hvc1flag: Some(0),
    };
    let steps = plan_configuration(&vec![v, a], &o, true).unwrap();
    assert_eq!(
        steps,
        vec![
            ConfigStep::CheckInput { file: "v.265".to_string() },
            ConfigStep::SetVideoFramerate { nome: 24000, deno: 1001 },
            ConfigStep::SetInput {
                file: "v.265".to_string(),
                language: String::new(),
                name: "Cool video".to_string(),
                timescale: 0,
            },
            ConfigStep::CheckInput { file: "a.ec3".to_string() },
            ConfigStep::SetInput {
                file: "a.ec3".to_string(),
                language: "rus".to_string(),
                name: "Dub, Blu-ray".to_string(),
                timescale: 48000,
            },
            ConfigStep::SetOutput { file: "out.mp4".to_string() },
            ConfigStep::SetMoovTimescale { timescale: 600 },
            ConfigStep::SetMbrand { brand: "mp42".to_string() },
            ConfigStep::SetCbrand { brands: "mp42,iso6,isom,msdh,dby1".to_string() },
            ConfigStep::SetOutputFormat { format: OutputFormat::FragMp4 },
            ConfigStep::SetMaxDuration { duration: 2000 },
            ConfigStep::SetDvProfile { profile: 8 },
            ConfigStep::SetDvBlCompatibleId { id: 2 },
            ConfigStep::SetSampleEntryHvc1 { stream: 0 },
            ConfigStep::ConsistencyCheck,
        ]
    );
}

#[test]
fn output_format_names() {
    assert_eq!(OutputFormat::Mp4.name(), "mp4");
    assert_eq!(OutputFormat::FragMp4.name(), "frag-mp4");
    assert_eq!(mp4muxer::config::parse_output_format("frag-mp4"), Some(OutputFormat::FragMp4));
    assert_eq!(mp4muxer::config::parse_output_format("MP4"), None);
}

#[test]
fn plan_refuses_wrong_length_language() {
    let mut f = file("a.ec3");
    f.language = Some("ru".to_string());
    assert_eq!(plan_configuration(&vec![file("v.h264"), f.clone()], &options(), false), Err(PlanError::InvalidLanguage));
    f.language = Some("rus".to_string());
    assert!(plan_configuration(&vec![file("v.h264"), f], &options(), false).is_ok());
}
