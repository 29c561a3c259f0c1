use mp4muxer::numeric::parse_u32;
use mp4muxer::status::{error_by_code, MuxStatus};

#[test]
fn named_codes_have_descriptions() {
    assert_eq!(error_by_code(0), "successful (EMA_MP4_MUXED_OK)");
    assert_eq!(error_by_code(0x10), "parameter error (EMA_MP4_MUXED_PARAM_ERR)");
    assert_eq!(error_by_code(0x15), "file open err (EMA_MP4_MUXED_OPEN_FILE_ERR)");
    assert_eq!(
        error_by_code(0x44),
        "multiple sample descriptions necessary but deactivated (EMA_MP4_MUXED_MULTI_SD_ERR)"
    );
    assert_eq!(error_by_code(0x110), "exit by design (EMA_MP4_MUXED_EXIT)");
}

#[test]
fn unknown_codes_show_their_number() {
    assert_eq!(error_by_code(7), "unknown error 7");
    assert_eq!(error_by_code(1234), "unknown error 1234");
    assert_eq!(error_by_code(0x46), "unknown error 70");
    assert_eq!(error_by_code(u32::MAX), "unknown error 4294967295");
}

#[test]
fn status_from_code_and_back() {
    assert_eq!(MuxStatus::from_code(0), MuxStatus::Success);
    assert_eq!(MuxStatus::from_code(0x100), MuxStatus::Buggy);
    assert_eq!(MuxStatus::from_code(0x49), MuxStatus::NoSupport);
    assert_eq!(MuxStatus::from_code(5), MuxStatus::Unknown(5));
    for code in [0u32, 0x10, 0x11, 0x12, 0x13, 0x14, 0x15, 0x16, 0x17, 0x18, 0x19, 0x20, 0x21, 0x40, 0x41, 0x42, 0x43, 0x44, 0x45, 0x49, 0x80, 0x100, 0x110, 3, 999] {
        assert_eq!(MuxStatus::from_code(code).code(), code);
    }
    assert!(MuxStatus::Success.is_success());
    assert!(!MuxStatus::NoMem.is_success());
}

#[test]
fn unsigned_integers_read_as_std_does() {
    assert_eq!(parse_u32("0"), Some(0));
    assert_eq!(parse_u32("+7"), Some(7));
    assert_eq!(parse_u32("007"), Some(7));
    assert_eq!(parse_u32("4294967295"), Some(u32::MAX));
    assert_eq!(parse_u32("4294967296"), None);
    assert_eq!(parse_u32(""), None);
    assert_eq!(parse_u32("+"), None);
    assert_eq!(parse_u32("-1"), None);
    assert_eq!(parse_u32("1 "), None);
    for t in ["12", "+3", "99999999999", "x", "", "4294967295", "-0"] {
        assert_eq!(parse_u32(t), t.parse::<u32>().ok());
    }
}
