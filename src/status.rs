//! Status codes returned by the muxing engine, and their descriptions.
use vstd::prelude::*;
use vstd::string::StringExecFns;
use crate::numeric::{decimal_digits, digit_char};

verus! {

/// The one-character string of the digit `d`.
fn digit_text(d: u32) -> (r: &'static str)
    requires
        d < 10,
    ensures
        r@ == seq![digit_char(d as nat)],
{
    match d {
        0 => {
            proof {
                reveal_strlit("0");
            }
            "0"
        },
        1 => {
            proof {
                reveal_strlit("1");
            }
            "1"
        },
        2 => {
            proof {
                reveal_strlit("2");
            }
            "2"
        },
        3 => {
            proof {
                reveal_strlit("3");
            }
            "3"
        },
        4 => {
            proof {
                reveal_strlit("4");
            }
            "4"
        },
        5 => {
            proof {
                reveal_strlit("5");
            }
            "5"
        },
        6 => {
            proof {
                reveal_strlit("6");
            }
            "6"
        },
        7 => {
            proof {
                reveal_strlit("7");
            }
            "7"
        },
        8 => {
            proof {
                reveal_strlit("8");
            }
            "8"
        },
        _ => {
            proof {
                reveal_strlit("9");
            }
            "9"
        },
    }
}

/// `n` written in decimal, without leading zeros.
fn decimal_text(n: u32) -> (r: String)
    ensures
        r@ == decimal_digits(n as nat),
{
    let mut acc = digit_text(n % 10).to_owned();
    let mut m = n / 10;
    while m > 0
        invariant
            m > 0 ==> decimal_digits(n as nat) == decimal_digits(m as nat) + acc@,
            m == 0 ==> decimal_digits(n as nat) == acc@,
        decreases m,
    {
        let ghost old_acc = acc@;
        let ghost dm = m;
        acc = digit_text(m % 10).to_owned().concat(acc.as_str());
        m = m / 10;
        proof {
            if m > 0 {
                assert(decimal_digits(dm as nat) == decimal_digits(m as nat).push(
                    digit_char((dm % 10) as nat),
                ));
                assert(decimal_digits(m as nat).push(digit_char((dm % 10) as nat)) + old_acc
                    =~= decimal_digits(m as nat) + acc@);
            } else {
                assert(decimal_digits(dm as nat) + old_acc =~= acc@);
            }
        }
    }
    acc
}

pub const EMA_MP4_MUXED_OK: u32 = 0x0;
pub const EMA_MP4_MUXED_PARAM_ERR: u32 = 0x10;
pub const EMA_MP4_MUXED_TOO_MANY_ES: u32 = 0x11;
pub const EMA_MP4_MUXED_NO_ES: u32 = 0x12;
pub const EMA_MP4_MUXED_UNKNOW_ES: u32 = 0x13;
pub const EMA_MP4_MUXED_NO_OUTPUT: u32 = 0x14;
pub const EMA_MP4_MUXED_OPEN_FILE_ERR: u32 = 0x15;
pub const EMA_MP4_MUXED_EOES: u32 = 0x16;
pub const EMA_MP4_MUXED_IO_ERR: u32 = 0x17;
pub const EMA_MP4_MUXED_CLI_ERR: u32 = 0x18;
pub const EMA_MP4_MUXED_EMPTY_ES: u32 = 0x19;
pub const EMA_MP4_MUXED_WRITE_ERR: u32 = 0x20;
pub const EMA_MP4_MUXED_READ_ERR: u32 = 0x21;
pub const EMA_MP4_MUXED_SYNC_ERR: u32 = 0x40;
pub const EMA_MP4_MUXED_ES_ERR: u32 = 0x41;
pub const EMA_MP4_MUXED_MP4_ERR: u32 = 0x42;
pub const EMA_MP4_MUXED_NO_CONFIG_ERR: u32 = 0x43;
pub const EMA_MP4_MUXED_MULTI_SD_ERR: u32 = 0x44;
pub const EMA_MP4_MUXED_CONFIG_ERR: u32 = 0x45;
pub const EMA_MP4_MUXED_NO_SUPPORT: u32 = 0x49;
pub const EMA_MP4_MUXED_NO_MEM: u32 = 0x80;
pub const EMA_MP4_MUXED_BUGGY: u32 = 0x100;
pub const EMA_MP4_MUXED_EXIT: u32 = 0x110;

/// A status code of the muxing engine: the named codes, and any other value.
#[derive(Clone, Copy, Debug, PartialEq, Eq, Structural)]
pub enum MuxStatus {
    Success,
    ParamErr,
    TooManyEs,
    NoEs,
    UnknownEs,
    NoOutput,
    OpenFileErr,
    EndOfEs,
    IoErr,
    CliErr,
    EmptyEs,
    WriteErr,
    ReadErr,
    SyncErr,
    EsErr,
    Mp4Err,
    NoConfigErr,
    MultiSdErr,
    ConfigErr,
    NoSupport,
    NoMem,
    Buggy,
    Exit,
    Unknown(u32),
}

/// The status that a code stands for.
pub open spec fn status_of(code: u32) -> MuxStatus {
    if code == EMA_MP4_MUXED_OK {
        MuxStatus::Success
    } else if code == EMA_MP4_MUXED_PARAM_ERR {
        MuxStatus::ParamErr
    } else if code == EMA_MP4_MUXED_TOO_MANY_ES {
        MuxStatus::TooManyEs
    } else if code == EMA_MP4_MUXED_NO_ES {
        MuxStatus::NoEs
    } else if code == EMA_MP4_MUXED_UNKNOW_ES {
        MuxStatus::UnknownEs
    } else if code == EMA_MP4_MUXED_NO_OUTPUT {
        MuxStatus::NoOutput
    } else if code == EMA_MP4_MUXED_OPEN_FILE_ERR {
        MuxStatus::OpenFileErr
    } else if code == EMA_MP4_MUXED_EOES {
        MuxStatus::EndOfEs
    } else if code == EMA_MP4_MUXED_IO_ERR {
        MuxStatus::IoErr
    } else if code == EMA_MP4_MUXED_CLI_ERR {
        MuxStatus::CliErr
    } else if code == EMA_MP4_MUXED_EMPTY_ES {
        MuxStatus::EmptyEs
    } else if code == EMA_MP4_MUXED_WRITE_ERR {
        MuxStatus::WriteErr
    } else if code == EMA_MP4_MUXED_READ_ERR {
        MuxStatus::ReadErr
    } else if code == EMA_MP4_MUXED_SYNC_ERR {
        MuxStatus::SyncErr
    } else if code == EMA_MP4_MUXED_ES_ERR {
        MuxStatus::EsErr
    } else if code == EMA_MP4_MUXED_MP4_ERR {
        MuxStatus::Mp4Err
    } else if code == EMA_MP4_MUXED_NO_CONFIG_ERR {
        MuxStatus::NoConfigErr
    } else if code == EMA_MP4_MUXED_MULTI_SD_ERR {
        MuxStatus::MultiSdErr
    } else if code == EMA_MP4_MUXED_CONFIG_ERR {
        MuxStatus::ConfigErr
    } else if code == EMA_MP4_MUXED_NO_SUPPORT {
        MuxStatus::NoSupport
    } else if code == EMA_MP4_MUXED_NO_MEM {
        MuxStatus::NoMem
    } else if code == EMA_MP4_MUXED_BUGGY {
        MuxStatus::Buggy
    } else if code == EMA_MP4_MUXED_EXIT {
        MuxStatus::Exit
    } else {
        MuxStatus::Unknown(code)
    }
}

impl MuxStatus {
    /// The human-readable description of the status.
    pub open spec fn text(self) -> Seq<char> {
        match self {
            MuxStatus::Success => "successful (EMA_MP4_MUXED_OK)"@,
            MuxStatus::ParamErr => "parameter error (EMA_MP4_MUXED_PARAM_ERR)"@,
            MuxStatus::TooManyEs => "too many es to mux (EMA_MP4_MUXED_TOO_MANY_ES)"@,
            MuxStatus::NoEs => "no es to mux (EMA_MP4_MUXED_NO_ES)"@,
            MuxStatus::UnknownEs => "es unknown (EMA_MP4_MUXED_UNKNOW_ES)"@,
            MuxStatus::NoOutput => "no output (EMA_MP4_MUXED_NO_OUTPUT)"@,
            MuxStatus::OpenFileErr => "file open err (EMA_MP4_MUXED_OPEN_FILE_ERR)"@,
            MuxStatus::EndOfEs => "end of es (EMA_MP4_MUXED_EOES)"@,
            MuxStatus::IoErr => "I/O err (EMA_MP4_MUXED_IO_ERR)"@,
            MuxStatus::CliErr => "CLI err (EMA_MP4_MUXED_CLI_ERR)"@,
            MuxStatus::EmptyEs => "empty es to mux (EMA_MP4_MUXED_EMPTY_ES)"@,
            MuxStatus::WriteErr => "write error (EMA_MP4_MUXED_WRITE_ERR)"@,
            MuxStatus::ReadErr => "read error (EMA_MP4_MUXED_READ_ERR)"@,
            MuxStatus::SyncErr => "parsing ES error (sync) (EMA_MP4_MUXED_SYNC_ERR)"@,
            MuxStatus::EsErr => "parsing ES error (EMA_MP4_MUXED_ES_ERR)"@,
            MuxStatus::Mp4Err => "parsing mp4 file err (EMA_MP4_MUXED_MP4_ERR)"@,
            MuxStatus::NoConfigErr => "no config found before payload starts (EMA_MP4_MUXED_NO_CONFIG_ERR)"@,
            MuxStatus::MultiSdErr => "multiple sample descriptions necessary but deactivated (EMA_MP4_MUXED_MULTI_SD_ERR)"@,
            MuxStatus::ConfigErr => "unallowable config change (EMA_MP4_MUXED_CONFIG_ERR)"@,
            MuxStatus::NoSupport => "not supported syntax/semantics (EMA_MP4_MUXED_NO_SUPPORT)"@,
            MuxStatus::NoMem => "no memory (EMA_MP4_MUXED_NO_MEM)"@,
            MuxStatus::Buggy => "unknown bug (EMA_MP4_MUXED_BUGGY)"@,
            MuxStatus::Exit => "exit by design (EMA_MP4_MUXED_EXIT)"@,
            MuxStatus::Unknown(c) => "unknown error "@ + decimal_digits(c as nat),
        }
    }

    /// The status that `code` stands for.
    pub fn from_code(code: u32) -> (r: MuxStatus)
        ensures
            r == status_of(code),
    {
        if code == EMA_MP4_MUXED_OK {
            MuxStatus::Success
        } else if code == EMA_MP4_MUXED_PARAM_ERR {
            MuxStatus::ParamErr
        } else if code == EMA_MP4_MUXED_TOO_MANY_ES {
            MuxStatus::TooManyEs
        } else if code == EMA_MP4_MUXED_NO_ES {
            MuxStatus::NoEs
        } else if code == EMA_MP4_MUXED_UNKNOW_ES {
            MuxStatus::UnknownEs
        } else if code == EMA_MP4_MUXED_NO_OUTPUT {
            MuxStatus::NoOutput
        } else if code == EMA_MP4_MUXED_OPEN_FILE_ERR {
            MuxStatus::OpenFileErr
        } else if code == EMA_MP4_MUXED_EOES {
            MuxStatus::EndOfEs
        } else if code == EMA_MP4_MUXED_IO_ERR {
            MuxStatus::IoErr
        } else if code == EMA_MP4_MUXED_CLI_ERR {
            MuxStatus::CliErr
        } else if code == EMA_MP4_MUXED_EMPTY_ES {
            MuxStatus::EmptyEs
        } else if code == EMA_MP4_MUXED_WRITE_ERR {
            MuxStatus::WriteErr
        } else if code == EMA_MP4_MUXED_READ_ERR {
            MuxStatus::ReadErr
        } else if code == EMA_MP4_MUXED_SYNC_ERR {
            MuxStatus::SyncErr
        } else if code == EMA_MP4_MUXED_ES_ERR {
            MuxStatus::EsErr
        } else if code == EMA_MP4_MUXED_MP4_ERR {
            MuxStatus::Mp4Err
        } else if code == EMA_MP4_MUXED_NO_CONFIG_ERR {
            MuxStatus::NoConfigErr
        } else if code == EMA_MP4_MUXED_MULTI_SD_ERR {
            MuxStatus::MultiSdErr
        } else if code == EMA_MP4_MUXED_CONFIG_ERR {
            MuxStatus::ConfigErr
        } else if code == EMA_MP4_MUXED_NO_SUPPORT {
            MuxStatus::NoSupport
        } else if code == EMA_MP4_MUXED_NO_MEM {
            MuxStatus::NoMem
        } else if code == EMA_MP4_MUXED_BUGGY {
            MuxStatus::Buggy
        } else if code == EMA_MP4_MUXED_EXIT {
            MuxStatus::Exit
        } else {
            MuxStatus::Unknown(code)
        }
    }

    /// The numeric code of the status: a named status maps back to itself,
    /// and an unknown one carries its code.
    pub fn code(&self) -> (r: u32)
        ensures
            !(*self is Unknown) ==> status_of(r) == *self,
            *self is Unknown ==> r == self->Unknown_0,
    {
        match self {
            MuxStatus::Success => EMA_MP4_MUXED_OK,
            MuxStatus::ParamErr => EMA_MP4_MUXED_PARAM_ERR,
            MuxStatus::TooManyEs => EMA_MP4_MUXED_TOO_MANY_ES,
            MuxStatus::NoEs => EMA_MP4_MUXED_NO_ES,
            MuxStatus::UnknownEs => EMA_MP4_MUXED_UNKNOW_ES,
            MuxStatus::NoOutput => EMA_MP4_MUXED_NO_OUTPUT,
            MuxStatus::OpenFileErr => EMA_MP4_MUXED_OPEN_FILE_ERR,
            MuxStatus::EndOfEs => EMA_MP4_MUXED_EOES,
            MuxStatus::IoErr => EMA_MP4_MUXED_IO_ERR,
            MuxStatus::CliErr => EMA_MP4_MUXED_CLI_ERR,
            MuxStatus::EmptyEs => EMA_MP4_MUXED_EMPTY_ES,
            MuxStatus::WriteErr => EMA_MP4_MUXED_WRITE_ERR,
            MuxStatus::ReadErr => EMA_MP4_MUXED_READ_ERR,
            MuxStatus::SyncErr => EMA_MP4_MUXED_SYNC_ERR,
            MuxStatus::EsErr => EMA_MP4_MUXED_ES_ERR,
            MuxStatus::Mp4Err => EMA_MP4_MUXED_MP4_ERR,
            MuxStatus::NoConfigErr => EMA_MP4_MUXED_NO_CONFIG_ERR,
            MuxStatus::MultiSdErr => EMA_MP4_MUXED_MULTI_SD_ERR,
            MuxStatus::ConfigErr => EMA_MP4_MUXED_CONFIG_ERR,
            MuxStatus::NoSupport => EMA_MP4_MUXED_NO_SUPPORT,
            MuxStatus::NoMem => EMA_MP4_MUXED_NO_MEM,
            MuxStatus::Buggy => EMA_MP4_MUXED_BUGGY,
            MuxStatus::Exit => EMA_MP4_MUXED_EXIT,
            MuxStatus::Unknown(c) => *c,
        }
    }

    /// Whether the status reports success.
    pub fn is_success(&self) -> (r: bool)
        ensures
            r == (*self == MuxStatus::Success),
    {
        match self {
            MuxStatus::Success => true,
            _ => false,
        }
    }

    /// The human-readable description of the status.
    pub fn description(&self) -> (r: String)
        ensures
            r@ == self.text(),
    {
        match self {
            MuxStatus::Success => "successful (EMA_MP4_MUXED_OK)".to_owned(),
            MuxStatus::ParamErr => "parameter error (EMA_MP4_MUXED_PARAM_ERR)".to_owned(),
            MuxStatus::TooManyEs => "too many es to mux (EMA_MP4_MUXED_TOO_MANY_ES)".to_owned(),
            MuxStatus::NoEs => "no es to mux (EMA_MP4_MUXED_NO_ES)".to_owned(),
            MuxStatus::UnknownEs => "es unknown (EMA_MP4_MUXED_UNKNOW_ES)".to_owned(),
            MuxStatus::NoOutput => "no output (EMA_MP4_MUXED_NO_OUTPUT)".to_owned(),
            MuxStatus::OpenFileErr => "file open err (EMA_MP4_MUXED_OPEN_FILE_ERR)".to_owned(),
            MuxStatus::EndOfEs => "end of es (EMA_MP4_MUXED_EOES)".to_owned(),
            MuxStatus::IoErr => "I/O err (EMA_MP4_MUXED_IO_ERR)".to_owned(),
            MuxStatus::CliErr => "CLI err (EMA_MP4_MUXED_CLI_ERR)".to_owned(),
            MuxStatus::EmptyEs => "empty es to mux (EMA_MP4_MUXED_EMPTY_ES)".to_owned(),
            MuxStatus::WriteErr => "write error (EMA_MP4_MUXED_WRITE_ERR)".to_owned(),
            MuxStatus::ReadErr => "read error (EMA_MP4_MUXED_READ_ERR)".to_owned(),
            MuxStatus::SyncErr => "parsing ES error (sync) (EMA_MP4_MUXED_SYNC_ERR)".to_owned(),
            MuxStatus::EsErr => "parsing ES error (EMA_MP4_MUXED_ES_ERR)".to_owned(),
            MuxStatus::Mp4Err => "parsing mp4 file err (EMA_MP4_MUXED_MP4_ERR)".to_owned(),
            MuxStatus::NoConfigErr => "no config found before payload starts (EMA_MP4_MUXED_NO_CONFIG_ERR)".to_owned(),
            MuxStatus::MultiSdErr => "multiple sample descriptions necessary but deactivated (EMA_MP4_MUXED_MULTI_SD_ERR)".to_owned(),
            MuxStatus::ConfigErr => "unallowable config change (EMA_MP4_MUXED_CONFIG_ERR)".to_owned(),
            MuxStatus::NoSupport => "not supported syntax/semantics (EMA_MP4_MUXED_NO_SUPPORT)".to_owned(),
            MuxStatus::NoMem => "no memory (EMA_MP4_MUXED_NO_MEM)".to_owned(),
            MuxStatus::Buggy => "unknown bug (EMA_MP4_MUXED_BUGGY)".to_owned(),
            MuxStatus::Exit => "exit by design (EMA_MP4_MUXED_EXIT)".to_owned(),
            MuxStatus::Unknown(c) => {
                let digits = decimal_text(*c);
                "unknown error ".to_owned().concat(digits.as_str())
            },
        }
    }
}

/// The description of the status that `code` stands for.
pub fn error_by_code(code: u32) -> (r: String)
    ensures
        r@ == status_of(code).text(),
{
    MuxStatus::from_code(code).description()
}

} // verus!
