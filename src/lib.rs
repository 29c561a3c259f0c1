//! Option handling for an MP4 multiplexer front end: the framerate literal
//! parser, the quote-aware splitter and parser of compound input tokens, the
//! positional correlator of repeated per-file flags, validation of the
//! container options, the ordered plan of configuration calls, and the table
//! of the muxing engine's status codes.
pub mod compound;
pub mod config;
pub mod framerate;
pub mod input;
pub mod numeric;
pub mod status;
pub mod tokens;
