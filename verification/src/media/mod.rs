//! Pictures and sound: formats, conversion, pacing and rate control.
pub mod audio;
pub mod bitrate;
pub mod bitrate_laws;
pub mod clock;
pub mod codec;
pub mod convert;
pub mod convert_laws;
pub mod crop;
pub mod jitter;
pub mod jitter_laws;
pub mod jitter_timing;
pub mod sw;
