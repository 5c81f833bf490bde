//! The source role: what is sent to a display.
pub mod agreement;
pub mod caps;
pub mod caps_laws;
pub mod caps_tables;
pub mod exchange_laws;
pub mod format_laws;
pub mod lpcm;
pub mod mux_laws;
pub mod round_trip;
pub mod rtp_pack;
pub mod session;
pub mod session_steps;
pub mod ts_mux;
