//! Screen casting: the protocol, media and device logic of a Wi-Fi Display
//! sink and source, a QUIC sender, and the codecs' bookkeeping.
//!
//! Everything here computes on plain values. Sockets, clocks, devices and
//! codecs are driven from outside and hand their results in.
use vstd::prelude::*;

pub mod capture;
pub mod media;
pub mod miracast;
pub mod mf;
pub mod net;
pub mod number;
pub mod number_laws;
pub mod proto;
pub mod text;
pub mod text_laws;
pub mod time;
pub mod v4l2;
pub mod wire;

verus! {

} // verus!
