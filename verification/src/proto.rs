//! What a sender and a receiver have in common.
use vstd::prelude::*;

verus! {

/// What a cast is tuned for.
#[derive(Debug, Clone, Copy, PartialEq, Eq, Structural)]
pub enum Mode {
    Game,
    Quality,
}

/// The stream that carries the picture.
pub const STREAM_VIDEO: u8 = 0;

/// What a receiver reports of one interval.
#[derive(Debug, Clone, Copy, PartialEq, Eq, Structural)]
pub struct Stats {
    pub frames_received: u32,
    pub frames_dropped: u32,
    pub fragments_lost: u32,
    pub fragments_received: u32,
    pub decode_queue_depth: u32,
    pub interval_ms: u32,
}

/// A frame put together from all its fragments.
#[derive(Debug, Clone, PartialEq, Eq)]
pub struct CompleteFrame {
    pub stream: u8,
    pub frame_number: u32,
    pub timestamp_us: u64,
    pub keyframe: bool,
    pub data: Vec<u8>,
}

/// A receiver's request for fragments that did not arrive.
#[derive(Debug, Clone, PartialEq, Eq)]
pub struct Nack {
    pub frame_number: u32,
    pub missing: Vec<u16>,
}

/// What sender and receiver say to each other while they pair. Whatever else
/// they may say is `Other` here.
#[derive(Debug, Clone, PartialEq, Eq)]
pub enum ControlMessage {
    PairInit(Vec<u8>),
    PairResp(Vec<u8>),
    PairProof([u8; 32]),
    PairOk,
    Error { code: u16, message: String },
    Other,
}

/// What a message holds.
#[verifier::ext_equal]
pub enum MessageView {
    PairInit(Seq<u8>),
    PairResp(Seq<u8>),
    PairProof(Seq<u8>),
    PairOk,
    Error { code: u16, message: Seq<char> },
    Other,
}

impl View for ControlMessage {
    type V = MessageView;

    open spec fn view(&self) -> MessageView {
        match *self {
            ControlMessage::PairInit(m) => MessageView::PairInit(m@),
            ControlMessage::PairResp(m) => MessageView::PairResp(m@),
            ControlMessage::PairProof(p) => MessageView::PairProof(p@),
            ControlMessage::PairOk => MessageView::PairOk,
            ControlMessage::Error { code, message } => MessageView::Error {
                code,
                message: message@,
            },
            ControlMessage::Other => MessageView::Other,
        }
    }
}

/// The version of the protocol that this is.
pub const PROTOCOL_VERSION: u16 = 1;

/// Whether frame `a` is `b` or comes after it, tolerating wrap.
pub open spec fn newer_or_eq(a: u32, b: u32) -> bool {
    (a - b) % 0x1_0000_0000 < 0x8000_0000
}

/// Whether frame `a` is `b` or comes after it, tolerating wrap.
pub fn frame_newer_or_eq(a: u32, b: u32) -> (r: bool)
    ensures
        r == newer_or_eq(a, b),
{
    a.wrapping_sub(b) < 0x8000_0000
}

/// Frame numbers go round: the numbers up to half a turn ahead are newer, those of the
/// other half are not, and of two numbers that are not half a turn apart exactly one
/// is newer.
pub proof fn law_numbers_go_round(b: u32, k: int, a: u32)
    requires
        0 <= k < 0x1_0000_0000,
    ensures
        k < 0x8000_0000 ==> newer_or_eq(((b + k) % 0x1_0000_0000) as u32, b),
        k >= 0x8000_0000 ==> !newer_or_eq(((b + k) % 0x1_0000_0000) as u32, b),
        a != b && a - b != 0x8000_0000 && b - a != 0x8000_0000 ==> newer_or_eq(a, b)
            != newer_or_eq(b, a),
        a == b ==> newer_or_eq(a, b),
{
}

} // verus!
