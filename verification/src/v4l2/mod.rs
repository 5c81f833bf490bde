//! Hardware H.264 decoding through a V4L2 memory-to-memory device.
pub mod annexb;
pub mod ops;
pub mod queue;
pub mod sys;
pub mod decoder;
pub mod decoder_laws;
pub mod laws;
pub mod message;
