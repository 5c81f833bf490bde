//! What driving a Media Foundation codec takes: attributes, layouts, and the
//! order of the calls.
pub mod attributes;
pub mod decoder;
pub mod encoder;
pub mod laws;
