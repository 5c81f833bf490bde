//! Between sender and receiver: who they are, how they find each other, pair,
//! talk and repair what was lost; and the record they leave behind.
pub mod calendar;
pub mod discovery;
pub mod identity;
pub mod logging;
pub mod logging_laws;
pub mod pairing;
pub mod retransmit;
pub mod tls;
pub mod transport;
