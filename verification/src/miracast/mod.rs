//! Wi-Fi Display: the sink, the source, and what they say to each other.
pub mod dhcp;
pub mod dhcp_laws;
pub mod lifecycle;
pub mod p2p;
pub mod pairing;
pub mod quality;
pub mod rtp;
pub mod rtp_laws;
pub mod rtp_packets;
pub mod rtsp;
pub mod rtsp_exchange;
pub mod rtsp_format;
pub mod rtsp_laws;
pub mod session;
pub mod session_laws;
pub mod session_steps;
pub mod sink;
pub mod sink_laws;
pub mod source;
pub mod supplicant_conf;
pub mod test_support;
pub mod ts;
pub mod ts_laws;
pub mod wfd;
pub mod wfd_laws;
