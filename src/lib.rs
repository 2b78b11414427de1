//! Client core for the streaming scan protocol of a malware-scanning daemon:
//! chunk framing, reply classification, the transport session and the
//! mapping of scan results to HTTP replies.
pub mod frame;
pub mod reply;
pub mod session;
pub mod response;
