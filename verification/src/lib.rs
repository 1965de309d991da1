//! Client side of the XenStore wire protocol.
//!
//! The library frames requests, takes received bytes apart into messages, matches
//! replies to requests and keeps watch events until they are read. It does no
//! input or output: the code around it writes what it is given, hands back what
//! it read, and is told what to do next.

pub mod device;
pub mod error;
pub mod handle;
pub mod laws;
pub mod message;
pub mod reader;
pub mod text;
pub mod transport;
pub mod writer;
