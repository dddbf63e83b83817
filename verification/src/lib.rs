//! Query client for a field station that answers over local HTTP with
//! length-delimited protocol-buffer messages.
//!
//! The crate plans the requests a station understands and decodes the bytes it
//! answers with. Sending a planned request is left to the caller.

pub mod device;
pub mod http;
pub mod wire;
