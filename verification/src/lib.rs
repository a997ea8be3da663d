//! A minimal, verified HTTP/1.1 request/response engine.
//!
//! Raw bytes from a connection are parsed into a [`request::Request`], routed
//! to one of a fixed set of handlers (root greeting, echo, user-agent
//! reflection, file read/write), and the reply is serialized back into wire
//! bytes with exact framing, optionally gzip-encoding the body.  Socket
//! handling and filesystem access stay outside the library: callers hand in
//! raw bytes and file-operation outcomes and get response bytes back.

pub mod bytes;
pub mod encoding;
pub mod laws;
pub mod request;
pub mod response;
pub mod router;
pub mod wire;
