//! A client-side implementation of the Bolt v1 wire protocol: the PackStream
//! serialization format, chunked message framing, the version handshake, and
//! the session request/response state machine.
//!
//! Everything that computes on bytes and values lives here and is verified;
//! the TCP transport that carries the bytes lives outside the library.

pub mod bytes;
pub mod chunk;
pub mod decode;
pub mod encode;
pub mod handshake;
pub mod message;
pub mod packstream;
pub mod roundtrip;
pub mod session;
pub mod util;
pub mod value;
