//! The version handshake: the fixed request a v1-only client opens the
//! connection with, and the reading of the server's four-byte answer.

use vstd::prelude::*;

use crate::bytes::{from_be32, read_be32};

verus! {

/// Why the handshake failed.
#[derive(Clone, Copy, Debug, PartialEq, Eq, Structural)]
pub enum HandshakeError {
    /// The server answered zero: it supports none of the proposed versions.
    NoCompatibleVersion,
    /// The server chose a version this client did not propose.
    UnsupportedVersion(u32),
}

/// The version this client speaks, and the only one it proposes.
pub const BOLT_VERSION: u32 = 1;

/// The twenty bytes that open every connection: the four magic bytes, the
/// proposal of version one, and three zero-padded proposal slots.
pub open spec fn handshake_request_bytes() -> Seq<u8> {
    seq![
        0x60u8, 0x60, 0xB0, 0x17,
        0, 0, 0, 1,
        0, 0, 0, 0,
        0, 0, 0, 0,
        0, 0, 0, 0,
    ]
}

/// What the server's four-byte answer means: zero rejects every proposal,
/// the proposed version accepts it, and anything else is a version this
/// client cannot speak.
pub open spec fn spec_parse_handshake(b: Seq<u8>) -> Result<u32, HandshakeError>
    recommends
        b.len() == 4,
{
    let v = from_be32(b[0], b[1], b[2], b[3]);
    if v == 0 {
        Err(HandshakeError::NoCompatibleVersion)
    } else if v != BOLT_VERSION {
        Err(HandshakeError::UnsupportedVersion(v))
    } else {
        Ok(v)
    }
}

/// The handshake request this client sends, byte for byte.
pub fn handshake_request() -> (r: Vec<u8>)
    ensures
        r@ == handshake_request_bytes(),
{
    let mut out: Vec<u8> = Vec::new();
    out.push(0x60);
    out.push(0x60);
    out.push(0xB0);
    out.push(0x17);
    out.push(0);
    out.push(0);
    out.push(0);
    out.push(1);
    let mut j: usize = 0;
    while j < 12
        invariant
            j <= 12,
            out@.len() == 8 + j,
            forall|i: int| 0 <= i < 8 ==> out@[i] == handshake_request_bytes()[i],
            forall|i: int| 8 <= i < 8 + j ==> out@[i] == 0,
        decreases 12 - j,
    {
        out.push(0);
        j += 1;
    }
    assert(out@ =~= handshake_request_bytes());
    out
}

/// Reads the server's answer to the handshake: the agreed version, or the
/// error that says why the connection cannot proceed.
pub fn parse_handshake_response(b: &[u8]) -> (r: Result<u32, HandshakeError>)
    requires
        b@.len() == 4,
    ensures
        r == spec_parse_handshake(b@),
        r is Ok <==> from_be32(b@[0], b@[1], b@[2], b@[3]) == BOLT_VERSION,
        r == Err::<u32, HandshakeError>(HandshakeError::NoCompatibleVersion) <==> from_be32(
            b@[0],
            b@[1],
            b@[2],
            b@[3],
        ) == 0,
{
    let v = read_be32(b[0], b[1], b[2], b[3]);
    if v == 0 {
        Err(HandshakeError::NoCompatibleVersion)
    } else if v != BOLT_VERSION {
        Err(HandshakeError::UnsupportedVersion(v))
    } else {
        Ok(v)
    }
}

} // verus!
