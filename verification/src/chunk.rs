//! Chunked message framing: an outbound message is split into chunks of at
//! most 65535 bytes, each preceded by its big-endian 16-bit length, and
//! closed by one zero-length header; inbound chunks are concatenated back
//! until that terminator.

use vstd::prelude::*;

use crate::bytes::{be16, from_be16, lemma_be16_round, push_be16, push_bytes, read_be16};
use crate::packstream::DecodeError;
use vstd::slice::slice_subrange;

verus! {

/// The largest chunk body the two-byte length field can announce.
pub const MAX_CHUNK: usize = 0xFFFF;

/// The chunks of a message body, without the terminator: each chunk is the
/// next 65535 bytes (or all that remain), preceded by its length.
pub open spec fn chunk_body(m: Seq<u8>) -> Seq<u8>
    decreases m.len(),
{
    if m.len() == 0 {
        Seq::empty()
    } else {
        let k: int = if m.len() <= 0xFFFF {
            m.len() as int
        } else {
            0xFFFF
        };
        be16(k as u16) + m.take(k) + chunk_body(m.skip(k))
    }
}

/// A whole message on the wire: its chunks, then the zero-length header.
/// An empty message is the terminator alone.
pub open spec fn chunk_message(m: Seq<u8>) -> Seq<u8> {
    chunk_body(m) + seq![0u8, 0u8]
}

/// A well-formed single framed message: length-prefixed chunks, each
/// non-empty, ending in exactly one zero-length header.
pub open spec fn well_framed(b: Seq<u8>) -> bool
    decreases b.len(),
{
    b.len() >= 2 && {
        let l = from_be16(b[0], b[1]) as int;
        if l == 0 {
            b.len() == 2
        } else {
            b.len() >= 2 + l && well_framed(b.skip(2 + l))
        }
    }
}

/// The message a framed stream reassembles to, with the bytes consumed:
/// chunk bodies concatenated in order until a zero-length header.
pub open spec fn spec_dechunk(b: Seq<u8>) -> Result<(Seq<u8>, nat), DecodeError>
    decreases b.len(),
{
    if b.len() < 2 {
        Err(DecodeError::Truncated)
    } else {
        let l = from_be16(b[0], b[1]) as int;
        if l == 0 {
            Ok((Seq::empty(), 2))
        } else if b.len() >= 2 + l {
            match spec_dechunk(b.skip(2 + l)) {
                Ok(p) => Ok((b.subrange(2, 2 + l) + p.0, (2 + l + p.1) as nat)),
                Err(e) => Err(e),
            }
        } else {
            Err(DecodeError::Truncated)
        }
    }
}

/// A successful reassembly consumes no more bytes than it was given.
pub proof fn lemma_dechunk_bound(b: Seq<u8>)
    ensures
        spec_dechunk(b) matches Ok(p) ==> p.1 <= b.len(),
    decreases b.len(),
{
    if b.len() >= 2 {
        let l = from_be16(b[0], b[1]) as int;
        if l != 0 && b.len() >= 2 + l {
            lemma_dechunk_bound(b.skip(2 + l));
        }
    }
}

/// Every message's framing ends with the two zero bytes of the terminator,
/// and is well-formed: every header before it is non-zero.
pub proof fn lemma_chunk_message_wellformed(m: Seq<u8>)
    ensures
        chunk_message(m).len() >= 2,
        chunk_message(m)[chunk_message(m).len() - 2] == 0,
        chunk_message(m)[chunk_message(m).len() - 1] == 0,
        well_framed(chunk_message(m)),
    decreases m.len(),
{
    let c = chunk_message(m);
    if m.len() == 0 {
        assert(c =~= seq![0u8, 0u8]);
        assert(from_be16(0, 0) == 0);
    } else {
        let k: int = if m.len() <= 0xFFFF {
            m.len() as int
        } else {
            0xFFFF
        };
        lemma_be16_round(k as u16, 0, 0);
        lemma_chunk_message_wellformed(m.skip(k));
        assert(c =~= be16(k as u16) + (m.take(k) + chunk_message(m.skip(k))));
        assert(c[0] == be16(k as u16)[0] && c[1] == be16(k as u16)[1]);
        assert(from_be16(c[0], c[1]) == k);
        assert(c.skip(2 + k) =~= chunk_message(m.skip(k)));
        assert(c[c.len() - 2] == chunk_message(m.skip(k))[chunk_message(m.skip(k)).len() - 2]);
        assert(c[c.len() - 1] == chunk_message(m.skip(k))[chunk_message(m.skip(k)).len() - 1]);
    }
}

/// A stream of given chunk bodies: each preceded by its length header, in
/// order, closed by the zero-length terminator. [`chunk_message`] produces
/// one such stream; a server may produce any other split.
pub open spec fn frames_of(bodies: Seq<Seq<u8>>) -> Seq<u8>
    decreases bodies,
{
    if bodies.len() == 0 {
        seq![0u8, 0u8]
    } else {
        be16(bodies[0].len() as u16) + bodies[0] + frames_of(bodies.subrange(1, bodies.len() as int))
    }
}

/// For every valid stream - any split into non-empty chunks that fit their
/// headers, however it was produced - reassembly concatenates the chunk
/// bodies in order and consumes exactly the stream.
pub proof fn lemma_dechunk_concatenates(bodies: Seq<Seq<u8>>, rest: Seq<u8>)
    requires
        forall|i: int| 0 <= i < bodies.len() ==> 1 <= #[trigger] bodies[i].len() <= 0xFFFF,
    ensures
        spec_dechunk(frames_of(bodies) + rest) == Ok::<(Seq<u8>, nat), DecodeError>(
            (bodies.flatten(), frames_of(bodies).len()),
        ),
    decreases bodies,
{
    let b = frames_of(bodies) + rest;
    if bodies.len() == 0 {
        assert(b[0] == 0 && b[1] == 0);
        assert(from_be16(0, 0) == 0);
        assert(bodies.flatten() =~= Seq::<u8>::empty());
    } else {
        let body = bodies[0];
        let tail = bodies.subrange(1, bodies.len() as int);
        let k = body.len() as int;
        lemma_be16_round(body.len() as u16, 0, 0);
        assert(b =~= be16(body.len() as u16) + (body + (frames_of(tail) + rest)));
        assert(b[0] == be16(body.len() as u16)[0] && b[1] == be16(body.len() as u16)[1]);
        assert(from_be16(b[0], b[1]) == k);
        assert(b.len() >= 2 + k);
        assert(b.subrange(2, 2 + k) =~= body);
        assert(b.skip(2 + k) =~= frames_of(tail) + rest);
        lemma_dechunk_concatenates(tail, rest);
        assert(bodies.drop_first() =~= tail);
        assert(bodies.flatten() == body + tail.flatten());
        assert(frames_of(bodies).len() == 2 + k + frames_of(tail).len());
    }
}

/// Reassembly undoes framing: the chunks of a message, followed by anything
/// at all, reassemble to the message and consume exactly its framing.
pub proof fn lemma_dechunk_chunk(m: Seq<u8>, rest: Seq<u8>)
    ensures
        spec_dechunk(chunk_message(m) + rest) == Ok::<(Seq<u8>, nat), DecodeError>(
            (m, chunk_message(m).len()),
        ),
    decreases m.len(),
{
    let b = chunk_message(m) + rest;
    if m.len() == 0 {
        assert(b[0] == 0 && b[1] == 0);
        assert(from_be16(0, 0) == 0);
        assert(m =~= Seq::<u8>::empty());
    } else {
        let k: int = if m.len() <= 0xFFFF {
            m.len() as int
        } else {
            0xFFFF
        };
        lemma_be16_round(k as u16, 0, 0);
        assert(b =~= be16(k as u16) + (m.take(k) + (chunk_message(m.skip(k)) + rest)));
        assert(b[0] == be16(k as u16)[0] && b[1] == be16(k as u16)[1]);
        assert(from_be16(b[0], b[1]) == k);
        assert(b.len() >= 2 + k);
        assert(b.subrange(2, 2 + k) =~= m.take(k));
        assert(b.skip(2 + k) =~= chunk_message(m.skip(k)) + rest);
        lemma_dechunk_chunk(m.skip(k), rest);
        assert(m.take(k) + m.skip(k) =~= m);
        assert(b.len() - rest.len() == 2 + k + chunk_message(m.skip(k)).len());
        assert(chunk_message(m).len() == 2 + k + chunk_message(m.skip(k)).len());
    }
}

/// Frames a message for the wire: its chunks in order, each with its
/// length header, closed by the zero-length terminator.
pub fn chunk(message: &[u8]) -> (r: Vec<u8>)
    ensures
        r@ == chunk_message(message@),
{
    let mut out: Vec<u8> = Vec::new();
    let n = message.len();
    let mut off: usize = 0;
    proof {
        assert(message@.skip(0) =~= message@);
        assert(Seq::<u8>::empty() + chunk_body(message@) =~= chunk_body(message@));
    }
    while off < n
        invariant
            off <= n,
            n == message@.len(),
            out@ + chunk_body(message@.skip(off as int)) == chunk_body(message@),
        decreases n - off,
    {
        let remaining = n - off;
        let k: usize = if remaining <= MAX_CHUNK {
            remaining
        } else {
            MAX_CHUNK
        };
        let ghost rem_seq = message@.skip(off as int);
        let ghost out_before = out@;
        push_be16(&mut out, k as u16);
        let part = slice_subrange(message, off, off + k);
        push_bytes(&mut out, part);
        proof {
            assert(part@ =~= rem_seq.take(k as int));
            assert(rem_seq.skip(k as int) =~= message@.skip(off as int + k as int));
            assert(chunk_body(rem_seq) == be16(k as u16) + rem_seq.take(k as int) + chunk_body(
                rem_seq.skip(k as int),
            ));
            assert(out@ =~= out_before + (be16(k as u16) + rem_seq.take(k as int)));
            assert(out@ + chunk_body(message@.skip(off as int + k as int)) =~= out_before
                + chunk_body(rem_seq));
        }
        off = off + k;
    }
    proof {
        assert(message@.skip(n as int) =~= Seq::<u8>::empty());
        assert(out@ + Seq::<u8>::empty() =~= out@);
    }
    out.push(0);
    out.push(0);
    proof {
        assert(out@ =~= chunk_body(message@) + seq![0u8, 0u8]);
    }
    out
}

/// Reassembles one framed message from the front of the input: the
/// concatenated chunk bodies and the bytes consumed, or `Truncated` when
/// the input ends before the terminator.
pub fn dechunk(b: &[u8]) -> (r: Result<(Vec<u8>, usize), DecodeError>)
    ensures
        match spec_dechunk(b@) {
            Ok(p) => r matches Ok(q) && q.0@ == p.0 && q.1 == p.1 && q.1 <= b@.len(),
            Err(e) => r matches Err(e2) && e2 == e,
        },
{
    proof {
        lemma_dechunk_bound(b@);
    }
    let mut acc: Vec<u8> = Vec::new();
    let mut pos: usize = 0;
    let n = b.len();
    proof {
        assert(b@.skip(0) =~= b@);
    }
    loop
        invariant
            pos <= n,
            n == b@.len(),
            spec_dechunk(b@) == (match spec_dechunk(b@.skip(pos as int)) {
                Ok(p) => Ok::<(Seq<u8>, nat), DecodeError>((acc@ + p.0, (pos + p.1) as nat)),
                Err(e) => Err::<(Seq<u8>, nat), DecodeError>(e),
            }),
        decreases n - pos,
    {
        let ghost suf = b@.skip(pos as int);
        if n - pos < 2 {
            return Err(DecodeError::Truncated);
        }
        assert(suf[0] == b@[pos as int] && suf[1] == b@[pos as int + 1]);
        let l = read_be16(b[pos], b[pos + 1]);
        if l == 0 {
            proof {
                assert(acc@ + Seq::<u8>::empty() =~= acc@);
            }
            return Ok((acc, pos + 2));
        }
        if n - (pos + 2) < l as usize {
            return Err(DecodeError::Truncated);
        }
        let ghost acc_before = acc@;
        let part = slice_subrange(b, pos + 2, pos + 2 + l as usize);
        push_bytes(&mut acc, part);
        proof {
            assert(part@ =~= suf.subrange(2, 2 + l as int));
            assert(suf.skip(2 + l as int) =~= b@.skip(pos as int + 2 + l as int));
            match spec_dechunk(b@.skip(pos as int + 2 + l as int)) {
                Ok(p) => {
                    assert(acc_before + (suf.subrange(2, 2 + l as int) + p.0) =~= (acc_before
                        + suf.subrange(2, 2 + l as int)) + p.0);
                },
                Err(_e) => {},
            }
        }
        pos = pos + 2 + l as usize;
    }
}

} // verus!
