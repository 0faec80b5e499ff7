//! The executable PackStream decoder, proved to return exactly the value and
//! byte count the specification functions describe, and the same error on
//! every input they refuse.

use vstd::prelude::*;

use crate::bytes::{read_be16, read_be32, u16_to_i16, u32_to_i32, u64_to_i64, u8_to_i8};
use crate::packstream::{dec, dec_items, dec_pairs, dec_size, dec_str, dec_struct_size,
    is_struct_marker, lemma_dec_bound, lemma_dec_items_bound, lemma_dec_pairs_bound, DecodeError,
    DEFAULT_DEPTH};
use crate::value::{lemma_models_push, lemma_pair_models_push, Value, ValueView};
use vstd::slice::{slice_subrange, slice_to_vec};
use vstd::utf8::valid_utf8;

verus! {

broadcast use vstd::std_specs::vec::group_vec_axioms;

/// The input from position `pos` on: what one decoding step works on.
pub open spec fn tail_from(b: Seq<u8>, pos: int) -> Seq<u8> {
    b.subrange(pos, b.len() as int)
}

/// Relies on `core::str::from_utf8`: it accepts a byte slice exactly when
/// the bytes are well-formed UTF-8.
#[verifier::external_body]
fn utf8_check(s: &[u8]) -> (r: bool)
    ensures
        r == valid_utf8(s@),
{
    core::str::from_utf8(s).is_ok()
}

/// Reads the marker and length field of a string, list or map whose marker
/// byte is already known to belong to the kind given by the four markers.
fn read_size(b: &[u8], pos: usize, tiny: u8, m8: u8, m16: u8, m32: u8) -> (r: Result<
    (u32, usize),
    DecodeError,
>)
    requires
        pos < b@.len(),
        tiny as int + 15 < 256,
        (tiny <= b@[pos as int] <= tiny + 15) || b@[pos as int] == m8 || b@[pos as int] == m16
            || b@[pos as int] == m32,
    ensures
        match dec_size(tail_from(b@, pos as int), tiny, m8, m16, m32) {
            Ok(p) => r matches Ok(q) && q.0 == p.0 && pos + p.1 == q.1 && q.1 <= b@.len(),
            Err(e) => r matches Err(e2) && e2 == e,
        },
{
    let ghost suf = tail_from(b@, pos as int);
    assert(suf[0] == b@[pos as int]);
    let m = b[pos];
    if m == m8 {
        if b.len() - pos >= 2 {
            assert(suf[1] == b@[pos + 1]);
            Ok((b[pos + 1] as u32, pos + 2))
        } else {
            Err(DecodeError::Truncated)
        }
    } else if m == m16 {
        if b.len() - pos >= 3 {
            assert(suf[1] == b@[pos + 1] && suf[2] == b@[pos + 2]);
            let len = read_be16(b[pos + 1], b[pos + 2]);
            Ok((len as u32, pos + 3))
        } else {
            Err(DecodeError::Truncated)
        }
    } else if m == m32 {
        if b.len() - pos >= 5 {
            assert(suf[1] == b@[pos + 1] && suf[2] == b@[pos + 2] && suf[3] == b@[pos + 3] && suf[4]
                == b@[pos + 4]);
            let len = read_be32(b[pos + 1], b[pos + 2], b[pos + 3], b[pos + 4]);
            Ok((len, pos + 5))
        } else {
            Err(DecodeError::Truncated)
        }
    } else {
        Ok(((m - tiny) as u32, pos + 1))
    }
}

/// Reads the marker and size field of a structure whose marker byte is
/// already known to open a structure.
fn read_struct_size(b: &[u8], pos: usize) -> (r: Result<(u32, usize), DecodeError>)
    requires
        pos < b@.len(),
        is_struct_marker(b@[pos as int]),
    ensures
        match dec_struct_size(tail_from(b@, pos as int)) {
            Ok(p) => r matches Ok(q) && q.0 == p.0 && pos + p.1 == q.1 && q.1 <= b@.len(),
            Err(e) => r matches Err(e2) && e2 == e,
        },
{
    let ghost suf = tail_from(b@, pos as int);
    assert(suf[0] == b@[pos as int]);
    let m = b[pos];
    if m == 0xDC {
        if b.len() - pos >= 2 {
            assert(suf[1] == b@[pos + 1]);
            Ok((b[pos + 1] as u32, pos + 2))
        } else {
            Err(DecodeError::Truncated)
        }
    } else if m == 0xDD {
        if b.len() - pos >= 3 {
            assert(suf[1] == b@[pos + 1] && suf[2] == b@[pos + 2]);
            let len = read_be16(b[pos + 1], b[pos + 2]);
            Ok((len as u32, pos + 3))
        } else {
            Err(DecodeError::Truncated)
        }
    } else {
        Ok(((m - 0xB0) as u32, pos + 1))
    }
}

/// Decodes one string at `pos`: marker, length field, payload, UTF-8 check.
fn decode_string(b: &[u8], pos: usize) -> (r: Result<(Vec<u8>, usize), DecodeError>)
    requires
        pos <= b@.len(),
    ensures
        match dec_str(tail_from(b@, pos as int)) {
            Ok(p) => r matches Ok(q) && q.0@ == p.0 && pos + p.1 == q.1 && q.1 <= b@.len(),
            Err(e) => r matches Err(e2) && e2 == e,
        },
{
    let ghost suf = tail_from(b@, pos as int);
    if pos == b.len() {
        return Err(DecodeError::Truncated);
    }
    assert(suf[0] == b@[pos as int]);
    let m = b[pos];
    if !((0x80 <= m && m <= 0x8F) || m == 0xD0 || m == 0xD1 || m == 0xD2) {
        return Err(DecodeError::UnknownMarker(m));
    }
    match read_size(b, pos, 0x80, 0xD0, 0xD1, 0xD2) {
        Err(e) => Err(e),
        Ok((len, next)) => {
            if b.len() - next >= len as usize {
                let end = next + len as usize;
                let payload = slice_subrange(b, next, end);
                assert(payload@ =~= suf.subrange(
                    (next - pos) as int,
                    (next - pos) as int + len as int,
                ));
                if utf8_check(payload) {
                    let bytes = slice_to_vec(payload);
                    Ok((bytes, end))
                } else {
                    Err(DecodeError::InvalidUtf8)
                }
            } else {
                Err(DecodeError::Truncated)
            }
        },
    }
}

/// Decodes one value at `pos` under recursion cap `d`: exactly the value
/// and byte count of the specification decoder, or its error.
#[verifier::rlimit(60)]
#[verifier::spinoff_prover]
pub fn decode_value(b: &[u8], pos: usize, d: usize) -> (r: Result<(Value, usize), DecodeError>)
    requires
        pos <= b@.len(),
    ensures
        match dec(tail_from(b@, pos as int), d as nat) {
            Ok(p) => r matches Ok(q) && q.0@ == p.0 && pos + p.1 == q.1 && q.1 <= b@.len(),
            Err(e) => r matches Err(e2) && e2 == e,
        },
    decreases d, 0nat, 1nat,
{
    let ghost suf = tail_from(b@, pos as int);
    proof {
        lemma_dec_bound(suf, d as nat);
    }
    if pos == b.len() {
        return Err(DecodeError::Truncated);
    }
    assert(suf[0] == b@[pos as int]);
    let m = b[pos];
    if m <= 0x7F {
        Ok((Value::Int(m as i64), pos + 1))
    } else if m >= 0xF0 {
        Ok((Value::Int(u8_to_i8(m) as i64), pos + 1))
    } else if m == 0xC0 {
        Ok((Value::Null, pos + 1))
    } else if m == 0xC2 {
        Ok((Value::Bool(false), pos + 1))
    } else if m == 0xC3 {
        Ok((Value::Bool(true), pos + 1))
    } else if m == 0xC8 {
        if b.len() - pos >= 2 {
            assert(suf[1] == b@[pos + 1]);
            Ok((Value::Int(u8_to_i8(b[pos + 1]) as i64), pos + 2))
        } else {
            Err(DecodeError::Truncated)
        }
    } else if m == 0xC9 {
        if b.len() - pos >= 3 {
            assert(suf[1] == b@[pos + 1] && suf[2] == b@[pos + 2]);
            let n = read_be16(b[pos + 1], b[pos + 2]);
            Ok((Value::Int(u16_to_i16(n) as i64), pos + 3))
        } else {
            Err(DecodeError::Truncated)
        }
    } else if m == 0xCA {
        if b.len() - pos >= 5 {
            assert(suf[1] == b@[pos + 1] && suf[2] == b@[pos + 2] && suf[3] == b@[pos + 3] && suf[4]
                == b@[pos + 4]);
            let n = read_be32(b[pos + 1], b[pos + 2], b[pos + 3], b[pos + 4]);
            Ok((Value::Int(u32_to_i32(n) as i64), pos + 5))
        } else {
            Err(DecodeError::Truncated)
        }
    } else if m == 0xCB {
        if b.len() - pos >= 9 {
            assert(forall|k: int| 1 <= k < 9 ==> suf[k] == b@[pos + k]);
            let hi = read_be32(b[pos + 1], b[pos + 2], b[pos + 3], b[pos + 4]);
            let lo = read_be32(b[pos + 5], b[pos + 6], b[pos + 7], b[pos + 8]);
            let bits = (hi as u64) * 0x1_0000_0000 + (lo as u64);
            Ok((Value::Int(u64_to_i64(bits)), pos + 9))
        } else {
            Err(DecodeError::Truncated)
        }
    } else if m == 0xC1 {
        if b.len() - pos >= 9 {
            assert(forall|k: int| 1 <= k < 9 ==> suf[k] == b@[pos + k]);
            let hi = read_be32(b[pos + 1], b[pos + 2], b[pos + 3], b[pos + 4]);
            let lo = read_be32(b[pos + 5], b[pos + 6], b[pos + 7], b[pos + 8]);
            let bits = (hi as u64) * 0x1_0000_0000 + (lo as u64);
            Ok((Value::Float(bits), pos + 9))
        } else {
            Err(DecodeError::Truncated)
        }
    } else if (0x80 <= m && m <= 0x8F) || m == 0xD0 || m == 0xD1 || m == 0xD2 {
        match decode_string(b, pos) {
            Err(e) => Err(e),
            Ok((bytes, end)) => Ok((Value::Str(bytes), end)),
        }
    } else if (0x90 <= m && m <= 0x9F) || m == 0xD4 || m == 0xD5 || m == 0xD6 {
        if d == 0 {
            return Err(DecodeError::DepthExceeded);
        }
        match read_size(b, pos, 0x90, 0xD4, 0xD5, 0xD6) {
            Err(e) => Err(e),
            Ok((n, next)) => {
                proof {
                    assert(suf.subrange((next - pos) as int, suf.len() as int) =~= tail_from(
                        b@,
                        next as int,
                    ));
                }
                match decode_items(b, next, n, d - 1) {
                    Err(e) => Err(e),
                    Ok((items, end)) => Ok((Value::List(items), end)),
                }
            },
        }
    } else if (0xA0 <= m && m <= 0xAF) || m == 0xD8 || m == 0xD9 || m == 0xDA {
        if d == 0 {
            return Err(DecodeError::DepthExceeded);
        }
        match read_size(b, pos, 0xA0, 0xD8, 0xD9, 0xDA) {
            Err(e) => Err(e),
            Ok((n, next)) => {
                proof {
                    assert(suf.subrange((next - pos) as int, suf.len() as int) =~= tail_from(
                        b@,
                        next as int,
                    ));
                }
                match decode_pairs(b, next, n, d - 1) {
                    Err(e) => Err(e),
                    Ok((pairs, end)) => Ok((Value::Dict(pairs), end)),
                }
            },
        }
    } else if (0xB0 <= m && m <= 0xBF) || m == 0xDC || m == 0xDD {
        if d == 0 {
            return Err(DecodeError::DepthExceeded);
        }
        match read_struct_size(b, pos) {
            Err(e) => Err(e),
            Ok((n, next)) => {
                if b.len() - next >= 1 {
                    assert(suf[(next - pos) as int] == b@[next as int]);
                    let sig = b[next];
                    proof {
                        assert(suf.subrange((next - pos + 1) as int, suf.len() as int) =~=
                            tail_from(b@, (next + 1) as int));
                    }
                    match decode_items(b, next + 1, n, d - 1) {
                        Err(e) => Err(e),
                        Ok((fields, end)) => Ok((Value::Structure(sig, fields), end)),
                    }
                } else {
                    Err(DecodeError::Truncated)
                }
            },
        }
    } else {
        Err(DecodeError::UnknownMarker(m))
    }
}

/// Decodes `n` consecutive values starting at `pos`, as the body of a list
/// or a structure.
fn decode_items(b: &[u8], pos: usize, n: u32, d: usize) -> (r: Result<
    (Vec<Value>, usize),
    DecodeError,
>)
    requires
        pos <= b@.len(),
    ensures
        match dec_items(tail_from(b@, pos as int), n as nat, d as nat) {
            Ok(p) => r matches Ok(q) && Value::models(q.0@) == p.0 && pos + p.1 == q.1 && q.1
                <= b@.len(),
            Err(e) => r matches Err(e2) && e2 == e,
        },
    decreases d, n, 0nat,
{
    proof {
        lemma_dec_items_bound(tail_from(b@, pos as int), n as nat, d as nat);
    }
    let mut acc: Vec<Value> = Vec::new();
    let mut cur: usize = pos;
    let mut k: u32 = 0;
    proof {
        assert(Value::models(acc@) =~= Seq::<ValueView>::empty());
    }
    while k < n
        invariant
            pos <= cur <= b@.len(),
            k <= n,
            dec_items(tail_from(b@, pos as int), n as nat, d as nat) == (match dec_items(
                tail_from(b@, cur as int),
                (n - k) as nat,
                d as nat,
            ) {
                Ok(p) => Ok::<(Seq<ValueView>, nat), DecodeError>(
                    (Value::models(acc@) + p.0, ((cur - pos) + p.1) as nat),
                ),
                Err(e) => Err::<(Seq<ValueView>, nat), DecodeError>(e),
            }),
        decreases n - k,
    {
        let ghost tail_cur = tail_from(b@, cur as int);
        match decode_value(b, cur, d) {
            Err(e) => {
                return Err(e);
            },
            Ok((v, next)) => {
                proof {
                    let used = (next - cur) as nat;
                    assert(dec(tail_cur, d as nat) == Ok::<(ValueView, nat), DecodeError>(
                        (v@, used),
                    ));
                    assert(tail_cur.subrange(used as int, tail_cur.len() as int) =~= tail_from(
                        b@,
                        next as int,
                    ));
                    lemma_models_push(acc@, v);
                    match dec_items(tail_from(b@, next as int), (n - k - 1) as nat, d as nat) {
                        Ok(p) => {
                            assert(Value::models(acc@) + (seq![v@] + p.0) =~= Value::models(
                                acc@.push(v),
                            ) + p.0);
                        },
                        Err(_e) => {},
                    }
                }
                acc.push(v);
                cur = next;
                k += 1;
            },
        }
    }
    proof {
        assert(Value::models(acc@) + Seq::<ValueView>::empty() =~= Value::models(acc@));
    }
    Ok((acc, cur))
}

/// Decodes `n` consecutive key/value pairs starting at `pos`, as the body
/// of a map.
fn decode_pairs(b: &[u8], pos: usize, n: u32, d: usize) -> (r: Result<
    (Vec<(Vec<u8>, Value)>, usize),
    DecodeError,
>)
    requires
        pos <= b@.len(),
    ensures
        match dec_pairs(tail_from(b@, pos as int), n as nat, d as nat) {
            Ok(p) => r matches Ok(q) && Value::pair_models(q.0@) == p.0 && pos + p.1 == q.1 && q.1
                <= b@.len(),
            Err(e) => r matches Err(e2) && e2 == e,
        },
    decreases d, n, 0nat,
{
    proof {
        lemma_dec_pairs_bound(tail_from(b@, pos as int), n as nat, d as nat);
    }
    let mut acc: Vec<(Vec<u8>, Value)> = Vec::new();
    let mut cur: usize = pos;
    let mut k: u32 = 0;
    proof {
        assert(Value::pair_models(acc@) =~= Seq::<(Seq<u8>, ValueView)>::empty());
    }
    while k < n
        invariant
            pos <= cur <= b@.len(),
            k <= n,
            dec_pairs(tail_from(b@, pos as int), n as nat, d as nat) == (match dec_pairs(
                tail_from(b@, cur as int),
                (n - k) as nat,
                d as nat,
            ) {
                Ok(p) => Ok::<(Seq<(Seq<u8>, ValueView)>, nat), DecodeError>(
                    (Value::pair_models(acc@) + p.0, ((cur - pos) + p.1) as nat),
                ),
                Err(e) => Err::<(Seq<(Seq<u8>, ValueView)>, nat), DecodeError>(e),
            }),
        decreases n - k,
    {
        let ghost tail_cur = tail_from(b@, cur as int);
        let (key, key_end) = match decode_string(b, cur) {
            Err(e) => {
                return Err(e);
            },
            Ok(p) => p,
        };
        proof {
            let kused = (key_end - cur) as nat;
            assert(dec_str(tail_cur) == Ok::<(Seq<u8>, nat), DecodeError>((key@, kused)));
            assert(tail_cur.subrange(kused as int, tail_cur.len() as int) =~= tail_from(
                b@,
                key_end as int,
            ));
        }
        let (v, next) = match decode_value(b, key_end, d) {
            Err(e) => {
                return Err(e);
            },
            Ok(p) => p,
        };
        proof {
            let kused = (key_end - cur) as nat;
            let vused = (next - key_end) as nat;
            assert(dec(tail_from(b@, key_end as int), d as nat) == Ok::<
                (ValueView, nat),
                DecodeError,
            >((v@, vused)));
            assert(tail_cur.subrange((kused + vused) as int, tail_cur.len() as int) =~= tail_from(
                b@,
                next as int,
            ));
            lemma_pair_models_push(acc@, (key, v));
            match dec_pairs(tail_from(b@, next as int), (n - k - 1) as nat, d as nat) {
                Ok(p) => {
                    assert(Value::pair_models(acc@) + (seq![(key@, v@)] + p.0) =~=
                        Value::pair_models(acc@.push((key, v))) + p.0);
                },
                Err(_e) => {},
            }
        }
        acc.push((key, v));
        cur = next;
        k += 1;
    }
    proof {
        assert(Value::pair_models(acc@) + Seq::<(Seq<u8>, ValueView)>::empty() =~=
            Value::pair_models(acc@));
    }
    Ok((acc, cur))
}

/// Decodes the first value of the input under the default recursion cap:
/// the typed value and the count of bytes consumed, or the error the
/// specification decoder gives for this input.
pub fn decode(bytes: &[u8]) -> (r: Result<(Value, usize), DecodeError>)
    ensures
        match dec(bytes@, DEFAULT_DEPTH as nat) {
            Ok(p) => r matches Ok(q) && q.0@ == p.0 && q.1 == p.1 && q.1 <= bytes@.len(),
            Err(e) => r matches Err(e2) && e2 == e,
        },
{
    proof {
        assert(tail_from(bytes@, 0) =~= bytes@);
    }
    decode_value(bytes, 0, DEFAULT_DEPTH)
}

} // verus!
