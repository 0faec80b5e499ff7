//! The PackStream wire format as mathematics: what byte sequence a value
//! encodes to, what value a byte sequence decodes to, and the predicates that
//! say when encoding is possible. The executable encoder and decoder are
//! proved against these functions, and the round-trip laws relate them.

use vstd::prelude::*;

use crate::bytes::{be16, be32, be64, from_be16, from_be32, from_be64, i16_of_u16, i32_of_u32,
    i64_of_u64, i8_of_u8, u16_of_i16, u32_of_i32, u64_of_i64, u8_of_i8};
use crate::value::ValueView;
use vstd::utf8::valid_utf8;

verus! {

/// Why a value cannot be encoded: some length exceeds what its length field
/// can carry (2^32 - 1 for strings, lists and maps; 65535 for structures).
#[derive(Clone, Copy, Debug, PartialEq, Eq, Structural)]
pub enum EncodeError {
    StringTooLong,
    ListTooLong,
    MapTooLong,
    StructTooLong,
}

/// Why a byte sequence cannot be decoded.
#[derive(Clone, Copy, Debug, PartialEq, Eq, Structural)]
pub enum DecodeError {
    /// The input ends before the value it announces is complete.
    Truncated,
    /// The leading byte is not a marker of the format, or a map key does not
    /// start with a string marker.
    UnknownMarker(u8),
    /// A string's bytes are not well-formed UTF-8.
    InvalidUtf8,
    /// Values nest deeper than the decoder's recursion cap.
    DepthExceeded,
}

/// The recursion cap the top-level decoder applies.
pub const DEFAULT_DEPTH: usize = 64;

// ---------------------------------------------------------------------------
// Encoding
// ---------------------------------------------------------------------------

/// The encoding of an integer: the narrowest class whose range covers it.
pub open spec fn enc_int(i: i64) -> Seq<u8> {
    if -16 <= i <= 127 {
        seq![u8_of_i8(i as i8)]
    } else if -128 <= i < -16 {
        seq![0xC8u8, u8_of_i8(i as i8)]
    } else if -32768 <= i <= 32767 {
        seq![0xC9u8] + be16(u16_of_i16(i as i16))
    } else if -0x8000_0000 <= i <= 0x7FFF_FFFF {
        seq![0xCAu8] + be32(u32_of_i32(i as i32))
    } else {
        seq![0xCBu8] + be64(u64_of_i64(i))
    }
}

/// The marker and length field for a string, list or map of `len` elements:
/// the narrowest of the kind's four size classes that fits. `tiny` is the
/// kind's tiny-class base marker; `m8`, `m16` and `m32` its wider markers.
pub open spec fn size_header(len: nat, tiny: u8, m8: u8, m16: u8, m32: u8) -> Seq<u8>
    recommends
        len <= 0xFFFF_FFFF,
{
    if len <= 15 {
        seq![(tiny + len) as u8]
    } else if len <= 255 {
        seq![m8, len as u8]
    } else if len <= 65535 {
        seq![m16] + be16(len as u16)
    } else {
        seq![m32] + be32(len as u32)
    }
}

/// The marker and size field for a structure of `n` fields: tiny for up to
/// 15, one length byte up to 255, two length bytes up to 65535.
pub open spec fn struct_header(n: nat) -> Seq<u8>
    recommends
        n <= 0xFFFF,
{
    if n <= 15 {
        seq![(0xB0 + n) as u8]
    } else if n <= 255 {
        seq![0xDCu8, n as u8]
    } else {
        seq![0xDDu8] + be16(n as u16)
    }
}

/// The bytes a value encodes to. Total as a function; the bytes mean the
/// value only where [`encodable`] holds.
pub open spec fn enc(v: ValueView) -> Seq<u8>
    decreases v,
{
    match v {
        ValueView::Null => seq![0xC0u8],
        ValueView::Bool(b) => if b {
            seq![0xC3u8]
        } else {
            seq![0xC2u8]
        },
        ValueView::Int(i) => enc_int(i),
        ValueView::Float(bits) => seq![0xC1u8] + be64(bits),
        ValueView::Str(s) => size_header(s.len(), 0x80, 0xD0, 0xD1, 0xD2) + s,
        ValueView::List(items) => size_header(items.len(), 0x90, 0xD4, 0xD5, 0xD6) + enc_items(
            items,
        ),
        ValueView::Dict(pairs) => size_header(pairs.len(), 0xA0, 0xD8, 0xD9, 0xDA) + enc_pairs(
            pairs,
        ),
        ValueView::Structure(sig, fields) => struct_header(fields.len()) + seq![sig] + enc_items(
            fields,
        ),
    }
}

/// The concatenated encodings of a sequence of values, in order.
pub open spec fn enc_items(s: Seq<ValueView>) -> Seq<u8>
    decreases s,
{
    if s.len() == 0 {
        Seq::empty()
    } else {
        enc(s[0]) + enc_items(s.subrange(1, s.len() as int))
    }
}

/// The concatenated encodings of a sequence of key/value pairs, in order:
/// each key as a string, then its value.
pub open spec fn enc_pairs(s: Seq<(Seq<u8>, ValueView)>) -> Seq<u8>
    decreases s,
{
    if s.len() == 0 {
        Seq::empty()
    } else {
        size_header(s[0].0.len(), 0x80, 0xD0, 0xD1, 0xD2) + s[0].0 + enc(s[0].1) + enc_pairs(
            s.subrange(1, s.len() as int),
        )
    }
}

/// The first length-field overflow the encoder meets walking the value in
/// encoding order, or `None` when every length fits.
pub open spec fn enc_check(v: ValueView) -> Option<EncodeError>
    decreases v,
{
    match v {
        ValueView::Str(s) => if s.len() > 0xFFFF_FFFF {
            Some(EncodeError::StringTooLong)
        } else {
            None
        },
        ValueView::List(items) => if items.len() > 0xFFFF_FFFF {
            Some(EncodeError::ListTooLong)
        } else {
            enc_check_items(items)
        },
        ValueView::Dict(pairs) => if pairs.len() > 0xFFFF_FFFF {
            Some(EncodeError::MapTooLong)
        } else {
            enc_check_pairs(pairs)
        },
        ValueView::Structure(_sig, fields) => if fields.len() > 0xFFFF {
            Some(EncodeError::StructTooLong)
        } else {
            enc_check_items(fields)
        },
        _ => None,
    }
}

/// The first overflow among the encodings of a sequence of values.
pub open spec fn enc_check_items(s: Seq<ValueView>) -> Option<EncodeError>
    decreases s,
{
    if s.len() == 0 {
        None
    } else if enc_check(s[0]) is Some {
        enc_check(s[0])
    } else {
        enc_check_items(s.subrange(1, s.len() as int))
    }
}

/// The first overflow among the encodings of a sequence of pairs; an
/// over-long key is a string overflow.
pub open spec fn enc_check_pairs(s: Seq<(Seq<u8>, ValueView)>) -> Option<EncodeError>
    decreases s,
{
    if s.len() == 0 {
        None
    } else if s[0].0.len() > 0xFFFF_FFFF {
        Some(EncodeError::StringTooLong)
    } else if enc_check(s[0].1) is Some {
        enc_check(s[0].1)
    } else {
        enc_check_pairs(s.subrange(1, s.len() as int))
    }
}

/// Every length field of the value fits its widest class: the encoder
/// succeeds exactly on these values.
pub open spec fn encodable(v: ValueView) -> bool {
    enc_check(v) is None
}

/// Every string in the value - text and map keys alike - is well-formed
/// UTF-8, so the decoder will take it back.
pub open spec fn text_valid(v: ValueView) -> bool
    decreases v,
{
    match v {
        ValueView::Str(s) => valid_utf8(s),
        ValueView::List(items) => text_valid_items(items),
        ValueView::Dict(pairs) => text_valid_pairs(pairs),
        ValueView::Structure(_sig, fields) => text_valid_items(fields),
        _ => true,
    }
}

/// [`text_valid`] over each value of a sequence.
pub open spec fn text_valid_items(s: Seq<ValueView>) -> bool
    decreases s,
{
    if s.len() == 0 {
        true
    } else {
        text_valid(s[0]) && text_valid_items(s.subrange(1, s.len() as int))
    }
}

/// [`text_valid`] over each pair: the key is UTF-8 and the value passes.
pub open spec fn text_valid_pairs(s: Seq<(Seq<u8>, ValueView)>) -> bool
    decreases s,
{
    if s.len() == 0 {
        true
    } else {
        valid_utf8(s[0].0) && text_valid(s[0].1) && text_valid_pairs(
            s.subrange(1, s.len() as int),
        )
    }
}

/// The value nests no deeper than `d` container levels: a decoder run with
/// cap `d` will not refuse it for depth.
pub open spec fn fits_depth(v: ValueView, d: nat) -> bool
    decreases v,
{
    match v {
        ValueView::List(items) => d > 0 && fits_depth_items(items, (d - 1) as nat),
        ValueView::Dict(pairs) => d > 0 && fits_depth_pairs(pairs, (d - 1) as nat),
        ValueView::Structure(_sig, fields) => d > 0 && fits_depth_items(fields, (d - 1) as nat),
        _ => true,
    }
}

/// [`fits_depth`] over each value of a sequence.
pub open spec fn fits_depth_items(s: Seq<ValueView>, d: nat) -> bool
    decreases s,
{
    if s.len() == 0 {
        true
    } else {
        fits_depth(s[0], d) && fits_depth_items(s.subrange(1, s.len() as int), d)
    }
}

/// [`fits_depth`] over the value of each pair.
pub open spec fn fits_depth_pairs(s: Seq<(Seq<u8>, ValueView)>, d: nat) -> bool
    decreases s,
{
    if s.len() == 0 {
        true
    } else {
        fits_depth(s[0].1, d) && fits_depth_pairs(s.subrange(1, s.len() as int), d)
    }
}

// ---------------------------------------------------------------------------
// Markers
// ---------------------------------------------------------------------------

/// The marker bytes that open a string.
pub open spec fn is_str_marker(m: u8) -> bool {
    (0x80 <= m <= 0x8F) || m == 0xD0 || m == 0xD1 || m == 0xD2
}

/// The marker bytes that open a list.
pub open spec fn is_list_marker(m: u8) -> bool {
    (0x90 <= m <= 0x9F) || m == 0xD4 || m == 0xD5 || m == 0xD6
}

/// The marker bytes that open a map.
pub open spec fn is_dict_marker(m: u8) -> bool {
    (0xA0 <= m <= 0xAF) || m == 0xD8 || m == 0xD9 || m == 0xDA
}

/// The marker bytes that open a structure.
pub open spec fn is_struct_marker(m: u8) -> bool {
    (0xB0 <= m <= 0xBF) || m == 0xDC || m == 0xDD
}

/// Every byte the decoder accepts as the first byte of a value.
pub open spec fn is_legal_marker(m: u8) -> bool {
    m <= 0x7F || m >= 0xF0 || m == 0xC0 || m == 0xC1 || m == 0xC2 || m == 0xC3 || (0xC8 <= m
        <= 0xCB) || is_str_marker(m) || is_list_marker(m) || is_dict_marker(m) || is_struct_marker(
        m,
    )
}

// ---------------------------------------------------------------------------
// Decoding
// ---------------------------------------------------------------------------

/// Parses the marker and length field of a string, list or map, given the
/// kind's four markers. The caller has established that `b[0]` is one of
/// them. Returns the announced length and the bytes the header occupies.
pub open spec fn dec_size(b: Seq<u8>, tiny: u8, m8: u8, m16: u8, m32: u8) -> Result<
    (nat, nat),
    DecodeError,
>
    recommends
        b.len() >= 1,
{
    let m = b[0];
    if m == m8 {
        if b.len() >= 2 {
            Ok((b[1] as nat, 2))
        } else {
            Err(DecodeError::Truncated)
        }
    } else if m == m16 {
        if b.len() >= 3 {
            Ok((from_be16(b[1], b[2]) as nat, 3))
        } else {
            Err(DecodeError::Truncated)
        }
    } else if m == m32 {
        if b.len() >= 5 {
            Ok((from_be32(b[1], b[2], b[3], b[4]) as nat, 5))
        } else {
            Err(DecodeError::Truncated)
        }
    } else {
        Ok(((m - tiny) as nat, 1))
    }
}

/// Decodes one string: marker, length field, payload, UTF-8 check. Also the
/// only form a map key may take.
pub open spec fn dec_str(b: Seq<u8>) -> Result<(Seq<u8>, nat), DecodeError> {
    if b.len() == 0 {
        Err(DecodeError::Truncated)
    } else if !is_str_marker(b[0]) {
        Err(DecodeError::UnknownMarker(b[0]))
    } else {
        match dec_size(b, 0x80, 0xD0, 0xD1, 0xD2) {
            Err(e) => Err(e),
            Ok((len, hdr)) => if b.len() >= hdr + len {
                let s = b.subrange(hdr as int, (hdr + len) as int);
                if valid_utf8(s) {
                    Ok((s, hdr + len))
                } else {
                    Err(DecodeError::InvalidUtf8)
                }
            } else {
                Err(DecodeError::Truncated)
            },
        }
    }
}

/// The value the bytes decode to, with the count of bytes consumed, under
/// recursion cap `d`. Containers spend one level of the cap on their
/// children.
pub open spec fn dec(b: Seq<u8>, d: nat) -> Result<(ValueView, nat), DecodeError>
    decreases d, 0nat, 1nat,
{
    if b.len() == 0 {
        Err(DecodeError::Truncated)
    } else {
        let m = b[0];
        if m <= 0x7F {
            Ok((ValueView::Int(m as i64), 1))
        } else if m >= 0xF0 {
            Ok((ValueView::Int(i8_of_u8(m) as i64), 1))
        } else if m == 0xC0 {
            Ok((ValueView::Null, 1))
        } else if m == 0xC2 {
            Ok((ValueView::Bool(false), 1))
        } else if m == 0xC3 {
            Ok((ValueView::Bool(true), 1))
        } else if m == 0xC8 {
            if b.len() >= 2 {
                Ok((ValueView::Int(i8_of_u8(b[1]) as i64), 2))
            } else {
                Err(DecodeError::Truncated)
            }
        } else if m == 0xC9 {
            if b.len() >= 3 {
                Ok((ValueView::Int(i16_of_u16(from_be16(b[1], b[2])) as i64), 3))
            } else {
                Err(DecodeError::Truncated)
            }
        } else if m == 0xCA {
            if b.len() >= 5 {
                Ok((ValueView::Int(i32_of_u32(from_be32(b[1], b[2], b[3], b[4])) as i64), 5))
            } else {
                Err(DecodeError::Truncated)
            }
        } else if m == 0xCB {
            if b.len() >= 9 {
                Ok(
                    (
                        ValueView::Int(
                            i64_of_u64(
                                from_be64(
                                    from_be32(b[1], b[2], b[3], b[4]),
                                    from_be32(b[5], b[6], b[7], b[8]),
                                ),
                            ),
                        ),
                        9,
                    ),
                )
            } else {
                Err(DecodeError::Truncated)
            }
        } else if m == 0xC1 {
            if b.len() >= 9 {
                Ok(
                    (
                        ValueView::Float(
                            from_be64(
                                from_be32(b[1], b[2], b[3], b[4]),
                                from_be32(b[5], b[6], b[7], b[8]),
                            ),
                        ),
                        9,
                    ),
                )
            } else {
                Err(DecodeError::Truncated)
            }
        } else if is_str_marker(m) {
            match dec_str(b) {
                Err(e) => Err(e),
                Ok((s, used)) => Ok((ValueView::Str(s), used)),
            }
        } else if is_list_marker(m) {
            if d == 0 {
                Err(DecodeError::DepthExceeded)
            } else {
                match dec_size(b, 0x90, 0xD4, 0xD5, 0xD6) {
                    Err(e) => Err(e),
                    Ok((n, hdr)) => match dec_items(
                        b.subrange(hdr as int, b.len() as int),
                        n,
                        (d - 1) as nat,
                    ) {
                        Err(e) => Err(e),
                        Ok((items, used)) => Ok((ValueView::List(items), hdr + used)),
                    },
                }
            }
        } else if is_dict_marker(m) {
            if d == 0 {
                Err(DecodeError::DepthExceeded)
            } else {
                match dec_size(b, 0xA0, 0xD8, 0xD9, 0xDA) {
                    Err(e) => Err(e),
                    Ok((n, hdr)) => match dec_pairs(
                        b.subrange(hdr as int, b.len() as int),
                        n,
                        (d - 1) as nat,
                    ) {
                        Err(e) => Err(e),
                        Ok((pairs, used)) => Ok((ValueView::Dict(pairs), hdr + used)),
                    },
                }
            }
        } else if is_struct_marker(m) {
            if d == 0 {
                Err(DecodeError::DepthExceeded)
            } else {
                match dec_struct_size(b) {
                    Err(e) => Err(e),
                    Ok((n, hdr)) => if b.len() >= hdr + 1 {
                        let sig = b[hdr as int];
                        match dec_items(
                            b.subrange((hdr + 1) as int, b.len() as int),
                            n,
                            (d - 1) as nat,
                        ) {
                            Err(e) => Err(e),
                            Ok((fields, used)) => Ok(
                                (ValueView::Structure(sig, fields), hdr + 1 + used),
                            ),
                        }
                    } else {
                        Err(DecodeError::Truncated)
                    },
                }
            }
        } else {
            Err(DecodeError::UnknownMarker(m))
        }
    }
}

/// Parses the marker and size field of a structure.
pub open spec fn dec_struct_size(b: Seq<u8>) -> Result<(nat, nat), DecodeError>
    recommends
        b.len() >= 1,
{
    let m = b[0];
    if m == 0xDC {
        if b.len() >= 2 {
            Ok((b[1] as nat, 2))
        } else {
            Err(DecodeError::Truncated)
        }
    } else if m == 0xDD {
        if b.len() >= 3 {
            Ok((from_be16(b[1], b[2]) as nat, 3))
        } else {
            Err(DecodeError::Truncated)
        }
    } else {
        Ok(((m - 0xB0) as nat, 1))
    }
}

/// Decodes `n` consecutive values, as the body of a list or a structure.
pub open spec fn dec_items(b: Seq<u8>, n: nat, d: nat) -> Result<
    (Seq<ValueView>, nat),
    DecodeError,
>
    decreases d, n, 0nat,
{
    if n == 0 {
        Ok((Seq::empty(), 0))
    } else {
        match dec(b, d) {
            Err(e) => Err(e),
            Ok((v, used)) => match dec_items(
                b.subrange(used as int, b.len() as int),
                (n - 1) as nat,
                d,
            ) {
                Err(e) => Err(e),
                Ok((vs, used2)) => Ok((seq![v] + vs, used + used2)),
            },
        }
    }
}

/// A one-value body encodes to that value's encoding.
pub proof fn lemma_enc_items_singleton(x: ValueView)
    ensures
        enc_items(seq![x]) == enc(x),
        enc_check_items(seq![x]) == enc_check(x),
{
    reveal_with_fuel(enc_items, 2);
    reveal_with_fuel(enc_check_items, 2);
    let s = seq![x];
    assert(s.subrange(1, 1) =~= Seq::<ValueView>::empty());
    assert(enc(x) + Seq::<u8>::empty() =~= enc(x));
}

/// Bodies concatenate: encoding values of two sequences one after the other
/// is the concatenation of their encodings, and the first length overflow of
/// the whole is the first of the left part, else the first of the right.
pub proof fn lemma_enc_items_concat(s1: Seq<ValueView>, s2: Seq<ValueView>)
    ensures
        enc_items(s1 + s2) == enc_items(s1) + enc_items(s2),
        enc_check_items(s1 + s2) == if enc_check_items(s1) is Some {
            enc_check_items(s1)
        } else {
            enc_check_items(s2)
        },
    decreases s1,
{
    if s1.len() == 0 {
        assert(s1 + s2 =~= s2);
        assert(enc_items(s1) + enc_items(s2) =~= enc_items(s2));
    } else {
        let tail = s1.subrange(1, s1.len() as int);
        lemma_enc_items_concat(tail, s2);
        assert((s1 + s2)[0] == s1[0]);
        assert((s1 + s2).subrange(1, (s1 + s2).len() as int) =~= tail + s2);
        assert(enc(s1[0]) + (enc_items(tail) + enc_items(s2)) =~= (enc(s1[0]) + enc_items(tail))
            + enc_items(s2));
    }
}

/// In a sequence that passes the length checks, every value passes them.
pub proof fn lemma_enc_check_items_elem(s: Seq<ValueView>, i: int)
    requires
        enc_check_items(s) is None,
        0 <= i < s.len(),
    ensures
        enc_check(s[i]) is None,
    decreases s,
{
    if i > 0 {
        lemma_enc_check_items_elem(s.subrange(1, s.len() as int), i - 1);
    }
}

/// In a pair sequence that passes the length checks, every key fits a
/// string length field and every value passes them.
pub proof fn lemma_enc_check_pairs_elem(s: Seq<(Seq<u8>, ValueView)>, i: int)
    requires
        enc_check_pairs(s) is None,
        0 <= i < s.len(),
    ensures
        s[i].0.len() <= 0xFFFF_FFFF,
        enc_check(s[i].1) is None,
    decreases s,
{
    if i > 0 {
        lemma_enc_check_pairs_elem(s.subrange(1, s.len() as int), i - 1);
    }
}

/// A successful decode consumes no more bytes than it was given.
pub proof fn lemma_dec_bound(b: Seq<u8>, d: nat)
    ensures
        dec(b, d) matches Ok(r) ==> r.1 <= b.len(),
    decreases d, 0nat, 1nat,
{
    if b.len() > 0 {
        let m = b[0];
        if is_str_marker(m) {
        } else if is_list_marker(m) && d > 0 {
            if let Ok((n, hdr)) = dec_size(b, 0x90, 0xD4, 0xD5, 0xD6) {
                lemma_dec_items_bound(b.subrange(hdr as int, b.len() as int), n, (d - 1) as nat);
            }
        } else if is_dict_marker(m) && d > 0 {
            if let Ok((n, hdr)) = dec_size(b, 0xA0, 0xD8, 0xD9, 0xDA) {
                lemma_dec_pairs_bound(b.subrange(hdr as int, b.len() as int), n, (d - 1) as nat);
            }
        } else if is_struct_marker(m) && d > 0 {
            if let Ok((n, hdr)) = dec_struct_size(b) {
                if b.len() >= hdr + 1 {
                    lemma_dec_items_bound(
                        b.subrange((hdr + 1) as int, b.len() as int),
                        n,
                        (d - 1) as nat,
                    );
                }
            }
        }
    }
}

/// As [`lemma_dec_bound`], for the bodies of lists and structures.
pub proof fn lemma_dec_items_bound(b: Seq<u8>, n: nat, d: nat)
    ensures
        dec_items(b, n, d) matches Ok(r) ==> r.1 <= b.len(),
    decreases d, n, 0nat,
{
    if n > 0 {
        lemma_dec_bound(b, d);
        if let Ok((_v, used)) = dec(b, d) {
            lemma_dec_items_bound(b.subrange(used as int, b.len() as int), (n - 1) as nat, d);
        }
    }
}

/// As [`lemma_dec_bound`], for the body of a map.
pub proof fn lemma_dec_pairs_bound(b: Seq<u8>, n: nat, d: nat)
    ensures
        dec_pairs(b, n, d) matches Ok(r) ==> r.1 <= b.len(),
    decreases d, n, 0nat,
{
    if n > 0 {
        if let Ok((_k, kused)) = dec_str(b) {
            let b2 = b.subrange(kused as int, b.len() as int);
            lemma_dec_bound(b2, d);
            if let Ok((_v, vused)) = dec(b2, d) {
                lemma_dec_pairs_bound(
                    b.subrange((kused + vused) as int, b.len() as int),
                    (n - 1) as nat,
                    d,
                );
            }
        }
    }
}

/// Decodes `n` consecutive key/value pairs, as the body of a map.
pub open spec fn dec_pairs(b: Seq<u8>, n: nat, d: nat) -> Result<
    (Seq<(Seq<u8>, ValueView)>, nat),
    DecodeError,
>
    decreases d, n, 0nat,
{
    if n == 0 {
        Ok((Seq::empty(), 0))
    } else {
        match dec_str(b) {
            Err(e) => Err(e),
            Ok((k, kused)) => match dec(b.subrange(kused as int, b.len() as int), d) {
                Err(e) => Err(e),
                Ok((v, vused)) => match dec_pairs(
                    b.subrange((kused + vused) as int, b.len() as int),
                    (n - 1) as nat,
                    d,
                ) {
                    Err(e) => Err(e),
                    Ok((ps, used2)) => Ok((seq![(k, v)] + ps, kused + vused + used2)),
                },
            },
        }
    }
}

} // verus!
