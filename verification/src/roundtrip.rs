//! The round-trip laws of the codec: decoding what the encoder produced
//! yields the original value, the first byte of every encoding is a legal
//! marker, and an integer's marker is the narrowest class that contains it.

use vstd::prelude::*;

use crate::bytes::{be16, be32, be64, from_be16, from_be32, from_be64, i16_of_u16, i32_of_u32,
    i64_of_u64, i8_of_u8, lemma_be16_round, lemma_be32_round, lemma_be64_round, u16_of_i16,
    u32_of_i32, u64_of_i64, u8_of_i8};
use crate::packstream::{dec, dec_items, dec_pairs, dec_size, dec_str, dec_struct_size, enc,
    enc_check_items, enc_check_pairs, enc_int, enc_items, enc_pairs, encodable,
    fits_depth, fits_depth_items, fits_depth_pairs, is_dict_marker, is_legal_marker,
    is_list_marker, is_str_marker, is_struct_marker, size_header, struct_header, text_valid,
    text_valid_items, text_valid_pairs, DecodeError};
use crate::value::ValueView;
use vstd::utf8::valid_utf8;

verus! {

/// An encoded integer decodes back to itself, whatever follows it.
pub proof fn lemma_enc_int_round(i: i64, rest: Seq<u8>, d: nat)
    ensures
        dec(enc_int(i) + rest, d) == Ok::<(ValueView, nat), DecodeError>(
            (ValueView::Int(i), enc_int(i).len()),
        ),
{
    let b = enc_int(i) + rest;
    if -16 <= i <= 127 {
        assert(b[0] == u8_of_i8(i as i8));
        if i >= 0 {
            assert(b[0] <= 0x7F);
            assert(b[0] as i64 == i);
        } else {
            assert(b[0] >= 0xF0);
            assert(i8_of_u8(b[0]) as i64 == i);
        }
    } else if -128 <= i < -16 {
        assert(b[0] == 0xC8 && b[1] == u8_of_i8(i as i8));
        assert(i8_of_u8(u8_of_i8(i as i8)) as i64 == i);
    } else if -32768 <= i <= 32767 {
        let n = u16_of_i16(i as i16);
        lemma_be16_round(n, 0, 0);
        assert(b[0] == 0xC9);
        assert(b[1] == be16(n)[0] && b[2] == be16(n)[1]);
        assert(from_be16(b[1], b[2]) == n);
        assert(i16_of_u16(n) as i64 == i);
    } else if -0x8000_0000 <= i <= 0x7FFF_FFFF {
        let n = u32_of_i32(i as i32);
        lemma_be32_round(n, 0, 0, 0, 0);
        assert(b[0] == 0xCA);
        assert(b[1] == be32(n)[0] && b[2] == be32(n)[1] && b[3] == be32(n)[2] && b[4] == be32(
            n,
        )[3]);
        assert(from_be32(b[1], b[2], b[3], b[4]) == n);
        assert(i32_of_u32(n) as i64 == i);
    } else {
        let n = u64_of_i64(i);
        let hi = (n / 0x1_0000_0000) as u32;
        let lo = (n % 0x1_0000_0000) as u32;
        lemma_be32_round(hi, 0, 0, 0, 0);
        lemma_be32_round(lo, 0, 0, 0, 0);
        lemma_be64_round(n, hi, lo);
        assert(b[0] == 0xCB);
        assert(be64(n) == be32(hi) + be32(lo));
        assert(forall|k: int| 0 <= k < 4 ==> b[1 + k] == be32(hi)[k]);
        assert(forall|k: int| 0 <= k < 4 ==> b[5 + k] == be32(lo)[k]);
        assert(from_be32(b[1], b[2], b[3], b[4]) == hi);
        assert(from_be32(b[5], b[6], b[7], b[8]) == lo);
        assert(from_be64(hi, lo) == n);
        assert(i64_of_u64(n) == i);
    }
}

/// Parsing back a size header yields the length it was built from, whatever
/// follows the header. The marker arguments are one kind's four markers;
/// the tiny range must not contain the wide markers.
pub proof fn lemma_size_header_round(len: nat, tail: Seq<u8>, tiny: u8, m8: u8, m16: u8, m32: u8)
    requires
        len <= 0xFFFF_FFFF,
        tiny + 15 < 256,
        !(tiny <= m8 <= tiny + 15),
        !(tiny <= m16 <= tiny + 15),
        !(tiny <= m32 <= tiny + 15),
        m8 != m16,
        m8 != m32,
        m16 != m32,
    ensures
        dec_size(size_header(len, tiny, m8, m16, m32) + tail, tiny, m8, m16, m32) == Ok::<
            (nat, nat),
            DecodeError,
        >((len, size_header(len, tiny, m8, m16, m32).len())),
        len <= 15 ==> (size_header(len, tiny, m8, m16, m32) + tail)[0] == tiny + len,
        16 <= len <= 255 ==> (size_header(len, tiny, m8, m16, m32) + tail)[0] == m8,
        256 <= len <= 65535 ==> (size_header(len, tiny, m8, m16, m32) + tail)[0] == m16,
        65536 <= len ==> (size_header(len, tiny, m8, m16, m32) + tail)[0] == m32,
{
    let h = size_header(len, tiny, m8, m16, m32);
    let b = h + tail;
    if len <= 15 {
        assert(b[0] == (tiny + len) as u8);
        assert(((tiny + len) as u8 - tiny) as nat == len);
    } else if len <= 255 {
        assert(b[0] == m8 && b[1] == len as u8);
        assert((len as u8) as nat == len);
    } else if len <= 65535 {
        lemma_be16_round(len as u16, 0, 0);
        assert(b[0] == m16);
        assert(b[1] == be16(len as u16)[0] && b[2] == be16(len as u16)[1]);
        assert(from_be16(b[1], b[2]) == len);
    } else {
        lemma_be32_round(len as u32, 0, 0, 0, 0);
        assert(b[0] == m32);
        assert(b[1] == be32(len as u32)[0] && b[2] == be32(len as u32)[1] && b[3] == be32(
            len as u32,
        )[2] && b[4] == be32(len as u32)[3]);
        assert(from_be32(b[1], b[2], b[3], b[4]) == len);
    }
}

/// Parsing back a structure header yields the field count it was built from.
pub proof fn lemma_struct_header_round(n: nat, tail: Seq<u8>)
    requires
        n <= 0xFFFF,
    ensures
        dec_struct_size(struct_header(n) + tail) == Ok::<(nat, nat), DecodeError>(
            (n, struct_header(n).len()),
        ),
        is_struct_marker((struct_header(n) + tail)[0]),
{
    let h = struct_header(n);
    let b = h + tail;
    if n <= 15 {
        assert(b[0] == (0xB0 + n) as u8);
        assert(((0xB0 + n) as u8 - 0xB0) as nat == n);
    } else if n <= 255 {
        assert(b[0] == 0xDC && b[1] == n as u8);
        assert((n as u8) as nat == n);
    } else {
        lemma_be16_round(n as u16, 0, 0);
        assert(b[0] == 0xDD);
        assert(b[1] == be16(n as u16)[0] && b[2] == be16(n as u16)[1]);
        assert(from_be16(b[1], b[2]) == n);
    }
}

/// An encoded string decodes back to its bytes, whatever follows it.
pub proof fn lemma_dec_str_round(s: Seq<u8>, rest: Seq<u8>)
    requires
        s.len() <= 0xFFFF_FFFF,
        valid_utf8(s),
    ensures
        dec_str(size_header(s.len(), 0x80, 0xD0, 0xD1, 0xD2) + s + rest) == Ok::<
            (Seq<u8>, nat),
            DecodeError,
        >((s, size_header(s.len(), 0x80, 0xD0, 0xD1, 0xD2).len() + s.len())),
        is_str_marker((size_header(s.len(), 0x80, 0xD0, 0xD1, 0xD2) + s + rest)[0]),
{
    let h = size_header(s.len(), 0x80, 0xD0, 0xD1, 0xD2);
    let b = h + s + rest;
    assert(h + s + rest =~= h + (s + rest));
    lemma_size_header_round(s.len(), s + rest, 0x80, 0xD0, 0xD1, 0xD2);
    assert(is_str_marker(b[0]));
    assert(dec_size(b, 0x80, 0xD0, 0xD1, 0xD2) == Ok::<(nat, nat), DecodeError>((s.len(), h.len())));
    assert(b.len() >= h.len() + s.len());
    assert(b.subrange(h.len() as int, (h.len() + s.len()) as int) =~= s);
}

/// Round trip for one value: decoding its encoding, with anything at all
/// appended, returns the value itself and consumes exactly its encoding.
#[verifier::rlimit(60)]
#[verifier::spinoff_prover]
pub proof fn lemma_round(v: ValueView, rest: Seq<u8>, d: nat)
    requires
        encodable(v),
        text_valid(v),
        fits_depth(v, d),
    ensures
        dec(enc(v) + rest, d) == Ok::<(ValueView, nat), DecodeError>((v, enc(v).len())),
    decreases v,
{
    let b = enc(v) + rest;
    match v {
        ValueView::Null => {
            assert(b[0] == 0xC0);
        },
        ValueView::Bool(x) => {
            assert(b[0] == if x { 0xC3u8 } else { 0xC2u8 });
        },
        ValueView::Int(i) => {
            lemma_enc_int_round(i, rest, d);
        },
        ValueView::Float(bits) => {
            let hi = (bits / 0x1_0000_0000) as u32;
            let lo = (bits % 0x1_0000_0000) as u32;
            lemma_be32_round(hi, 0, 0, 0, 0);
            lemma_be32_round(lo, 0, 0, 0, 0);
            lemma_be64_round(bits, hi, lo);
            assert(b[0] == 0xC1);
            assert(be64(bits) == be32(hi) + be32(lo));
            assert(forall|k: int| 0 <= k < 4 ==> b[1 + k] == be32(hi)[k]);
            assert(forall|k: int| 0 <= k < 4 ==> b[5 + k] == be32(lo)[k]);
            assert(from_be32(b[1], b[2], b[3], b[4]) == hi);
            assert(from_be32(b[5], b[6], b[7], b[8]) == lo);
            assert(from_be64(hi, lo) == bits);
        },
        ValueView::Str(s) => {
            lemma_dec_str_round(s, rest);
        },
        ValueView::List(items) => {
            let h = size_header(items.len(), 0x90, 0xD4, 0xD5, 0xD6);
            let body = enc_items(items);
            assert(enc(v) == h + body);
            assert(b =~= h + (body + rest));
            lemma_size_header_round(items.len(), body + rest, 0x90, 0xD4, 0xD5, 0xD6);
            assert(is_list_marker(b[0]));
            assert(dec_size(b, 0x90, 0xD4, 0xD5, 0xD6) == Ok::<(nat, nat), DecodeError>(
                (items.len(), h.len()),
            ));
            assert(b.subrange(h.len() as int, b.len() as int) =~= body + rest);
            lemma_round_items(items, rest, (d - 1) as nat);
            assert(enc(v).len() == h.len() + body.len());
        },
        ValueView::Dict(pairs) => {
            let h = size_header(pairs.len(), 0xA0, 0xD8, 0xD9, 0xDA);
            let body = enc_pairs(pairs);
            assert(enc(v) == h + body);
            assert(b =~= h + (body + rest));
            lemma_size_header_round(pairs.len(), body + rest, 0xA0, 0xD8, 0xD9, 0xDA);
            assert(is_dict_marker(b[0]));
            assert(dec_size(b, 0xA0, 0xD8, 0xD9, 0xDA) == Ok::<(nat, nat), DecodeError>(
                (pairs.len(), h.len()),
            ));
            assert(b.subrange(h.len() as int, b.len() as int) =~= body + rest);
            lemma_round_pairs(pairs, rest, (d - 1) as nat);
            assert(enc(v).len() == h.len() + body.len());
        },
        ValueView::Structure(sig, fields) => {
            let h = struct_header(fields.len());
            let body = enc_items(fields);
            assert(enc(v) == h + seq![sig] + body);
            assert(b =~= h + (seq![sig] + body + rest));
            lemma_struct_header_round(fields.len(), seq![sig] + body + rest);
            assert(is_struct_marker(b[0]));
            assert(dec_struct_size(b) == Ok::<(nat, nat), DecodeError>((fields.len(), h.len())));
            assert(b.len() >= h.len() + 1);
            assert(b[h.len() as int] == sig);
            assert(b.subrange((h.len() + 1) as int, b.len() as int) =~= body + rest);
            lemma_round_items(fields, rest, (d - 1) as nat);
            assert(enc(v).len() == h.len() + 1 + body.len());
        },
    }
}

/// Round trip for the bodies of lists and structures: decoding the
/// concatenated encodings of `s.len()` values returns `s` itself.
#[verifier::rlimit(60)]
#[verifier::spinoff_prover]
pub proof fn lemma_round_items(s: Seq<ValueView>, rest: Seq<u8>, d: nat)
    requires
        enc_check_items(s) is None,
        text_valid_items(s),
        fits_depth_items(s, d),
    ensures
        dec_items(enc_items(s) + rest, s.len(), d) == Ok::<(Seq<ValueView>, nat), DecodeError>(
            (s, enc_items(s).len()),
        ),
    decreases s,
{
    let b = enc_items(s) + rest;
    if s.len() == 0 {
        assert(s =~= Seq::<ValueView>::empty());
        assert(enc_items(s) =~= Seq::<u8>::empty());
    } else {
        let tail = s.subrange(1, s.len() as int);
        let e0 = enc(s[0]);
        assert(enc_items(s) == e0 + enc_items(tail));
        assert(b =~= e0 + (enc_items(tail) + rest));
        lemma_round(s[0], enc_items(tail) + rest, d);
        assert(dec(b, d) == Ok::<(ValueView, nat), DecodeError>((s[0], e0.len())));
        assert(b.subrange(e0.len() as int, b.len() as int) =~= enc_items(tail) + rest);
        lemma_round_items(tail, rest, d);
        assert(seq![s[0]] + tail =~= s);
        assert(enc_items(s).len() == e0.len() + enc_items(tail).len());
    }
}

/// Round trip for the body of a map: decoding the concatenated encodings of
/// `s.len()` key/value pairs returns `s` itself.
#[verifier::rlimit(100)]
#[verifier::spinoff_prover]
pub proof fn lemma_round_pairs(s: Seq<(Seq<u8>, ValueView)>, rest: Seq<u8>, d: nat)
    requires
        enc_check_pairs(s) is None,
        text_valid_pairs(s),
        fits_depth_pairs(s, d),
    ensures
        dec_pairs(enc_pairs(s) + rest, s.len(), d) == Ok::<
            (Seq<(Seq<u8>, ValueView)>, nat),
            DecodeError,
        >((s, enc_pairs(s).len())),
    decreases s,
{
    let b = enc_pairs(s) + rest;
    if s.len() == 0 {
        assert(s =~= Seq::<(Seq<u8>, ValueView)>::empty());
        assert(enc_pairs(s) =~= Seq::<u8>::empty());
    } else {
        let k = s[0].0;
        let v0 = s[0].1;
        let tail = s.subrange(1, s.len() as int);
        let kh = size_header(k.len(), 0x80, 0xD0, 0xD1, 0xD2);
        assert(enc_pairs(s) == kh + k + enc(v0) + enc_pairs(tail));
        let after_key = enc(v0) + (enc_pairs(tail) + rest);
        assert(b =~= kh + k + (enc(v0) + enc_pairs(tail) + rest));
        lemma_dec_str_round(k, enc(v0) + enc_pairs(tail) + rest);
        let kused = kh.len() + k.len();
        assert(dec_str(b) == Ok::<(Seq<u8>, nat), DecodeError>((k, kused)));
        assert(b.subrange(kused as int, b.len() as int) =~= enc(v0) + (enc_pairs(tail) + rest));
        lemma_round(v0, enc_pairs(tail) + rest, d);
        let vused = enc(v0).len();
        assert(b.subrange((kused + vused) as int, b.len() as int) =~= enc_pairs(tail) + rest);
        lemma_round_pairs(tail, rest, d);
        assert((k, v0) == s[0]);
        assert(seq![s[0]] + tail =~= s);
        assert(enc_pairs(s).len() == kused + vused + enc_pairs(tail).len());
    }
}

/// For every value within the encoder's limits, whose strings are UTF-8 and
/// whose nesting fits the cap, decoding the encoding returns the value
/// exactly and consumes every byte.
pub proof fn lemma_decode_encode(v: ValueView, d: nat)
    requires
        encodable(v),
        text_valid(v),
        fits_depth(v, d),
    ensures
        dec(enc(v), d) == Ok::<(ValueView, nat), DecodeError>((v, enc(v).len())),
{
    lemma_round(v, Seq::empty(), d);
    assert(enc(v) + Seq::<u8>::empty() =~= enc(v));
}

/// Every encoding starts with a marker the decoder accepts.
pub proof fn lemma_first_byte_legal(v: ValueView)
    ensures
        enc(v).len() > 0,
        is_legal_marker(enc(v)[0]),
{
    match v {
        ValueView::Int(i) => {
            if -16 <= i <= 127 {
                if i >= 0 {
                    assert(enc(v)[0] == u8_of_i8(i as i8));
                    assert(u8_of_i8(i as i8) <= 0x7F);
                } else {
                    assert(enc(v)[0] == u8_of_i8(i as i8));
                    assert(u8_of_i8(i as i8) >= 0xF0);
                }
            }
        },
        ValueView::Str(s) => {
            let len = s.len();
            if len <= 15 {
                assert(enc(v)[0] == (0x80 + len) as u8);
            } else if len <= 255 {
                assert(enc(v)[0] == 0xD0);
            } else if len <= 65535 {
                assert(enc(v)[0] == 0xD1);
            } else {
                assert(enc(v)[0] == 0xD2);
            }
        },
        ValueView::List(items) => {
            let len = items.len();
            if len <= 15 {
                assert(enc(v)[0] == (0x90 + len) as u8);
            } else if len <= 255 {
                assert(enc(v)[0] == 0xD4);
            } else if len <= 65535 {
                assert(enc(v)[0] == 0xD5);
            } else {
                assert(enc(v)[0] == 0xD6);
            }
        },
        ValueView::Dict(pairs) => {
            let len = pairs.len();
            if len <= 15 {
                assert(enc(v)[0] == (0xA0 + len) as u8);
            } else if len <= 255 {
                assert(enc(v)[0] == 0xD8);
            } else if len <= 65535 {
                assert(enc(v)[0] == 0xD9);
            } else {
                assert(enc(v)[0] == 0xDA);
            }
        },
        ValueView::Structure(_sig, fields) => {
            let n = fields.len();
            if n <= 15 {
                assert(enc(v)[0] == (0xB0 + n) as u8);
            } else if n <= 255 {
                assert(enc(v)[0] == 0xDC);
            } else {
                assert(enc(v)[0] == 0xDD);
            }
        },
        _ => {},
    }
}

/// An integer's marker is the narrowest class whose range contains it:
/// a single tiny byte on -16..=127, and the one-, two-, four- or eight-byte
/// payload forms exactly on the bands between the classes' ranges.
pub proof fn lemma_int_narrowest(i: i64)
    ensures
        -16 <= i <= 127 ==> enc_int(i) == seq![u8_of_i8(i as i8)],
        -128 <= i < -16 ==> enc_int(i)[0] == 0xC8 && enc_int(i).len() == 2,
        (-32768 <= i < -128 || 127 < i <= 32767) ==> enc_int(i)[0] == 0xC9 && enc_int(i).len()
            == 3,
        (-0x8000_0000 <= i < -32768 || 32767 < i <= 0x7FFF_FFFF) ==> enc_int(i)[0] == 0xCA
            && enc_int(i).len() == 5,
        (i < -0x8000_0000 || 0x7FFF_FFFF < i) ==> enc_int(i)[0] == 0xCB && enc_int(i).len() == 9,
{
}

} // verus!
