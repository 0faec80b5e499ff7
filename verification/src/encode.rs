//! The executable PackStream encoder, proved to emit exactly the bytes the
//! specification functions describe, and to fail exactly where a length
//! exceeds its class.

use vstd::prelude::*;

use crate::bytes::{i16_to_u16, i32_to_u32, i64_to_u64, i8_to_u8, push_be16, push_be32, push_be64, push_bytes};
use crate::packstream::{enc, enc_check, enc_check_items, enc_check_pairs, enc_int, enc_items,
    enc_pairs, encodable, lemma_enc_check_items_elem, lemma_enc_check_pairs_elem, size_header,
    struct_header, EncodeError};
use crate::value::{lemma_models_index, lemma_models_len, lemma_pair_models_index,
    lemma_pair_models_len, Value, ValueView};

verus! {

broadcast use vstd::std_specs::vec::group_vec_axioms;

/// The first length overflow the encoder would meet in this value, walking
/// it in encoding order, or `None` when [`encode`] will succeed on it.
pub fn check_value(v: &Value) -> (r: Option<EncodeError>)
    ensures
        r == enc_check(v@),
    decreases v,
{
    match v {
        Value::Null => None,
        Value::Bool(_) => None,
        Value::Int(_) => None,
        Value::Float(_) => None,
        Value::Str(s) => if s.len() as u64 > 0xFFFF_FFFF {
            Some(EncodeError::StringTooLong)
        } else {
            None
        },
        Value::List(items) => {
            proof {
                lemma_models_len(items@);
            }
            if items.len() as u64 > 0xFFFF_FFFF {
                Some(EncodeError::ListTooLong)
            } else {
                check_items(items)
            }
        },
        Value::Dict(pairs) => {
            proof {
                lemma_pair_models_len(pairs@);
            }
            if pairs.len() as u64 > 0xFFFF_FFFF {
                Some(EncodeError::MapTooLong)
            } else {
                check_pairs(pairs)
            }
        },
        Value::Structure(_, fields) => {
            proof {
                lemma_models_len(fields@);
            }
            if fields.len() > 0xFFFF {
                Some(EncodeError::StructTooLong)
            } else {
                check_items(fields)
            }
        },
    }
}

/// The first length overflow among a sequence of values.
pub(crate) fn check_items(items: &Vec<Value>) -> (r: Option<EncodeError>)
    ensures
        r == enc_check_items(Value::models(items@)),
    decreases items,
{
    let ghost vs = Value::models(items@);
    proof {
        lemma_models_len(items@);
    }
    let n = items.len();
    let mut j: usize = 0;
    proof {
        assert(vs.skip(0) =~= vs);
    }
    while j < n
        invariant
            j <= n,
            n == items@.len(),
            vs == Value::models(items@),
            vs.len() == n,
            enc_check_items(vs) == enc_check_items(vs.skip(j as int)),
        decreases n - j,
    {
        proof {
            lemma_models_index(items@, j as int);
            assert(vs.skip(j as int)[0] == vs[j as int]);
            assert(decreases_to!(items => items@));
            assert(decreases_to!(items@ => items@[j as int]));
        }
        let e = check_value(&items[j]);
        if e.is_some() {
            return e;
        }
        proof {
            assert(vs.skip(j as int).subrange(1, vs.skip(j as int).len() as int) =~= vs.skip(
                j as int + 1,
            ));
        }
        j += 1;
    }
    proof {
        assert(vs.skip(n as int) =~= Seq::<ValueView>::empty());
    }
    None
}

/// The first length overflow among a sequence of key/value pairs.
pub(crate) fn check_pairs(pairs: &Vec<(Vec<u8>, Value)>) -> (r: Option<EncodeError>)
    ensures
        r == enc_check_pairs(Value::pair_models(pairs@)),
    decreases pairs,
{
    let ghost vs = Value::pair_models(pairs@);
    proof {
        lemma_pair_models_len(pairs@);
    }
    let n = pairs.len();
    let mut j: usize = 0;
    proof {
        assert(vs.skip(0) =~= vs);
    }
    while j < n
        invariant
            j <= n,
            n == pairs@.len(),
            vs == Value::pair_models(pairs@),
            vs.len() == n,
            enc_check_pairs(vs) == enc_check_pairs(vs.skip(j as int)),
        decreases n - j,
    {
        proof {
            lemma_pair_models_index(pairs@, j as int);
            assert(vs.skip(j as int)[0] == vs[j as int]);
            assert(decreases_to!(pairs => pairs@));
            assert(decreases_to!(pairs@ => pairs@[j as int]));
            assert(decreases_to!(pairs@[j as int] => pairs@[j as int].1));
        }
        if pairs[j].0.len() as u64 > 0xFFFF_FFFF {
            return Some(EncodeError::StringTooLong);
        }
        let e = check_value(&pairs[j].1);
        if e.is_some() {
            return e;
        }
        proof {
            assert(vs.skip(j as int).subrange(1, vs.skip(j as int).len() as int) =~= vs.skip(
                j as int + 1,
            ));
        }
        j += 1;
    }
    proof {
        assert(vs.skip(n as int) =~= Seq::<(Seq<u8>, ValueView)>::empty());
    }
    None
}

/// Appends the narrowest marker and length field for a string, list or map
/// of `len` elements, given the kind's four markers.
pub(crate) fn write_size_header(out: &mut Vec<u8>, len: usize, tiny: u8, m8: u8, m16: u8, m32: u8)
    requires
        len as u64 <= 0xFFFF_FFFF,
        tiny as int + 15 < 256,
    ensures
        final(out)@ == old(out)@ + size_header(len as nat, tiny, m8, m16, m32),
{
    if len <= 15 {
        out.push(tiny + len as u8);
        assert(out@ =~= old(out)@ + size_header(len as nat, tiny, m8, m16, m32));
    } else if len <= 255 {
        out.push(m8);
        out.push(len as u8);
        assert(out@ =~= old(out)@ + size_header(len as nat, tiny, m8, m16, m32));
    } else if len <= 65535 {
        out.push(m16);
        push_be16(out, len as u16);
        assert(out@ =~= old(out)@ + size_header(len as nat, tiny, m8, m16, m32));
    } else {
        out.push(m32);
        push_be32(out, len as u32);
        assert(out@ =~= old(out)@ + size_header(len as nat, tiny, m8, m16, m32));
    }
}

/// Appends the marker and size field for a structure of `n` fields.
pub(crate) fn write_struct_header(out: &mut Vec<u8>, n: usize)
    requires
        n <= 0xFFFF,
    ensures
        final(out)@ == old(out)@ + struct_header(n as nat),
{
    if n <= 15 {
        out.push(0xB0 + n as u8);
        assert(out@ =~= old(out)@ + struct_header(n as nat));
    } else if n <= 255 {
        out.push(0xDC);
        out.push(n as u8);
        assert(out@ =~= old(out)@ + struct_header(n as nat));
    } else {
        out.push(0xDD);
        push_be16(out, n as u16);
        assert(out@ =~= old(out)@ + struct_header(n as nat));
    }
}

/// Appends the encoding of an integer: the narrowest class that covers it.
pub fn encode_int_into(out: &mut Vec<u8>, i: i64)
    ensures
        final(out)@ == old(out)@ + enc_int(i),
{
    if -16 <= i && i <= 127 {
        out.push(i8_to_u8(i as i8));
        assert(out@ =~= old(out)@ + enc_int(i));
    } else if -128 <= i && i < -16 {
        out.push(0xC8);
        out.push(i8_to_u8(i as i8));
        assert(out@ =~= old(out)@ + enc_int(i));
    } else if -32768 <= i && i <= 32767 {
        out.push(0xC9);
        push_be16(out, i16_to_u16(i as i16));
        assert(out@ =~= old(out)@ + enc_int(i));
    } else if -0x8000_0000 <= i && i <= 0x7FFF_FFFF {
        out.push(0xCA);
        push_be32(out, i32_to_u32(i as i32));
        assert(out@ =~= old(out)@ + enc_int(i));
    } else {
        out.push(0xCB);
        push_be64(out, i64_to_u64(i));
        assert(out@ =~= old(out)@ + enc_int(i));
    }
}

/// Appends the encoding of a string given as its UTF-8 bytes.
pub fn encode_string_into(out: &mut Vec<u8>, s: &[u8])
    requires
        s@.len() <= 0xFFFF_FFFF,
    ensures
        final(out)@ == old(out)@ + enc(ValueView::Str(s@)),
{
    write_size_header(out, s.len(), 0x80, 0xD0, 0xD1, 0xD2);
    push_bytes(out, s);
    assert(out@ =~= old(out)@ + enc(ValueView::Str(s@)));
}

/// Appends the encoding of a value whose lengths have been checked.
pub fn encode_into(out: &mut Vec<u8>, v: &Value)
    requires
        encodable(v@),
    ensures
        final(out)@ == old(out)@ + enc(v@),
    decreases v, 0nat,
{
    match v {
        Value::Null => {
            out.push(0xC0);
            assert(out@ =~= old(out)@ + enc(v@));
        },
        Value::Bool(x) => {
            out.push(if *x { 0xC3 } else { 0xC2 });
            assert(out@ =~= old(out)@ + enc(v@));
        },
        Value::Int(i) => {
            encode_int_into(out, *i);
        },
        Value::Float(bits) => {
            out.push(0xC1);
            push_be64(out, *bits);
            assert(out@ =~= old(out)@ + enc(v@));
        },
        Value::Str(s) => {
            encode_string_into(out, s.as_slice());
        },
        Value::List(items) => {
            encode_list_into(out, items);
        },
        Value::Dict(pairs) => {
            encode_dict_into(out, pairs);
        },
        Value::Structure(sig, fields) => {
            proof {
                lemma_models_len(fields@);
            }
            write_struct_header(out, fields.len());
            out.push(*sig);
            encode_items_into(out, fields);
            assert(out@ =~= old(out)@ + struct_header(fields@.len() as nat) + seq![*sig]
                + enc_items(Value::models(fields@)));
            assert(out@ =~= old(out)@ + enc(v@));
        },
    }
}

/// Appends the concatenated encodings of a sequence of values.
pub(crate) fn encode_items_into(out: &mut Vec<u8>, items: &Vec<Value>)
    requires
        enc_check_items(Value::models(items@)) is None,
    ensures
        final(out)@ == old(out)@ + enc_items(Value::models(items@)),
    decreases items, 0nat,
{
    let ghost vs = Value::models(items@);
    proof {
        lemma_models_len(items@);
        assert(vs.skip(0) =~= vs);
        assert(old(out)@ + Seq::<u8>::empty() =~= old(out)@);
    }
    let n = items.len();
    let mut j: usize = 0;
    while j < n
        invariant
            j <= n,
            n == items@.len(),
            vs == Value::models(items@),
            vs.len() == n,
            enc_check_items(vs) is None,
            out@ + enc_items(vs.skip(j as int)) == old(out)@ + enc_items(vs),
        decreases n - j,
    {
        proof {
            lemma_models_index(items@, j as int);
            lemma_enc_check_items_elem(vs, j as int);
            assert(vs.skip(j as int)[0] == vs[j as int]);
            assert(vs.skip(j as int).subrange(1, vs.skip(j as int).len() as int) =~= vs.skip(
                j as int + 1,
            ));
            assert(decreases_to!(items => items@));
            assert(decreases_to!(items@ => items@[j as int]));
        }
        let ghost out_before = out@;
        encode_into(out, &items[j]);
        proof {
            assert(out_before + (enc(vs[j as int]) + enc_items(vs.skip(j as int + 1))) =~= (
            out_before + enc(vs[j as int])) + enc_items(vs.skip(j as int + 1)));
        }
        j += 1;
    }
    proof {
        assert(vs.skip(n as int) =~= Seq::<ValueView>::empty());
        assert(out@ + Seq::<u8>::empty() =~= out@);
    }
}

/// Appends the concatenated encodings of a sequence of key/value pairs.
pub(crate) fn encode_pairs_into(out: &mut Vec<u8>, pairs: &Vec<(Vec<u8>, Value)>)
    requires
        enc_check_pairs(Value::pair_models(pairs@)) is None,
    ensures
        final(out)@ == old(out)@ + enc_pairs(Value::pair_models(pairs@)),
    decreases pairs, 0nat,
{
    let ghost vs = Value::pair_models(pairs@);
    proof {
        lemma_pair_models_len(pairs@);
        assert(vs.skip(0) =~= vs);
        assert(old(out)@ + Seq::<u8>::empty() =~= old(out)@);
    }
    let n = pairs.len();
    let mut j: usize = 0;
    while j < n
        invariant
            j <= n,
            n == pairs@.len(),
            vs == Value::pair_models(pairs@),
            vs.len() == n,
            enc_check_pairs(vs) is None,
            out@ + enc_pairs(vs.skip(j as int)) == old(out)@ + enc_pairs(vs),
        decreases n - j,
    {
        proof {
            lemma_pair_models_index(pairs@, j as int);
            lemma_enc_check_pairs_elem(vs, j as int);
            assert(vs.skip(j as int)[0] == vs[j as int]);
            assert(vs.skip(j as int).subrange(1, vs.skip(j as int).len() as int) =~= vs.skip(
                j as int + 1,
            ));
            assert(decreases_to!(pairs => pairs@));
            assert(decreases_to!(pairs@ => pairs@[j as int]));
            assert(decreases_to!(pairs@[j as int] => pairs@[j as int].1));
        }
        let ghost out_before = out@;
        write_size_header(out, pairs[j].0.len(), 0x80, 0xD0, 0xD1, 0xD2);
        push_bytes(out, pairs[j].0.as_slice());
        encode_into(out, &pairs[j].1);
        proof {
            let k = vs[j as int].0;
            let v0 = vs[j as int].1;
            let kh = size_header(k.len(), 0x80, 0xD0, 0xD1, 0xD2);
            assert(out@ =~= out_before + (kh + k + enc(v0)));
            assert(out_before + (kh + k + enc(v0) + enc_pairs(vs.skip(j as int + 1))) =~= (
            out_before + (kh + k + enc(v0))) + enc_pairs(vs.skip(j as int + 1)));
            assert(enc_pairs(vs.skip(j as int)) == kh + k + enc(v0) + enc_pairs(
                vs.skip(j as int + 1),
            ));
            assert(out_before + enc_pairs(vs.skip(j as int)) =~= out@ + enc_pairs(
                vs.skip(j as int + 1),
            ));
        }
        j += 1;
    }
    proof {
        assert(vs.skip(n as int) =~= Seq::<(Seq<u8>, ValueView)>::empty());
        assert(out@ + Seq::<u8>::empty() =~= out@);
    }
}

/// Encodes a value: `Ok` with exactly the specified bytes when every length
/// fits its class, and the first overflow met otherwise.
pub fn encode(v: &Value) -> (r: Result<Vec<u8>, EncodeError>)
    ensures
        r matches Ok(bytes) ==> encodable(v@) && bytes@ == enc(v@),
        r matches Err(e) ==> enc_check(v@) == Some(e),
        encodable(v@) <==> r is Ok,
{
    match check_value(v) {
        Some(e) => Err(e),
        None => {
            let mut out: Vec<u8> = Vec::new();
            encode_into(&mut out, v);
            assert(out@ =~= enc(v@));
            Ok(out)
        },
    }
}

/// Appends the encoding of a list of values whose lengths have been checked.
pub fn encode_list_into(out: &mut Vec<u8>, items: &Vec<Value>)
    requires
        encodable(ValueView::List(Value::models(items@))),
    ensures
        final(out)@ == old(out)@ + enc(ValueView::List(Value::models(items@))),
    decreases items, 1nat,
{
    proof {
        lemma_models_len(items@);
    }
    write_size_header(out, items.len(), 0x90, 0xD4, 0xD5, 0xD6);
    encode_items_into(out, items);
    assert(out@ =~= old(out)@ + enc(ValueView::List(Value::models(items@))));
}

/// Appends the encoding of a map whose lengths have been checked.
pub fn encode_dict_into(out: &mut Vec<u8>, pairs: &Vec<(Vec<u8>, Value)>)
    requires
        encodable(ValueView::Dict(Value::pair_models(pairs@))),
    ensures
        final(out)@ == old(out)@ + enc(ValueView::Dict(Value::pair_models(pairs@))),
    decreases pairs, 1nat,
{
    proof {
        lemma_pair_models_len(pairs@);
    }
    write_size_header(out, pairs.len(), 0xA0, 0xD8, 0xD9, 0xDA);
    encode_pairs_into(out, pairs);
    assert(out@ =~= old(out)@ + enc(ValueView::Dict(Value::pair_models(pairs@))));
}

/// The overflow, if any, in encoding these bytes as one string.
pub fn check_string(s: &[u8]) -> (r: Option<EncodeError>)
    ensures
        r == enc_check(ValueView::Str(s@)),
{
    if s.len() as u64 > 0xFFFF_FFFF {
        Some(EncodeError::StringTooLong)
    } else {
        None
    }
}

/// The first overflow, if any, in encoding these values as one list.
pub fn check_list(items: &Vec<Value>) -> (r: Option<EncodeError>)
    ensures
        r == enc_check(ValueView::List(Value::models(items@))),
{
    proof {
        lemma_models_len(items@);
    }
    if items.len() as u64 > 0xFFFF_FFFF {
        Some(EncodeError::ListTooLong)
    } else {
        check_items(items)
    }
}

/// The first overflow, if any, in encoding these pairs as one map.
pub fn check_dict(pairs: &Vec<(Vec<u8>, Value)>) -> (r: Option<EncodeError>)
    ensures
        r == enc_check(ValueView::Dict(Value::pair_models(pairs@))),
{
    proof {
        lemma_pair_models_len(pairs@);
    }
    if pairs.len() as u64 > 0xFFFF_FFFF {
        Some(EncodeError::MapTooLong)
    } else {
        check_pairs(pairs)
    }
}

/// The marker and size field for a structure of `size` fields, or
/// `StructTooLong` past the two-byte class.
pub fn get_struct_header(size: usize) -> (r: Result<Vec<u8>, EncodeError>)
    ensures
        size <= 0xFFFF ==> (r matches Ok(h) && h@ == struct_header(size as nat)),
        size > 0xFFFF ==> (r matches Err(e) && e == EncodeError::StructTooLong),
{
    if size > 0xFFFF {
        Err(EncodeError::StructTooLong)
    } else {
        let mut out: Vec<u8> = Vec::new();
        write_struct_header(&mut out, size);
        assert(out@ =~= struct_header(size as nat));
        Ok(out)
    }
}

/// The one-byte encoding of the null value.
pub fn serialize_null() -> (r: Vec<u8>)
    ensures
        r@ == enc(ValueView::Null),
{
    let mut out: Vec<u8> = Vec::new();
    out.push(0xC0);
    assert(out@ =~= enc(ValueView::Null));
    out
}

/// The one-byte encoding of a boolean.
pub fn serialize_boolean(value: bool) -> (r: Vec<u8>)
    ensures
        r@ == enc(ValueView::Bool(value)),
{
    let mut out: Vec<u8> = Vec::new();
    out.push(if value { 0xC3 } else { 0xC2 });
    assert(out@ =~= enc(ValueView::Bool(value)));
    out
}

/// The encoding of an integer. Every 64-bit value has one, so this cannot
/// fail: the widest class covers the whole range.
pub fn serialize_integer(value: i64) -> (r: Vec<u8>)
    ensures
        r@ == enc(ValueView::Int(value)),
        r@ == enc_int(value),
{
    let mut out: Vec<u8> = Vec::new();
    encode_int_into(&mut out, value);
    assert(out@ =~= enc_int(value));
    out
}

/// The encoding of a float, given as its IEEE-754 bit pattern: the `0xC1`
/// marker followed by the eight bytes of the pattern, big-endian.
pub fn serialize_float(bits: u64) -> (r: Vec<u8>)
    ensures
        r@ == enc(ValueView::Float(bits)),
{
    let mut out: Vec<u8> = Vec::new();
    out.push(0xC1);
    push_be64(&mut out, bits);
    assert(out@ =~= enc(ValueView::Float(bits)));
    out
}

/// The encoding of a string given as its UTF-8 bytes: the narrowest length
/// class, or `StringTooLong` past the four-byte class.
pub fn serialize_string(s: &[u8]) -> (r: Result<Vec<u8>, EncodeError>)
    ensures
        r matches Ok(b) ==> encodable(ValueView::Str(s@)) && b@ == enc(ValueView::Str(s@)),
        r matches Err(e) ==> enc_check(ValueView::Str(s@)) == Some(e),
        encodable(ValueView::Str(s@)) <==> r is Ok,
{
    match check_string(s) {
        Some(e) => Err(e),
        None => {
            let mut out: Vec<u8> = Vec::new();
            encode_string_into(&mut out, s);
            assert(out@ =~= enc(ValueView::Str(s@)));
            Ok(out)
        },
    }
}

/// The encoding of a list of values: the narrowest length class, then each
/// item in order; or the first overflow met.
pub fn serialize_list(items: &Vec<Value>) -> (r: Result<Vec<u8>, EncodeError>)
    ensures
        r matches Ok(b) ==> encodable(ValueView::List(Value::models(items@))) && b@ == enc(
            ValueView::List(Value::models(items@)),
        ),
        r matches Err(e) ==> enc_check(ValueView::List(Value::models(items@))) == Some(e),
        encodable(ValueView::List(Value::models(items@))) <==> r is Ok,
{
    match check_list(items) {
        Some(e) => Err(e),
        None => {
            let mut out: Vec<u8> = Vec::new();
            encode_list_into(&mut out, items);
            assert(out@ =~= enc(ValueView::List(Value::models(items@))));
            Ok(out)
        },
    }
}

/// The encoding of a map: the narrowest length class, then each key and
/// value in the caller-supplied order; or the first overflow met.
pub fn serialize_map(pairs: &Vec<(Vec<u8>, Value)>) -> (r: Result<Vec<u8>, EncodeError>)
    ensures
        r matches Ok(b) ==> encodable(ValueView::Dict(Value::pair_models(pairs@))) && b@ == enc(
            ValueView::Dict(Value::pair_models(pairs@)),
        ),
        r matches Err(e) ==> enc_check(ValueView::Dict(Value::pair_models(pairs@))) == Some(e),
        encodable(ValueView::Dict(Value::pair_models(pairs@))) <==> r is Ok,
{
    match check_dict(pairs) {
        Some(e) => Err(e),
        None => {
            let mut out: Vec<u8> = Vec::new();
            encode_dict_into(&mut out, pairs);
            assert(out@ =~= enc(ValueView::Dict(Value::pair_models(pairs@))));
            Ok(out)
        },
    }
}

} // verus!
