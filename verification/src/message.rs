//! The Bolt v1 messages: building the request messages a client sends, and
//! classifying the response messages a server returns. A message is a
//! PackStream structure whose signature byte names its kind.

use vstd::prelude::*;

use crate::encode::{check_dict, check_list, check_string, encode_dict_into, encode_list_into,
    encode_string_into, write_struct_header};
use crate::packstream::{enc, enc_check, enc_check_items, enc_items, encodable,
    lemma_enc_items_concat, lemma_enc_items_singleton, struct_header, EncodeError};
use crate::value::{lemma_models_index, lemma_models_len, Value, ValueView};

verus! {

broadcast use vstd::std_specs::vec::group_vec_axioms;

/// The `Init` message: client name, then the authentication token.
pub open spec fn init_message_view(client_name: Seq<u8>, auth_token: Seq<(Seq<u8>, ValueView)>) -> ValueView {
    ValueView::Structure(0x01, seq![ValueView::Str(client_name), ValueView::Dict(auth_token)])
}

/// The `Run` message: a statement, then its parameters.
pub open spec fn run_message_view(statement: Seq<u8>, parameters: Seq<(Seq<u8>, ValueView)>) -> ValueView {
    ValueView::Structure(0x10, seq![ValueView::Str(statement), ValueView::Dict(parameters)])
}

/// The `DiscardAll` message: no fields.
pub open spec fn discard_all_message_view() -> ValueView {
    ValueView::Structure(0x2F, seq![])
}

/// The `PullAll` message: no fields.
pub open spec fn pull_all_message_view() -> ValueView {
    ValueView::Structure(0x3F, seq![])
}

/// The `AckFailure` message: no fields.
pub open spec fn ack_failure_message_view() -> ValueView {
    ValueView::Structure(0x0E, seq![])
}

/// The `Reset` message: no fields.
pub open spec fn reset_message_view() -> ValueView {
    ValueView::Structure(0x0F, seq![])
}

/// The `Record` message: one list of column values.
pub open spec fn record_message_view(fields: Seq<ValueView>) -> ValueView {
    ValueView::Structure(0x71, seq![ValueView::List(fields)])
}

/// The `Success` message: one metadata map.
pub open spec fn success_message_view(metadata: Seq<(Seq<u8>, ValueView)>) -> ValueView {
    ValueView::Structure(0x70, seq![ValueView::Dict(metadata)])
}

/// The `Failure` message: one metadata map.
pub open spec fn failure_message_view(metadata: Seq<(Seq<u8>, ValueView)>) -> ValueView {
    ValueView::Structure(0x7F, seq![ValueView::Dict(metadata)])
}

/// The `Ignored` message: one metadata map.
pub open spec fn ignored_message_view(metadata: Seq<(Seq<u8>, ValueView)>) -> ValueView {
    ValueView::Structure(0x7E, seq![ValueView::Dict(metadata)])
}

/// Builds a message with no fields: its header and signature byte.
fn serialize_empty_message(sig: u8) -> (r: Vec<u8>)
    ensures
        r@ == enc(ValueView::Structure(sig, seq![])),
{
    let mut out: Vec<u8> = Vec::new();
    write_struct_header(&mut out, 0);
    out.push(sig);
    proof {
        assert(enc_items(Seq::<ValueView>::empty()) == Seq::<u8>::empty());
        assert(out@ =~= struct_header(0) + seq![sig] + enc_items(Seq::<ValueView>::empty()));
    }
    out
}

/// Builds a message with one map field.
fn serialize_map_message(sig: u8, metadata: &Vec<(Vec<u8>, Value)>) -> (r: Result<
    Vec<u8>,
    EncodeError,
>)
    ensures
        r matches Ok(b) ==> encodable(
            ValueView::Structure(sig, seq![ValueView::Dict(Value::pair_models(metadata@))]),
        ) && b@ == enc(
            ValueView::Structure(sig, seq![ValueView::Dict(Value::pair_models(metadata@))]),
        ),
        r matches Err(e) ==> enc_check(
            ValueView::Structure(sig, seq![ValueView::Dict(Value::pair_models(metadata@))]),
        ) == Some(e),
        encodable(
            ValueView::Structure(sig, seq![ValueView::Dict(Value::pair_models(metadata@))]),
        ) <==> r is Ok,
{
    let ghost fv = ValueView::Dict(Value::pair_models(metadata@));
    proof {
        lemma_enc_items_singleton(fv);
    }
    match check_dict(metadata) {
        Some(e) => Err(e),
        None => {
            let mut out: Vec<u8> = Vec::new();
            write_struct_header(&mut out, 1);
            out.push(sig);
            encode_dict_into(&mut out, metadata);
            proof {
                assert(out@ =~= struct_header(1) + seq![sig] + enc_items(seq![fv]));
            }
            Ok(out)
        },
    }
}

/// Builds a message with one string field and one map field.
fn serialize_text_map_message(sig: u8, text: &[u8], map: &Vec<(Vec<u8>, Value)>) -> (r: Result<
    Vec<u8>,
    EncodeError,
>)
    ensures
        r matches Ok(b) ==> encodable(
            ValueView::Structure(
                sig,
                seq![ValueView::Str(text@), ValueView::Dict(Value::pair_models(map@))],
            ),
        ) && b@ == enc(
            ValueView::Structure(
                sig,
                seq![ValueView::Str(text@), ValueView::Dict(Value::pair_models(map@))],
            ),
        ),
        r matches Err(e) ==> enc_check(
            ValueView::Structure(
                sig,
                seq![ValueView::Str(text@), ValueView::Dict(Value::pair_models(map@))],
            ),
        ) == Some(e),
        encodable(
            ValueView::Structure(
                sig,
                seq![ValueView::Str(text@), ValueView::Dict(Value::pair_models(map@))],
            ),
        ) <==> r is Ok,
{
    let ghost a = ValueView::Str(text@);
    let ghost b = ValueView::Dict(Value::pair_models(map@));
    proof {
        lemma_enc_items_singleton(a);
        lemma_enc_items_singleton(b);
        lemma_enc_items_concat(seq![a], seq![b]);
        assert(seq![a] + seq![b] =~= seq![a, b]);
    }
    match check_string(text) {
        Some(e) => Err(e),
        None => match check_dict(map) {
            Some(e) => Err(e),
            None => {
                let mut out: Vec<u8> = Vec::new();
                write_struct_header(&mut out, 2);
                out.push(sig);
                encode_string_into(&mut out, text);
                encode_dict_into(&mut out, map);
                proof {
                    assert(out@ =~= struct_header(2) + seq![sig] + (enc(a) + enc(b)));
                    assert(struct_header(2) + seq![sig] + (enc(a) + enc(b)) =~= struct_header(2)
                        + seq![sig] + enc_items(seq![a, b]));
                }
                Ok(out)
            },
        },
    }
}

/// The bytes of an `Init` message carrying the client's name and its
/// authentication token, in the token's order.
pub fn serialize_init_message(client_name: &[u8], auth_token: &Vec<(Vec<u8>, Value)>) -> (r: Result<
    Vec<u8>,
    EncodeError,
>)
    ensures
        r matches Ok(b) ==> encodable(
            init_message_view(client_name@, Value::pair_models(auth_token@)),
        ) && b@ == enc(init_message_view(client_name@, Value::pair_models(auth_token@))),
        r matches Err(e) ==> enc_check(
            init_message_view(client_name@, Value::pair_models(auth_token@)),
        ) == Some(e),
        encodable(init_message_view(client_name@, Value::pair_models(auth_token@))) <==> r is Ok,
{
    serialize_text_map_message(0x01, client_name, auth_token)
}

/// The bytes of a `Run` message carrying a statement and its parameters.
pub fn serialize_run_message(statement: &[u8], parameters: &Vec<(Vec<u8>, Value)>) -> (r: Result<
    Vec<u8>,
    EncodeError,
>)
    ensures
        r matches Ok(b) ==> encodable(
            run_message_view(statement@, Value::pair_models(parameters@)),
        ) && b@ == enc(run_message_view(statement@, Value::pair_models(parameters@))),
        r matches Err(e) ==> enc_check(
            run_message_view(statement@, Value::pair_models(parameters@)),
        ) == Some(e),
        encodable(run_message_view(statement@, Value::pair_models(parameters@))) <==> r is Ok,
{
    serialize_text_map_message(0x10, statement, parameters)
}

/// The bytes of a `DiscardAll` message. It has no fields and cannot fail.
pub fn serialize_discard_all_message() -> (r: Vec<u8>)
    ensures
        r@ == enc(discard_all_message_view()),
{
    serialize_empty_message(0x2F)
}

/// The bytes of a `PullAll` message. It has no fields and cannot fail.
pub fn serialize_pull_all_message() -> (r: Vec<u8>)
    ensures
        r@ == enc(pull_all_message_view()),
{
    serialize_empty_message(0x3F)
}

/// The bytes of an `AckFailure` message. It has no fields and cannot fail.
pub fn serialize_ack_failure_message() -> (r: Vec<u8>)
    ensures
        r@ == enc(ack_failure_message_view()),
{
    serialize_empty_message(0x0E)
}

/// The bytes of a `Reset` message. It has no fields and cannot fail.
pub fn serialize_reset_message() -> (r: Vec<u8>)
    ensures
        r@ == enc(reset_message_view()),
{
    serialize_empty_message(0x0F)
}

/// The bytes of a `Record` message carrying one row of column values.
pub fn serialize_record_message(fields: &Vec<Value>) -> (r: Result<Vec<u8>, EncodeError>)
    ensures
        r matches Ok(b) ==> encodable(record_message_view(Value::models(fields@))) && b@ == enc(
            record_message_view(Value::models(fields@)),
        ),
        r matches Err(e) ==> enc_check(record_message_view(Value::models(fields@))) == Some(e),
        encodable(record_message_view(Value::models(fields@))) <==> r is Ok,
{
    let ghost fv = ValueView::List(Value::models(fields@));
    proof {
        lemma_enc_items_singleton(fv);
    }
    match check_list(fields) {
        Some(e) => Err(e),
        None => {
            let mut out: Vec<u8> = Vec::new();
            write_struct_header(&mut out, 1);
            out.push(0x71);
            encode_list_into(&mut out, fields);
            proof {
                assert(out@ =~= struct_header(1) + seq![0x71u8] + enc_items(seq![fv]));
            }
            Ok(out)
        },
    }
}

/// The bytes of a `Success` message carrying its metadata map.
pub fn serialize_success_message(metadata: &Vec<(Vec<u8>, Value)>) -> (r: Result<
    Vec<u8>,
    EncodeError,
>)
    ensures
        r matches Ok(b) ==> encodable(success_message_view(Value::pair_models(metadata@))) && b@
            == enc(success_message_view(Value::pair_models(metadata@))),
        r matches Err(e) ==> enc_check(success_message_view(Value::pair_models(metadata@)))
            == Some(e),
        encodable(success_message_view(Value::pair_models(metadata@))) <==> r is Ok,
{
    serialize_map_message(0x70, metadata)
}

/// The bytes of a `Failure` message carrying its metadata map.
pub fn serialize_failure_message(metadata: &Vec<(Vec<u8>, Value)>) -> (r: Result<
    Vec<u8>,
    EncodeError,
>)
    ensures
        r matches Ok(b) ==> encodable(failure_message_view(Value::pair_models(metadata@))) && b@
            == enc(failure_message_view(Value::pair_models(metadata@))),
        r matches Err(e) ==> enc_check(failure_message_view(Value::pair_models(metadata@)))
            == Some(e),
        encodable(failure_message_view(Value::pair_models(metadata@))) <==> r is Ok,
{
    serialize_map_message(0x7F, metadata)
}

/// The bytes of an `Ignored` message carrying its metadata map.
pub fn serialize_ignored_message(metadata: &Vec<(Vec<u8>, Value)>) -> (r: Result<
    Vec<u8>,
    EncodeError,
>)
    ensures
        r matches Ok(b) ==> encodable(ignored_message_view(Value::pair_models(metadata@))) && b@
            == enc(ignored_message_view(Value::pair_models(metadata@))),
        r matches Err(e) ==> enc_check(ignored_message_view(Value::pair_models(metadata@)))
            == Some(e),
        encodable(ignored_message_view(Value::pair_models(metadata@))) <==> r is Ok,
{
    serialize_map_message(0x7E, metadata)
}

// ---------------------------------------------------------------------------
// Graph value structures
// ---------------------------------------------------------------------------

/// The views of a sequence of byte strings.
pub open spec fn byte_seqs(s: Seq<Vec<u8>>) -> Seq<Seq<u8>> {
    Seq::new(s.len(), |i: int| s[i]@)
}

/// Byte strings as string values, in order.
pub open spec fn str_values(names: Seq<Seq<u8>>) -> Seq<ValueView> {
    Seq::new(names.len(), |i: int| ValueView::Str(names[i]))
}

/// Integers as integer values, in order.
pub open spec fn int_values(ns: Seq<i64>) -> Seq<ValueView> {
    Seq::new(ns.len(), |i: int| ValueView::Int(ns[i]))
}

/// A `Node` structure: identity, labels, properties.
pub open spec fn node_view(id: i64, labels: Seq<Seq<u8>>, properties: Seq<(Seq<u8>, ValueView)>) -> ValueView {
    ValueView::Structure(
        0x4E,
        seq![
            ValueView::Int(id),
            ValueView::List(str_values(labels)),
            ValueView::Dict(properties),
        ],
    )
}

/// A `Relationship` structure: identity, the two node identities, type,
/// properties.
pub open spec fn relationship_view(
    id: i64,
    start_id: i64,
    end_id: i64,
    rel_type: Seq<u8>,
    properties: Seq<(Seq<u8>, ValueView)>,
) -> ValueView {
    ValueView::Structure(
        0x52,
        seq![
            ValueView::Int(id),
            ValueView::Int(start_id),
            ValueView::Int(end_id),
            ValueView::Str(rel_type),
            ValueView::Dict(properties),
        ],
    )
}

/// An `UnboundRelationship` structure: identity, type, properties.
pub open spec fn unbound_relationship_view(
    id: i64,
    rel_type: Seq<u8>,
    properties: Seq<(Seq<u8>, ValueView)>,
) -> ValueView {
    ValueView::Structure(
        0x72,
        seq![ValueView::Int(id), ValueView::Str(rel_type), ValueView::Dict(properties)],
    )
}

/// A `Path` structure: nodes, relationships, and the alternating sequence
/// of indices.
pub open spec fn path_view(nodes: Seq<ValueView>, relationships: Seq<ValueView>, sequence: Seq<i64>) -> ValueView {
    ValueView::Structure(
        0x50,
        seq![
            ValueView::List(nodes),
            ValueView::List(relationships),
            ValueView::List(int_values(sequence)),
        ],
    )
}

/// Unfolds the body of a three-field structure.
proof fn lemma_enc_items3(a: ValueView, b: ValueView, c: ValueView)
    ensures
        enc_items(seq![a, b, c]) == enc(a) + enc(b) + enc(c),
        enc_check_items(seq![a, b, c]) == (if enc_check(a) is Some {
            enc_check(a)
        } else if enc_check(b) is Some {
            enc_check(b)
        } else {
            enc_check(c)
        }),
{
    lemma_enc_items_singleton(b);
    lemma_enc_items_singleton(c);
    lemma_enc_items_concat(seq![b], seq![c]);
    assert(seq![b] + seq![c] =~= seq![b, c]);
    lemma_enc_items_singleton(a);
    lemma_enc_items_concat(seq![a], seq![b, c]);
    assert(seq![a] + seq![b, c] =~= seq![a, b, c]);
    assert(enc(a) + (enc(b) + enc(c)) =~= enc(a) + enc(b) + enc(c));
}

/// Unfolds the body of a five-field structure.
proof fn lemma_enc_items5(a: ValueView, b: ValueView, c: ValueView, d: ValueView, e: ValueView)
    ensures
        enc_items(seq![a, b, c, d, e]) == enc(a) + enc(b) + enc(c) + enc(d) + enc(e),
        enc_check_items(seq![a, b, c, d, e]) == (if enc_check(a) is Some {
            enc_check(a)
        } else if enc_check(b) is Some {
            enc_check(b)
        } else if enc_check(c) is Some {
            enc_check(c)
        } else if enc_check(d) is Some {
            enc_check(d)
        } else {
            enc_check(e)
        }),
{
    lemma_enc_items3(c, d, e);
    lemma_enc_items_singleton(b);
    lemma_enc_items_concat(seq![b], seq![c, d, e]);
    assert(seq![b] + seq![c, d, e] =~= seq![b, c, d, e]);
    lemma_enc_items_singleton(a);
    lemma_enc_items_concat(seq![a], seq![b, c, d, e]);
    assert(seq![a] + seq![b, c, d, e] =~= seq![a, b, c, d, e]);
    assert(enc(a) + (enc(b) + (enc(c) + enc(d) + enc(e))) =~= enc(a) + enc(b) + enc(c) + enc(d)
        + enc(e));
}

/// Integer values never overflow a length field.
proof fn lemma_int_values_ok(s: Seq<i64>)
    ensures
        enc_check_items(int_values(s)) is None,
    decreases s.len(),
{
    let iv = int_values(s);
    assert(iv.len() == s.len());
    if s.len() == 0 {
        assert(iv =~= Seq::<ValueView>::empty());
        assert(enc_check_items(iv) is None);
    } else {
        lemma_int_values_ok(s.subrange(1, s.len() as int));
        assert(iv[0] == ValueView::Int(s[0]));
        assert(enc_check(iv[0]) is None);
        assert(iv.subrange(1, iv.len() as int) =~= int_values(s.subrange(1, s.len() as int)));
        assert(enc_check_items(iv.subrange(1, iv.len() as int)) is None);
        assert(enc_check_items(iv) is None);
    }
}

/// The first overflow among byte strings encoded as a list of strings.
fn check_str_list(labels: &Vec<Vec<u8>>) -> (r: Option<EncodeError>)
    ensures
        r == enc_check(ValueView::List(str_values(byte_seqs(labels@)))),
{
    let ghost sv = str_values(byte_seqs(labels@));
    if labels.len() as u64 > 0xFFFF_FFFF {
        return Some(EncodeError::ListTooLong);
    }
    let n = labels.len();
    let mut j: usize = 0;
    proof {
        assert(sv.skip(0) =~= sv);
    }
    while j < n
        invariant
            j <= n,
            n == labels@.len(),
            n as u64 <= 0xFFFF_FFFF,
            sv == str_values(byte_seqs(labels@)),
            sv.len() == n,
            enc_check_items(sv) == enc_check_items(sv.skip(j as int)),
        decreases n - j,
    {
        proof {
            assert(sv[j as int] == ValueView::Str(labels@[j as int]@));
            assert(sv.skip(j as int)[0] == sv[j as int]);
            assert(sv.skip(j as int).subrange(1, sv.skip(j as int).len() as int) =~= sv.skip(
                j as int + 1,
            ));
        }
        if labels[j].len() as u64 > 0xFFFF_FFFF {
            proof {
                assert(labels@[j as int]@.len() > 0xFFFF_FFFF);
                assert(enc_check(sv[j as int]) == Some(EncodeError::StringTooLong));
                assert(enc_check_items(sv.skip(j as int)) == Some(EncodeError::StringTooLong));
                assert(enc_check(ValueView::List(sv)) == Some(EncodeError::StringTooLong));
            }
            return Some(EncodeError::StringTooLong);
        }
        proof {
            assert(labels@[j as int]@.len() <= 0xFFFF_FFFF);
            assert(enc_check(sv[j as int]) is None);
            assert(enc_check_items(sv.skip(j as int)) == enc_check_items(sv.skip(j as int + 1)));
        }
        j += 1;
    }
    proof {
        assert(sv.skip(n as int) =~= Seq::<ValueView>::empty());
    }
    None
}

/// Appends the encoding of byte strings as a list of strings.
fn encode_str_list_into(out: &mut Vec<u8>, labels: &Vec<Vec<u8>>)
    requires
        encodable(ValueView::List(str_values(byte_seqs(labels@)))),
    ensures
        final(out)@ == old(out)@ + enc(ValueView::List(str_values(byte_seqs(labels@)))),
{
    let ghost sv = str_values(byte_seqs(labels@));
    crate::encode::write_size_header(out, labels.len(), 0x90, 0xD4, 0xD5, 0xD6);
    let n = labels.len();
    let mut j: usize = 0;
    proof {
        assert(sv.skip(0) =~= sv);
        let ghost mid = old(out)@ + crate::packstream::size_header(
            labels@.len() as nat,
            0x90,
            0xD4,
            0xD5,
            0xD6,
        );
        assert(mid + Seq::<u8>::empty() =~= mid);
    }
    while j < n
        invariant
            j <= n,
            n == labels@.len(),
            sv == str_values(byte_seqs(labels@)),
            sv.len() == n,
            enc_check_items(sv) is None,
            out@ + enc_items(sv.skip(j as int)) == old(out)@ + crate::packstream::size_header(
                labels@.len() as nat,
                0x90,
                0xD4,
                0xD5,
                0xD6,
            ) + enc_items(sv),
        decreases n - j,
    {
        proof {
            crate::packstream::lemma_enc_check_items_elem(sv, j as int);
            assert(sv[j as int] == ValueView::Str(labels@[j as int]@));
            assert(sv.skip(j as int)[0] == sv[j as int]);
            assert(sv.skip(j as int).subrange(1, sv.skip(j as int).len() as int) =~= sv.skip(
                j as int + 1,
            ));
        }
        let ghost out_before = out@;
        encode_string_into(out, labels[j].as_slice());
        proof {
            assert(out_before + (enc(sv[j as int]) + enc_items(sv.skip(j as int + 1))) =~= (
            out_before + enc(sv[j as int])) + enc_items(sv.skip(j as int + 1)));
        }
        j += 1;
    }
    proof {
        assert(sv.skip(n as int) =~= Seq::<ValueView>::empty());
        assert(out@ + Seq::<u8>::empty() =~= out@);
        assert(out@ =~= old(out)@ + enc(ValueView::List(sv)));
    }
}

/// Appends the encoding of integers as a list of integer values.
fn encode_int_list_into(out: &mut Vec<u8>, ns: &Vec<i64>)
    requires
        ns@.len() <= 0xFFFF_FFFF,
    ensures
        final(out)@ == old(out)@ + enc(ValueView::List(int_values(ns@))),
{
    let ghost sv = int_values(ns@);
    crate::encode::write_size_header(out, ns.len(), 0x90, 0xD4, 0xD5, 0xD6);
    let n = ns.len();
    let mut j: usize = 0;
    proof {
        assert(sv.skip(0) =~= sv);
        let ghost mid = old(out)@ + crate::packstream::size_header(
            ns@.len() as nat,
            0x90,
            0xD4,
            0xD5,
            0xD6,
        );
        assert(mid + Seq::<u8>::empty() =~= mid);
    }
    while j < n
        invariant
            j <= n,
            n == ns@.len(),
            sv == int_values(ns@),
            sv.len() == n,
            out@ + enc_items(sv.skip(j as int)) == old(out)@ + crate::packstream::size_header(
                ns@.len() as nat,
                0x90,
                0xD4,
                0xD5,
                0xD6,
            ) + enc_items(sv),
        decreases n - j,
    {
        proof {
            assert(sv[j as int] == ValueView::Int(ns@[j as int]));
            assert(sv.skip(j as int)[0] == sv[j as int]);
            assert(sv.skip(j as int).subrange(1, sv.skip(j as int).len() as int) =~= sv.skip(
                j as int + 1,
            ));
        }
        let ghost out_before = out@;
        crate::encode::encode_int_into(out, ns[j]);
        proof {
            assert(out_before + (enc(sv[j as int]) + enc_items(sv.skip(j as int + 1))) =~= (
            out_before + enc(sv[j as int])) + enc_items(sv.skip(j as int + 1)));
        }
        j += 1;
    }
    proof {
        assert(sv.skip(n as int) =~= Seq::<ValueView>::empty());
        assert(out@ + Seq::<u8>::empty() =~= out@);
        assert(out@ =~= old(out)@ + enc(ValueView::List(sv)));
    }
}

/// The bytes of a `Node` structure. The identity is encoded as a signed
/// integer, so it must not exceed the signed range.
pub fn serialize_node(
    node_identity: u64,
    labels: &Vec<Vec<u8>>,
    properties: &Vec<(Vec<u8>, Value)>,
) -> (r: Result<Vec<u8>, EncodeError>)
    requires
        node_identity <= i64::MAX as u64,
    ensures
        r matches Ok(b) ==> encodable(
            node_view(
                node_identity as i64,
                byte_seqs(labels@),
                Value::pair_models(properties@),
            ),
        ) && b@ == enc(
            node_view(
                node_identity as i64,
                byte_seqs(labels@),
                Value::pair_models(properties@),
            ),
        ),
        r matches Err(e) ==> enc_check(
            node_view(
                node_identity as i64,
                byte_seqs(labels@),
                Value::pair_models(properties@),
            ),
        ) == Some(e),
        encodable(
            node_view(
                node_identity as i64,
                byte_seqs(labels@),
                Value::pair_models(properties@),
            ),
        ) <==> r is Ok,
{
    let id = node_identity as i64;
    let ghost a = ValueView::Int(id as i64);
    let ghost b = ValueView::List(str_values(byte_seqs(labels@)));
    let ghost c = ValueView::Dict(Value::pair_models(properties@));
    proof {
        lemma_enc_items3(a, b, c);
    }
    match check_str_list(labels) {
        Some(e) => Err(e),
        None => match check_dict(properties) {
            Some(e) => Err(e),
            None => {
                let mut out: Vec<u8> = Vec::new();
                write_struct_header(&mut out, 3);
                out.push(0x4E);
                crate::encode::encode_int_into(&mut out, id);
                encode_str_list_into(&mut out, labels);
                encode_dict_into(&mut out, properties);
                proof {
                    assert(out@ =~= struct_header(3) + seq![0x4Eu8] + (enc(a) + enc(b) + enc(c)));
                    assert(out@ =~= enc(
                        node_view(
                            node_identity as i64,
                            byte_seqs(labels@),
                            Value::pair_models(properties@),
                        ),
                    ));
                }
                Ok(out)
            },
        },
    }
}

/// The bytes of a `Relationship` structure. Identities are encoded as
/// signed integers, so they must not exceed the signed range.
pub fn serialize_relationship(
    rel_identity: u64,
    start_node_identity: u64,
    end_node_identity: u64,
    rel_type: &[u8],
    properties: &Vec<(Vec<u8>, Value)>,
) -> (r: Result<Vec<u8>, EncodeError>)
    requires
        rel_identity <= i64::MAX as u64,
        start_node_identity <= i64::MAX as u64,
        end_node_identity <= i64::MAX as u64,
    ensures
        r matches Ok(b) ==> encodable(
            relationship_view(
                rel_identity as i64,
                start_node_identity as i64,
                end_node_identity as i64,
                rel_type@,
                Value::pair_models(properties@),
            ),
        ) && b@ == enc(
            relationship_view(
                rel_identity as i64,
                start_node_identity as i64,
                end_node_identity as i64,
                rel_type@,
                Value::pair_models(properties@),
            ),
        ),
        r matches Err(e) ==> enc_check(
            relationship_view(
                rel_identity as i64,
                start_node_identity as i64,
                end_node_identity as i64,
                rel_type@,
                Value::pair_models(properties@),
            ),
        ) == Some(e),
        encodable(
            relationship_view(
                rel_identity as i64,
                start_node_identity as i64,
                end_node_identity as i64,
                rel_type@,
                Value::pair_models(properties@),
            ),
        ) <==> r is Ok,
{
    let ghost a = ValueView::Int(rel_identity as i64);
    let ghost b = ValueView::Int(start_node_identity as i64);
    let ghost c = ValueView::Int(end_node_identity as i64);
    let ghost d = ValueView::Str(rel_type@);
    let ghost e = ValueView::Dict(Value::pair_models(properties@));
    proof {
        lemma_enc_items5(a, b, c, d, e);
    }
    match check_string(rel_type) {
        Some(er) => Err(er),
        None => match check_dict(properties) {
            Some(er) => Err(er),
            None => {
                let mut out: Vec<u8> = Vec::new();
                write_struct_header(&mut out, 5);
                out.push(0x52);
                crate::encode::encode_int_into(&mut out, rel_identity as i64);
                crate::encode::encode_int_into(&mut out, start_node_identity as i64);
                crate::encode::encode_int_into(&mut out, end_node_identity as i64);
                encode_string_into(&mut out, rel_type);
                encode_dict_into(&mut out, properties);
                proof {
                    assert(out@ =~= struct_header(5) + seq![0x52u8] + (enc(a) + enc(b) + enc(c)
                        + enc(d) + enc(e)));
                    assert(out@ =~= enc(
                        relationship_view(
                            rel_identity as i64,
                            start_node_identity as i64,
                            end_node_identity as i64,
                            rel_type@,
                            Value::pair_models(properties@),
                        ),
                    ));
                }
                Ok(out)
            },
        },
    }
}

/// The bytes of an `UnboundRelationship` structure.
pub fn serialize_unbound_relationship(
    rel_identity: u64,
    rel_type: &[u8],
    properties: &Vec<(Vec<u8>, Value)>,
) -> (r: Result<Vec<u8>, EncodeError>)
    requires
        rel_identity <= i64::MAX as u64,
    ensures
        r matches Ok(b) ==> encodable(
            unbound_relationship_view(
                rel_identity as i64,
                rel_type@,
                Value::pair_models(properties@),
            ),
        ) && b@ == enc(
            unbound_relationship_view(
                rel_identity as i64,
                rel_type@,
                Value::pair_models(properties@),
            ),
        ),
        r matches Err(e) ==> enc_check(
            unbound_relationship_view(
                rel_identity as i64,
                rel_type@,
                Value::pair_models(properties@),
            ),
        ) == Some(e),
        encodable(
            unbound_relationship_view(
                rel_identity as i64,
                rel_type@,
                Value::pair_models(properties@),
            ),
        ) <==> r is Ok,
{
    let ghost a = ValueView::Int(rel_identity as i64);
    let ghost b = ValueView::Str(rel_type@);
    let ghost c = ValueView::Dict(Value::pair_models(properties@));
    proof {
        lemma_enc_items3(a, b, c);
    }
    match check_string(rel_type) {
        Some(er) => Err(er),
        None => match check_dict(properties) {
            Some(er) => Err(er),
            None => {
                let mut out: Vec<u8> = Vec::new();
                write_struct_header(&mut out, 3);
                out.push(0x72);
                crate::encode::encode_int_into(&mut out, rel_identity as i64);
                encode_string_into(&mut out, rel_type);
                encode_dict_into(&mut out, properties);
                proof {
                    assert(out@ =~= struct_header(3) + seq![0x72u8] + (enc(a) + enc(b) + enc(c)));
                    assert(out@ =~= enc(
                        unbound_relationship_view(
                            rel_identity as i64,
                            rel_type@,
                            Value::pair_models(properties@),
                        ),
                    ));
                }
                Ok(out)
            },
        },
    }
}

/// The bytes of a `Path` structure: its nodes, its relationships, and the
/// alternating index sequence.
pub fn serialize_path(
    nodes: &Vec<Value>,
    relationships: &Vec<Value>,
    sequence: &Vec<i64>,
) -> (r: Result<Vec<u8>, EncodeError>)
    ensures
        r matches Ok(b) ==> encodable(
            path_view(Value::models(nodes@), Value::models(relationships@), sequence@),
        ) && b@ == enc(
            path_view(Value::models(nodes@), Value::models(relationships@), sequence@),
        ),
        r matches Err(e) ==> enc_check(
            path_view(Value::models(nodes@), Value::models(relationships@), sequence@),
        ) == Some(e),
        encodable(
            path_view(Value::models(nodes@), Value::models(relationships@), sequence@),
        ) <==> r is Ok,
{
    let ghost a = ValueView::List(Value::models(nodes@));
    let ghost b = ValueView::List(Value::models(relationships@));
    let ghost c = ValueView::List(int_values(sequence@));
    proof {
        lemma_enc_items3(a, b, c);
        lemma_int_values_ok(sequence@);
    }
    match check_list(nodes) {
        Some(e) => Err(e),
        None => match check_list(relationships) {
            Some(e) => Err(e),
            None => {
                if sequence.len() as u64 > 0xFFFF_FFFF {
                    return Err(EncodeError::ListTooLong);
                }
                let mut out: Vec<u8> = Vec::new();
                write_struct_header(&mut out, 3);
                out.push(0x50);
                crate::encode::encode_list_into(&mut out, nodes);
                crate::encode::encode_list_into(&mut out, relationships);
                encode_int_list_into(&mut out, sequence);
                proof {
                    assert(out@ =~= struct_header(3) + seq![0x50u8] + (enc(a) + enc(b) + enc(c)));
                    assert(out@ =~= enc(
                        path_view(
                            Value::models(nodes@),
                            Value::models(relationships@),
                            sequence@,
                        ),
                    ));
                }
                Ok(out)
            },
        },
    }
}

// ---------------------------------------------------------------------------
// Classification of server messages
// ---------------------------------------------------------------------------

/// The kinds of message a server sends.
#[derive(Clone, Copy, Debug, PartialEq, Eq, Structural)]
pub enum ResponseKind {
    Success,
    Record,
    Ignored,
    Failure,
}

/// What a decoded value means as a server message: its kind and its single
/// field (the metadata map, or a record's column list), or nothing when the
/// value is not a well-formed server message.
pub open spec fn classify_view(v: ValueView) -> Option<(ResponseKind, ValueView)> {
    match v {
        ValueView::Structure(sig, fields) => if fields.len() == 1 {
            if sig == 0x70 && fields[0] is Dict {
                Some((ResponseKind::Success, fields[0]))
            } else if sig == 0x71 && fields[0] is List {
                Some((ResponseKind::Record, fields[0]))
            } else if sig == 0x7E && fields[0] is Dict {
                Some((ResponseKind::Ignored, fields[0]))
            } else if sig == 0x7F && fields[0] is Dict {
                Some((ResponseKind::Failure, fields[0]))
            } else {
                None
            }
        } else {
            None
        },
        _ => None,
    }
}

/// Classifies a decoded value as a server message, handing back its kind
/// and its single field.
pub fn classify_response(v: Value) -> (r: Option<(ResponseKind, Value)>)
    ensures
        match classify_view(v@) {
            Some(p) => r matches Some(q) && q.0 == p.0 && q.1@ == p.1,
            None => r is None,
        },
{
    match v {
        Value::Structure(sig, mut fields) => {
            proof {
                lemma_models_len(fields@);
            }
            if fields.len() != 1 {
                return None;
            }
            proof {
                lemma_models_index(fields@, 0);
            }
            let payload = match fields.pop() {
                Some(p) => p,
                None => {
                    return None;
                },
            };
            let is_dict = match &payload {
                Value::Dict(_) => true,
                _ => false,
            };
            let is_list = match &payload {
                Value::List(_) => true,
                _ => false,
            };
            if sig == 0x70 && is_dict {
                Some((ResponseKind::Success, payload))
            } else if sig == 0x71 && is_list {
                Some((ResponseKind::Record, payload))
            } else if sig == 0x7E && is_dict {
                Some((ResponseKind::Ignored, payload))
            } else if sig == 0x7F && is_dict {
                Some((ResponseKind::Failure, payload))
            } else {
                None
            }
        },
        _ => None,
    }
}

/// Whether two byte strings hold the same bytes.
pub fn bytes_equal(a: &[u8], b: &[u8]) -> (r: bool)
    ensures
        r == (a@ == b@),
{
    if a.len() != b.len() {
        proof {
            assert(a@.len() != b@.len());
        }
        return false;
    }
    let n = a.len();
    let mut j: usize = 0;
    while j < n
        invariant
            j <= n,
            n == a@.len(),
            n == b@.len(),
            forall|i: int| 0 <= i < j ==> a@[i] == b@[i],
        decreases n - j,
    {
        if a[j] != b[j] {
            return false;
        }
        j += 1;
    }
    proof {
        assert(a@ =~= b@);
    }
    true
}

/// The value under the first occurrence of a key in a map's pairs, or
/// nothing when the key is absent.
pub open spec fn dict_lookup(s: Seq<(Seq<u8>, ValueView)>, key: Seq<u8>) -> Option<ValueView>
    decreases s,
{
    if s.len() == 0 {
        None
    } else if s[0].0 == key {
        Some(s[0].1)
    } else {
        dict_lookup(s.subrange(1, s.len() as int), key)
    }
}

/// Looks a key up among a map's pairs: the first matching entry's value.
pub fn dict_get<'a>(pairs: &'a Vec<(Vec<u8>, Value)>, key: &[u8]) -> (r: Option<&'a Value>)
    ensures
        match dict_lookup(Value::pair_models(pairs@), key@) {
            Some(v) => r matches Some(q) && q@ == v,
            None => r is None,
        },
{
    let ghost vs = Value::pair_models(pairs@);
    proof {
        crate::value::lemma_pair_models_len(pairs@);
        assert(vs.skip(0) =~= vs);
    }
    let n = pairs.len();
    let mut j: usize = 0;
    while j < n
        invariant
            j <= n,
            n == pairs@.len(),
            vs == Value::pair_models(pairs@),
            vs.len() == n,
            dict_lookup(vs, key@) == dict_lookup(vs.skip(j as int), key@),
        decreases n - j,
    {
        proof {
            crate::value::lemma_pair_models_index(pairs@, j as int);
            assert(vs.skip(j as int)[0] == vs[j as int]);
            assert(vs.skip(j as int).subrange(1, vs.skip(j as int).len() as int) =~= vs.skip(
                j as int + 1,
            ));
        }
        if bytes_equal(pairs[j].0.as_slice(), key) {
            return Some(&pairs[j].1);
        }
        j += 1;
    }
    proof {
        assert(vs.skip(n as int) =~= Seq::<(Seq<u8>, ValueView)>::empty());
    }
    None
}

} // verus!
