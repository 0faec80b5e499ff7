//! The PackStream data model: a tagged union of every value kind the wire
//! format can carry, together with its mathematical view.

use vstd::prelude::*;

verus! {

broadcast use vstd::std_specs::vec::group_vec_axioms;

/// A PackStream value.
///
/// Text is carried as its UTF-8 bytes, and a float as its IEEE-754 bit
/// pattern, so that the whole type is made of plain values the verifier can
/// reason about; the wire format reads and writes exactly these bytes and
/// bits. Map entries keep the order the caller supplied, which is the order
/// they take on the wire.
#[derive(Debug, PartialEq)]
pub enum Value {
    Null,
    Bool(bool),
    Int(i64),
    /// IEEE-754 double, as its 8-byte bit pattern.
    Float(u64),
    /// Text, as its UTF-8 bytes.
    Str(Vec<u8>),
    List(Vec<Value>),
    /// Key/value pairs in caller-supplied order; keys are UTF-8 bytes.
    /// The format tolerates duplicate keys, but a producer must not supply
    /// them.
    Dict(Vec<(Vec<u8>, Value)>),
    /// A tagged structure: signature byte, then fields.
    Structure(u8, Vec<Value>),
}

/// The mathematical shape of a [`Value`]: the same tree over `Seq` instead of
/// `Vec`. Contracts throughout the crate speak of this type.
pub enum ValueView {
    Null,
    Bool(bool),
    Int(i64),
    Float(u64),
    Str(Seq<u8>),
    List(Seq<ValueView>),
    Dict(Seq<(Seq<u8>, ValueView)>),
    Structure(u8, Seq<ValueView>),
}

impl View for Value {
    type V = ValueView;

    open spec fn view(&self) -> ValueView {
        self.model()
    }
}

impl Value {
    /// The mathematical value this node stands for, children included.
    pub open spec fn model(self) -> ValueView
        decreases self,
    {
        match self {
            Value::Null => ValueView::Null,
            Value::Bool(b) => ValueView::Bool(b),
            Value::Int(i) => ValueView::Int(i),
            Value::Float(bits) => ValueView::Float(bits),
            Value::Str(bytes) => ValueView::Str(bytes@),
            Value::List(items) => ValueView::List(Self::models(items@)),
            Value::Dict(pairs) => ValueView::Dict(Self::pair_models(pairs@)),
            Value::Structure(sig, fields) => ValueView::Structure(sig, Self::models(fields@)),
        }
    }

    /// The models of a sequence of values, in order.
    pub open spec fn models(s: Seq<Value>) -> Seq<ValueView>
        decreases s,
    {
        if s.len() == 0 {
            Seq::empty()
        } else {
            seq![s[0].model()] + Self::models(s.subrange(1, s.len() as int))
        }
    }

    /// The models of a sequence of key/value pairs, in order.
    pub open spec fn pair_models(s: Seq<(Vec<u8>, Value)>) -> Seq<(Seq<u8>, ValueView)>
        decreases s,
    {
        if s.len() == 0 {
            Seq::empty()
        } else {
            seq![(s[0].0@, s[0].1.model())] + Self::pair_models(s.subrange(1, s.len() as int))
        }
    }
}

/// The models of a sequence are as many as its values.
pub broadcast proof fn lemma_models_len(s: Seq<Value>)
    ensures
        (#[trigger] Value::models(s)).len() == s.len(),
    decreases s,
{
    if s.len() > 0 {
        lemma_models_len(s.subrange(1, s.len() as int));
    }
}

/// The model sequence is the sequence of models, position by position.
pub broadcast proof fn lemma_models_index(s: Seq<Value>, i: int)
    requires
        0 <= i < s.len(),
    ensures
        #[trigger] Value::models(s)[i] == s[i].model(),
    decreases s,
{
    lemma_models_len(s);
    if i > 0 {
        lemma_models_index(s.subrange(1, s.len() as int), i - 1);
    }
}

/// Appending a value appends its model.
pub broadcast proof fn lemma_models_push(s: Seq<Value>, x: Value)
    ensures
        #[trigger] Value::models(s.push(x)) == Value::models(s).push(x.model()),
    decreases s,
{
    lemma_models_len(s);
    if s.len() == 0 {
        assert(s.push(x)[0] == x);
        assert(s.push(x).subrange(1, s.push(x).len() as int) =~= Seq::<Value>::empty());
        assert(Value::models(s.push(x)) == seq![x.model()] + Value::models(
            Seq::<Value>::empty(),
        ));
        assert(Value::models(s.push(x)) =~= Value::models(s).push(x.model()));
    } else {
        let sub = s.subrange(1, s.len() as int);
        lemma_models_push(sub, x);
        lemma_models_len(sub);
        assert(s.push(x)[0] == s[0]);
        assert(s.push(x).subrange(1, s.push(x).len() as int) =~= sub.push(x));
        assert(Value::models(s.push(x)) == seq![s[0].model()] + Value::models(sub.push(x)));
        assert(Value::models(sub.push(x)) == Value::models(sub).push(x.model()));
        assert(Value::models(s) == seq![s[0].model()] + Value::models(sub));
        assert(seq![s[0].model()] + Value::models(sub).push(x.model()) =~= (
        seq![s[0].model()] + Value::models(sub)).push(x.model()));
    }
}

/// As [`lemma_models_len`], for pairs.
pub broadcast proof fn lemma_pair_models_len(s: Seq<(Vec<u8>, Value)>)
    ensures
        (#[trigger] Value::pair_models(s)).len() == s.len(),
    decreases s,
{
    if s.len() > 0 {
        lemma_pair_models_len(s.subrange(1, s.len() as int));
    }
}

/// As [`lemma_models_index`], for pairs.
pub broadcast proof fn lemma_pair_models_index(s: Seq<(Vec<u8>, Value)>, i: int)
    requires
        0 <= i < s.len(),
    ensures
        #[trigger] Value::pair_models(s)[i] == (s[i].0@, s[i].1.model()),
    decreases s,
{
    lemma_pair_models_len(s);
    if i > 0 {
        lemma_pair_models_index(s.subrange(1, s.len() as int), i - 1);
    }
}

/// As [`lemma_models_push`], for pairs.
pub broadcast proof fn lemma_pair_models_push(s: Seq<(Vec<u8>, Value)>, x: (Vec<u8>, Value))
    ensures
        #[trigger] Value::pair_models(s.push(x)) == Value::pair_models(s).push(
            (x.0@, x.1.model()),
        ),
    decreases s,
{
    lemma_pair_models_len(s);
    if s.len() == 0 {
        assert(s.push(x)[0] == x);
        assert(s.push(x).subrange(1, s.push(x).len() as int) =~= Seq::<(Vec<u8>, Value)>::empty());
        assert(Value::pair_models(s.push(x)) == seq![(x.0@, x.1.model())] + Value::pair_models(
            Seq::<(Vec<u8>, Value)>::empty(),
        ));
        assert(Value::pair_models(s.push(x)) =~= Value::pair_models(s).push((x.0@, x.1.model())));
    } else {
        let sub = s.subrange(1, s.len() as int);
        lemma_pair_models_push(sub, x);
        lemma_pair_models_len(sub);
        assert(s.push(x)[0] == s[0]);
        assert(s.push(x).subrange(1, s.push(x).len() as int) =~= sub.push(x));
        assert(Value::pair_models(s.push(x)) == seq![(s[0].0@, s[0].1.model())]
            + Value::pair_models(sub.push(x)));
        assert(Value::pair_models(sub.push(x)) == Value::pair_models(sub).push(
            (x.0@, x.1.model()),
        ));
        assert(Value::pair_models(s) == seq![(s[0].0@, s[0].1.model())] + Value::pair_models(sub));
        assert(seq![(s[0].0@, s[0].1.model())] + Value::pair_models(sub).push((x.0@, x.1.model()))
            =~= (seq![(s[0].0@, s[0].1.model())] + Value::pair_models(sub)).push(
            (x.0@, x.1.model()),
        ));
    }
}

} // verus!
