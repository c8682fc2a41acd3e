use vstd::prelude::*;

verus! {

/// Mathematical model of a structured value: the shape that contracts and
/// proofs speak of. Map entries keep their order; a key may occur more than
/// once, and a lookup means the first occurrence.
#[verifier::ext_equal]
pub enum ValueView {
    Null,
    Bool(bool),
    Int(int),
    Str(Seq<char>),
    Arr(Seq<ValueView>),
    Object(Seq<(Seq<char>, ValueView)>),
}

/// A structured, JSON-like value: what a caller hands to the engine and what
/// the engine hands back. Numbers are signed 64-bit integers — a wire form
/// carrying an unsigned value beyond that range is rejected at decode —
/// and maps are ordered lists of string-keyed entries.
#[derive(Debug, PartialEq)]
pub enum Value {
    Null,
    Bool(bool),
    Int(i64),
    Str(String),
    Arr(Vec<Value>),
    Object(Vec<(String, Value)>),
}

/// The model of a value.
pub open spec fn value_view(v: Value) -> ValueView
    decreases v,
{
    match v {
        Value::Null => ValueView::Null,
        Value::Bool(b) => ValueView::Bool(b),
        Value::Int(i) => ValueView::Int(i as int),
        Value::Str(s) => ValueView::Str(s@),
        Value::Arr(elems) => ValueView::Arr(seq_view(elems@)),
        Value::Object(entries) => ValueView::Object(entries_view(entries@)),
    }
}

/// The models of a sequence of values, in order.
pub open spec fn seq_view(s: Seq<Value>) -> Seq<ValueView>
    decreases s,
{
    if s.len() == 0 {
        Seq::empty()
    } else {
        seq![value_view(s[0])] + seq_view(s.drop_first())
    }
}

/// The models of a sequence of map entries, in order.
pub open spec fn entries_view(s: Seq<(String, Value)>) -> Seq<(Seq<char>, ValueView)>
    decreases s,
{
    if s.len() == 0 {
        Seq::empty()
    } else {
        seq![(s[0].0@, value_view(s[0].1))] + entries_view(s.drop_first())
    }
}

impl View for Value {
    type V = ValueView;

    open spec fn view(&self) -> ValueView {
        value_view(*self)
    }
}

pub proof fn lemma_seq_view_index(s: Seq<Value>)
    ensures
        seq_view(s).len() == s.len(),
        forall|i: int| 0 <= i < s.len() ==> seq_view(s)[i] == value_view(#[trigger] s[i]),
    decreases s.len(),
{
    if s.len() > 0 {
        lemma_seq_view_index(s.drop_first());
        assert forall|i: int| 0 <= i < s.len() implies seq_view(s)[i] == value_view(
            #[trigger] s[i],
        ) by {
            if i > 0 {
                assert(s.drop_first()[i - 1] == s[i]);
                assert(seq_view(s)[i] == seq_view(s.drop_first())[i - 1]);
            }
        }
    }
}

pub proof fn lemma_entries_view_index(s: Seq<(String, Value)>)
    ensures
        entries_view(s).len() == s.len(),
        forall|i: int| 0 <= i < s.len()
            ==> entries_view(s)[i] == ((#[trigger] s[i]).0@, value_view(s[i].1)),
    decreases s.len(),
{
    if s.len() > 0 {
        lemma_entries_view_index(s.drop_first());
        assert forall|i: int| 0 <= i < s.len() implies entries_view(s)[i] == ((#[trigger] s[i]).0@,
        value_view(s[i].1)) by {
            if i > 0 {
                assert(s.drop_first()[i - 1] == s[i]);
                assert(entries_view(s)[i] == entries_view(s.drop_first())[i - 1]);
            }
        }
    }
}

/// First value bound to `key`, if any.
pub open spec fn lookup(entries: Seq<(Seq<char>, ValueView)>, key: Seq<char>) -> Option<ValueView>
    decreases entries.len(),
{
    if entries.len() == 0 {
        Option::None
    } else if entries[0].0 == key {
        Option::Some(entries[0].1)
    } else {
        lookup(entries.drop_first(), key)
    }
}

pub open spec fn has_key(entries: Seq<(Seq<char>, ValueView)>, key: Seq<char>) -> bool {
    lookup(entries, key) is Some
}

/// First value bound to `key` among `entries`, if any.
pub fn map_get<'a>(entries: &'a Vec<(String, Value)>, key: &String) -> (r: Option<&'a Value>)
    ensures
        match r {
            Option::Some(v) => lookup(entries_view(entries@), key@) == Option::Some(v@),
            Option::None => lookup(entries_view(entries@), key@) is None,
        },
{
    let ghost es = entries_view(entries@);
    proof {
        lemma_entries_view_index(entries@);
        assert(es.skip(0) =~= es);
    }
    for i in 0..entries.len()
        invariant
            es == entries_view(entries@),
            es.len() == entries@.len(),
            forall|j: int| 0 <= j < es.len()
                ==> es[j] == ((#[trigger] entries@[j]).0@, value_view(entries@[j].1)),
            lookup(es, key@) == lookup(es.skip(i as int), key@),
    {
        proof {
            assert(es.skip(i as int).len() == es.len() - i);
            assert(es.skip(i as int)[0] == es[i as int]);
            assert(es.skip(i as int).drop_first() =~= es.skip(i as int + 1));
        }
        if entries[i].0.eq(key) {
            return Some(&entries[i].1);
        }
    }
    proof {
        assert(es.skip(entries@.len() as int).len() == 0);
    }
    None
}

} // verus!
