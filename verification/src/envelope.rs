use vstd::prelude::*;
use vstd::string::StringExecFns;
use crate::error::{Error, ErrorKind};
use crate::value::{Value, ValueView, value_view, lookup, has_key, map_get};

verus! {

// The envelope convention: a guest reports success or failure through the
// same data channel as plain return values. A map holding an `Err` key is a
// guest-reported failure, a map holding an `Ok` key wraps the real result,
// and anything else passes through unchanged. The `Err` key wins when both
// are present.

/// The description carried by the value under an `Err` key: its
/// `description` entry when that is a string, empty otherwise.
pub open spec fn err_description(v: ValueView) -> Seq<char> {
    match v {
        ValueView::Object(es) => match lookup(es, "description"@) {
            Option::Some(ValueView::Str(s)) => s,
            _ => Seq::empty(),
        },
        _ => Seq::empty(),
    }
}

/// What unwrapping an envelope yields: the unwrapped value, or the
/// description of a guest-reported failure.
pub open spec fn unwrap_spec(v: ValueView) -> Result<ValueView, Seq<char>> {
    match v {
        ValueView::Object(es) => if has_key(es, "Err"@) {
            Result::Err(err_description(lookup(es, "Err"@).unwrap()))
        } else if has_key(es, "Ok"@) {
            Result::Ok(lookup(es, "Ok"@).unwrap())
        } else {
            Result::Ok(v)
        },
        _ => Result::Ok(v),
    }
}

/// The string description of the value under an `Err` key.
fn describe_err(v: &Value) -> (d: String)
    ensures
        d@ == err_description(v@),
{
    match v {
        Value::Object(entries) => {
            match map_get(entries, &String::from_str("description")) {
                Option::Some(inner) => match inner {
                    Value::Str(s) => s.clone(),
                    _ => String::new(),
                },
                Option::None => String::new(),
            }
        },
        _ => String::new(),
    }
}

/// Unwraps the decoded output envelope: an `Err` key surfaces as a
/// guest-reported failure carrying its description, an `Ok` key unwraps to
/// its value, and a value with neither key passes through unchanged.
pub fn unwrap_output(output: Value) -> (r: Result<Value, Error>)
    ensures
        match r {
            Ok(v) => unwrap_spec(output@) == Result::<ValueView, Seq<char>>::Ok(v@),
            Err(e) => unwrap_spec(output@) == Result::<ValueView, Seq<char>>::Err(e.description@)
                && e.kind == ErrorKind::GuestReported,
        },
{
    match output {
        Value::Object(entries) => {
            match map_get(&entries, &String::from_str("Err")) {
                Option::Some(errval) => {
                    let d = describe_err(errval);
                    Err(Error::new(ErrorKind::GuestReported, d))
                },
                Option::None => {
                    match find_key(&entries, &String::from_str("Ok")) {
                        Option::Some(i) => {
                            let mut entries = entries;
                            let (_, v) = entries.remove(i);
                            Ok(v)
                        },
                        Option::None => Ok(Value::Object(entries)),
                    }
                },
            }
        },
        other => Ok(other),
    }
}

/// Index of the first entry bound to `key`, if any.
fn find_key(entries: &Vec<(String, Value)>, key: &String) -> (r: Option<usize>)
    ensures
        match r {
            Option::Some(i) => i < entries@.len() && entries@[i as int].0@ == key@ && lookup(
                crate::value::entries_view(entries@),
                key@,
            ) == Option::Some(value_view(entries@[i as int].1)),
            Option::None => lookup(crate::value::entries_view(entries@), key@) is None,
        },
{
    let ghost es = crate::value::entries_view(entries@);
    proof {
        crate::value::lemma_entries_view_index(entries@);
        assert(es.skip(0) =~= es);
    }
    for i in 0..entries.len()
        invariant
            es == crate::value::entries_view(entries@),
            es.len() == entries@.len(),
            forall|j: int| 0 <= j < es.len()
                ==> es[j] == ((#[trigger] entries@[j]).0@, value_view(entries@[j].1)),
            lookup(es, key@) == lookup(es.skip(i as int), key@),
    {
        proof {
            assert(es.skip(i as int).len() == es.len() - i);
            assert(es.skip(i as int)[0] == es[i as int]);
            assert(es.skip(i as int).drop_first() =~= es.skip(i as int + 1));
        }
        if entries[i].0.eq(key) {
            return Some(i);
        }
    }
    proof {
        assert(es.skip(entries@.len() as int).len() == 0);
    }
    None
}

} // verus!
