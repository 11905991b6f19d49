//! Execution helpers: resolving a selection set against a structured
//! object through the resolution protocol.

use vstd::prelude::*;
use crate::query;
use crate::query::SpecQField;
use crate::result;
use crate::schema::ResolveObject;
use crate::types::Name;
use crate::QlResult;

verus! {

/// The output name of a requested field: its alias if one was requested,
/// else its name.
pub open spec fn output_name(f: SpecQField) -> Seq<char> {
    match f.alias {
        Some(a) => a,
        None => f.name,
    }
}

/// Whether `val` is a value one `resolve_field` call on exactly the
/// requested field `f` can return.
pub open spec fn resolves_to<O: ResolveObject>(f: crate::query::Field, val: result::SpecResValue) -> bool {
    exists|ob: &O, fd: &query::Field, o: QlResult<result::Value>|
        {
            &&& #[trigger] call_ensures(<O as ResolveObject>::resolve_field, (ob, fd), o)
            &&& *fd == f
            &&& o matches Ok(v) && v@ == val
        }
}

/// Resolves each requested field against the object and accumulates an
/// object value that pairs each field's output name, in the requested
/// order, with what one `resolve_field` call on that field returned; the
/// first resolution failure aborts with that call's error. An empty
/// selection always succeeds.
pub fn select_fields<O: ResolveObject>(object: &O, fields: &[query::Field]) -> (r: QlResult<
    result::Value,
>)
    ensures
        r matches Ok(v) ==> (v@ matches result::SpecResValue::Object(es) && es.len()
            == fields@.len() && (forall|i: int|
            0 <= i < es.len() ==> (#[trigger] es[i]).0 == output_name(fields@[i]@)) && (forall|
            i: int,
        |
            0 <= i < es.len() ==> resolves_to::<O>(fields@[i], (#[trigger] es[i]).1))),
        r matches Err(e) ==> exists|ob: &O, fd: &query::Field, i: int|
            #![trigger call_ensures(<O as ResolveObject>::resolve_field, (ob, fd), Err::<result::Value, crate::QlError>(e)), fields@[i]]
            {
                &&& 0 <= i < fields@.len()
                &&& *fd == fields@[i]
                &&& call_ensures(
                    <O as ResolveObject>::resolve_field,
                    (ob, fd),
                    Err::<result::Value, crate::QlError>(e),
                )
            },
        fields@.len() == 0 ==> r is Ok,
{
    let mut out: Vec<(Name, result::Value)> = Vec::new();
    let n = fields.len();
    let mut i: usize = 0;
    while i < n
        invariant
            0 <= i <= n,
            n == fields@.len(),
            out@.len() == i,
            forall|k: int|
                0 <= k < i ==> (#[trigger] out@[k]).0@ == output_name(fields@[k]@),
            forall|k: int|
                0 <= k < i ==> resolves_to::<O>(fields@[k], (#[trigger] out@[k]).1@),
        decreases n - i,
    {
        let f = vstd::slice::slice_index_get(fields, i);
        let name: Name = match &f.alias {
            Some(a) => a.clone(),
            None => f.name.clone(),
        };
        let value = match object.resolve_field(f) {
            Ok(v) => v,
            Err(e) => {
                return Err(e);
            }
        };
        proof {
            assert(resolves_to::<O>(fields@[i as int], value@));
        }
        out.push((name, value));
        i = i + 1;
    }
    let v = result::Value::Object(result::Object { fields: out });
    proof {
        assert(v@ matches result::SpecResValue::Object(es) && es.len() == fields@.len() && (forall|
            i: int,
        |
            0 <= i < es.len() ==> (#[trigger] es[i]).0 == output_name(fields@[i]@)) && (forall|
            i: int,
        |
            0 <= i < es.len() ==> (#[trigger] es[i]).1 == out@[i].1@));
    }
    Ok(v)
}

} // verus!
