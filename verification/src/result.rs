//! The result model: the structured value execution produces, its
//! compact textual rendering, and the resolution protocol data objects
//! implement.

use vstd::prelude::*;
use crate::types::{Id, Name};
use crate::numtext::{int_text, i64_text, push_char};
use crate::{QlError, QlResult};
use crate::query;

verus! {

/// A result value. An object's fields keep exactly the requested order,
/// never re-sorted or de-duplicated.
#[derive(Debug)]
pub enum Value {
    Id(Id),
    Object(Object),
    Array(Vec<Value>),
    String(String),
    Int(i64),
    Null,
}

#[derive(Debug)]
pub struct Object {
    pub fields: Vec<(Name, Value)>,
}

/// The mathematical model of a result value.
#[verifier::ext_equal]
pub enum SpecResValue {
    Id(Seq<char>),
    Object(Seq<(Seq<char>, SpecResValue)>),
    Array(Seq<SpecResValue>),
    String(Seq<char>),
    Int(int),
    Null,
}

/// The model of a result value, by structural recursion.
pub open spec fn rvalue_view(v: Value) -> SpecResValue
    decreases v,
{
    match v {
        Value::Id(id) => SpecResValue::Id(id@),
        Value::Object(o) => SpecResValue::Object(
            Seq::new(
                o.fields@.len(),
                |i: int|
                    if 0 <= i < o.fields@.len() {
                        (o.fields@[i].0@, rvalue_view(o.fields@[i].1))
                    } else {
                        (Seq::empty(), SpecResValue::Null)
                    },
            ),
        ),
        Value::Array(vs) => SpecResValue::Array(
            Seq::new(
                vs@.len(),
                |i: int|
                    if 0 <= i < vs@.len() {
                        rvalue_view(vs@[i])
                    } else {
                        SpecResValue::Null
                    },
            ),
        ),
        Value::String(s) => SpecResValue::String(s@),
        Value::Int(n) => SpecResValue::Int(n as int),
        Value::Null => SpecResValue::Null,
    }
}

impl View for Value {
    type V = SpecResValue;

    open spec fn view(&self) -> SpecResValue {
        rvalue_view(*self)
    }
}

/// The models of a sequence of result values.
pub open spec fn rvalues_view(vs: Seq<Value>) -> Seq<SpecResValue> {
    Seq::new(vs.len(), |i: int| vs[i]@)
}

/// The models of an object's field list.
pub open spec fn rentries_view(es: Seq<(Name, Value)>) -> Seq<(Seq<char>, SpecResValue)> {
    Seq::new(es.len(), |i: int| (es[i].0@, es[i].1@))
}

/// The size of a result value, for recursion.
pub open spec fn rv_size(v: SpecResValue) -> nat
    decreases v,
{
    match v {
        SpecResValue::Object(es) => 1 + rentries_size(es),
        SpecResValue::Array(vs) => 1 + rvalues_size(vs),
        _ => 1,
    }
}

pub open spec fn rvalues_size(vs: Seq<SpecResValue>) -> nat
    decreases vs,
{
    if vs.len() == 0 {
        0
    } else {
        rv_size(vs[0]) + rvalues_size(vs.drop_first())
    }
}

pub open spec fn rentries_size(es: Seq<(Seq<char>, SpecResValue)>) -> nat
    decreases es,
{
    if es.len() == 0 {
        0
    } else {
        rv_size(es[0].1) + rentries_size(es.drop_first())
    }
}

pub proof fn lemma_rvalues_size_elem(vs: Seq<SpecResValue>, i: int)
    requires
        0 <= i < vs.len(),
    ensures
        rv_size(vs[i]) <= rvalues_size(vs),
    decreases i,
{
    if i > 0 {
        lemma_rvalues_size_elem(vs.drop_first(), i - 1);
        assert(vs.drop_first()[i - 1] == vs[i]);
    }
}

pub proof fn lemma_rentries_size_elem(es: Seq<(Seq<char>, SpecResValue)>, i: int)
    requires
        0 <= i < es.len(),
    ensures
        rv_size(es[i].1) <= rentries_size(es),
    decreases i,
{
    if i > 0 {
        lemma_rentries_size_elem(es.drop_first(), i - 1);
        assert(es.drop_first()[i - 1] == es[i]);
    }
}

/// The compact rendering of a result value: objects as
/// `{name:value,name:value}` in field order, arrays as `[v,v]`, strings
/// double-quoted with no escaping, integers in decimal, an id as its raw
/// token, and `null` for the null value.
pub open spec fn render(v: SpecResValue) -> Seq<char>
    decreases rv_size(v), 1nat,
{
    match v {
        SpecResValue::Id(s) => s,
        SpecResValue::Object(es) => seq!['{'] + render_entries(es) + seq!['}'],
        SpecResValue::Array(vs) => seq!['['] + render_values(vs) + seq![']'],
        SpecResValue::String(s) => seq!['"'] + s + seq!['"'],
        SpecResValue::Int(n) => int_text(n),
        SpecResValue::Null => seq!['n', 'u', 'l', 'l'],
    }
}

pub open spec fn render_entry(e: (Seq<char>, SpecResValue)) -> Seq<char>
    decreases rv_size(e.1), 2nat,
{
    e.0 + seq![':'] + render(e.1)
}

pub open spec fn render_entries(es: Seq<(Seq<char>, SpecResValue)>) -> Seq<char>
    decreases rentries_size(es), 3nat,
{
    if es.len() == 0 {
        Seq::empty()
    } else if es.len() == 1 {
        render_entry(es[0])
    } else {
        render_entry(es[0]) + seq![','] + render_entries(es.drop_first())
    }
}

pub open spec fn render_values(vs: Seq<SpecResValue>) -> Seq<char>
    decreases rvalues_size(vs), 3nat,
{
    if vs.len() == 0 {
        Seq::empty()
    } else if vs.len() == 1 {
        render(vs[0])
    } else {
        render(vs[0]) + seq![','] + render_values(vs.drop_first())
    }
}

pub open spec fn render_entries_upto(es: Seq<(Seq<char>, SpecResValue)>, n: int) -> Seq<char>
    decreases n,
{
    if n <= 0 {
        Seq::empty()
    } else if n == 1 {
        render_entry(es[0])
    } else {
        render_entries_upto(es, n - 1) + seq![','] + render_entry(es[n - 1])
    }
}

pub open spec fn render_values_upto(vs: Seq<SpecResValue>, n: int) -> Seq<char>
    decreases n,
{
    if n <= 0 {
        Seq::empty()
    } else if n == 1 {
        render(vs[0])
    } else {
        render_values_upto(vs, n - 1) + seq![','] + render(vs[n - 1])
    }
}

proof fn lemma_render_entries_upto_full(es: Seq<(Seq<char>, SpecResValue)>)
    ensures
        render_entries_upto(es, es.len() as int) == render_entries(es),
    decreases es.len(),
{
    if es.len() <= 1 {
    } else {
        lemma_render_entries_upto_full(es.drop_first());
        lemma_render_entries_upto_shift(es, es.len() as int);
    }
}

proof fn lemma_render_entries_upto_shift(es: Seq<(Seq<char>, SpecResValue)>, n: int)
    requires
        es.len() >= 2,
        2 <= n <= es.len(),
    ensures
        render_entries_upto(es, n) == render_entry(es[0]) + seq![','] + render_entries_upto(
            es.drop_first(),
            n - 1,
        ),
    decreases n,
{
    if n == 2 {
        assert(es.drop_first()[0] == es[1]);
        assert(render_entries_upto(es, 1) == render_entry(es[0]));
        assert(render_entries_upto(es.drop_first(), 1) == render_entry(es[1]));
    } else {
        lemma_render_entries_upto_shift(es, n - 1);
        assert(es.drop_first()[n - 2] == es[n - 1]);
        assert((render_entry(es[0]) + seq![','] + render_entries_upto(es.drop_first(), n - 2))
            + seq![','] + render_entry(es[n - 1]) =~= render_entry(es[0]) + seq![','] + (
        render_entries_upto(es.drop_first(), n - 2) + seq![','] + render_entry(es[n - 1])));
    }
}

proof fn lemma_render_values_upto_full(vs: Seq<SpecResValue>)
    ensures
        render_values_upto(vs, vs.len() as int) == render_values(vs),
    decreases vs.len(),
{
    if vs.len() <= 1 {
    } else {
        lemma_render_values_upto_full(vs.drop_first());
        lemma_render_values_upto_shift(vs, vs.len() as int);
    }
}

proof fn lemma_render_values_upto_shift(vs: Seq<SpecResValue>, n: int)
    requires
        vs.len() >= 2,
        2 <= n <= vs.len(),
    ensures
        render_values_upto(vs, n) == render(vs[0]) + seq![','] + render_values_upto(
            vs.drop_first(),
            n - 1,
        ),
    decreases n,
{
    if n == 2 {
        assert(vs.drop_first()[0] == vs[1]);
        assert(render_values_upto(vs, 1) == render(vs[0]));
        assert(render_values_upto(vs.drop_first(), 1) == render(vs[1]));
    } else {
        lemma_render_values_upto_shift(vs, n - 1);
        assert(vs.drop_first()[n - 2] == vs[n - 1]);
        assert((render(vs[0]) + seq![','] + render_values_upto(vs.drop_first(), n - 2)) + seq![
            ',',
        ] + render(vs[n - 1]) =~= render(vs[0]) + seq![','] + (render_values_upto(
            vs.drop_first(),
            n - 2,
        ) + seq![','] + render(vs[n - 1])));
    }
}

impl Value {
    /// Serializes this value to its compact text, as `render` describes.
    pub fn render(&self) -> (r: String)
        ensures
            r@ == render(self@),
        decreases rv_size(self@),
    {
        match self {
            Value::Id(id) => id.0.clone(),
            Value::String(t) => {
                let mut s = String::new();
                push_char(&mut s, '"');
                s.append(t.as_str());
                push_char(&mut s, '"');
                proof {
                    assert(s@ =~= render(self@));
                }
                s
            }
            Value::Int(n) => i64_text(*n),
            Value::Null => {
                let mut s = String::new();
                push_char(&mut s, 'n');
                push_char(&mut s, 'u');
                push_char(&mut s, 'l');
                push_char(&mut s, 'l');
                proof {
                    assert(s@ =~= render(self@));
                }
                s
            }
            Value::Array(vs) => {
                let ghost svs = rvalues_view(vs@);
                proof {
                    assert(self@ matches SpecResValue::Array(x) && x =~= svs);
                }
                let mut s = String::new();
                push_char(&mut s, '[');
                let mut i: usize = 0;
                while i < vs.len()
                    invariant
                        0 <= i <= vs@.len(),
                        svs == rvalues_view(vs@),
                        self@ == SpecResValue::Array(svs),
                        s@ == seq!['['] + render_values_upto(svs, i as int),
                    decreases vs@.len() - i,
                {
                    proof {
                        assert(svs[i as int] == vs@[i as int]@);
                        lemma_rvalues_size_elem(svs, i as int);
                        assert(rv_size(vs@[i as int]@) < rv_size(self@));
                    }
                    if i > 0 {
                        push_char(&mut s, ',');
                    }
                    let piece = vs[i].render();
                    s.append(piece.as_str());
                    proof {
                        assert(s@ =~= seq!['['] + render_values_upto(svs, i as int + 1));
                    }
                    i = i + 1;
                }
                push_char(&mut s, ']');
                proof {
                    lemma_render_values_upto_full(svs);
                    assert(s@ =~= render(self@));
                }
                s
            }
            Value::Object(o) => {
                let ghost ses = rentries_view(o.fields@);
                proof {
                    assert(self@ matches SpecResValue::Object(x) && x =~= ses);
                }
                let mut s = String::new();
                push_char(&mut s, '{');
                let mut i: usize = 0;
                while i < o.fields.len()
                    invariant
                        0 <= i <= o.fields@.len(),
                        ses == rentries_view(o.fields@),
                        self@ == SpecResValue::Object(ses),
                        s@ == seq!['{'] + render_entries_upto(ses, i as int),
                    decreases o.fields@.len() - i,
                {
                    proof {
                        assert(ses[i as int] == (o.fields@[i as int].0@, o.fields@[i as int].1@));
                        lemma_rentries_size_elem(ses, i as int);
                        assert(rv_size(o.fields@[i as int].1@) < rv_size(self@));
                    }
                    if i > 0 {
                        push_char(&mut s, ',');
                    }
                    s.append(o.fields[i].0.as_str());
                    push_char(&mut s, ':');
                    let piece = o.fields[i].1.render();
                    s.append(piece.as_str());
                    proof {
                        assert(s@ =~= seq!['{'] + render_entries_upto(ses, i as int + 1));
                    }
                    i = i + 1;
                }
                push_char(&mut s, '}');
                proof {
                    lemma_render_entries_upto_full(ses);
                    assert(s@ =~= render(self@));
                }
                s
            }
        }
    }
}

/// The resolution protocol: given the requested sub-selection, produce a
/// result value. Scalars ignore the selection and wrap themselves;
/// composite types dispatch each requested field.
pub trait Resolve {
    fn resolve(&self, fields: &[query::Field]) -> QlResult<Value>;
}

/// The exact resolution rule for an identifier scalar: the selection is
/// ignored and the id wrapped.
pub fn resolve_id(id: &Id, _fields: &[query::Field]) -> (r: QlResult<Value>)
    ensures
        r matches Ok(v) && v@ == SpecResValue::Id(id@),
{
    Ok(Value::Id(id.clone()))
}

/// The exact resolution rule for a string scalar: the selection is
/// ignored and the string wrapped.
pub fn resolve_string(s: &String, _fields: &[query::Field]) -> (r: QlResult<Value>)
    ensures
        r matches Ok(v) && v@ == SpecResValue::String(s@),
{
    Ok(Value::String(s.clone()))
}

/// Whether `val` is a value one `resolve` call on `t` with the selection
/// modeled by `sel` can return.
pub open spec fn resolve_yields<T: Resolve>(
    t: T,
    sel: Seq<query::Field>,
    val: SpecResValue,
) -> bool {
    exists|tr: &T, fd: &[query::Field], o: QlResult<Value>|
        {
            &&& #[trigger] call_ensures(<T as Resolve>::resolve, (tr, fd), o)
            &&& *tr == t
            &&& fd@ == sel
            &&& o matches Ok(v) && v@ == val
        }
}

/// Whether one `resolve` call on `t` with the selection modeled by `sel`
/// can fail with exactly the error `e`.
pub open spec fn resolve_fails<T: Resolve>(t: T, sel: Seq<query::Field>, e: QlError) -> bool {
    exists|tr: &T, fd: &[query::Field], o: QlResult<Value>|
        {
            &&& #[trigger] call_ensures(<T as Resolve>::resolve, (tr, fd), o)
            &&& *tr == t
            &&& fd@ == sel
            &&& o == Err::<Value, QlError>(e)
        }
}

/// The exact resolution rule for an optional value: the empty state
/// resolves to null, and a present value to whatever its own resolution
/// returned.
pub fn resolve_option<T: Resolve>(opt: &Option<T>, fields: &[query::Field]) -> (r: QlResult<
    Value,
>)
    ensures
        opt is None ==> (r matches Ok(v) && v@ is Null),
        opt matches Some(x) ==> exists|tr: &T, fd: &[query::Field], o: QlResult<Value>|
            {
                &&& #[trigger] call_ensures(<T as Resolve>::resolve, (tr, fd), o)
                &&& *tr == x
                &&& fd@ == fields@
                &&& r == o
            },
{
    match opt.as_ref() {
        Some(x) => x.resolve(fields),
        None => Ok(Value::Null),
    }
}

/// The exact resolution rule for a list: each item is resolved with the
/// same selection, in order, into an array; the first failure aborts with
/// that item's error. An empty list always succeeds.
pub fn resolve_vec<T: Resolve>(items: &Vec<T>, fields: &[query::Field]) -> (r: QlResult<Value>)
    ensures
        r matches Ok(v) ==> (v@ matches SpecResValue::Array(vs) && vs.len() == items@.len()
            && forall|i: int|
            0 <= i < vs.len() ==> resolve_yields::<T>(items@[i], fields@, #[trigger] vs[i])),
        r matches Err(e) ==> exists|i: int|
            0 <= i < items@.len() && #[trigger] resolve_fails::<T>(items@[i], fields@, e),
        items@.len() == 0 ==> r is Ok,
{
    let mut out: Vec<Value> = Vec::new();
    let mut i: usize = 0;
    while i < items.len()
        invariant
            0 <= i <= items@.len(),
            out@.len() == i,
            forall|k: int|
                0 <= k < i ==> resolve_yields::<T>(items@[k], fields@, (#[trigger] out@[k])@),
        decreases items@.len() - i,
    {
        match items[i].resolve(fields) {
            Ok(v) => {
                proof {
                    assert(resolve_yields::<T>(items@[i as int], fields@, v@));
                }
                out.push(v);
            }
            Err(e) => {
                proof {
                    assert(resolve_fails::<T>(items@[i as int], fields@, e));
                }
                return Err(e);
            }
        }
        i = i + 1;
    }
    let v = Value::Array(out);
    proof {
        assert(v@ matches SpecResValue::Array(vs) && vs.len() == items@.len() && forall|k: int|
            0 <= k < vs.len() ==> #[trigger] vs[k] == out@[k]@);
    }
    Ok(v)
}

impl Resolve for Id {
    fn resolve(&self, fields: &[query::Field]) -> QlResult<Value> {
        resolve_id(self, fields)
    }
}

impl Resolve for String {
    fn resolve(&self, fields: &[query::Field]) -> QlResult<Value> {
        resolve_string(self, fields)
    }
}

impl<T: Resolve> Resolve for Option<T> {
    fn resolve(&self, fields: &[query::Field]) -> QlResult<Value> {
        resolve_option(self, fields)
    }
}

impl<T: Resolve> Resolve for Vec<T> {
    fn resolve(&self, fields: &[query::Field]) -> QlResult<Value> {
        resolve_vec(self, fields)
    }
}

} // verus!
