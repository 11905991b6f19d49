//! The query AST: an operation over selections of fields, with literal
//! argument values, and the value-translation protocol resolvers use.

use vstd::prelude::*;
use crate::types::{Id, Name};
use crate::numtext::push_char;
use crate::{QlError, QlResult};

verus! {

/// An operation: a query over a selection of fields, or the mutation
/// placeholder.
#[derive(Debug)]
pub enum Query {
    Query(Vec<Field>),
    Mutation,
}

/// A requested field: its name, an optional alias, supplied arguments,
/// and the nested selection.
#[derive(Debug, PartialEq, Eq)]
pub struct Field {
    pub name: Name,
    pub alias: Option<Name>,
    pub args: Vec<(Name, Value)>,
    pub fields: Vec<Field>,
}

/// A literal value in a query. A bare name and an integer literal both
/// parse to `Name`: a number loses its numeric-ness and becomes its
/// digits.
#[derive(Debug, PartialEq, Eq)]
pub enum Value {
    Null,
    String(String),
    Name(Name),
    Array(Vec<Value>),
}

/// The mathematical model of an operation.
#[verifier::ext_equal]
pub enum SpecQuery {
    Query(Seq<SpecQField>),
    Mutation,
}

impl View for Query {
    type V = SpecQuery;

    open spec fn view(&self) -> SpecQuery {
        match self {
            Query::Query(fs) => SpecQuery::Query(qfields_view(fs@)),
            Query::Mutation => SpecQuery::Mutation,
        }
    }
}

/// The mathematical model of a literal value.
#[verifier::ext_equal]
pub enum SpecValue {
    Null,
    String(Seq<char>),
    Name(Seq<char>),
    Array(Seq<SpecValue>),
}

/// The mathematical model of a requested field.
#[verifier::ext_equal]
pub struct SpecQField {
    pub name: Seq<char>,
    pub alias: Option<Seq<char>>,
    pub args: Seq<(Seq<char>, SpecValue)>,
    pub fields: Seq<SpecQField>,
}

/// The model of a literal value, by structural recursion.
pub open spec fn qvalue_view(v: Value) -> SpecValue
    decreases v,
{
    match v {
        Value::Null => SpecValue::Null,
        Value::String(s) => SpecValue::String(s@),
        Value::Name(n) => SpecValue::Name(n@),
        Value::Array(vs) => SpecValue::Array(
            Seq::new(
                vs@.len(),
                |i: int|
                    if 0 <= i < vs@.len() {
                        qvalue_view(vs@[i])
                    } else {
                        SpecValue::Null
                    },
            ),
        ),
    }
}

impl View for Value {
    type V = SpecValue;

    open spec fn view(&self) -> SpecValue {
        qvalue_view(*self)
    }
}

/// The models of a sequence of literal values.
pub open spec fn values_view(vs: Seq<Value>) -> Seq<SpecValue> {
    Seq::new(vs.len(), |i: int| vs[i]@)
}

/// The model of a requested field, by structural recursion.
pub open spec fn qfield_view(f: Field) -> SpecQField
    decreases f,
{
    SpecQField {
        name: f.name@,
        alias: match f.alias {
            Some(a) => Some(a@),
            None => None,
        },
        args: Seq::new(f.args@.len(), |i: int| (f.args@[i].0@, f.args@[i].1@)),
        fields: Seq::new(
            f.fields@.len(),
            |i: int|
                if 0 <= i < f.fields@.len() {
                    qfield_view(f.fields@[i])
                } else {
                    SpecQField {
                        name: Seq::empty(),
                        alias: None,
                        args: Seq::empty(),
                        fields: Seq::empty(),
                    }
                },
        ),
    }
}

impl View for Field {
    type V = SpecQField;

    open spec fn view(&self) -> SpecQField {
        qfield_view(*self)
    }
}

/// The models of a sequence of requested fields.
pub open spec fn qfields_view(fs: Seq<Field>) -> Seq<SpecQField> {
    Seq::new(fs.len(), |i: int| fs[i]@)
}

/// The models of a sequence of supplied arguments.
pub open spec fn args_view(args: Seq<(Name, Value)>) -> Seq<(Seq<char>, SpecValue)> {
    Seq::new(args.len(), |i: int| (args[i].0@, args[i].1@))
}

/// The first argument of the given name, if one was supplied.
pub open spec fn find_arg_in(args: Seq<(Seq<char>, SpecValue)>, name: Seq<char>) -> Option<
    SpecValue,
>
    decreases args.len(),
{
    if args.len() == 0 {
        None
    } else if args[0].0 == name {
        Some(args[0].1)
    } else {
        find_arg_in(args.drop_first(), name)
    }
}

impl Field {
    /// Looks a supplied argument up by name; the first match wins.
    pub fn find_arg(&self, name: &Name) -> (r: Option<&Value>)
        ensures
            find_arg_in(self@.args, name@) matches Some(v) ==> (r matches Some(x) && x@ == v),
            find_arg_in(self@.args, name@) is None ==> r is None,
    {
        let n = self.args.len();
        let mut i: usize = 0;
        proof {
            assert(self@.args.skip(0) =~= self@.args);
        }
        while i < n
            invariant
                0 <= i <= n,
                n == self.args@.len(),
                self@.args == args_view(self.args@),
                find_arg_in(self@.args, name@) == find_arg_in(self@.args.skip(i as int), name@),
            decreases n - i,
        {
            proof {
                assert(self@.args.skip(i as int)[0] == self@.args[i as int]);
                assert(self@.args.skip(i as int).drop_first() =~= self@.args.skip(i as int + 1));
            }
            if self.args[i].0.eq(name) {
                return Some(&self.args[i].1);
            }
            i = i + 1;
        }
        proof {
            assert(self@.args.skip(n as int) =~= Seq::<(Seq<char>, SpecValue)>::empty());
        }
        None
    }
}

/// The size of a literal value, for recursion over arrays.
pub open spec fn value_size(v: SpecValue) -> nat
    decreases v,
{
    match v {
        SpecValue::Array(vs) => 1 + values_size(vs),
        _ => 1,
    }
}

pub open spec fn values_size(vs: Seq<SpecValue>) -> nat
    decreases vs,
{
    if vs.len() == 0 {
        0
    } else {
        value_size(vs[0]) + values_size(vs.drop_first())
    }
}

pub proof fn lemma_values_size_elem(vs: Seq<SpecValue>, i: int)
    requires
        0 <= i < vs.len(),
    ensures
        value_size(vs[i]) <= values_size(vs),
    decreases i,
{
    if i > 0 {
        lemma_values_size_elem(vs.drop_first(), i - 1);
        assert(vs.drop_first()[i - 1] == vs[i]);
    }
}

/// The text of a literal value: `null`, a quoted string, a bare name, or
/// a bracketed comma-separated array.
pub open spec fn value_text(v: SpecValue) -> Seq<char>
    decreases value_size(v), 0nat,
{
    match v {
        SpecValue::Null => seq!['n', 'u', 'l', 'l'],
        SpecValue::String(s) => seq!['"'] + s + seq!['"'],
        SpecValue::Name(n) => n,
        SpecValue::Array(vs) => seq!['['] + values_text(vs) + seq![']'],
    }
}

pub open spec fn values_text(vs: Seq<SpecValue>) -> Seq<char>
    decreases values_size(vs), 1nat,
{
    if vs.len() == 0 {
        Seq::empty()
    } else if vs.len() == 1 {
        value_text(vs[0])
    } else {
        value_text(vs[0]) + seq![','] + values_text(vs.drop_first())
    }
}

/// The joined text of the first `n` values.
pub open spec fn values_text_upto(vs: Seq<SpecValue>, n: int) -> Seq<char>
    decreases n,
{
    if n <= 0 {
        Seq::empty()
    } else if n == 1 {
        value_text(vs[0])
    } else {
        values_text_upto(vs, n - 1) + seq![','] + value_text(vs[n - 1])
    }
}

proof fn lemma_values_text_upto_full(vs: Seq<SpecValue>)
    ensures
        values_text_upto(vs, vs.len() as int) == values_text(vs),
    decreases vs.len(),
{
    if vs.len() <= 1 {
    } else {
        lemma_values_text_upto_full(vs.drop_first());
        lemma_values_text_upto_shift(vs, vs.len() as int);
    }
}

proof fn lemma_values_text_upto_shift(vs: Seq<SpecValue>, n: int)
    requires
        vs.len() >= 2,
        2 <= n <= vs.len(),
    ensures
        values_text_upto(vs, n) == value_text(vs[0]) + seq![','] + values_text_upto(
            vs.drop_first(),
            n - 1,
        ),
    decreases n,
{
    if n == 2 {
        assert(vs.drop_first()[0] == vs[1]);
        assert(values_text_upto(vs, 1) == value_text(vs[0]));
        assert(values_text_upto(vs.drop_first(), 1) == value_text(vs[1]));
    } else {
        lemma_values_text_upto_shift(vs, n - 1);
        assert(vs.drop_first()[n - 2] == vs[n - 1]);
        assert((value_text(vs[0]) + seq![','] + values_text_upto(vs.drop_first(), n - 2)) + seq![
            ',',
        ] + value_text(vs[n - 1]) =~= value_text(vs[0]) + seq![','] + (values_text_upto(
            vs.drop_first(),
            n - 2,
        ) + seq![','] + value_text(vs[n - 1])));
    }
}

impl Value {
    /// Renders this literal back to text, as `value_text` describes.
    pub fn text(&self) -> (r: String)
        ensures
            r@ == value_text(self@),
        decreases value_size(self@),
    {
        match self {
            Value::Null => {
                let mut s = String::new();
                push_char(&mut s, 'n');
                push_char(&mut s, 'u');
                push_char(&mut s, 'l');
                push_char(&mut s, 'l');
                proof {
                    assert(s@ =~= value_text(self@));
                }
                s
            }
            Value::String(t) => {
                let mut s = String::new();
                push_char(&mut s, '"');
                s.append(t.as_str());
                push_char(&mut s, '"');
                proof {
                    assert(s@ =~= value_text(self@));
                }
                s
            }
            Value::Name(n) => n.0.clone(),
            Value::Array(vs) => {
                let ghost svs = values_view(vs@);
                proof {
                    assert(self@ matches SpecValue::Array(x) && x =~= svs);
                }
                let mut s = String::new();
                push_char(&mut s, '[');
                let mut i: usize = 0;
                while i < vs.len()
                    invariant
                        0 <= i <= vs@.len(),
                        svs == values_view(vs@),
                        self@ == SpecValue::Array(svs),
                        s@ == seq!['['] + values_text_upto(svs, i as int),
                    decreases vs@.len() - i,
                {
                    proof {
                        assert(svs[i as int] == vs@[i as int]@);
                        lemma_values_size_elem(svs, i as int);
                        assert(value_size(vs@[i as int]@) < value_size(self@));
                    }
                    if i > 0 {
                        push_char(&mut s, ',');
                    }
                    let piece = vs[i].text();
                    s.append(piece.as_str());
                    proof {
                        assert(s@ =~= seq!['['] + values_text_upto(svs, i as int + 1));
                    }
                    i = i + 1;
                }
                push_char(&mut s, ']');
                proof {
                    lemma_values_text_upto_full(svs);
                    assert(s@ =~= value_text(self@));
                }
                s
            }
        }
    }
}

/// The root capability: a caller-supplied object that resolves the
/// synthetic top-level `query` field and exposes the schema it serves.
pub trait Root: crate::result::Resolve {
    fn schema() -> crate::schema::Schema;
}

impl Query {
    /// Parses a query text, exactly as `parse_query` describes.
    pub fn parse(input: &str) -> (r: QlResult<Query>)
        ensures
            crate::lexer::lex_of(crate::lexer::trim_of(input@)) matches Err(le) ==> (r matches Err(
                e,
            ) && e matches QlError::LexError(le2) && le2 == le),
            crate::lexer::lex_of(crate::lexer::trim_of(input@)) matches Ok(ts) ==> match crate::parse_query::spec_parse_operation(
                ts,
            ) {
                Ok(qv) => r matches Ok(q) && q@ == qv,
                Err(m) => r matches Err(e) && (e matches QlError::ParseError(p) && p.0@ == m),
            },
    {
        crate::parse_query::parse_query(input)
    }

    /// Validates this operation against a schema, collecting every
    /// diagnostic `spec_validate_query` describes.
    pub fn validate(&self, schema: &crate::schema::Schema) -> (r: QlResult<()>)
        requires
            self@ is Query,
            schema@.contains_key("schema"@),
        ensures
            ({
                let ds = crate::validation::spec_validate_query(self@->Query_0, schema@);
                match r {
                    Ok(()) => ds.len() == 0,
                    Err(e) => ds.len() > 0 && (e matches QlError::ValidationError(v) && v@ == ds),
                }
            }),
    {
        crate::validation::validate_query(self, schema)
    }

    /// Executes this operation by handing its selection to the root
    /// object's resolution: the result is whatever one `resolve` call on
    /// exactly the operation's top-level field list returned.
    pub fn execute<R: Root>(&self, _schema: &crate::schema::Schema, root: R) -> (r: QlResult<
        crate::result::Value,
    >)
        requires
            self@ is Query,
        ensures
            exists|rt: &R, fs: &[Field], out: QlResult<crate::result::Value>|
                {
                    &&& #[trigger] call_ensures(<R as crate::result::Resolve>::resolve, (rt, fs), out)
                    &&& qfields_view(fs@) == self@->Query_0
                    &&& r == out
                },
    {
        match self {
            Query::Query(fields) => {
                let sl = vstd::slice::slice_subrange(fields.as_slice(), 0, fields.len());
                proof {
                    assert(sl@ =~= fields@);
                    assert(qfields_view(sl@) =~= self@->Query_0);
                }
                root.resolve(sl)
            }
            Query::Mutation => {
                proof {
                    assert(false);
                }
                unreached()
            }
        }
    }
}

/// Turns a query literal into a resolver's native parameter type; a
/// failed coercion aborts the whole request.
pub trait FromValue: Sized {
    fn from(value: &Value) -> QlResult<Self>;
}

/// The exact coercion rule for `String`: only a string literal is
/// accepted.
pub fn string_from_value(value: &Value) -> (r: QlResult<String>)
    ensures
        value@ matches SpecValue::String(s) ==> (r matches Ok(x) && x@ == s),
        !(value@ is String) ==> (r matches Err(e) && e matches QlError::TranslationError(f, t)
            && f@ == value_text(value@) && t@ == "String"@),
{
    if let Value::String(s) = value {
        Ok(s.clone())
    } else {
        Err(QlError::TranslationError(value.text(), "String".to_owned()))
    }
}

/// The exact coercion rule for `Id`: only a bare name is accepted.
pub fn id_from_value(value: &Value) -> (r: QlResult<Id>)
    ensures
        value@ matches SpecValue::Name(n) ==> (r matches Ok(x) && x@ == n),
        !(value@ is Name) ==> (r matches Err(e) && e matches QlError::TranslationError(f, t)
            && f@ == value_text(value@) && t@ == "Id"@),
{
    if let Value::Name(n) = value {
        Ok(Id(n.0.clone()))
    } else {
        Err(QlError::TranslationError(value.text(), "Id".to_owned()))
    }
}

/// The exact coercion rule for `Name`: only a bare name is accepted.
pub fn name_from_value(value: &Value) -> (r: QlResult<Name>)
    ensures
        value@ matches SpecValue::Name(n) ==> (r matches Ok(x) && x@ == n),
        !(value@ is Name) ==> (r matches Err(e) && e matches QlError::TranslationError(f, t)
            && f@ == value_text(value@) && t@ == "Name"@),
{
    if let Value::Name(n) = value {
        Ok(n.clone())
    } else {
        Err(QlError::TranslationError(value.text(), "Name".to_owned()))
    }
}

impl FromValue for String {
    fn from(value: &Value) -> QlResult<String> {
        string_from_value(value)
    }
}

impl FromValue for Id {
    fn from(value: &Value) -> QlResult<Id> {
        id_from_value(value)
    }
}

impl FromValue for Name {
    fn from(value: &Value) -> QlResult<Name> {
        name_from_value(value)
    }
}

/// Whether `t` is a value one base coercion call on a literal modeled by
/// `w` can return.
pub open spec fn coerces_to<T: FromValue>(w: SpecValue, t: T) -> bool {
    exists|ev: &Value, o: QlResult<T>|
        {
            &&& #[trigger] call_ensures(<T as FromValue>::from, (ev,), o)
            &&& (*ev)@ == w
            &&& o == Ok::<T, QlError>(t)
        }
}

/// Whether one base coercion call on a literal modeled by `w` can return
/// some value.
pub open spec fn coercion_succeeds<T: FromValue>(w: SpecValue) -> bool {
    exists|ev: &Value, o: QlResult<T>|
        {
            &&& #[trigger] call_ensures(<T as FromValue>::from, (ev,), o)
            &&& (*ev)@ == w
            &&& o is Ok
        }
}

/// Whether one base coercion call on a literal modeled by `w` can fail
/// with exactly the error `e`.
pub open spec fn coercion_fails<T: FromValue>(w: SpecValue, e: QlError) -> bool {
    exists|ev: &Value, o: QlResult<T>|
        {
            &&& #[trigger] call_ensures(<T as FromValue>::from, (ev,), o)
            &&& (*ev)@ == w
            &&& o == Err::<T, QlError>(e)
        }
}

/// The exact lifting rule for optional parameters: `null` maps to the
/// optional's empty state, and any other value is whatever the base
/// coercion returned on it — a success wrapped, an error unchanged.
pub fn option_from_value<T: FromValue>(value: &Value) -> (r: QlResult<Option<T>>)
    ensures
        value@ is Null ==> (r matches Ok(o) && o is None),
        !(value@ is Null) ==> exists|out: QlResult<T>|
            {
                &&& #[trigger] call_ensures(<T as FromValue>::from, (value,), out)
                &&& match out {
                    Ok(t) => r == Ok::<Option<T>, QlError>(Some(t)),
                    Err(e) => r == Err::<Option<T>, QlError>(e),
                }
            },
{
    if let Value::Null = value {
        Ok(None)
    } else {
        match T::from(value) {
            Ok(v) => Ok(Some(v)),
            Err(e) => Err(e),
        }
    }
}

/// The exact lifting rule for array parameters: only an array literal is
/// accepted; each element goes through the base coercion in order, and
/// the first element failure aborts with that element's error, every
/// earlier element having coerced.
pub fn vec_from_value<T: FromValue>(value: &Value) -> (r: QlResult<Vec<T>>)
    ensures
        !(value@ is Array) ==> (r matches Err(e) && (e matches QlError::TranslationError(f, t)
            && f@ == value_text(value@) && t@ == "Array"@)),
        value@ matches SpecValue::Array(ws) ==> match r {
            Ok(v) => v@.len() == ws.len() && forall|i: int|
                0 <= i < ws.len() ==> coerces_to::<T>(ws[i], #[trigger] v@[i]),
            Err(e) => exists|i: int|
                {
                    &&& 0 <= i < ws.len()
                    &&& #[trigger] coercion_fails::<T>(ws[i], e)
                    &&& forall|j: int| 0 <= j < i ==> #[trigger] coercion_succeeds::<T>(ws[j])
                },
        },
{
    if let Value::Array(vs) = value {
        let ghost ws = value@->Array_0;
        proof {
            assert(ws =~= values_view(vs@));
        }
        let mut out: Vec<T> = Vec::new();
        let mut i: usize = 0;
        while i < vs.len()
            invariant
                0 <= i <= vs@.len(),
                ws == values_view(vs@),
                ws == value@->Array_0,
                value@ is Array,
                out@.len() == i,
                forall|k: int| 0 <= k < i ==> coerces_to::<T>(ws[k], #[trigger] out@[k]),
            decreases vs@.len() - i,
        {
            proof {
                assert(ws[i as int] == vs@[i as int]@);
            }
            match T::from(&vs[i]) {
                Ok(v) => {
                    proof {
                        assert(coerces_to::<T>(ws[i as int], v));
                    }
                    out.push(v);
                }
                Err(e) => {
                    proof {
                        assert(coercion_fails::<T>(ws[i as int], e));
                        assert forall|j: int| 0 <= j < i implies #[trigger] coercion_succeeds::<
                            T,
                        >(ws[j]) by {
                            assert(coerces_to::<T>(ws[j], out@[j]));
                            let (ev, o) = choose|ev: &Value, o: QlResult<T>|
                                {
                                    &&& #[trigger] call_ensures(<T as FromValue>::from, (ev,), o)
                                    &&& (*ev)@ == ws[j]
                                    &&& o == Ok::<T, QlError>(out@[j])
                                };
                            assert(call_ensures(<T as FromValue>::from, (ev,), o) && (*ev)@
                                == ws[j] && o is Ok);
                        }
                    }
                    return Err(e);
                }
            }
            i = i + 1;
        }
        Ok(out)
    } else {
        Err(QlError::TranslationError(value.text(), "Array".to_owned()))
    }
}

impl<T: FromValue> FromValue for Vec<T> {
    fn from(value: &Value) -> QlResult<Vec<T>> {
        vec_from_value(value)
    }
}

impl<T: FromValue> FromValue for Option<T> {
    fn from(value: &Value) -> QlResult<Option<T>> {
        option_from_value(value)
    }
}

} // verus!
