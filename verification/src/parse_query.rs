//! The query parser: turns a token tree into a query AST. Whatever form
//! the request takes, the result is one synthetic top-level field named
//! `query` whose selection is the parsed field block, so that execution
//! treats every request uniformly.

use vstd::prelude::*;
use crate::lexer::{lex_of, trim_of, tokenise_trimmed};
use crate::parse_base::{TokenStream, Step, maybe_parse_name, name_step, skip_newlines,
    spec_maybe_eat, spec_parse_list, step_matches, views_of, lemma_skip_newlines_size,
    lemma_spec_maybe_eat_size};
use crate::query::{Field, Query, SpecQField, SpecQuery, SpecValue, Value, qfields_view,
    values_view};
use crate::token::{Atom, Bracket, SpecAtom, SpecToken, TokenKind, toks_size,
    lemma_toks_size_drop_first, lemma_toks_size_elem};
use crate::numtext::int_text;
use crate::types::Name;
use crate::{ParseError, QlError, QlResult};

verus! {

/// One step of a value: `null`, a bare name, an integer (kept as its
/// digits), a string literal, or a bracketed array of values.
pub open spec fn value_step(ts: Seq<SpecToken>) -> Step<SpecValue>
    decreases toks_size(ts), 0nat,
    via value_step_decreases
{
    if ts.len() == 0 {
        Step::Stop
    } else {
        match ts[0] {
            SpecToken::Atom(SpecAtom::Name(s)) => {
                if s == "null"@ {
                    Step::Next(SpecValue::Null, ts.drop_first())
                } else {
                    Step::Next(SpecValue::Name(s), ts.drop_first())
                }
            }
            SpecToken::Atom(SpecAtom::Number(n)) => Step::Next(
                SpecValue::Name(int_text(n)),
                ts.drop_first(),
            ),
            SpecToken::Atom(SpecAtom::String(s)) => Step::Next(
                SpecValue::String(s),
                ts.drop_first(),
            ),
            SpecToken::Tree(Bracket::Square, kids) => match spec_value_list(kids) {
                Err(m) => Step::Fail(m),
                Ok((vs, _)) => Step::Next(SpecValue::Array(vs), ts.drop_first()),
            },
            _ => Step::Fail("Unexpected token, expected: value"@),
        }
    }
}

#[via_fn]
proof fn value_step_decreases(ts: Seq<SpecToken>) {
    if ts.len() > 0 {
        lemma_toks_size_drop_first(ts);
    }
}

/// A separated list of values, with newlines skipped first.
pub open spec fn spec_value_list(ts: Seq<SpecToken>) -> Result<
    (Seq<SpecValue>, Seq<SpecToken>),
    Seq<char>,
>
    decreases toks_size(ts), 2nat,
    via spec_value_list_decreases
{
    value_list_rec(skip_newlines(ts))
}

#[via_fn]
proof fn spec_value_list_decreases(ts: Seq<SpecToken>) {
    lemma_skip_newlines_size(ts);
}

pub open spec fn value_list_rec(ts: Seq<SpecToken>) -> Result<
    (Seq<SpecValue>, Seq<SpecToken>),
    Seq<char>,
>
    decreases toks_size(ts), 1nat,
{
    match value_step(ts) {
        Step::Fail(m) => Err(m),
        Step::Stop => Ok((Seq::empty(), ts)),
        Step::Next(v, rest) => {
            let rest2 = skip_newlines(spec_maybe_eat(rest, SpecAtom::Comma));
            if toks_size(rest2) < toks_size(ts) {
                match value_list_rec(rest2) {
                    Err(m) => Err(m),
                    Ok((vs, fin)) => Ok((seq![v] + vs, fin)),
                }
            } else {
                Ok((seq![v], rest2))
            }
        }
    }
}

/// One step of an argument: `Name : Value`.
pub open spec fn qarg_step(ts: Seq<SpecToken>) -> Step<(Seq<char>, SpecValue)> {
    match name_step(ts) {
        Step::Stop => Step::Stop,
        Step::Fail(m) => Step::Fail(m),
        Step::Next(name, r1) => {
            if r1.len() == 0 {
                Step::Fail("Unexpected end of stream"@)
            } else if r1[0] != SpecToken::Atom(SpecAtom::Colon) {
                Step::Fail("Unexpected token"@)
            } else {
                match value_step(r1.drop_first()) {
                    Step::Stop => Step::Fail("Unexpected eof"@),
                    Step::Fail(m) => Step::Fail(m),
                    Step::Next(v, r2) => Step::Next((name, v), r2),
                }
            }
        }
    }
}

pub open spec fn qarg_stepf() -> spec_fn(Seq<SpecToken>) -> Step<(Seq<char>, SpecValue)> {
    |ts: Seq<SpecToken>| qarg_step(ts)
}

/// The supplied arguments of a field: a parenthesised argument list, or
/// none.
pub open spec fn spec_parse_args(ts: Seq<SpecToken>) -> Result<
    (Seq<(Seq<char>, SpecValue)>, Seq<SpecToken>),
    Seq<char>,
> {
    if ts.len() > 0 && (ts[0] matches SpecToken::Tree(b, _) && b == Bracket::Paren) {
        match spec_parse_list(qarg_stepf(), ts[0]->Tree_1) {
            Err(m) => Err(m),
            Ok((args, _)) => Ok((args, ts.drop_first())),
        }
    } else {
        Ok((Seq::empty(), ts))
    }
}

/// One step of a selection: `Name (args)? { selection }?`.
pub open spec fn qfield_step(ts: Seq<SpecToken>) -> Step<SpecQField>
    decreases toks_size(ts), 0nat,
    via qfield_step_decreases
{
    match name_step(ts) {
        Step::Stop => Step::Stop,
        Step::Fail(m) => Step::Fail(m),
        Step::Next(name, r1) => match spec_parse_args(r1) {
            Err(m) => Step::Fail(m),
            Ok((args, r2)) => {
                if r2.len() > 0 && (r2[0] matches SpecToken::Tree(b, _) && b == Bracket::Brace) {
                    match spec_qfield_list(r2[0]->Tree_1) {
                        Err(m) => Step::Fail(m),
                        Ok((fields, _)) => Step::Next(
                            SpecQField { name, alias: None, args, fields },
                            r2.drop_first(),
                        ),
                    }
                } else {
                    Step::Next(
                        SpecQField { name, alias: None, args, fields: Seq::empty() },
                        r2,
                    )
                }
            }
        },
    }
}

#[via_fn]
proof fn qfield_step_decreases(ts: Seq<SpecToken>) {
    if ts.len() > 0 {
        lemma_toks_size_drop_first(ts);
        let r1 = ts.drop_first();
        if r1.len() > 0 {
            lemma_toks_size_drop_first(r1);
            lemma_toks_size_elem(r1, 0);
            let r2 = r1.drop_first();
            if r2.len() > 0 {
                lemma_toks_size_elem(r2, 0);
            }
        }
    }
}

/// A separated selection list, with newlines skipped first.
pub open spec fn spec_qfield_list(ts: Seq<SpecToken>) -> Result<
    (Seq<SpecQField>, Seq<SpecToken>),
    Seq<char>,
>
    decreases toks_size(ts), 2nat,
    via spec_qfield_list_decreases
{
    qfield_list_rec(skip_newlines(ts))
}

#[via_fn]
proof fn spec_qfield_list_decreases(ts: Seq<SpecToken>) {
    lemma_skip_newlines_size(ts);
}

pub open spec fn qfield_list_rec(ts: Seq<SpecToken>) -> Result<
    (Seq<SpecQField>, Seq<SpecToken>),
    Seq<char>,
>
    decreases toks_size(ts), 1nat,
{
    match qfield_step(ts) {
        Step::Fail(m) => Err(m),
        Step::Stop => Ok((Seq::empty(), ts)),
        Step::Next(v, rest) => {
            let rest2 = skip_newlines(spec_maybe_eat(rest, SpecAtom::Comma));
            if toks_size(rest2) < toks_size(ts) {
                match qfield_list_rec(rest2) {
                    Err(m) => Err(m),
                    Ok((vs, fin)) => Ok((seq![v] + vs, fin)),
                }
            } else {
                Ok((seq![v], rest2))
            }
        }
    }
}

/// The synthetic top-level field every request is normalized to.
pub open spec fn query_wrapper(body: Seq<SpecQField>) -> SpecQuery {
    SpecQuery::Query(
        seq![SpecQField { name: "query"@, alias: None, args: Seq::empty(), fields: body }],
    )
}

/// Parsing an operation: `query { ... }`, `mutation ...`, or a bare brace
/// block as query shorthand; the result is normalized with
/// `query_wrapper`.
pub open spec fn spec_parse_operation(ts: Seq<SpecToken>) -> Result<SpecQuery, Seq<char>> {
    if ts.len() == 0 {
        Err("Unexpected end of stream"@)
    } else {
        match ts[0] {
            SpecToken::Atom(SpecAtom::Name(s)) => {
                if s == "query"@ {
                    let r1 = ts.drop_first();
                    if r1.len() == 0 {
                        Err("Unexpected end of stream"@)
                    } else {
                        match r1[0] {
                            SpecToken::Tree(Bracket::Brace, kids) => match spec_qfield_list(kids) {
                                Err(m) => Err(m),
                                Ok((body, _)) => Ok(query_wrapper(body)),
                            },
                            _ => Err("Unexpected token, expected: `{`"@),
                        }
                    }
                } else if s == "mutation"@ {
                    Ok(SpecQuery::Mutation)
                } else {
                    Err("Unexpected token, expected: identifier or `{`"@)
                }
            }
            SpecToken::Tree(Bracket::Brace, kids) => match spec_qfield_list(kids) {
                Err(m) => Err(m),
                Ok((body, _)) => Ok(query_wrapper(body)),
            },
            _ => Err("Unexpected token, expected: identifier or `{`"@),
        }
    }
}

/// Parses one literal value, as `value_step` describes.
pub fn maybe_parse_value<'a>(stream: &mut TokenStream<'a>) -> (r: QlResult<Option<Value>>)
    ensures
        ({
            let st = value_step(old(stream)@);
            match r {
                Ok(Some(v)) => st matches Step::Next(w, rest) && w == v@ && rest == final(stream)@
                    && toks_size(final(stream)@) < toks_size(old(stream)@),
                Ok(None) => st is Stop && final(stream)@ == old(stream)@,
                Err(e) => st is Fail && (e matches QlError::ParseError(p) && p.0@ == st->Fail_0),
            }
        }),
    decreases toks_size(old(stream)@), 0nat,
{
    let ghost ts0 = stream@;
    let tok = match stream.peek_tok() {
        Some(t) => t,
        None => {
            return Ok(None);
        }
    };
    proof {
        lemma_toks_size_drop_first(ts0);
    }
    let result: Value = match &tok.kind {
        TokenKind::Atom(Atom::Name(s)) => {
            if crate::types::str_eq(s.as_str(), "null") {
                Value::Null
            } else {
                Value::Name(Name(s.clone()))
            }
        }
        TokenKind::Atom(Atom::Number(n)) => Value::Name(Name(crate::numtext::i64_text(*n))),
        TokenKind::Atom(Atom::String(s)) => Value::String(s.clone()),
        TokenKind::Tree(Bracket::Square, toks) => {
            proof {
                crate::token::lemma_tree_view(Bracket::Square, *toks);
                assert(ts0[0] matches SpecToken::Tree(b, kids) && b == Bracket::Square && kids
                    =~= crate::token::toks_view(toks@));
            }
            let mut sub = TokenStream::new(vstd::slice::slice_subrange(
                toks.as_slice(),
                0,
                toks.len(),
            ));
            proof {
                assert(sub@ =~= crate::token::toks_view(toks@));
            }
            match parse_value_list(&mut sub) {
                Ok(vs) => {
                    let v = Value::Array(vs);
                    proof {
                        assert(v@ matches SpecValue::Array(x) && x =~= values_view(vs@));
                        assert(values_view(vs@) =~= views_of(vs@));
                    }
                    v
                }
                Err(e) => {
                    return Err(e);
                }
            }
        }
        _ => {
            return Err(QlError::ParseError(ParseError("Unexpected token, expected: value")));
        }
    };
    stream.bump();
    Ok(Some(result))
}

/// Parses a separated list of values, as `spec_value_list` describes.
pub fn parse_value_list<'a>(stream: &mut TokenStream<'a>) -> (r: QlResult<Vec<Value>>)
    ensures
        ({
            let sp = spec_value_list(old(stream)@);
            match r {
                Ok(v) => sp matches Ok(pair) && views_of(v@) == pair.0 && final(stream)@ == pair.1,
                Err(e) => sp is Err && (e matches QlError::ParseError(p) && p.0@ == sp->Err_0),
            }
        }),
    decreases toks_size(old(stream)@), 1nat,
{
    stream.ignore_newlines();
    let ghost ts1 = stream@;
    proof {
        lemma_skip_newlines_size(old(stream)@);
    }
    let mut out: Vec<Value> = Vec::new();
    proof {
        assert(views_of(out@) =~= Seq::<SpecValue>::empty());
    }
    loop
        invariant
            ts1 == skip_newlines(old(stream)@),
            toks_size(stream@) <= toks_size(old(stream)@),
            value_list_rec(ts1) matches Ok(pair) ==> value_list_rec(stream@) matches Ok(cur)
                && pair.0 == views_of(out@) + cur.0 && pair.1 == cur.1,
            value_list_rec(ts1) is Err ==> value_list_rec(stream@) == value_list_rec(ts1),
        ensures
            value_list_rec(ts1) matches Ok(pair) && pair.0 == views_of(out@) && pair.1 == stream@,
        decreases toks_size(stream@),
    {
        let ghost pre = stream@;
        match maybe_parse_value(stream) {
            Err(e) => {
                proof {
                    assert(value_list_rec(pre) is Err);
                }
                return Err(e);
            }
            Ok(None) => {
                proof {
                    assert(value_list_rec(pre) == Ok::<(Seq<SpecValue>, Seq<SpecToken>), Seq<
                        char,
                    >>((Seq::empty(), pre)));
                    assert(views_of(out@) + Seq::<SpecValue>::empty() =~= views_of(out@));
                }
                break ;
            }
            Ok(Some(v)) => {
                let ghost vview = v@;
                let ghost rest = stream@;
                out.push(v);
                stream.maybe_eat(Atom::Comma);
                stream.ignore_newlines();
                proof {
                    let rest2 = skip_newlines(spec_maybe_eat(rest, SpecAtom::Comma));
                    assert(stream@ == rest2);
                    lemma_spec_maybe_eat_size(rest, SpecAtom::Comma);
                    lemma_skip_newlines_size(spec_maybe_eat(rest, SpecAtom::Comma));
                    assert(toks_size(rest2) < toks_size(pre));
                    let prev_views = views_of(out@.drop_last());
                    assert(views_of(out@) =~= prev_views.push(vview));
                    if value_list_rec(pre) is Ok {
                        let nx = value_list_rec(rest2);
                        assert(nx is Ok);
                        assert(prev_views + (seq![vview] + nx->Ok_0.0) =~= views_of(out@)
                            + nx->Ok_0.0);
                    }
                }
            }
        }
    }
    Ok(out)
}

/// Parses one `Name : Value` argument, as `qarg_step` describes.
pub fn maybe_parse_arg<'a>(stream: &mut TokenStream<'a>) -> (r: QlResult<Option<(Name, Value)>>)
    ensures
        step_matches(qarg_stepf(), old(stream)@, final(stream)@, r),
{
    let ghost ts0 = stream@;
    let name = match maybe_parse_name(stream) {
        Ok(Some(n)) => n,
        Ok(None) => {
            return Ok(None);
        }
        Err(e) => {
            return Err(e);
        }
    };
    match stream.eat(Atom::Colon) {
        Ok(()) => {}
        Err(e) => {
            return Err(e);
        }
    }
    proof {
        lemma_toks_size_drop_first(ts0);
        lemma_toks_size_drop_first(ts0.drop_first());
    }
    match maybe_parse_value(stream) {
        Ok(Some(v)) => Ok(Some((name, v))),
        Ok(None) => Err(QlError::ParseError(ParseError("Unexpected eof"))),
        Err(e) => Err(e),
    }
}

/// Parses a separated list of arguments.
pub fn parse_arg_list<'a>(stream: &mut TokenStream<'a>) -> (r: QlResult<Vec<(Name, Value)>>)
    ensures
        ({
            let sp = spec_parse_list(qarg_stepf(), old(stream)@);
            match r {
                Ok(v) => sp matches Ok(pair) && views_of(v@) == pair.0 && final(stream)@ == pair.1,
                Err(e) => sp is Err && (e matches QlError::ParseError(p) && p.0@ == sp->Err_0),
            }
        }),
{
    let f = |s: TokenStream<'a>| -> (o: (TokenStream<'a>, QlResult<Option<(Name, Value)>>))
        ensures
            step_matches(qarg_stepf(), s@, o.0@, o.1),
        {
            let mut m = s;
            let r = maybe_parse_arg(&mut m);
            (m, r)
        };
    stream.parse_list(f, Ghost(qarg_stepf()))
}

/// Parses the parenthesised arguments of a field, if any, as
/// `spec_parse_args` describes.
pub fn maybe_parse_args<'a>(stream: &mut TokenStream<'a>) -> (r: QlResult<Vec<(Name, Value)>>)
    ensures
        ({
            let sp = spec_parse_args(old(stream)@);
            match r {
                Ok(v) => sp matches Ok(pair) && views_of(v@) == pair.0 && final(stream)@ == pair.1,
                Err(e) => sp is Err && (e matches QlError::ParseError(p) && p.0@ == sp->Err_0),
            }
        }),
{
    let ghost ts0 = stream@;
    match stream.peek_tok() {
        Some(tok) => match &tok.kind {
            TokenKind::Tree(Bracket::Paren, toks) => {
                proof {
                    crate::token::lemma_tree_view(Bracket::Paren, *toks);
                    assert(ts0[0] matches SpecToken::Tree(b, kids) && b == Bracket::Paren && kids
                        =~= crate::token::toks_view(toks@));
                }
                stream.bump();
                let mut sub = TokenStream::new(vstd::slice::slice_subrange(
                    toks.as_slice(),
                    0,
                    toks.len(),
                ));
                proof {
                    assert(sub@ =~= crate::token::toks_view(toks@));
                }
                parse_arg_list(&mut sub)
            }
            _ => {
                let r: Vec<(Name, Value)> = Vec::new();
                proof {
                    assert(views_of(r@) =~= Seq::<(Seq<char>, SpecValue)>::empty());
                }
                Ok(r)
            }
        },
        None => {
            let r: Vec<(Name, Value)> = Vec::new();
            proof {
                assert(views_of(r@) =~= Seq::<(Seq<char>, SpecValue)>::empty());
            }
            Ok(r)
        }
    }
}

/// Parses one requested field, as `qfield_step` describes.
pub fn maybe_parse_field<'a>(stream: &mut TokenStream<'a>) -> (r: QlResult<Option<Field>>)
    ensures
        ({
            let st = qfield_step(old(stream)@);
            match r {
                Ok(Some(v)) => st matches Step::Next(w, rest) && w == v@ && rest == final(stream)@
                    && toks_size(final(stream)@) < toks_size(old(stream)@),
                Ok(None) => st is Stop && final(stream)@ == old(stream)@,
                Err(e) => st is Fail && (e matches QlError::ParseError(p) && p.0@ == st->Fail_0),
            }
        }),
    decreases toks_size(old(stream)@), 0nat,
{
    let ghost ts0 = stream@;
    let name = match maybe_parse_name(stream) {
        Ok(Some(n)) => n,
        Ok(None) => {
            return Ok(None);
        }
        Err(e) => {
            return Err(e);
        }
    };
    let ghost r1 = stream@;
    let args = match maybe_parse_args(stream) {
        Ok(a) => a,
        Err(e) => {
            return Err(e);
        }
    };
    let ghost r2 = stream@;
    proof {
        lemma_toks_size_drop_first(ts0);
        if r1.len() > 0 {
            lemma_toks_size_drop_first(r1);
        }
        if r2.len() > 0 {
            lemma_toks_size_drop_first(r2);
        }
    }
    let fields = match maybe_parse_fields(stream) {
        Ok(fs) => fs,
        Err(e) => {
            return Err(e);
        }
    };
    let fld = Field { name, alias: None, args, fields };
    proof {
        assert(fld@.args =~= views_of(args@));
        assert(fld@.fields =~= qfields_view(fields@));
        assert(qfields_view(fields@) =~= views_of(fields@));
        lemma_toks_size_drop_first(ts0);
        if r1.len() > 0 {
            lemma_toks_size_drop_first(r1);
        }
        if r2.len() > 0 {
            lemma_toks_size_drop_first(r2);
        }
        assert(toks_size(final(stream)@) < toks_size(ts0));
        if fields@.len() == 0 {
            assert(views_of(fields@) =~= Seq::<SpecQField>::empty());
        }
    }
    Ok(Some(fld))
}

/// Parses the braced sub-selection of a field, if any.
pub fn maybe_parse_fields<'a>(stream: &mut TokenStream<'a>) -> (r: QlResult<Vec<Field>>)
    ensures
        ({
            let ts = old(stream)@;
            if ts.len() > 0 && (ts[0] matches SpecToken::Tree(b, _) && b == Bracket::Brace) {
                match spec_qfield_list(ts[0]->Tree_1) {
                    Err(m) => r matches Err(e) && (e matches QlError::ParseError(p) && p.0@ == m)
                        ,
                    Ok(pair) => r matches Ok(v) && views_of(v@) == pair.0 && final(stream)@
                        == ts.drop_first(),
                }
            } else {
                r matches Ok(v) && v@.len() == 0 && final(stream)@ == ts
            }
        }),
    decreases toks_size(old(stream)@), 0nat,
{
    let ghost ts0 = stream@;
    match stream.peek_tok() {
        Some(tok) => match &tok.kind {
            TokenKind::Tree(Bracket::Brace, toks) => {
                proof {
                    crate::token::lemma_tree_view(Bracket::Brace, *toks);
                    assert(ts0[0] matches SpecToken::Tree(b, kids) && b == Bracket::Brace && kids
                        =~= crate::token::toks_view(toks@));
                    lemma_toks_size_elem(ts0, 0);
                }
                stream.bump();
                let mut sub = TokenStream::new(vstd::slice::slice_subrange(
                    toks.as_slice(),
                    0,
                    toks.len(),
                ));
                proof {
                    assert(sub@ =~= crate::token::toks_view(toks@));
                }
                parse_field_list(&mut sub)
            }
            _ => Ok(Vec::new()),
        },
        None => Ok(Vec::new()),
    }
}

/// Parses a separated selection list, as `spec_qfield_list` describes.
pub fn parse_field_list<'a>(stream: &mut TokenStream<'a>) -> (r: QlResult<Vec<Field>>)
    ensures
        ({
            let sp = spec_qfield_list(old(stream)@);
            match r {
                Ok(v) => sp matches Ok(pair) && views_of(v@) == pair.0 && final(stream)@ == pair.1,
                Err(e) => sp is Err && (e matches QlError::ParseError(p) && p.0@ == sp->Err_0),
            }
        }),
    decreases toks_size(old(stream)@), 1nat,
{
    stream.ignore_newlines();
    let ghost ts1 = stream@;
    proof {
        lemma_skip_newlines_size(old(stream)@);
    }
    let mut out: Vec<Field> = Vec::new();
    proof {
        assert(views_of(out@) =~= Seq::<SpecQField>::empty());
    }
    loop
        invariant
            ts1 == skip_newlines(old(stream)@),
            toks_size(stream@) <= toks_size(old(stream)@),
            qfield_list_rec(ts1) matches Ok(pair) ==> qfield_list_rec(stream@) matches Ok(cur)
                && pair.0 == views_of(out@) + cur.0 && pair.1 == cur.1,
            qfield_list_rec(ts1) is Err ==> qfield_list_rec(stream@) == qfield_list_rec(ts1),
        ensures
            qfield_list_rec(ts1) matches Ok(pair) && pair.0 == views_of(out@) && pair.1 == stream@,
        decreases toks_size(stream@),
    {
        let ghost pre = stream@;
        match maybe_parse_field(stream) {
            Err(e) => {
                proof {
                    assert(qfield_list_rec(pre) is Err);
                }
                return Err(e);
            }
            Ok(None) => {
                proof {
                    assert(qfield_list_rec(pre) == Ok::<(Seq<SpecQField>, Seq<SpecToken>), Seq<
                        char,
                    >>((Seq::empty(), pre)));
                    assert(views_of(out@) + Seq::<SpecQField>::empty() =~= views_of(out@));
                }
                break ;
            }
            Ok(Some(v)) => {
                let ghost vview = v@;
                let ghost rest = stream@;
                out.push(v);
                stream.maybe_eat(Atom::Comma);
                stream.ignore_newlines();
                proof {
                    let rest2 = skip_newlines(spec_maybe_eat(rest, SpecAtom::Comma));
                    assert(stream@ == rest2);
                    lemma_spec_maybe_eat_size(rest, SpecAtom::Comma);
                    lemma_skip_newlines_size(spec_maybe_eat(rest, SpecAtom::Comma));
                    assert(toks_size(rest2) < toks_size(pre));
                    let prev_views = views_of(out@.drop_last());
                    assert(views_of(out@) =~= prev_views.push(vview));
                    if qfield_list_rec(pre) is Ok {
                        let nx = qfield_list_rec(rest2);
                        assert(nx is Ok);
                        assert(prev_views + (seq![vview] + nx->Ok_0.0) =~= views_of(out@)
                            + nx->Ok_0.0);
                    }
                }
            }
        }
    }
    Ok(out)
}

/// Parses one name, which must be there.
pub fn parse_name<'a>(stream: &mut TokenStream<'a>) -> (r: QlResult<Name>)
    ensures
        ({
            let st = name_step(old(stream)@);
            match r {
                Ok(n) => st matches Step::Next(w, rest) && w == n@ && rest == final(stream)@,
                Err(e) => e matches QlError::ParseError(p) && (st is Stop && p.0@
                    == "Unexpected eof"@ || st is Fail && p.0@ == st->Fail_0),
            }
        }),
{
    let f = |s: TokenStream<'a>| -> (o: (TokenStream<'a>, QlResult<Option<Name>>))
        ensures
            step_matches(crate::parse_base::name_stepf(), s@, o.0@, o.1),
        {
            let mut m = s;
            let r = maybe_parse_name(&mut m);
            (m, r)
        };
    stream.expect(f)
}

/// Parses one value, which must be there.
pub fn parse_value<'a>(stream: &mut TokenStream<'a>) -> (r: QlResult<Value>)
    ensures
        ({
            let st = value_step(old(stream)@);
            match r {
                Ok(v) => st matches Step::Next(w, rest) && w == v@ && rest == final(stream)@,
                Err(e) => e matches QlError::ParseError(p) && (st is Stop && p.0@
                    == "Unexpected eof"@ || st is Fail && p.0@ == st->Fail_0),
            }
        }),
{
    let ghost ts0 = stream@;
    match maybe_parse_value(stream) {
        Ok(Some(v)) => Ok(v),
        Ok(None) => Err(QlError::ParseError(ParseError("Unexpected eof"))),
        Err(e) => Err(e),
    }
}

/// Parses an operation, as `spec_parse_operation` describes.
pub fn parse_operation<'a>(stream: &mut TokenStream<'a>) -> (r: QlResult<Query>)
    ensures
        ({
            let sp = spec_parse_operation(old(stream)@);
            match r {
                Ok(q) => sp matches Ok(qv) && q@ == qv,
                Err(e) => sp is Err && (e matches QlError::ParseError(p) && p.0@ == sp->Err_0),
            }
        }),
{
    let ghost ts0 = stream@;
    let tok = match stream.next_tok() {
        Ok(t) => t,
        Err(e) => {
            return Err(e);
        }
    };
    match &tok.kind {
        TokenKind::Atom(Atom::Name(n)) => {
            if crate::types::str_eq(n.as_str(), "query") {
                let tok2 = match stream.next_tok() {
                    Ok(t) => t,
                    Err(e) => {
                        return Err(e);
                    }
                };
                match &tok2.kind {
                    TokenKind::Tree(Bracket::Brace, toks) => {
                        proof {
                            crate::token::lemma_tree_view(Bracket::Brace, *toks);
                            assert(ts0.drop_first()[0] matches SpecToken::Tree(b, kids) && b
                                == Bracket::Brace && kids =~= crate::token::toks_view(toks@));
                        }
                        let mut sub = TokenStream::new(vstd::slice::slice_subrange(
                            toks.as_slice(),
                            0,
                            toks.len(),
                        ));
                        proof {
                            assert(sub@ =~= crate::token::toks_view(toks@));
                        }
                        let body = match parse_field_list(&mut sub) {
                            Ok(fs) => fs,
                            Err(e) => {
                                return Err(e);
                            }
                        };
                        Ok(wrap_query(body))
                    }
                    _ => Err(QlError::ParseError(ParseError("Unexpected token, expected: `{`"))),
                }
            } else if crate::types::str_eq(n.as_str(), "mutation") {
                Ok(Query::Mutation)
            } else {
                Err(QlError::ParseError(ParseError("Unexpected token, expected: identifier or `{`")))
            }
        }
        TokenKind::Tree(Bracket::Brace, toks) => {
            proof {
                crate::token::lemma_tree_view(Bracket::Brace, *toks);
                assert(ts0[0] matches SpecToken::Tree(b, kids) && b == Bracket::Brace && kids
                    =~= crate::token::toks_view(toks@));
            }
            let mut sub = TokenStream::new(vstd::slice::slice_subrange(
                toks.as_slice(),
                0,
                toks.len(),
            ));
            proof {
                assert(sub@ =~= crate::token::toks_view(toks@));
            }
            let body = match parse_field_list(&mut sub) {
                Ok(fs) => fs,
                Err(e) => {
                    return Err(e);
                }
            };
            Ok(wrap_query(body))
        }
        _ => Err(QlError::ParseError(ParseError("Unexpected token, expected: identifier or `{`"))),
    }
}

/// Wraps a parsed field block in the synthetic `query` field.
fn wrap_query(body: Vec<Field>) -> (r: Query)
    ensures
        r@ == query_wrapper(qfields_view(body@)),
{
    let mut top: Vec<Field> = Vec::new();
    top.push(Field { name: Name::new("query"), alias: None, args: Vec::new(), fields: body });
    let r = Query::Query(top);
    proof {
        assert(qfields_view(top@).len() == 1);
        let fv = qfields_view(top@)[0];
        assert(fv == crate::query::qfield_view(top@[0]));
        assert(fv.name == "query"@);
        assert(fv.alias is None);
        assert(fv.args =~= Seq::<(Seq<char>, SpecValue)>::empty());
        assert(fv.fields =~= qfields_view(top@[0].fields@));
        assert(fv =~~= SpecQField {
            name: "query"@,
            alias: None,
            args: Seq::empty(),
            fields: qfields_view(top@[0].fields@),
        });
        assert(r@ matches SpecQuery::Query(fs) && fs =~~= query_wrapper(
            qfields_view(top@[0].fields@),
        )->Query_0);
    }
    r
}

/// Parses the text of a query: it is tokenized with surrounding
/// whitespace removed, and the token tree parsed as
/// `spec_parse_operation` describes.
pub fn parse_query(input: &str) -> (r: QlResult<Query>)
    ensures
        lex_of(trim_of(input@)) matches Err(le) ==> (r matches Err(e) && e matches
            QlError::LexError(le2) && le2 == le),
        lex_of(trim_of(input@)) matches Ok(ts) ==> match spec_parse_operation(ts) {
            Ok(qv) => r matches Ok(q) && q@ == qv,
            Err(m) => r matches Err(e) && (e matches QlError::ParseError(p) && p.0@ == m),
        },
{
    let toks = match tokenise_trimmed(input) {
        Ok(ts) => ts,
        Err(le) => {
            return Err(QlError::LexError(le));
        }
    };
    let mut stream = TokenStream::new(vstd::slice::slice_subrange(
        toks.as_slice(),
        0,
        toks.len(),
    ));
    proof {
        assert(stream@ =~= crate::token::toks_view(toks@));
    }
    parse_operation(&mut stream)
}

} // verus!
