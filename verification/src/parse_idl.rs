//! The schema-description parser: turns a token tree into a schema
//! model. Each parsing function is proved to return exactly what its
//! mathematical counterpart describes.

use vstd::prelude::*;
use crate::lexer::{lex_of, trim_of, tokenise_trimmed};
use crate::parse_base::{TokenStream, Step, maybe_parse_name, name_step, skip_newlines,
    spec_parse_list, step_matches, views_of};
use crate::schema::{Enum, Field, Interface, Item, Object, Schema, SpecField, SpecItem, SpecType,
    SpecTypeKind, Type, TypeKind};
use crate::token::{Atom, Bracket, SpecAtom, SpecToken, TokenKind, toks_size,
    lemma_toks_size_drop_first};
use crate::types::Name;
use crate::{ParseError, QlError, QlResult};

verus! {

/// Whether the stream starts with a `!` atom.
pub open spec fn has_bang(ts: Seq<SpecToken>) -> bool {
    ts.len() > 0 && ts[0] == SpecToken::Atom(SpecAtom::Bang)
}

/// The stream with every leading `!` atom dropped.
pub open spec fn skip_bangs(ts: Seq<SpecToken>) -> Seq<SpecToken>
    decreases ts.len(),
{
    if has_bang(ts) {
        skip_bangs(ts.drop_first())
    } else {
        ts
    }
}

pub proof fn lemma_skip_bangs_size(ts: Seq<SpecToken>)
    ensures
        toks_size(skip_bangs(ts)) <= toks_size(ts),
    decreases ts.len(),
{
    if has_bang(ts) {
        lemma_toks_size_drop_first(ts);
        lemma_skip_bangs_size(ts.drop_first());
    }
}

/// Parsing one type: a bracketed element type makes an array, the names
/// `String` and `ID` make the scalars, any other name a reference; `!`
/// suffixes make the type non-null, idempotently.
pub open spec fn spec_parse_type(ts: Seq<SpecToken>) -> Result<(SpecType, Seq<SpecToken>), Seq<
    char,
>>
    decreases toks_size(ts),
    via spec_parse_type_decreases
{
    if ts.len() == 0 {
        Err("Unexpected end of stream"@)
    } else {
        let rest = ts.drop_first();
        match ts[0] {
            SpecToken::Tree(Bracket::Square, kids) => match spec_parse_type(kids) {
                Err(m) => Err(m),
                Ok((inner, _)) => Ok(
                    (
                        SpecType {
                            kind: SpecTypeKind::Array(Box::new(inner)),
                            nullable: !has_bang(rest),
                        },
                        skip_bangs(rest),
                    ),
                ),
            },
            SpecToken::Atom(SpecAtom::Name(s)) => {
                let kind = if s == "String"@ {
                    SpecTypeKind::String
                } else if s == "ID"@ {
                    SpecTypeKind::Id
                } else {
                    SpecTypeKind::Name(s)
                };
                Ok((SpecType { kind, nullable: !has_bang(rest) }, skip_bangs(rest)))
            }
            _ => Err("Unexpected token, expected type"@),
        }
    }
}

#[via_fn]
proof fn spec_parse_type_decreases(ts: Seq<SpecToken>) {
    if ts.len() > 0 {
        lemma_toks_size_drop_first(ts);
    }
}

/// One step of an argument list: `Name : Type`.
pub open spec fn arg_step(ts: Seq<SpecToken>) -> Step<(Seq<char>, SpecType)> {
    match name_step(ts) {
        Step::Stop => Step::Stop,
        Step::Fail(m) => Step::Fail(m),
        Step::Next(name, r1) => {
            if r1.len() == 0 {
                Step::Fail("Unexpected end of stream"@)
            } else if r1[0] != SpecToken::Atom(SpecAtom::Colon) {
                Step::Fail("Unexpected token"@)
            } else {
                match spec_parse_type(r1.drop_first()) {
                    Err(m) => Step::Fail(m),
                    Ok((t, r2)) => Step::Next((name, t), r2),
                }
            }
        }
    }
}

pub open spec fn arg_stepf() -> spec_fn(Seq<SpecToken>) -> Step<(Seq<char>, SpecType)> {
    |ts: Seq<SpecToken>| arg_step(ts)
}

/// One step of a field list: `Name (args)? : Type`.
pub open spec fn field_step(ts: Seq<SpecToken>) -> Step<SpecField> {
    match name_step(ts) {
        Step::Stop => Step::Stop,
        Step::Fail(m) => Step::Fail(m),
        Step::Next(name, r1) => {
            let has_args = r1.len() > 0 && r1[0] matches SpecToken::Tree(Bracket::Paren, _);
            let argsr = if has_args {
                match spec_parse_list(arg_stepf(), r1[0]->Tree_1) {
                    Err(m) => Err(m),
                    Ok((args, _)) => Ok((args, r1.drop_first())),
                }
            } else {
                Ok((Seq::empty(), r1))
            };
            match argsr {
                Err(m) => Step::Fail(m),
                Ok((args, r2)) => {
                    if r2.len() == 0 {
                        Step::Fail("Unexpected end of stream"@)
                    } else if r2[0] != SpecToken::Atom(SpecAtom::Colon) {
                        Step::Fail("Unexpected token"@)
                    } else {
                        match spec_parse_type(r2.drop_first()) {
                            Err(m) => Step::Fail(m),
                            Ok((t, r3)) => Step::Next(
                                SpecField { name, args, ty: t },
                                r3,
                            ),
                        }
                    }
                }
            }
        }
    }
}

pub open spec fn field_stepf() -> spec_fn(Seq<SpecToken>) -> Step<SpecField> {
    |ts: Seq<SpecToken>| field_step(ts)
}

pub open spec fn variant_stepf() -> spec_fn(Seq<SpecToken>) -> Step<Seq<char>> {
    |ts: Seq<SpecToken>| name_step(ts)
}

/// Parsing a `{ field list }` body: the next token must be a brace group.
pub open spec fn spec_parse_body(ts: Seq<SpecToken>) -> Result<
    (Seq<SpecField>, Seq<SpecToken>),
    Seq<char>,
> {
    if ts.len() == 0 {
        Err("Unexpected end of stream"@)
    } else {
        match ts[0] {
            SpecToken::Tree(Bracket::Brace, kids) => match spec_parse_list(field_stepf(), kids) {
                Err(m) => Err(m),
                Ok((fields, _)) => Ok((fields, ts.drop_first())),
            },
            _ => Err("Expected `{`"@),
        }
    }
}

/// Parsing an object body: an optional single `implements Name`, then a
/// field block.
pub open spec fn spec_parse_object(ts: Seq<SpecToken>) -> Result<
    ((Seq<Seq<char>>, Seq<SpecField>), Seq<SpecToken>),
    Seq<char>,
> {
    let impl_r = if ts.len() > 0 && ts[0] == SpecToken::Atom(
        SpecAtom::Name("implements"@),
    ) {
        match name_step(ts.drop_first()) {
            Step::Stop => Err("Unexpected eof"@),
            Step::Fail(m) => Err(m),
            Step::Next(n, r) => Ok((seq![n], r)),
        }
    } else {
        Ok((Seq::empty(), ts))
    };
    match impl_r {
        Err(m) => Err(m),
        Ok((implements, r1)) => match spec_parse_body(r1) {
            Err(m) => Err(m),
            Ok((fields, r2)) => Ok(((implements, fields), r2)),
        },
    }
}

/// Parsing an enum body: a brace group of variant names.
pub open spec fn spec_parse_enum(ts: Seq<SpecToken>) -> Result<
    (Seq<Seq<char>>, Seq<SpecToken>),
    Seq<char>,
> {
    if ts.len() == 0 {
        Err("Unexpected end of stream"@)
    } else {
        match ts[0] {
            SpecToken::Tree(Bracket::Brace, kids) => match spec_parse_list(variant_stepf(), kids) {
                Err(m) => Err(m),
                Ok((variants, _)) => Ok((variants, ts.drop_first())),
            },
            _ => Err("Expected `{`"@),
        }
    }
}

/// One step of the document: `schema`, `type`, `interface` or `enum`,
/// dispatched on the leading keyword; the schema root is stored under the
/// reserved name.
pub open spec fn item_step(ts: Seq<SpecToken>) -> Step<(Seq<char>, SpecItem)> {
    match name_step(ts) {
        Step::Stop => Step::Stop,
        Step::Fail(m) => Step::Fail(m),
        Step::Next(kw, r1) => {
            if kw == "schema"@ {
                match spec_parse_body(r1) {
                    Err(m) => Step::Fail(m),
                    Ok((fields, r2)) => Step::Next(("schema"@, SpecItem::Schema(fields)), r2),
                }
            } else {
                match name_step(r1) {
                    Step::Stop => Step::Fail("Unexpected eof"@),
                    Step::Fail(m) => Step::Fail(m),
                    Step::Next(name, r2) => {
                        if kw == "interface"@ {
                            match spec_parse_body(r2) {
                                Err(m) => Step::Fail(m),
                                Ok((fields, r3)) => Step::Next(
                                    (name, SpecItem::Interface(fields)),
                                    r3,
                                ),
                            }
                        } else if kw == "type"@ {
                            match spec_parse_object(r2) {
                                Err(m) => Step::Fail(m),
                                Ok(((implements, fields), r3)) => Step::Next(
                                    (name, SpecItem::Object(implements, fields)),
                                    r3,
                                ),
                            }
                        } else if kw == "enum"@ {
                            match spec_parse_enum(r2) {
                                Err(m) => Step::Fail(m),
                                Ok((variants, r3)) => Step::Next(
                                    (name, SpecItem::Enum(variants)),
                                    r3,
                                ),
                            }
                        } else {
                            Step::Fail("Unexpected item"@)
                        }
                    }
                }
            }
        }
    }
}

/// The declared items of a document, in order: newlines are skipped
/// around items, and parsing stops cleanly only at the end of the stream.
pub open spec fn spec_parse_doc_items(ts: Seq<SpecToken>) -> Result<
    Seq<(Seq<char>, SpecItem)>,
    Seq<char>,
>
    decreases toks_size(ts),
    via spec_parse_doc_items_decreases
{
    match item_step(ts) {
        Step::Fail(m) => Err(m),
        Step::Stop => Ok(Seq::empty()),
        Step::Next(p, rest) => {
            let rest2 = skip_newlines(rest);
            if toks_size(rest2) < toks_size(ts) {
                match spec_parse_doc_items(rest2) {
                    Err(m) => Err(m),
                    Ok(ps) => Ok(seq![p] + ps),
                }
            } else {
                Ok(seq![p])
            }
        }
    }
}

#[via_fn]
proof fn spec_parse_doc_items_decreases(ts: Seq<SpecToken>) {
}

/// The mapping the declared items denote: a later item of the same name
/// overrides an earlier one.
pub open spec fn pairs_map(ps: Seq<(Seq<char>, SpecItem)>) -> Map<Seq<char>, SpecItem>
    decreases ps.len(),
{
    if ps.len() == 0 {
        Map::empty()
    } else {
        pairs_map(ps.drop_last()).insert(ps.last().0, ps.last().1)
    }
}

/// The whole document: leading newlines, then the items.
pub open spec fn spec_parse_doc(ts: Seq<SpecToken>) -> Result<
    Seq<(Seq<char>, SpecItem)>,
    Seq<char>,
> {
    spec_parse_doc_items(skip_newlines(ts))
}

/// The views of a schema's entry list.
pub open spec fn entry_views(items: Seq<(Name, Item)>) -> Seq<(Seq<char>, SpecItem)> {
    Seq::new(items.len(), |i: int| (items[i].0@, items[i].1@))
}

/// Parses one type, as `spec_parse_type` describes.
pub fn parse_type(stream: &mut TokenStream) -> (r: QlResult<Type>)
    ensures
        ({
            let sp = spec_parse_type(old(stream)@);
            match r {
                Ok(t) => sp matches Ok(pair) && t@ == pair.0 && final(stream)@ == pair.1,
                Err(e) => sp is Err && (e matches QlError::ParseError(p) && p.0@ == sp->Err_0),
            }
        }),
    decreases toks_size(old(stream)@),
{
    let ghost ts0 = stream@;
    let tok = match stream.next_tok() {
        Ok(t) => t,
        Err(e) => {
            return Err(e);
        }
    };
    let mut result: Type = match &tok.kind {
        TokenKind::Tree(Bracket::Square, toks) => {
            proof {
                crate::token::lemma_tree_view(Bracket::Square, *toks);
                assert(ts0[0] matches SpecToken::Tree(b, kids) && b == Bracket::Square && kids
                    =~= crate::token::toks_view(toks@));
                lemma_toks_size_drop_first(ts0);
            }
            let mut sub = TokenStream::new(vstd::slice::slice_subrange(
                toks.as_slice(),
                0,
                toks.len(),
            ));
            proof {
                assert(sub@ =~= crate::token::toks_view(toks@));
            }
            match parse_type(&mut sub) {
                Ok(inner) => Type::array(inner),
                Err(e) => {
                    return Err(e);
                }
            }
        }
        TokenKind::Atom(Atom::Name(s)) => {
            if crate::types::str_eq(s.as_str(), "String") {
                Type { kind: TypeKind::String, nullable: true }
            } else if crate::types::str_eq(s.as_str(), "ID") {
                Type { kind: TypeKind::Id, nullable: true }
            } else {
                Type { kind: TypeKind::Name(Name(s.clone())), nullable: true }
            }
        }
        _ => {
            return Err(QlError::ParseError(ParseError("Unexpected token, expected type")));
        }
    };
    let ghost r0 = stream@;
    loop
        invariant
            skip_bangs(r0) == skip_bangs(stream@),
            (stream@ == r0 && result.nullable == true) || (has_bang(r0) && result.nullable
                == false),
            spec_parse_type(ts0) matches Ok(pair) && pair.0 == (SpecType {
                kind: result@.kind,
                nullable: !has_bang(r0),
            }) && pair.1 == skip_bangs(r0),
        ensures
            stream@ == skip_bangs(r0),
            result.nullable == !has_bang(r0),
            spec_parse_type(ts0) matches Ok(pair) && pair.0 == (SpecType {
                kind: result@.kind,
                nullable: !has_bang(r0),
            }) && pair.1 == skip_bangs(r0),
        decreases stream@.len(),
    {
        match stream.peek_tok() {
            Some(tok) => match &tok.kind {
                TokenKind::Atom(Atom::Bang) => {
                    stream.bump();
                    result.nullable = false;
                }
                _ => {
                    break ;
                }
            },
            None => {
                break ;
            }
        }
    }
    Ok(result)
}

/// Parses one `Name : Type` argument declaration, as `arg_step`
/// describes.
pub fn maybe_parse_arg(stream: &mut TokenStream) -> (r: QlResult<Option<(Name, Type)>>)
    ensures
        step_matches(arg_stepf(), old(stream)@, final(stream)@, r),
{
    let ghost ts0 = stream@;
    let name = match maybe_parse_name(stream) {
        Ok(Some(n)) => n,
        Ok(None) => {
            return Ok(None);
        }
        Err(e) => {
            return Err(e);
        }
    };
    match stream.eat(Atom::Colon) {
        Ok(()) => {}
        Err(e) => {
            return Err(e);
        }
    }
    proof {
        lemma_toks_size_drop_first(ts0);
        lemma_toks_size_drop_first(ts0.drop_first());
        lemma_spec_parse_type_size(ts0.drop_first().drop_first());
    }
    let ty = match parse_type(stream) {
        Ok(t) => t,
        Err(e) => {
            return Err(e);
        }
    };
    Ok(Some((name, ty)))
}

/// Parses one field declaration, as `field_step` describes.
pub fn maybe_parse_field<'a>(stream: &mut TokenStream<'a>) -> (r: QlResult<Option<Field>>)
    ensures
        step_matches(field_stepf(), old(stream)@, final(stream)@, r),
    decreases toks_size(old(stream)@),
{
    let ghost ts0 = stream@;
    let name = match maybe_parse_name(stream) {
        Ok(Some(n)) => n,
        Ok(None) => {
            return Ok(None);
        }
        Err(e) => {
            return Err(e);
        }
    };
    let ghost r1 = stream@;
    let mut args: Vec<(Name, Type)> = Vec::new();
    proof {
        assert(views_of(args@) =~= Seq::<(Seq<char>, SpecType)>::empty());
    }
    let has_args = match stream.peek_tok() {
        Some(tok) => match &tok.kind {
            TokenKind::Tree(Bracket::Paren, _) => true,
            _ => false,
        },
        None => false,
    };
    if has_args {
        let tok = match stream.next_tok() {
            Ok(t) => t,
            Err(e) => {
                proof {
                    assert(false);
                }
                return Err(e);
            }
        };
        match &tok.kind {
            TokenKind::Tree(Bracket::Paren, toks) => {
                proof {
                    crate::token::lemma_tree_view(Bracket::Paren, *toks);
                    assert(r1[0] matches SpecToken::Tree(b, kids) && b == Bracket::Paren && kids
                        =~= crate::token::toks_view(toks@));
                }
                let mut sub = TokenStream::new(vstd::slice::slice_subrange(
                    toks.as_slice(),
                    0,
                    toks.len(),
                ));
                proof {
                    assert(sub@ =~= crate::token::toks_view(toks@));
                }
                let f = |s: TokenStream<'a>| -> (o: (TokenStream<'a>, QlResult<Option<(Name, Type)>>))
                    ensures
                        step_matches(arg_stepf(), s@, o.0@, o.1),
                    {
                        let mut m = s;
                        let r = maybe_parse_arg(&mut m);
                        (m, r)
                    };
                proof {
                    assert forall|s: TokenStream| #[trigger] call_requires(f, (s,)) by {}
                }
                match sub.parse_list(f, Ghost(arg_stepf())) {
                    Ok(v) => {
                        args = v;
                    }
                    Err(e) => {
                        return Err(e);
                    }
                }
            }
            _ => {
                proof {
                    assert(false);
                }
                return Err(QlError::ParseError(ParseError("Unexpected token")));
            }
        }
    }
    let ghost r2 = stream@;
    match stream.eat(Atom::Colon) {
        Ok(()) => {}
        Err(e) => {
            proof {
                lemma_field_step_consumes(ts0);
            }
            return Err(e);
        }
    }
    proof {
        lemma_toks_size_drop_first(r2);
    }
    let ty = match parse_type(stream) {
        Ok(t) => t,
        Err(e) => {
            return Err(e);
        }
    };
    let fld = Field { name, args, ty };
    proof {
        lemma_toks_size_drop_first(ts0);
        if r2.len() > 0 {
            lemma_toks_size_drop_first(r2);
            lemma_spec_parse_type_size(r2.drop_first());
        }
        assert(fld@.args =~= views_of(args@));
        lemma_field_step_consumes(ts0);
    }
    Ok(Some(fld))
}

/// A successful field step consumes at least the field's name.
proof fn lemma_field_step_consumes(ts: Seq<SpecToken>)
    ensures
        field_step(ts) matches Step::Next(_, rest) ==> toks_size(rest) < toks_size(ts),
{
    if ts.len() > 0 {
        lemma_toks_size_drop_first(ts);
        match field_step(ts) {
            Step::Next(_, rest) => {
                let r1 = ts.drop_first();
                if r1.len() > 0 && r1[0] matches SpecToken::Tree(Bracket::Paren, _) {
                    lemma_toks_size_drop_first(r1);
                    let r2 = r1.drop_first();
                    if r2.len() > 0 {
                        lemma_toks_size_drop_first(r2);
                        lemma_spec_parse_type_size(r2.drop_first());
                    }
                } else {
                    if r1.len() > 0 {
                        lemma_toks_size_drop_first(r1);
                        lemma_spec_parse_type_size(r1.drop_first());
                    }
                }
            }
            _ => {}
        }
    }
}

/// A successful type parse leaves no more tokens than it was given.
pub proof fn lemma_spec_parse_type_size(ts: Seq<SpecToken>)
    ensures
        spec_parse_type(ts) matches Ok(pair) ==> toks_size(pair.1) <= toks_size(ts),
{
    if ts.len() > 0 {
        lemma_toks_size_drop_first(ts);
        lemma_skip_bangs_size(ts.drop_first());
    }
}

/// Parses one enum variant: a bare name.
pub fn maybe_parse_variant(stream: &mut TokenStream) -> (r: QlResult<Option<Name>>)
    ensures
        step_matches(variant_stepf(), old(stream)@, final(stream)@, r),
{
    let name = match maybe_parse_name(stream) {
        Ok(Some(n)) => n,
        Ok(None) => {
            return Ok(None);
        }
        Err(e) => {
            return Err(e);
        }
    };
    Ok(Some(name))
}

/// Parses a brace-delimited field block, as `spec_parse_body` describes.
pub fn parse_interface(stream: &mut TokenStream) -> (r: QlResult<Interface>)
    ensures
        ({
            let sp = spec_parse_body(old(stream)@);
            match r {
                Ok(i) => sp matches Ok(pair) && crate::schema::fields_view(i.fields@) == pair.0
                    && final(stream)@ == pair.1,
                Err(e) => sp is Err && (e matches QlError::ParseError(p) && p.0@ == sp->Err_0),
            }
        }),
{
    let fields = match parse_body(stream) {
        Ok(fs) => fs,
        Err(e) => {
            return Err(e);
        }
    };
    Ok(Interface { fields })
}

/// Parses a brace-delimited field block into the declared fields.
fn parse_body<'a>(stream: &mut TokenStream<'a>) -> (r: QlResult<Vec<Field>>)
    ensures
        ({
            let sp = spec_parse_body(old(stream)@);
            match r {
                Ok(fs) => sp matches Ok(pair) && crate::schema::fields_view(fs@) == pair.0
                    && final(stream)@ == pair.1,
                Err(e) => sp is Err && (e matches QlError::ParseError(p) && p.0@ == sp->Err_0),
            }
        }),
{
    let ghost ts0 = stream@;
    let tok = match stream.next_tok() {
        Ok(t) => t,
        Err(e) => {
            return Err(e);
        }
    };
    match &tok.kind {
        TokenKind::Tree(Bracket::Brace, toks) => {
            proof {
                crate::token::lemma_tree_view(Bracket::Brace, *toks);
                assert(ts0[0] matches SpecToken::Tree(b, kids) && b == Bracket::Brace && kids
                    =~= crate::token::toks_view(toks@));
            }
            let mut sub = TokenStream::new(vstd::slice::slice_subrange(
                toks.as_slice(),
                0,
                toks.len(),
            ));
            proof {
                assert(sub@ =~= crate::token::toks_view(toks@));
            }
            let f = |s: TokenStream<'a>| -> (o: (TokenStream<'a>, QlResult<Option<Field>>))
                ensures
                    step_matches(field_stepf(), s@, o.0@, o.1),
                {
                    let mut m = s;
                    let r = maybe_parse_field(&mut m);
                    (m, r)
                };
            match sub.parse_list(f, Ghost(field_stepf())) {
                Ok(v) => {
                    proof {
                        assert(crate::schema::fields_view(v@) =~= views_of(v@));
                    }
                    Ok(v)
                }
                Err(e) => Err(e),
            }
        }
        _ => Err(QlError::ParseError(ParseError("Expected `{`"))),
    }
}

/// Parses an object body, as `spec_parse_object` describes.
pub fn parse_object(stream: &mut TokenStream) -> (r: QlResult<Object>)
    ensures
        ({
            let sp = spec_parse_object(old(stream)@);
            match r {
                Ok(o) => sp matches Ok(pair) && crate::schema::names_view(o.implements@)
                    == pair.0.0 && crate::schema::fields_view(o.fields@) == pair.0.1
                    && final(stream)@ == pair.1,
                Err(e) => sp is Err && (e matches QlError::ParseError(p) && p.0@ == sp->Err_0),
            }
        }),
{
    let ghost ts0 = stream@;
    let mut implements: Vec<Name> = Vec::new();
    let is_implements = match stream.peek_tok() {
        Some(tok) => match &tok.kind {
            TokenKind::Atom(Atom::Name(s)) => crate::types::str_eq(s.as_str(), "implements"),
            _ => false,
        },
        None => false,
    };
    if is_implements {
        stream.bump();
        match maybe_parse_name(stream) {
            Ok(Some(n)) => {
                implements.push(n);
            }
            Ok(None) => {
                return Err(QlError::ParseError(ParseError("Unexpected eof")));
            }
            Err(e) => {
                return Err(e);
            }
        }
    }
    let fields = match parse_body(stream) {
        Ok(fs) => fs,
        Err(e) => {
            return Err(e);
        }
    };
    let o = Object { implements, fields };
    proof {
        assert(crate::schema::names_view(o.implements@) =~= spec_parse_object(
            ts0,
        )->Ok_0.0.0);
    }
    Ok(o)
}

/// Parses an enum body, as `spec_parse_enum` describes.
pub fn parse_enum<'a>(stream: &mut TokenStream<'a>) -> (r: QlResult<Enum>)
    ensures
        ({
            let sp = spec_parse_enum(old(stream)@);
            match r {
                Ok(en) => sp matches Ok(pair) && crate::schema::names_view(en.variants@) == pair.0
                    && final(stream)@ == pair.1,
                Err(e) => sp is Err && (e matches QlError::ParseError(p) && p.0@ == sp->Err_0),
            }
        }),
{
    let ghost ts0 = stream@;
    let tok = match stream.next_tok() {
        Ok(t) => t,
        Err(e) => {
            return Err(e);
        }
    };
    match &tok.kind {
        TokenKind::Tree(Bracket::Brace, toks) => {
            proof {
                crate::token::lemma_tree_view(Bracket::Brace, *toks);
                assert(ts0[0] matches SpecToken::Tree(b, kids) && b == Bracket::Brace && kids
                    =~= crate::token::toks_view(toks@));
            }
            let mut sub = TokenStream::new(vstd::slice::slice_subrange(
                toks.as_slice(),
                0,
                toks.len(),
            ));
            proof {
                assert(sub@ =~= crate::token::toks_view(toks@));
            }
            let f = |s: TokenStream<'a>| -> (o: (TokenStream<'a>, QlResult<Option<Name>>))
                ensures
                    step_matches(variant_stepf(), s@, o.0@, o.1),
                {
                    let mut m = s;
                    let r = maybe_parse_variant(&mut m);
                    (m, r)
                };
            match sub.parse_list(f, Ghost(variant_stepf())) {
                Ok(v) => {
                    proof {
                        assert(crate::schema::names_view(v@) =~= views_of(v@));
                    }
                    Ok(Enum { variants: v })
                }
                Err(e) => Err(e),
            }
        }
        _ => Err(QlError::ParseError(ParseError("Expected `{`"))),
    }
}

/// Parses one document item, as `item_step` describes.
pub fn maybe_parse_item(stream: &mut TokenStream) -> (r: QlResult<Option<(Name, Item)>>)
    ensures
        step_matches(item_step_f(), old(stream)@, final(stream)@, r),
{
    let ghost ts0 = stream@;
    let kw = match maybe_parse_name(stream) {
        Ok(Some(n)) => n,
        Ok(None) => {
            return Ok(None);
        }
        Err(e) => {
            return Err(e);
        }
    };
    if crate::types::str_eq(kw.as_str(), "schema") {
        let body = match parse_interface(stream) {
            Ok(b) => b,
            Err(e) => {
                return Err(e);
            }
        };
        proof {
            lemma_item_step_consumes(ts0);
        }
        return Ok(Some((Name::new("schema"), Item::Schema(body))));
    }
    let name = match maybe_parse_name(stream) {
        Ok(Some(n)) => n,
        Ok(None) => {
            return Err(QlError::ParseError(ParseError("Unexpected eof")));
        }
        Err(e) => {
            return Err(e);
        }
    };
    let item: Item = if crate::types::str_eq(kw.as_str(), "interface") {
        match parse_interface(stream) {
            Ok(b) => Item::Interface(b),
            Err(e) => {
                return Err(e);
            }
        }
    } else if crate::types::str_eq(kw.as_str(), "type") {
        match parse_object(stream) {
            Ok(b) => Item::Object(b),
            Err(e) => {
                return Err(e);
            }
        }
    } else if crate::types::str_eq(kw.as_str(), "enum") {
        match parse_enum(stream) {
            Ok(b) => Item::Enum(b),
            Err(e) => {
                return Err(e);
            }
        }
    } else {
        return Err(QlError::ParseError(ParseError("Unexpected item")));
    };
    proof {
        lemma_item_step_consumes(ts0);
    }
    Ok(Some((name, item)))
}

pub open spec fn item_step_f() -> spec_fn(Seq<SpecToken>) -> Step<(Seq<char>, SpecItem)> {
    |ts: Seq<SpecToken>| item_step(ts)
}

/// A successful item step consumes at least the leading keyword.
proof fn lemma_item_step_consumes(ts: Seq<SpecToken>)
    ensures
        item_step(ts) matches Step::Next(_, rest) ==> toks_size(rest) < toks_size(ts),
{
    if ts.len() > 0 {
        lemma_toks_size_drop_first(ts);
        let r1 = ts.drop_first();
        if r1.len() > 0 {
            lemma_toks_size_drop_first(r1);
            let r2 = r1.drop_first();
            if r2.len() > 0 {
                lemma_toks_size_drop_first(r2);
                let r3 = r2.drop_first();
                if r3.len() > 0 {
                    lemma_toks_size_drop_first(r3);
                    let r4 = r3.drop_first();
                    if r4.len() > 0 {
                        lemma_toks_size_drop_first(r4);
                    }
                }
            }
        }
    }
}

/// Parses a whole document into a schema, as `spec_parse_doc` describes:
/// the schema's entries are exactly the declared items, in order.
pub fn parse_doc(stream: &mut TokenStream) -> (r: QlResult<Schema>)
    ensures
        ({
            let sp = spec_parse_doc(old(stream)@);
            match r {
                Ok(sch) => sp matches Ok(ps) && entry_views(sch.items@) == ps,
                Err(e) => sp is Err && (e matches QlError::ParseError(p) && p.0@ == sp->Err_0),
            }
        }),
{
    stream.ignore_newlines();
    let ghost ts1 = stream@;
    let mut items: Vec<(Name, Item)> = Vec::new();
    proof {
        assert(entry_views(items@) =~= Seq::<(Seq<char>, SpecItem)>::empty());
    }
    loop
        invariant
            ts1 == skip_newlines(old(stream)@),
            spec_parse_doc_items(ts1) matches Ok(ps) ==> spec_parse_doc_items(stream@) matches
                Ok(cur) && ps == entry_views(items@) + cur,
            spec_parse_doc_items(ts1) is Err ==> spec_parse_doc_items(stream@)
                == spec_parse_doc_items(ts1),
        ensures
            spec_parse_doc_items(ts1) matches Ok(ps) && ps == entry_views(items@),
        decreases toks_size(stream@),
    {
        let ghost pre = stream@;
        match maybe_parse_item(stream) {
            Err(e) => {
                proof {
                    assert(spec_parse_doc_items(pre) is Err);
                }
                return Err(e);
            }
            Ok(None) => {
                proof {
                    assert(spec_parse_doc_items(pre) == Ok::<Seq<(Seq<char>, SpecItem)>, Seq<
                        char,
                    >>(Seq::empty()));
                    assert(entry_views(items@) + Seq::<(Seq<char>, SpecItem)>::empty()
                        =~= entry_views(items@));
                }
                break ;
            }
            Ok(Some((name, item))) => {
                let ghost nv = name@;
                let ghost iv = item@;
                let ghost rest = stream@;
                items.push((name, item));
                stream.ignore_newlines();
                proof {
                    let rest2 = skip_newlines(rest);
                    assert(stream@ == rest2);
                    crate::parse_base::lemma_skip_newlines_size(rest);
                    assert(toks_size(rest2) < toks_size(pre));
                    let prev_views = entry_views(items@.drop_last());
                    assert(entry_views(items@) =~= prev_views.push((nv, iv)));
                    if spec_parse_doc_items(pre) is Ok {
                        let nx = spec_parse_doc_items(rest2);
                        assert(nx is Ok);
                        assert(prev_views + (seq![(nv, iv)] + nx->Ok_0) =~= entry_views(items@)
                            + nx->Ok_0);
                    }
                }
            }
        }
    }
    Ok(Schema { items })
}

/// Parses the text of a schema document: it is tokenized with
/// surrounding whitespace removed, and the token tree parsed as
/// `spec_parse_doc` describes.
pub fn parse_schema(input: &str) -> (r: QlResult<Schema>)
    ensures
        lex_of(trim_of(input@)) matches Err(le) ==> (r matches Err(e) && e matches
            QlError::LexError(le2) && le2 == le),
        lex_of(trim_of(input@)) matches Ok(ts) ==> match spec_parse_doc(ts) {
            Ok(ps) => r matches Ok(sch) && entry_views(sch.items@) == ps,
            Err(m) => r matches Err(e) && (e matches QlError::ParseError(p) && p.0@ == m),
        },
{
    let toks = match tokenise_trimmed(input) {
        Ok(ts) => ts,
        Err(le) => {
            return Err(QlError::LexError(le));
        }
    };
    let mut stream = TokenStream::new(vstd::slice::slice_subrange(
        toks.as_slice(),
        0,
        toks.len(),
    ));
    proof {
        assert(stream@ =~= crate::token::toks_view(toks@));
    }
    parse_doc(&mut stream)
}

} // verus!
