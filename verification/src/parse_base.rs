//! Code shared between the schema parser and the query parser: a cursor
//! over a token sequence, and the list-parsing combinator both grammars
//! use, with its mathematical counterpart.

use vstd::prelude::*;
use crate::token::{Atom, Bracket, SpecAtom, SpecToken, Token, TokenKind, toks_view, toks_size,
    lemma_toks_size_drop_first};
use crate::types::Name;
use crate::{ParseError, QlError, QlResult};

verus! {

/// The models of a sequence of parsed items.
pub open spec fn views_of<T: View>(s: Seq<T>) -> Seq<T::V> {
    Seq::new(s.len(), |i: int| s[i]@)
}

/// A cursor over a borrowed token sequence.
#[derive(Clone, Copy)]
pub struct TokenStream<'a> {
    pub tokens: &'a [Token],
}

impl<'a> View for TokenStream<'a> {
    type V = Seq<SpecToken>;

    open spec fn view(&self) -> Seq<SpecToken> {
        toks_view(self.tokens@)
    }
}

/// The tokens with leading newline atoms dropped.
pub open spec fn skip_newlines(ts: Seq<SpecToken>) -> Seq<SpecToken>
    decreases ts.len(),
{
    if ts.len() > 0 && ts[0] == SpecToken::Atom(SpecAtom::NewLine) {
        skip_newlines(ts.drop_first())
    } else {
        ts
    }
}

/// The tokens with one leading atom `a` dropped, if it is there.
pub open spec fn spec_maybe_eat(ts: Seq<SpecToken>, a: SpecAtom) -> Seq<SpecToken> {
    if ts.len() > 0 && ts[0] == SpecToken::Atom(a) {
        ts.drop_first()
    } else {
        ts
    }
}

pub proof fn lemma_skip_newlines_size(ts: Seq<SpecToken>)
    ensures
        toks_size(skip_newlines(ts)) <= toks_size(ts),
        skip_newlines(ts).len() <= ts.len(),
    decreases ts.len(),
{
    if ts.len() > 0 && ts[0] == SpecToken::Atom(SpecAtom::NewLine) {
        lemma_toks_size_drop_first(ts);
        lemma_skip_newlines_size(ts.drop_first());
    }
}

pub proof fn lemma_spec_maybe_eat_size(ts: Seq<SpecToken>, a: SpecAtom)
    ensures
        toks_size(spec_maybe_eat(ts, a)) <= toks_size(ts),
{
    if ts.len() > 0 && ts[0] == SpecToken::Atom(a) {
        lemma_toks_size_drop_first(ts);
    }
}

/// One step of a list parse: give up with a diagnostic, stop before a
/// token that starts no item, or yield an item and the rest.
pub enum Step<V> {
    Fail(Seq<char>),
    Stop,
    Next(V, Seq<SpecToken>),
}

/// How one exec step must relate to its mathematical step: same failure,
/// same stop, or the same item with the same rest, having consumed
/// something.
pub open spec fn step_matches<T: View>(
    fs: spec_fn(Seq<SpecToken>) -> Step<T::V>,
    ts: Seq<SpecToken>,
    rest: Seq<SpecToken>,
    r: QlResult<Option<T>>,
) -> bool {
    match r {
        Err(e) => fs(ts) is Fail && (e matches QlError::ParseError(p) && p.0@ == fs(ts)->Fail_0),
        Ok(None) => fs(ts) is Stop && rest == ts,
        Ok(Some(v)) => fs(ts) matches Step::Next(w, wrest) && w == v@ && wrest == rest
            && toks_size(rest) < toks_size(ts),
    }
}

/// Repeatedly applying a step to a token sequence: separators (a comma,
/// newlines) are skipped after each item; the items and the remaining
/// tokens come back, or the step's diagnostic.
pub open spec fn spec_list_rec<V>(
    f: spec_fn(Seq<SpecToken>) -> Step<V>,
    ts: Seq<SpecToken>,
) -> Result<(Seq<V>, Seq<SpecToken>), Seq<char>>
    decreases toks_size(ts),
{
    match f(ts) {
        Step::Fail(m) => Err(m),
        Step::Stop => Ok((Seq::empty(), ts)),
        Step::Next(v, rest) => {
            let rest2 = skip_newlines(spec_maybe_eat(rest, SpecAtom::Comma));
            if toks_size(rest2) < toks_size(ts) {
                match spec_list_rec(f, rest2) {
                    Err(m) => Err(m),
                    Ok((vs, fin)) => Ok((seq![v] + vs, fin)),
                }
            } else {
                Ok((seq![v], rest2))
            }
        }
    }
}

/// A whole list parse: leading separators are skipped first.
pub open spec fn spec_parse_list<V>(
    f: spec_fn(Seq<SpecToken>) -> Step<V>,
    ts: Seq<SpecToken>,
) -> Result<(Seq<V>, Seq<SpecToken>), Seq<char>> {
    spec_list_rec(f, skip_newlines(ts))
}

impl<'a> TokenStream<'a> {
    pub fn new(tokens: &'a [Token]) -> (r: TokenStream<'a>)
        ensures
            r@ == toks_view(tokens@),
    {
        TokenStream { tokens }
    }

    /// How many tokens are left.
    pub fn len(&self) -> (r: usize)
        ensures
            r == self@.len(),
    {
        self.tokens.len()
    }

    /// The next token, consumed; at the end of the stream, a parse error.
    pub fn next_tok(&mut self) -> (r: QlResult<&'a Token>)
        ensures
            old(self)@.len() == 0 ==> (r matches Err(e) && (e matches QlError::ParseError(p)
                && p.0@ == "Unexpected end of stream"@) && final(self)@ == old(self)@),
            old(self)@.len() > 0 ==> (r matches Ok(t) && t@ == old(self)@[0] && final(self)@
                == old(self)@.drop_first()),
    {
        if self.tokens.len() == 0 {
            return Err(QlError::ParseError(ParseError("Unexpected end of stream")));
        }
        let result = vstd::slice::slice_index_get(self.tokens, 0);
        self.bump();
        Ok(result)
    }

    /// Drops the next token; there must be one.
    pub fn bump(&mut self)
        requires
            old(self)@.len() > 0,
        ensures
            final(self)@ == old(self)@.drop_first(),
    {
        let n = self.tokens.len();
        self.tokens = vstd::slice::slice_subrange(self.tokens, 1, n);
        proof {
            assert(final(self)@ =~= old(self)@.drop_first());
        }
    }

    /// The next token, not consumed.
    pub fn peek_tok(&self) -> (r: Option<&'a Token>)
        ensures
            self@.len() == 0 ==> r is None,
            self@.len() > 0 ==> (r matches Some(t) && t@ == self@[0]),
    {
        if self.tokens.len() == 0 {
            None
        } else {
            Some(vstd::slice::slice_index_get(self.tokens, 0))
        }
    }

    /// Consumes the next token, which must be exactly the given atom.
    pub fn eat(&mut self, atom: Atom) -> (r: QlResult<()>)
        ensures
            old(self)@.len() == 0 ==> (r matches Err(e) && (e matches QlError::ParseError(p)
                && p.0@ == "Unexpected end of stream"@) && final(self)@ == old(self)@),
            old(self)@.len() > 0 ==> final(self)@ == old(self)@.drop_first() && (if old(self)@[0]
                == SpecToken::Atom(atom@) {
                r is Ok
            } else {
                r matches Err(e) && (e matches QlError::ParseError(p) && p.0@
                    == "Unexpected token"@)
            }),
    {
        match self.next_tok() {
            Err(e) => Err(e),
            Ok(t) => match &t.kind {
                TokenKind::Atom(a) => {
                    if a.eq(&atom) {
                        Ok(())
                    } else {
                        Err(QlError::ParseError(ParseError("Unexpected token")))
                    }
                }
                _ => Err(QlError::ParseError(ParseError("Unexpected token"))),
            },
        }
    }

    /// Drops the next token if it is exactly the given atom.
    pub fn maybe_eat(&mut self, atom: Atom)
        ensures
            final(self)@ == spec_maybe_eat(old(self)@, atom@),
    {
        match self.peek_tok() {
            Some(tok) => match &tok.kind {
                TokenKind::Atom(a) => {
                    if a.eq(&atom) {
                        self.bump();
                    }
                }
                _ => {}
            },
            None => {}
        }
    }

    /// Drops every leading newline atom.
    pub fn ignore_newlines(&mut self)
        ensures
            final(self)@ == skip_newlines(old(self)@),
    {
        loop
            invariant
                skip_newlines(self@) == skip_newlines(old(self)@),
            ensures
                self@ == skip_newlines(old(self)@),
            decreases self@.len(),
        {
            match self.peek_tok() {
                Some(tok) => match &tok.kind {
                    TokenKind::Atom(Atom::NewLine) => {
                        self.bump();
                    }
                    _ => {
                        return ;
                    }
                },
                None => {
                    return ;
                }
            }
        }
    }

    /// Applies a step and requires it to yield an item: the step's `None`
    /// becomes an unexpected-end-of-input parse error.
    pub fn expect<T, F: Fn(TokenStream<'a>) -> (TokenStream<'a>, QlResult<Option<T>>)>(
        &mut self,
        f: F,
    ) -> (r: QlResult<T>)
        requires
            forall|s: TokenStream<'a>| #[trigger] call_requires(f, (s,)),
        ensures
            exists|out: (TokenStream<'a>, QlResult<Option<T>>)|
                {
                    &&& #[trigger] call_ensures(f, (*old(self),), out)
                    &&& *final(self) == out.0
                    &&& match out.1 {
                        Ok(Some(v)) => r == Ok::<T, QlError>(v),
                        Ok(None) => r matches Err(e) && (e matches QlError::ParseError(p) && p.0@
                            == "Unexpected eof"@),
                        Err(e) => r == Err::<T, QlError>(e),
                    }
                },
    {
        let (s2, res) = f(*self);
        *self = s2;
        match res {
            Ok(Some(v)) => Ok(v),
            Ok(None) => Err(QlError::ParseError(ParseError("Unexpected eof"))),
            Err(e) => Err(e),
        }
    }

    /// Parses a separated list by repeatedly applying a step, exactly as
    /// `spec_parse_list` applied to the step's mathematical counterpart
    /// describes.
    pub fn parse_list<T: View, F: Fn(TokenStream<'a>) -> (TokenStream<'a>, QlResult<Option<T>>)>(
        &mut self,
        f: F,
        Ghost(fs): Ghost<spec_fn(Seq<SpecToken>) -> Step<T::V>>,
    ) -> (r: QlResult<Vec<T>>)
        requires
            forall|s: TokenStream<'a>| #[trigger] call_requires(f, (s,)),
            forall|s: TokenStream<'a>, out: (TokenStream<'a>, QlResult<Option<T>>)|
                #[trigger] call_ensures(f, (s,), out) ==> step_matches(fs, s@, out.0@, out.1),
        ensures
            ({
                let sp = spec_parse_list(fs, old(self)@);
                match r {
                    Ok(v) => sp matches Ok(pair) && views_of(v@) == pair.0 && final(self)@
                        == pair.1,
                    Err(e) => sp is Err && (e matches QlError::ParseError(p) && p.0@
                        == sp->Err_0),
                }
            }),
    {
        self.ignore_newlines();
        let ghost ts1 = self@;
        let mut out: Vec<T> = Vec::new();
        proof {
            assert(views_of(out@) =~= Seq::<T::V>::empty());
        }
        loop
            invariant
                ts1 == skip_newlines(old(self)@),
                forall|s: TokenStream<'a>| #[trigger] call_requires(f, (s,)),
                forall|s: TokenStream<'a>, o: (TokenStream<'a>, QlResult<Option<T>>)|
                    #[trigger] call_ensures(f, (s,), o) ==> step_matches(fs, s@, o.0@, o.1),
                spec_list_rec(fs, ts1) matches Ok(pair) ==> spec_list_rec(fs, self@) matches
                    Ok(cur) && pair.0 == views_of(out@) + cur.0 && pair.1 == cur.1,
                spec_list_rec(fs, ts1) is Err ==> spec_list_rec(fs, self@) == spec_list_rec(
                    fs,
                    ts1,
                ),
            ensures
                spec_list_rec(fs, ts1) matches Ok(pair) && pair.0 == views_of(out@) && pair.1
                    == self@,
            decreases toks_size(self@),
        {
            let ghost pre = self@;
            let (s2, res) = f(*self);
            *self = s2;
            match res {
                Err(e) => {
                    proof {
                        assert(spec_list_rec(fs, pre) is Err);
                    }
                    return Err(e);
                }
                Ok(None) => {
                    proof {
                        assert(spec_list_rec(fs, pre) == Ok::<(Seq<T::V>, Seq<SpecToken>), Seq<
                            char,
                        >>((Seq::<T::V>::empty(), pre)));
                        assert(views_of(out@) + Seq::<T::V>::empty() =~= views_of(out@));
                    }
                    break ;
                }
                Ok(Some(v)) => {
                    let ghost vview = v@;
                    let ghost rest = self@;
                    out.push(v);
                    self.maybe_eat(Atom::Comma);
                    self.ignore_newlines();
                    proof {
                        let rest2 = skip_newlines(spec_maybe_eat(rest, SpecAtom::Comma));
                        assert(self@ == rest2);
                        lemma_spec_maybe_eat_size(rest, SpecAtom::Comma);
                        lemma_skip_newlines_size(spec_maybe_eat(rest, SpecAtom::Comma));
                        assert(toks_size(rest2) < toks_size(pre));
                        let prev_views = views_of(out@.drop_last());
                        assert(views_of(out@) =~= prev_views.push(vview));
                        if spec_list_rec(fs, pre) is Ok {
                            let nx = spec_list_rec(fs, rest2);
                            assert(nx is Ok);
                            assert(prev_views + (seq![vview] + nx->Ok_0.0) =~= views_of(out@)
                                + nx->Ok_0.0);
                        }
                    }
                }
            }
        }
        proof {
            assert(spec_parse_list(fs, old(self)@) == spec_list_rec(fs, ts1));
        }
        Ok(out)
    }

    /// If the next token is a group with the given opener, consumes it
    /// and hands its children to `f`; otherwise yields the empty list and
    /// consumes nothing.
    pub fn maybe_parse_seq<T, F: Fn(TokenStream<'a>) -> (TokenStream<'a>, QlResult<Vec<T>>)>(
        &mut self,
        opener: Bracket,
        f: F,
    ) -> (r: QlResult<Vec<T>>)
        requires
            forall|s: TokenStream<'a>| #[trigger] call_requires(f, (s,)),
        ensures
            !(old(self)@.len() > 0 && (old(self)@[0] matches SpecToken::Tree(b, _) && b == opener))
                ==> (r matches Ok(v) && v@.len() == 0 && final(self)@ == old(self)@),
            (old(self)@.len() > 0 && (old(self)@[0] matches SpecToken::Tree(b, kids) && b
                == opener)) ==> final(self)@ == old(self)@.drop_first() && exists|
                sc: TokenStream<'a>,
                out: (TokenStream<'a>, QlResult<Vec<T>>),
            |
                {
                    &&& sc@ == old(self)@[0]->Tree_1
                    &&& #[trigger] call_ensures(f, (sc,), out)
                    &&& r == out.1
                },
    {
        match self.peek_tok() {
            Some(tok) => match &tok.kind {
                TokenKind::Tree(br, toks) => {
                    if *br == opener {
                        proof {
                            crate::token::lemma_tree_view(*br, *toks);
                            assert(old(self)@[0] matches SpecToken::Tree(b2, kids) && kids
                                =~= toks_view(toks@));
                        }
                        self.bump();
                        let sub = TokenStream::new(vstd::slice::slice_subrange(
                            toks.as_slice(),
                            0,
                            toks.len(),
                        ));
                        proof {
                            assert(sub@ =~= toks_view(toks@));
                        }
                        let (_s2, res) = f(sub);
                        res
                    } else {
                        Ok(Vec::new())
                    }
                }
                _ => Ok(Vec::new()),
            },
            None => Ok(Vec::new()),
        }
    }
}

/// The mathematical step for one bare name: stop at the end of the
/// stream, consume a name atom, and refuse anything else.
pub open spec fn name_step(ts: Seq<SpecToken>) -> Step<Seq<char>> {
    if ts.len() == 0 {
        Step::Stop
    } else {
        match ts[0] {
            SpecToken::Atom(SpecAtom::Name(s)) => Step::Next(s, ts.drop_first()),
            _ => Step::Fail("Unexpected token, expected: name"@),
        }
    }
}

pub open spec fn name_stepf() -> spec_fn(Seq<SpecToken>) -> Step<Seq<char>> {
    |ts: Seq<SpecToken>| name_step(ts)
}

/// Parses one bare name, as `name_step` describes.
pub fn maybe_parse_name(stream: &mut TokenStream) -> (r: QlResult<Option<Name>>)
    ensures
        ({
            let st = name_step(old(stream)@);
            match r {
                Ok(Some(n)) => st matches Step::Next(w, rest) && w == n@ && rest == final(stream)@
                    && toks_size(final(stream)@) < toks_size(old(stream)@),
                Ok(None) => st is Stop && final(stream)@ == old(stream)@,
                Err(e) => st is Fail && (e matches QlError::ParseError(p) && p.0@ == st->Fail_0)
                    && final(stream)@ == old(stream)@,
            }
        }),
{
    match stream.peek_tok() {
        None => Ok(None),
        Some(tok) => match &tok.kind {
            TokenKind::Atom(Atom::Name(s)) => {
                proof {
                    lemma_toks_size_drop_first(stream@);
                }
                stream.bump();
                Ok(Some(Name(s.clone())))
            }
            _ => Err(QlError::ParseError(ParseError("Unexpected token, expected: name"))),
        },
    }
}

} // verus!
