//! The token tree the tokenizer produces: flat atoms and bracketed
//! groups, together with their mathematical model and their textual
//! rendering.

use vstd::prelude::*;
use crate::numtext::{int_text, push_char, i64_text};

verus! {

/// A bracket kind: `{}`, `()` or `[]`.
#[derive(Clone, Copy, Debug, PartialEq, Eq, Structural)]
pub enum Bracket {
    Brace,
    Paren,
    Square,
}

/// A flat token.
#[derive(Debug)]
pub enum Atom {
    NewLine,
    Comma,
    Colon,
    Bang,
    Name(String),
    Number(i64),
    String(String),
}

/// One token: an atom or a bracketed group of nested tokens.
#[derive(Debug)]
pub struct Token {
    pub kind: TokenKind,
}

#[derive(Debug)]
pub enum TokenKind {
    Atom(Atom),
    Tree(Bracket, Vec<Token>),
}

/// The mathematical model of an atom.
pub enum SpecAtom {
    NewLine,
    Comma,
    Colon,
    Bang,
    Name(Seq<char>),
    Number(int),
    String(Seq<char>),
}

/// The mathematical model of a token.
pub enum SpecToken {
    Atom(SpecAtom),
    Tree(Bracket, Seq<SpecToken>),
}

impl View for Atom {
    type V = SpecAtom;

    open spec fn view(&self) -> SpecAtom {
        match self {
            Atom::NewLine => SpecAtom::NewLine,
            Atom::Comma => SpecAtom::Comma,
            Atom::Colon => SpecAtom::Colon,
            Atom::Bang => SpecAtom::Bang,
            Atom::Name(s) => SpecAtom::Name(s@),
            Atom::Number(n) => SpecAtom::Number(*n as int),
            Atom::String(s) => SpecAtom::String(s@),
        }
    }
}

impl View for Token {
    type V = SpecToken;

    open spec fn view(&self) -> SpecToken
        decreases self,
    {
        match &self.kind {
            TokenKind::Atom(a) => SpecToken::Atom(a@),
            TokenKind::Tree(b, ts) => SpecToken::Tree(
                *b,
                Seq::new(
                    ts@.len(),
                    |i: int|
                        if 0 <= i < ts@.len() {
                            ts@[i].view()
                        } else {
                            SpecToken::Atom(SpecAtom::NewLine)
                        },
                ),
            ),
        }
    }
}

/// The model of a token sequence: each token's model, in order.
pub open spec fn toks_view(ts: Seq<Token>) -> Seq<SpecToken> {
    Seq::new(ts.len(), |i: int| ts[i]@)
}

/// A `Tree` token's model holds exactly the models of its children.
pub proof fn lemma_tree_view(b: Bracket, ts: Vec<Token>)
    ensures
        (Token { kind: TokenKind::Tree(b, ts) })@ == SpecToken::Tree(b, toks_view(ts@)),
{
    let t = Token { kind: TokenKind::Tree(b, ts) };
    assert(t@ matches SpecToken::Tree(b2, vs) && b2 == b && vs =~= toks_view(ts@));
}

impl Bracket {
    /// The model of this bracket's opening character.
    pub open spec fn open_char(self) -> char {
        match self {
            Bracket::Brace => '{',
            Bracket::Paren => '(',
            Bracket::Square => '[',
        }
    }

    /// The model of this bracket's closing character.
    pub open spec fn close_char(self) -> char {
        match self {
            Bracket::Brace => '}',
            Bracket::Paren => ')',
            Bracket::Square => ']',
        }
    }

    pub fn open(&self) -> (r: char)
        ensures
            r == self.open_char(),
    {
        match *self {
            Bracket::Brace => '{',
            Bracket::Paren => '(',
            Bracket::Square => '[',
        }
    }

    pub fn close(&self) -> (r: char)
        ensures
            r == self.close_char(),
    {
        match *self {
            Bracket::Brace => '}',
            Bracket::Paren => ')',
            Bracket::Square => ']',
        }
    }
}

/// The size of a token: one for an atom, one plus the sizes of the
/// children for a group. Parsers recurse on this measure.
pub open spec fn tok_size(t: SpecToken) -> nat
    decreases t,
{
    match t {
        SpecToken::Atom(_) => 1,
        SpecToken::Tree(_, ts) => 1 + toks_size(ts),
    }
}

pub open spec fn toks_size(ts: Seq<SpecToken>) -> nat
    decreases ts,
{
    if ts.len() == 0 {
        0
    } else {
        tok_size(ts[0]) + toks_size(ts.drop_first())
    }
}

pub proof fn lemma_tok_size_pos(t: SpecToken)
    ensures
        tok_size(t) >= 1,
{
}

/// Dropping the first token strictly shrinks a non-empty sequence's size.
pub proof fn lemma_toks_size_drop_first(ts: Seq<SpecToken>)
    requires
        ts.len() > 0,
    ensures
        toks_size(ts.drop_first()) < toks_size(ts),
        tok_size(ts[0]) <= toks_size(ts),
{
    lemma_tok_size_pos(ts[0]);
}

/// Each element's size is bounded by the size of the whole sequence.
pub proof fn lemma_toks_size_elem(ts: Seq<SpecToken>, i: int)
    requires
        0 <= i < ts.len(),
    ensures
        tok_size(ts[i]) <= toks_size(ts),
    decreases i,
{
    if i == 0 {
        lemma_toks_size_drop_first(ts);
    } else {
        lemma_toks_size_drop_first(ts);
        lemma_toks_size_elem(ts.drop_first(), i - 1);
        assert(ts.drop_first()[i - 1] == ts[i]);
    }
}

impl PartialEq for Atom {
    fn eq(&self, o: &Atom) -> (r: bool) {
        match (self, o) {
            (Atom::NewLine, Atom::NewLine) => true,
            (Atom::Comma, Atom::Comma) => true,
            (Atom::Colon, Atom::Colon) => true,
            (Atom::Bang, Atom::Bang) => true,
            (Atom::Name(a), Atom::Name(b)) => *a == *b,
            (Atom::Number(a), Atom::Number(b)) => *a == *b,
            (Atom::String(a), Atom::String(b)) => *a == *b,
            _ => false,
        }
    }
}

impl Eq for Atom {}

impl vstd::std_specs::cmp::PartialEqSpecImpl for Atom {
    open spec fn obeys_eq_spec() -> bool {
        true
    }

    open spec fn eq_spec(&self, o: &Atom) -> bool {
        self@ == o@
    }
}

impl Clone for Atom {
    fn clone(&self) -> (r: Atom)
        ensures
            r@ == self@,
    {
        match self {
            Atom::NewLine => Atom::NewLine,
            Atom::Comma => Atom::Comma,
            Atom::Colon => Atom::Colon,
            Atom::Bang => Atom::Bang,
            Atom::Name(s) => Atom::Name(s.clone()),
            Atom::Number(n) => Atom::Number(*n),
            Atom::String(s) => Atom::String(s.clone()),
        }
    }
}

/// The text of one atom: exactly the characters it was lexed from,
/// with a string literal re-quoted.
pub open spec fn atom_text(a: SpecAtom) -> Seq<char> {
    match a {
        SpecAtom::NewLine => seq!['\n'],
        SpecAtom::Comma => seq![','],
        SpecAtom::Colon => seq![':'],
        SpecAtom::Bang => seq!['!'],
        SpecAtom::Name(s) => s,
        SpecAtom::Number(n) => int_text(n),
        SpecAtom::String(s) => seq!['"'] + s + seq!['"'],
    }
}

/// The text of one token; a group renders its children separated by
/// single spaces between its bracket characters.
pub open spec fn token_text(t: SpecToken) -> Seq<char>
    decreases tok_size(t), 0nat,
{
    match t {
        SpecToken::Atom(a) => atom_text(a),
        SpecToken::Tree(b, ts) => seq![b.open_char()] + tokens_text(ts) + seq![b.close_char()],
    }
}

/// The texts of a token sequence, joined with single spaces.
pub open spec fn tokens_text(ts: Seq<SpecToken>) -> Seq<char>
    decreases toks_size(ts), 1nat,
{
    if ts.len() == 0 {
        Seq::empty()
    } else if ts.len() == 1 {
        token_text(ts[0])
    } else {
        token_text(ts[0]) + seq![' '] + tokens_text(ts.drop_first())
    }
}

impl Token {
    /// Renders this token back to text, as `token_text` describes.
    pub fn to_text(&self) -> (r: String)
        ensures
            r@ == token_text(self@),
        decreases tok_size(self@),
    {
        match &self.kind {
            TokenKind::Atom(a) => match a {
                Atom::NewLine => {
                    let mut s = String::new();
                    push_char(&mut s, '\n');
                    proof {
                        assert(s@ =~= atom_text(a@));
                    }
                    s
                }
                Atom::Comma => {
                    let mut s = String::new();
                    push_char(&mut s, ',');
                    proof {
                        assert(s@ =~= atom_text(a@));
                    }
                    s
                }
                Atom::Colon => {
                    let mut s = String::new();
                    push_char(&mut s, ':');
                    proof {
                        assert(s@ =~= atom_text(a@));
                    }
                    s
                }
                Atom::Bang => {
                    let mut s = String::new();
                    push_char(&mut s, '!');
                    proof {
                        assert(s@ =~= atom_text(a@));
                    }
                    s
                }
                Atom::Name(n) => {
                    let s = n.clone();
                    s
                }
                Atom::Number(n) => i64_text(*n),
                Atom::String(t) => {
                    let mut s = String::new();
                    push_char(&mut s, '"');
                    s.append(t.as_str());
                    push_char(&mut s, '"');
                    proof {
                        assert(s@ =~= atom_text(a@));
                    }
                    s
                }
            },
            TokenKind::Tree(b, ts) => {
                let ghost sts = toks_view(ts@);
                proof {
                    assert(self@ matches SpecToken::Tree(sb, vs) && sb == *b && vs =~= sts);
                }
                let mut s = String::new();
                push_char(&mut s, b.open());
                let mut i: usize = 0;
                while i < ts.len()
                    invariant
                        0 <= i <= ts@.len(),
                        sts == toks_view(ts@),
                        self@ == SpecToken::Tree(*b, sts),
                        s@ == seq![b.open_char()] + tokens_text_upto(sts, i as int),
                    decreases ts@.len() - i,
                {
                    proof {
                        assert(sts[i as int] == ts@[i as int]@);
                        lemma_toks_size_elem(sts, i as int);
                        assert(tok_size(ts@[i as int]@) < tok_size(self@));
                    }
                    if i > 0 {
                        push_char(&mut s, ' ');
                    }
                    let piece = ts[i].to_text();
                    s.append(piece.as_str());
                    proof {
                        lemma_tokens_text_upto_step(sts, i as int);
                        assert(s@ =~= seq![b.open_char()] + tokens_text_upto(sts, i as int + 1));
                    }
                    i = i + 1;
                }
                push_char(&mut s, b.close());
                proof {
                    lemma_tokens_text_upto_full(sts);
                    assert(s@ =~= token_text(self@));
                }
                s
            }
        }
    }
}

/// The joined text of the first `n` tokens of a sequence.
pub open spec fn tokens_text_upto(ts: Seq<SpecToken>, n: int) -> Seq<char>
    decreases n,
{
    if n <= 0 {
        Seq::empty()
    } else if n == 1 {
        token_text(ts[0])
    } else {
        tokens_text_upto(ts, n - 1) + seq![' '] + token_text(ts[n - 1])
    }
}

proof fn lemma_tokens_text_upto_step(ts: Seq<SpecToken>, i: int)
    requires
        0 <= i < ts.len(),
    ensures
        i == 0 ==> tokens_text_upto(ts, 1) == token_text(ts[0]),
        i > 0 ==> tokens_text_upto(ts, i + 1) == tokens_text_upto(ts, i) + seq![' '] + token_text(
            ts[i],
        ),
{
}

/// Joining all tokens front-to-back agrees with the recursive join.
proof fn lemma_tokens_text_upto_full(ts: Seq<SpecToken>)
    ensures
        tokens_text_upto(ts, ts.len() as int) == tokens_text(ts),
    decreases ts.len(),
{
    if ts.len() == 0 {
    } else if ts.len() == 1 {
    } else {
        lemma_tokens_text_upto_full(ts.drop_first());
        lemma_tokens_text_upto_shift(ts, ts.len() as int);
    }
}

/// Relates prefixes of a sequence to prefixes of its tail.
proof fn lemma_tokens_text_upto_shift(ts: Seq<SpecToken>, n: int)
    requires
        ts.len() >= 2,
        2 <= n <= ts.len(),
    ensures
        tokens_text_upto(ts, n) == token_text(ts[0]) + seq![' '] + tokens_text_upto(
            ts.drop_first(),
            n - 1,
        ),
    decreases n,
{
    if n == 2 {
        assert(ts.drop_first()[0] == ts[1]);
        assert(tokens_text_upto(ts, 1) == token_text(ts[0]));
        assert(tokens_text_upto(ts, 2) == token_text(ts[0]) + seq![' '] + token_text(ts[1]));
        assert(tokens_text_upto(ts.drop_first(), 1) == token_text(ts[1]));
    } else {
        lemma_tokens_text_upto_shift(ts, n - 1);
        assert(ts.drop_first()[n - 2] == ts[n - 1]);
        assert((token_text(ts[0]) + seq![' '] + tokens_text_upto(ts.drop_first(), n - 2)) + seq![
            ' ',
        ] + token_text(ts[n - 1]) =~= token_text(ts[0]) + seq![' '] + (tokens_text_upto(
            ts.drop_first(),
            n - 2,
        ) + seq![' '] + token_text(ts[n - 1])));
    }
}

} // verus!
