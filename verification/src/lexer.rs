//! The tokenizer: one left-to-right scan that turns text into a token
//! tree, maintaining a stack of open brackets. `lex_from` is the
//! mathematical definition of the scan; `tokenise` is proved to return
//! exactly what it describes.

use vstd::prelude::*;
use crate::token::{Atom, Bracket, SpecAtom, SpecToken, Token, TokenKind, toks_view};
use crate::numtext::{digits_val, is_digit_char, push_char};
use vstd::std_specs::iter::IteratorSpec;

verus! {

/// A tokenizing failure.
///
/// `Unexpected(c)` reports a character no token can start with, a closer
/// with no open bracket, a `-` not followed by a digit, or an integer
/// literal that does not fit the machine integer (where the digit run's
/// first character is reported). `Unmatched(expected, found)` reports a
/// closer whose kind does not match the innermost open bracket.
#[derive(Clone, Copy, Debug, PartialEq, Eq, Structural)]
pub enum LexError {
    Unexpected(char),
    Unmatched(char, char),
}

/// Whether the character has the Unicode `Alphabetic` property.
pub uninterp spec fn is_alpha_char(c: char) -> bool;

/// Whether the character is Unicode-numeric.
pub uninterp spec fn is_numeric_char(c: char) -> bool;

/// Whether the character is Unicode whitespace.
pub uninterp spec fn is_space_char(c: char) -> bool;

/// Relies on char::is_alphabetic: whether the character has the Unicode
/// `Alphabetic` property, a function of the character alone.
#[verifier::external_body]
pub(crate) fn char_is_alphabetic(c: char) -> (r: bool)
    ensures
        r == is_alpha_char(c),
{
    c.is_alphabetic()
}

/// Relies on char::is_numeric: whether the character has a Unicode
/// numeric property, a function of the character alone.
#[verifier::external_body]
pub(crate) fn char_is_numeric(c: char) -> (r: bool)
    ensures
        r == is_numeric_char(c),
{
    c.is_numeric()
}

/// Relies on char::is_whitespace: whether the character has the Unicode
/// `White_Space` property, a function of the character alone.
#[verifier::external_body]
pub(crate) fn char_is_whitespace(c: char) -> (r: bool)
    ensures
        r == is_space_char(c),
{
    c.is_whitespace()
}

/// A character that may continue a bare name.
pub open spec fn is_name_char(c: char) -> bool {
    is_alpha_char(c) || is_numeric_char(c)
}

/// The first position at or after `i` holding a newline, or the end.
pub open spec fn scan_comment(s: Seq<char>, i: int) -> int
    decreases s.len() - i,
{
    if 0 <= i < s.len() && s[i] != '\n' {
        scan_comment(s, i + 1)
    } else {
        i
    }
}

pub proof fn lemma_scan_comment(s: Seq<char>, i: int)
    requires
        0 <= i <= s.len(),
    ensures
        i <= scan_comment(s, i) <= s.len(),
        forall|k: int| i <= k < scan_comment(s, i) ==> #[trigger] s[k] != '\n',
        scan_comment(s, i) < s.len() ==> s[scan_comment(s, i)] == '\n',
    decreases s.len() - i,
{
    if i < s.len() && s[i] != '\n' {
        lemma_scan_comment(s, i + 1);
    }
}

/// The first position at or after `i` holding a non-digit, or the end.
pub open spec fn scan_digits(s: Seq<char>, i: int) -> int
    decreases s.len() - i,
{
    if 0 <= i < s.len() && is_digit_char(s[i]) {
        scan_digits(s, i + 1)
    } else {
        i
    }
}

pub proof fn lemma_scan_digits(s: Seq<char>, i: int)
    requires
        0 <= i <= s.len(),
    ensures
        i <= scan_digits(s, i) <= s.len(),
        forall|k: int| i <= k < scan_digits(s, i) ==> is_digit_char(#[trigger] s[k]),
        scan_digits(s, i) < s.len() ==> !is_digit_char(s[scan_digits(s, i)]),
    decreases s.len() - i,
{
    if i < s.len() && is_digit_char(s[i]) {
        lemma_scan_digits(s, i + 1);
    }
}

/// The first position at or after `i` where a bare name ends, or the end.
pub open spec fn scan_name(s: Seq<char>, i: int) -> int
    decreases s.len() - i,
{
    if 0 <= i < s.len() && is_name_char(s[i]) {
        scan_name(s, i + 1)
    } else {
        i
    }
}

pub proof fn lemma_scan_name(s: Seq<char>, i: int)
    requires
        0 <= i <= s.len(),
    ensures
        i <= scan_name(s, i) <= s.len(),
        forall|k: int| i <= k < scan_name(s, i) ==> is_name_char(#[trigger] s[k]),
        scan_name(s, i) < s.len() ==> !is_name_char(s[scan_name(s, i)]),
    decreases s.len() - i,
{
    if i < s.len() && is_name_char(s[i]) {
        lemma_scan_name(s, i + 1);
    }
}

/// The scanner's state: the stack of open brackets with the tokens
/// collected before each was opened, the tokens of the innermost open
/// group, and the content start of an open string literal if one is open.
#[verifier::ext_equal]
pub struct LexState {
    pub stack: Seq<(Bracket, Seq<SpecToken>)>,
    pub cur: Seq<SpecToken>,
    pub in_str: Option<int>,
}

pub open spec fn lex_init() -> LexState {
    LexState { stack: Seq::empty(), cur: Seq::empty(), in_str: None }
}

pub open spec fn st_push(st: LexState, t: SpecToken) -> LexState {
    LexState { cur: st.cur.push(t), ..st }
}

/// Scanning from position `i` in state `st` to the end of the input.
///
/// At the end of input the tokens of the innermost open group are the
/// result; an unclosed bracket or an unterminated string is not reported.
/// A comment runs from `#` to before the next newline. A string literal
/// runs between two `"` with no escape processing. `-` followed by digits
/// or a digit run forms an integer atom; an alphabetic-initial run of
/// alphabetic or numeric characters forms a name atom.
pub open spec fn lex_from(s: Seq<char>, i: int, st: LexState) -> Result<Seq<SpecToken>, LexError>
    decreases s.len() - i,
    when 0 <= i <= s.len()
    via lex_from_decreases
{
    if i >= s.len() {
        Ok(st.cur)
    } else {
        let c = s[i];
        if st.in_str is Some && c != '"' {
            lex_from(s, i + 1, st)
        } else if st.in_str is Some {
            let start = st.in_str->0;
            let tok = SpecToken::Atom(SpecAtom::String(s.subrange(start, i)));
            lex_from(s, i + 1, LexState { in_str: None, ..st_push(st, tok) })
        } else if c == '#' {
            lex_from(s, scan_comment(s, i + 1), st)
        } else if c == '{' {
            lex_from(s, i + 1, LexState { stack: st.stack.push((Bracket::Brace, st.cur)), cur: Seq::empty(), ..st })
        } else if c == '[' {
            lex_from(s, i + 1, LexState { stack: st.stack.push((Bracket::Square, st.cur)), cur: Seq::empty(), ..st })
        } else if c == '(' {
            lex_from(s, i + 1, LexState { stack: st.stack.push((Bracket::Paren, st.cur)), cur: Seq::empty(), ..st })
        } else if c == '}' || c == ']' || c == ')' {
            if st.stack.len() == 0 {
                Err(LexError::Unexpected(c))
            } else {
                let (b, prev) = st.stack.last();
                if b.close_char() != c {
                    Err(LexError::Unmatched(b.close_char(), c))
                } else {
                    let tok = SpecToken::Tree(b, st.cur);
                    lex_from(s, i + 1, LexState { stack: st.stack.drop_last(), cur: prev.push(tok), ..st })
                }
            }
        } else if c == '"' {
            lex_from(s, i + 1, LexState { in_str: Some(i + 1), ..st })
        } else if c == '\n' {
            lex_from(s, i + 1, st_push(st, SpecToken::Atom(SpecAtom::NewLine)))
        } else if c == '!' {
            lex_from(s, i + 1, st_push(st, SpecToken::Atom(SpecAtom::Bang)))
        } else if c == ':' {
            lex_from(s, i + 1, st_push(st, SpecToken::Atom(SpecAtom::Colon)))
        } else if c == ',' {
            lex_from(s, i + 1, st_push(st, SpecToken::Atom(SpecAtom::Comma)))
        } else if c == '-' {
            let j = scan_digits(s, i + 1);
            if j == i + 1 {
                Err(LexError::Unexpected('-'))
            } else {
                let v = digits_val(s.subrange(i + 1, j));
                if v > 0x8000_0000_0000_0000 {
                    Err(LexError::Unexpected('-'))
                } else {
                    lex_from(s, j, st_push(st, SpecToken::Atom(SpecAtom::Number(-v))))
                }
            }
        } else if is_digit_char(c) {
            let j = scan_digits(s, i + 1);
            let v = digits_val(s.subrange(i, j));
            if v > 0x7fff_ffff_ffff_ffff {
                Err(LexError::Unexpected(c))
            } else {
                lex_from(s, j, st_push(st, SpecToken::Atom(SpecAtom::Number(v))))
            }
        } else if is_alpha_char(c) {
            let j = scan_name(s, i + 1);
            lex_from(s, j, st_push(st, SpecToken::Atom(SpecAtom::Name(s.subrange(i, j)))))
        } else if is_space_char(c) {
            lex_from(s, i + 1, st)
        } else {
            Err(LexError::Unexpected(c))
        }
    }
}

#[via_fn]
proof fn lex_from_decreases(s: Seq<char>, i: int, st: LexState) {
    if 0 <= i < s.len() {
        lemma_scan_comment(s, i + 1);
        lemma_scan_digits(s, i + 1);
        lemma_scan_name(s, i + 1);
    }
}

/// What tokenizing a whole input yields.
pub open spec fn lex_of(s: Seq<char>) -> Result<Seq<SpecToken>, LexError> {
    lex_from(s, 0, lex_init())
}


/// An executable test for `is_digit_char`.
fn is_digit_exec(c: char) -> (r: bool)
    ensures
        r == is_digit_char(c),
{
    (c as u32) >= 48 && (c as u32) <= 57
}

/// An executable test for `is_name_char`.
fn is_name_exec(c: char) -> (r: bool)
    ensures
        r == is_name_char(c),
{
    char_is_alphabetic(c) || char_is_numeric(c)
}

/// The model of the scanner's machine state.
pub open spec fn stack_view(st: Seq<(Bracket, Vec<Token>)>) -> Seq<(Bracket, Seq<SpecToken>)> {
    Seq::new(st.len(), |k: int| (st[k].0, toks_view(st[k].1@)))
}

pub open spec fn st_of(
    stack: Seq<(Bracket, Vec<Token>)>,
    result: Seq<Token>,
    in_string: Option<usize>,
) -> LexState {
    LexState {
        stack: stack_view(stack),
        cur: toks_view(result),
        in_str: match in_string {
            Some(u) => Some(u as int),
            None => None,
        },
    }
}

/// The characters of a string, in order.
pub fn chars_of(s: &str) -> (r: Vec<char>)
    ensures
        r@ == s@,
{
    let mut it = s.chars();
    let mut v: Vec<char> = Vec::new();
    loop
        invariant
            it.obeys_prophetic_iter_laws(),
            v@ + it.remaining() == s@,
        ensures
            v@ + it.remaining() == s@,
            it.remaining().len() == 0,
        decreases s@.len() - v@.len(),
    {
        match it.next() {
            Some(c) => {
                v.push(c);
                proof {
                    assert(v@ + it.remaining() =~= s@);
                }
            }
            None => {
                break;
            }
        }
    }
    proof {
        assert(v@ =~= s@);
    }
    v
}

/// A fresh string holding the characters `cs[a..b]`.
fn string_from_range(cs: &Vec<char>, a: usize, b: usize) -> (r: String)
    requires
        a <= b <= cs@.len(),
    ensures
        r@ == cs@.subrange(a as int, b as int),
{
    let mut r = String::new();
    let mut k = a;
    while k < b
        invariant
            a <= k <= b <= cs@.len(),
            r@ == cs@.subrange(a as int, k as int),
        decreases b - k,
    {
        push_char(&mut r, cs[k]);
        proof {
            assert(cs@.subrange(a as int, k as int).push(cs@[k as int]) =~= cs@.subrange(
                a as int,
                k as int + 1,
            ));
        }
        k = k + 1;
    }
    r
}

/// Reads the digit run `cs[start..j]` as an unsigned value, clamped: the
/// result is the run's value when that value is at most `2^63`, and
/// otherwise some value above `2^63`.
fn digits_magnitude(cs: &Vec<char>, start: usize, j: usize) -> (m: u128)
    requires
        start <= j <= cs@.len(),
        forall|k: int| start <= k < j ==> is_digit_char(#[trigger] cs@[k]),
    ensures
        digits_val(cs@.subrange(start as int, j as int)) <= 0x8000_0000_0000_0000 ==> m
            == digits_val(cs@.subrange(start as int, j as int)),
        digits_val(cs@.subrange(start as int, j as int)) > 0x8000_0000_0000_0000 ==> m
            > 0x8000_0000_0000_0000,
{
    let mut m: u128 = 0;
    let mut k = start;
    proof {
        assert(cs@.subrange(start as int, start as int) =~= Seq::<char>::empty());
    }
    while k < j
        invariant
            start <= k <= j <= cs@.len(),
            forall|t: int| start <= t < j ==> is_digit_char(#[trigger] cs@[t]),
            digits_val(cs@.subrange(start as int, k as int)) <= 0x8000_0000_0000_0000 ==> m
                == digits_val(cs@.subrange(start as int, k as int)),
            digits_val(cs@.subrange(start as int, k as int)) > 0x8000_0000_0000_0000 ==> m
                > 0x8000_0000_0000_0000,
            m <= 0x8000_0000_0000_000A * 10,
        decreases j - k,
    {
        let ghost pre = cs@.subrange(start as int, k as int);
        let c = cs[k];
        let d: u128 = ((c as u32) - 48) as u128;
        proof {
            assert(is_digit_char(cs@[k as int]));
            assert(pre.push(cs@[k as int]) =~= cs@.subrange(start as int, k as int + 1));
            crate::numtext::lemma_digits_val_push(pre, cs@[k as int]);
            assert(forall|t: int| 0 <= t < pre.len() ==> is_digit_char(#[trigger] pre[t]));
            crate::numtext::lemma_digits_val_nonneg(pre);
        }
        if m <= 0x8000_0000_0000_0000 {
            m = m * 10 + d;
        }
        k = k + 1;
    }
    m
}

/// Turns the characters into tokens, as `lex_from` describes from the
/// initial state.
pub fn lex_chars(cs: &Vec<char>) -> (r: Result<Vec<Token>, LexError>)
    ensures
        r matches Ok(v) ==> lex_of(cs@) == Ok::<Seq<SpecToken>, LexError>(toks_view(v@)),
        r matches Err(e) ==> lex_of(cs@) == Err::<Seq<SpecToken>, LexError>(e),
{
    let n = cs.len();
    let mut i: usize = 0;
    let mut result: Vec<Token> = Vec::new();
    let mut stack: Vec<(Bracket, Vec<Token>)> = Vec::new();
    let mut in_string: Option<usize> = None;
    proof {
        assert(stack_view(stack@) =~= Seq::<(Bracket, Seq<SpecToken>)>::empty());
        assert(toks_view(result@) =~= Seq::<SpecToken>::empty());
        assert(st_of(stack@, result@, in_string) =~= lex_init());
    }
    while i < n
        invariant
            n == cs@.len(),
            0 <= i <= n,
            in_string matches Some(u) ==> u <= i,
            lex_from(cs@, i as int, st_of(stack@, result@, in_string)) == lex_of(cs@),
        decreases n - i,
    {
        let ghost st0 = st_of(stack@, result@, in_string);
        let ghost i0 = i as int;
        let c = cs[i];
        match in_string {
            Some(start) => {
                if c != '"' {
                    i = i + 1;
                } else {
                    let text = string_from_range(cs, start, i);
                    result.push(Token { kind: TokenKind::Atom(Atom::String(text)) });
                    in_string = None;
                    i = i + 1;
                    proof {
                        assert(toks_view(result@) =~= st0.cur.push(
                            SpecToken::Atom(SpecAtom::String(cs@.subrange(start as int, i0))),
                        ));
                    }
                }
            }
            None => {
                if c == '#' {
                    let mut j = i + 1;
                    while j < n && cs[j] != '\n'
                        invariant
                            i0 + 1 <= j <= n,
                            n == cs@.len(),
                            scan_comment(cs@, i0 + 1) == scan_comment(cs@, j as int),
                        decreases n - j,
                    {
                        j = j + 1;
                    }
                    i = j;
                } else if c == '{' {
                    let done = result;
                    result = Vec::new();
                    stack.push((Bracket::Brace, done));
                    i = i + 1;
                    proof {
                        assert(stack_view(stack@) =~= st0.stack.push((Bracket::Brace, st0.cur)));
                        assert(toks_view(result@) =~= Seq::<SpecToken>::empty());
                    }
                } else if c == '[' {
                    let done = result;
                    result = Vec::new();
                    stack.push((Bracket::Square, done));
                    i = i + 1;
                    proof {
                        assert(stack_view(stack@) =~= st0.stack.push((Bracket::Square, st0.cur)));
                        assert(toks_view(result@) =~= Seq::<SpecToken>::empty());
                    }
                } else if c == '(' {
                    let done = result;
                    result = Vec::new();
                    stack.push((Bracket::Paren, done));
                    i = i + 1;
                    proof {
                        assert(stack_view(stack@) =~= st0.stack.push((Bracket::Paren, st0.cur)));
                        assert(toks_view(result@) =~= Seq::<SpecToken>::empty());
                    }
                } else if c == '}' || c == ']' || c == ')' {
                    match stack.pop() {
                        None => {
                            proof {
                                assert(st0.stack.len() == 0);
                                assert(lex_from(cs@, i0, st0) == Err::<Seq<SpecToken>, LexError>(
                                    LexError::Unexpected(c),
                                ));
                            }
                            return Err(LexError::Unexpected(c));
                        }
                        Some((b, prev)) => {
                            proof {
                                assert(st0.stack.last() == (b, toks_view(prev@)));
                            }
                            if b.close() != c {
                                proof {
                                    assert(st0.stack.len() > 0);
                                    assert(st0.stack.last() == (b, toks_view(prev@)));
                                    assert(lex_from(cs@, i0, st0) == Err::<
                                        Seq<SpecToken>,
                                        LexError,
                                    >(LexError::Unmatched(b.close_char(), c)));
                                }
                                return Err(LexError::Unmatched(b.close(), c));
                            }
                            let done = result;
                            result = prev;
                            result.push(Token { kind: TokenKind::Tree(b, done) });
                            i = i + 1;
                            proof {
                                crate::token::lemma_tree_view(b, done);
                                assert(stack_view(stack@) =~= st0.stack.drop_last());
                                assert(toks_view(result@) =~= st0.stack.last().1.push(
                                    SpecToken::Tree(b, st0.cur),
                                ));
                            }
                        }
                    }
                } else if c == '"' {
                    in_string = Some(i + 1);
                    i = i + 1;
                } else if c == '\n' {
                    result.push(Token { kind: TokenKind::Atom(Atom::NewLine) });
                    i = i + 1;
                    proof {
                        assert(toks_view(result@) =~= st0.cur.push(
                            SpecToken::Atom(SpecAtom::NewLine),
                        ));
                    }
                } else if c == '!' {
                    result.push(Token { kind: TokenKind::Atom(Atom::Bang) });
                    i = i + 1;
                    proof {
                        assert(toks_view(result@) =~= st0.cur.push(SpecToken::Atom(SpecAtom::Bang)));
                    }
                } else if c == ':' {
                    result.push(Token { kind: TokenKind::Atom(Atom::Colon) });
                    i = i + 1;
                    proof {
                        assert(toks_view(result@) =~= st0.cur.push(
                            SpecToken::Atom(SpecAtom::Colon),
                        ));
                    }
                } else if c == ',' {
                    result.push(Token { kind: TokenKind::Atom(Atom::Comma) });
                    i = i + 1;
                    proof {
                        assert(toks_view(result@) =~= st0.cur.push(
                            SpecToken::Atom(SpecAtom::Comma),
                        ));
                    }
                } else if c == '-' {
                    let mut j = i + 1;
                    while j < n && is_digit_exec(cs[j])
                        invariant
                            i0 + 1 <= j <= n,
                            n == cs@.len(),
                            scan_digits(cs@, i0 + 1) == scan_digits(cs@, j as int),
                        decreases n - j,
                    {
                        j = j + 1;
                    }
                    proof {
                        lemma_scan_digits(cs@, i0 + 1);
                        assert(scan_digits(cs@, i0 + 1) == j as int);
                    }
                    if j == i + 1 {
                        proof {
                            assert(lex_from(cs@, i0, st0) == Err::<Seq<SpecToken>, LexError>(
                                LexError::Unexpected('-'),
                            ));
                        }
                        return Err(LexError::Unexpected('-'));
                    }
                    let m = digits_magnitude(cs, i + 1, j);
                    if m > 0x8000_0000_0000_0000 {
                        proof {
                            assert(digits_val(cs@.subrange(i0 + 1, j as int))
                                > 0x8000_0000_0000_0000);
                            assert(lex_from(cs@, i0, st0) == Err::<Seq<SpecToken>, LexError>(
                                LexError::Unexpected('-'),
                            ));
                        }
                        return Err(LexError::Unexpected('-'));
                    }
                    let value: i64 = if m == 0x8000_0000_0000_0000 {
                        i64::MIN
                    } else {
                        -(m as i64)
                    };
                    result.push(Token { kind: TokenKind::Atom(Atom::Number(value)) });
                    i = j;
                    proof {
                        assert(toks_view(result@) =~= st0.cur.push(
                            SpecToken::Atom(
                                SpecAtom::Number(-digits_val(cs@.subrange(i0 + 1, j as int))),
                            ),
                        ));
                    }
                } else if is_digit_exec(c) {
                    let mut j = i + 1;
                    while j < n && is_digit_exec(cs[j])
                        invariant
                            i0 + 1 <= j <= n,
                            n == cs@.len(),
                            scan_digits(cs@, i0 + 1) == scan_digits(cs@, j as int),
                        decreases n - j,
                    {
                        j = j + 1;
                    }
                    proof {
                        lemma_scan_digits(cs@, i0 + 1);
                        assert(scan_digits(cs@, i0 + 1) == j as int);
                        assert(scan_digits(cs@, i0) == scan_digits(cs@, i0 + 1));
                    }
                    let m = digits_magnitude(cs, i, j);
                    if m > 0x7fff_ffff_ffff_ffff {
                        proof {
                            assert(digits_val(cs@.subrange(i0, j as int)) > 0x7fff_ffff_ffff_ffff);
                            assert(lex_from(cs@, i0, st0) == Err::<Seq<SpecToken>, LexError>(
                                LexError::Unexpected(c),
                            ));
                        }
                        return Err(LexError::Unexpected(c));
                    }
                    result.push(Token { kind: TokenKind::Atom(Atom::Number(m as i64)) });
                    i = j;
                    proof {
                        assert(toks_view(result@) =~= st0.cur.push(
                            SpecToken::Atom(SpecAtom::Number(digits_val(cs@.subrange(i0, j as int)))),
                        ));
                    }
                } else if char_is_alphabetic(c) {
                    let mut j = i + 1;
                    while j < n && is_name_exec(cs[j])
                        invariant
                            i0 + 1 <= j <= n,
                            n == cs@.len(),
                            scan_name(cs@, i0 + 1) == scan_name(cs@, j as int),
                        decreases n - j,
                    {
                        j = j + 1;
                    }
                    proof {
                        lemma_scan_name(cs@, i0 + 1);
                        assert(scan_name(cs@, i0 + 1) == j as int);
                    }
                    let text = string_from_range(cs, i, j);
                    result.push(Token { kind: TokenKind::Atom(Atom::Name(text)) });
                    i = j;
                    proof {
                        assert(toks_view(result@) =~= st0.cur.push(
                            SpecToken::Atom(SpecAtom::Name(cs@.subrange(i0, j as int))),
                        ));
                    }
                } else if char_is_whitespace(c) {
                    i = i + 1;
                } else {
                    proof {
                        assert(lex_from(cs@, i0, st0) == Err::<Seq<SpecToken>, LexError>(
                            LexError::Unexpected(c),
                        ));
                    }
                    return Err(LexError::Unexpected(c));
                }
            }
        }
    }
    proof {
        assert(lex_from(cs@, i as int, st_of(stack@, result@, in_string)) == Ok::<
            Seq<SpecToken>,
            LexError,
        >(toks_view(result@)));
    }
    Ok(result)
}


/// The input without leading whitespace.
pub open spec fn ltrim(s: Seq<char>) -> Seq<char>
    decreases s.len(),
{
    if s.len() > 0 && is_space_char(s[0]) {
        ltrim(s.drop_first())
    } else {
        s
    }
}

/// The input without trailing whitespace.
pub open spec fn rtrim(s: Seq<char>) -> Seq<char>
    decreases s.len(),
{
    if s.len() > 0 && is_space_char(s.last()) {
        rtrim(s.drop_last())
    } else {
        s
    }
}

/// The input without leading and trailing whitespace.
pub open spec fn trim_of(s: Seq<char>) -> Seq<char> {
    ltrim(rtrim(s))
}

/// The characters with leading and trailing whitespace removed.
pub fn trim_chars(cs: &Vec<char>) -> (r: Vec<char>)
    ensures
        r@ == trim_of(cs@),
{
    let n = cs.len();
    let mut hi = n;
    proof {
        assert(cs@.take(n as int) =~= cs@);
    }
    while hi > 0 && char_is_whitespace(cs[hi - 1])
        invariant
            0 <= hi <= n,
            n == cs@.len(),
            rtrim(cs@.take(hi as int)) == rtrim(cs@),
        decreases hi,
    {
        proof {
            assert(cs@.take(hi as int).drop_last() =~= cs@.take(hi as int - 1));
            assert(cs@.take(hi as int).last() == cs@[hi as int - 1]);
        }
        hi = hi - 1;
    }
    proof {
        assert(rtrim(cs@.take(hi as int)) == cs@.take(hi as int));
    }
    let mut lo: usize = 0;
    while lo < hi && char_is_whitespace(cs[lo])
        invariant
            0 <= lo <= hi <= n,
            n == cs@.len(),
            rtrim(cs@) == cs@.take(hi as int),
            ltrim(cs@.subrange(lo as int, hi as int)) == ltrim(cs@.take(hi as int)),
        decreases hi - lo,
    {
        proof {
            assert(cs@.subrange(lo as int, hi as int).drop_first() =~= cs@.subrange(
                lo as int + 1,
                hi as int,
            ));
            assert(cs@.subrange(lo as int, hi as int)[0] == cs@[lo as int]);
        }
        lo = lo + 1;
    }
    proof {
        assert(ltrim(cs@.subrange(lo as int, hi as int)) == cs@.subrange(lo as int, hi as int));
    }
    let mut r: Vec<char> = Vec::new();
    let mut k = lo;
    while k < hi
        invariant
            lo <= k <= hi <= n,
            n == cs@.len(),
            r@ == cs@.subrange(lo as int, k as int),
        decreases hi - k,
    {
        r.push(cs[k]);
        proof {
            assert(cs@.subrange(lo as int, k as int).push(cs@[k as int]) =~= cs@.subrange(
                lo as int,
                k as int + 1,
            ));
        }
        k = k + 1;
    }
    proof {
        assert(r@ =~= cs@.subrange(lo as int, hi as int));
    }
    r
}

/// Tokenizes the input with surrounding whitespace removed, as the
/// parsers consume it.
pub fn tokenise_trimmed(input: &str) -> (r: Result<Vec<Token>, LexError>)
    ensures
        r matches Ok(v) ==> lex_of(trim_of(input@)) == Ok::<Seq<SpecToken>, LexError>(
            toks_view(v@),
        ),
        r matches Err(e) ==> lex_of(trim_of(input@)) == Err::<Seq<SpecToken>, LexError>(e),
{
    let cs = chars_of(input);
    let cs = trim_chars(&cs);
    lex_chars(&cs)
}

/// Turns text into a sequence of tokens, exactly as `lex_of` describes.
pub fn tokenise(input: &str) -> (r: Result<Vec<Token>, LexError>)
    ensures
        r matches Ok(v) ==> lex_of(input@) == Ok::<Seq<SpecToken>, LexError>(toks_view(v@)),
        r matches Err(e) ==> lex_of(input@) == Err::<Seq<SpecToken>, LexError>(e),
{
    let cs = chars_of(input);
    lex_chars(&cs)
}

} // verus!
