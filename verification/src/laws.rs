//! Laws the engine obeys, stated over the same specifications the
//! functions' contracts use and proved once and for all.

use vstd::prelude::*;
use crate::lexer::{LexState, LexError, lex_from, lex_init, lex_of, is_alpha_char, is_name_char,
    scan_name, scan_digits, lemma_scan_name, lemma_scan_digits};
use crate::numtext::{digits_val, is_digit_char, lemma_digits_val_push};
use crate::token::SpecAtom;
use crate::parse_idl::{entry_views, pairs_map};
use crate::schema::{Item, Schema, SpecItem, SpecType, SpecField, items_map};
use crate::query::{SpecQField, SpecValue};
use crate::token::{Bracket, SpecToken, token_text, tokens_text};
use crate::validation::{Error, field_diags, find_type, has_arg, spec_missing_args,
    spec_validate_args, spec_validate_args_loop, spec_validate_fields, spec_validate_fields_loop,
    spec_validate_value};

verus! {

/// A parsed schema recovers the declared items exactly: as many entries
/// as the document declares, each with the declared name and structure,
/// and the mapping it denotes is the declared items folded in order.
pub proof fn lemma_schema_recovers_declarations(sch: Schema, ps: Seq<(Seq<char>, SpecItem)>)
    requires
        entry_views(sch.items@) == ps,
    ensures
        sch.items@.len() == ps.len(),
        forall|i: int|
            0 <= i < ps.len() ==> ((#[trigger] sch.items@[i]).0@ == ps[i].0 && sch.items@[i].1@
                == ps[i].1),
        sch@ == pairs_map(ps),
{
    lemma_items_map_is_pairs_map(sch.items@, ps);
}

proof fn lemma_items_map_is_pairs_map(
    items: Seq<(crate::types::Name, Item)>,
    ps: Seq<(Seq<char>, SpecItem)>,
)
    requires
        entry_views(items) == ps,
    ensures
        items_map(items) == pairs_map(ps),
    decreases items.len(),
{
    if items.len() == 0 {
        assert(items_map(items) =~= pairs_map(ps));
    } else {
        assert(entry_views(items.drop_last()) =~= ps.drop_last());
        lemma_items_map_is_pairs_map(items.drop_last(), ps.drop_last());
        assert(ps.last() == entry_views(items)[items.len() - 1]);
    }
}

/// A closer whose kind does not match the innermost open bracket always
/// fails the scan with `Unmatched`, naming the expected closer and the
/// one found.
pub proof fn lemma_mismatched_closer_fails(s: Seq<char>, i: int, st: LexState)
    requires
        0 <= i < s.len(),
        st.in_str is None,
        s[i] == '}' || s[i] == ']' || s[i] == ')',
        st.stack.len() > 0,
        st.stack.last().0.close_char() != s[i],
    ensures
        lex_from(s, i, st) == Err::<Seq<SpecToken>, LexError>(
            LexError::Unmatched(st.stack.last().0.close_char(), s[i]),
        ),
{
}

/// A closer with no open bracket at all fails the scan, reporting the
/// closer as unexpected.
pub proof fn lemma_unopened_closer_fails(s: Seq<char>, i: int, st: LexState)
    requires
        0 <= i < s.len(),
        st.in_str is None,
        s[i] == '}' || s[i] == ']' || s[i] == ')',
        st.stack.len() == 0,
    ensures
        lex_from(s, i, st) == Err::<Seq<SpecToken>, LexError>(LexError::Unexpected(s[i])),
{
}

/// A closer whose kind matches the innermost open bracket closes exactly
/// that bracket: the scan continues with one new group of that kind
/// holding exactly the tokens collected since it was opened, appended to
/// the tokens collected before it, and the bracket popped. Together with
/// the two failure laws above, every opened bracket is matched by
/// exactly one same-kind closer, in input order.
pub proof fn lemma_matching_closer_builds_tree(s: Seq<char>, i: int, st: LexState)
    requires
        0 <= i < s.len(),
        st.in_str is None,
        s[i] == '}' || s[i] == ']' || s[i] == ')',
        st.stack.len() > 0,
        st.stack.last().0.close_char() == s[i],
    ensures
        lex_from(s, i, st) == lex_from(
            s,
            i + 1,
            LexState {
                stack: st.stack.drop_last(),
                cur: st.stack.last().1.push(SpecToken::Tree(st.stack.last().0, st.cur)),
                in_str: None,
            },
        ),
{
    assert(LexState {
        stack: st.stack.drop_last(),
        cur: st.stack.last().1.push(SpecToken::Tree(st.stack.last().0, st.cur)),
        in_str: None,
    } =~= LexState {
        stack: st.stack.drop_last(),
        cur: st.stack.last().1.push(SpecToken::Tree(st.stack.last().0, st.cur)),
        ..st
    });
}

/// Every bracketed group the tokenizer builds is delimited by exactly
/// one opener and one closer of the same kind: its text starts with its
/// bracket's opening character and ends with that bracket's closing
/// character.
pub proof fn lemma_tree_text_delimited(b: Bracket, kids: Seq<SpecToken>)
    ensures
        token_text(SpecToken::Tree(b, kids)).len() >= 2,
        token_text(SpecToken::Tree(b, kids))[0] == b.open_char(),
        token_text(SpecToken::Tree(b, kids)).last() == b.close_char(),
{
    let t = token_text(SpecToken::Tree(b, kids));
    assert(t == seq![b.open_char()] + tokens_text(kids) + seq![b.close_char()]);
}

/// A character that opens some other kind of token, before which a bare
/// name or a number ends.
pub open spec fn is_reserved_char(c: char) -> bool {
    c == '#' || c == '{' || c == '[' || c == '(' || c == '}' || c == ']' || c == ')' || c == '"'
        || c == '\n' || c == '!' || c == ':' || c == ',' || c == '-'
}

/// The text of a bare name exactly as the tokenizer itself produces one:
/// an alphabetic-initial run of name characters.
pub open spec fn is_clean_name_text(s: Seq<char>) -> bool {
    &&& s.len() > 0
    &&& is_alpha_char(s[0])
    &&& !is_reserved_char(s[0])
    &&& !is_digit_char(s[0])
    &&& forall|k: int| 1 <= k < s.len() ==> is_name_char(#[trigger] s[k])
}

/// Tokenizing is idempotent on a clean bare name: the text of a name
/// atom tokenizes back to exactly that one atom.
pub proof fn lemma_clean_name_retokenises(s: Seq<char>)
    requires
        is_clean_name_text(s),
    ensures
        lex_of(s) == Ok::<Seq<SpecToken>, LexError>(
            seq![SpecToken::Atom(SpecAtom::Name(s))],
        ),
{
    lemma_scan_name(s, 1);
    assert(scan_name(s, 1) == s.len());
    assert(s.subrange(0, s.len() as int) =~= s);
    let pushed = crate::lexer::st_push(
        lex_init(),
        SpecToken::Atom(SpecAtom::Name(s)),
    );
    assert(lex_of(s) == lex_from(s, s.len() as int, pushed));
    assert(pushed.cur =~= seq![SpecToken::Atom(SpecAtom::Name(s))]);
}

/// Tokenizing is idempotent on a clean integer: a non-empty run of
/// decimal digits whose value fits the machine integer tokenizes to
/// exactly the one number atom holding that value.
pub proof fn lemma_clean_digits_retokenise(s: Seq<char>)
    requires
        s.len() > 0,
        forall|k: int| 0 <= k < s.len() ==> is_digit_char(#[trigger] s[k]),
        digits_val(s) <= 0x7fff_ffff_ffff_ffff,
    ensures
        lex_of(s) == Ok::<Seq<SpecToken>, LexError>(
            seq![SpecToken::Atom(SpecAtom::Number(digits_val(s)))],
        ),
{
    lemma_scan_digits(s, 1);
    assert(scan_digits(s, 1) == s.len());
    assert(s.subrange(0, s.len() as int) =~= s);
    let pushed = crate::lexer::st_push(
        lex_init(),
        SpecToken::Atom(SpecAtom::Number(digits_val(s))),
    );
    assert(lex_of(s) == lex_from(s, s.len() as int, pushed));
    assert(pushed.cur =~= seq![SpecToken::Atom(SpecAtom::Number(digits_val(s)))]);
}

/// Validation is exhaustive: whatever diagnostics one requested field
/// contributes stand in the collected output, whichever other fields
/// have problems of their own; the output around them is untouched.
pub proof fn lemma_validation_exhaustive(
    fields: Seq<SpecQField>,
    tyfs: Seq<SpecField>,
    schema: Map<Seq<char>, SpecItem>,
    i: int,
)
    requires
        0 <= i < fields.len(),
        tyfs.len() > 0,
    ensures
        exists|a: Seq<Error>, b: Seq<Error>|
            spec_validate_fields(fields, tyfs, schema) == a + field_diags(
                fields,
                tyfs,
                schema,
                i,
            ) + b,
{
    lemma_loop_contains(fields, tyfs, schema, 0, i);
    let (a0, b0) = choose|a0: Seq<Error>, b0: Seq<Error>|
        spec_validate_fields_loop(fields, tyfs, schema, 0) == a0 + field_diags(
            fields,
            tyfs,
            schema,
            i,
        ) + b0;
    let header: Seq<Error> = if fields.len() == 0 {
        seq![Error::ObjectTypeMustHaveFields]
    } else {
        Seq::empty()
    };
    assert(spec_validate_fields(fields, tyfs, schema) == header + spec_validate_fields_loop(
        fields,
        tyfs,
        schema,
        0,
    ));
    assert((header + a0) + field_diags(fields, tyfs, schema, i) + b0 =~= header + (a0 + field_diags(
        fields,
        tyfs,
        schema,
        i,
    ) + b0));
}

proof fn lemma_loop_contains(
    fields: Seq<SpecQField>,
    tyfs: Seq<SpecField>,
    schema: Map<Seq<char>, SpecItem>,
    k: int,
    i: int,
)
    requires
        0 <= k <= i < fields.len(),
    ensures
        exists|a: Seq<Error>, b: Seq<Error>|
            spec_validate_fields_loop(fields, tyfs, schema, k) == a + field_diags(
                fields,
                tyfs,
                schema,
                i,
            ) + b,
    decreases i - k,
{
    let d = field_diags(fields, tyfs, schema, i);
    if k == i {
        let a = Seq::<Error>::empty();
        let b = spec_validate_fields_loop(fields, tyfs, schema, i + 1);
        assert(spec_validate_fields_loop(fields, tyfs, schema, k) =~= a + d + b);
    } else {
        lemma_loop_contains(fields, tyfs, schema, k + 1, i);
        let (a0, b0) = choose|a0: Seq<Error>, b0: Seq<Error>|
            spec_validate_fields_loop(fields, tyfs, schema, k + 1) == a0 + d + b0;
        let dk = field_diags(fields, tyfs, schema, k);
        assert(spec_validate_fields_loop(fields, tyfs, schema, k) == dk
            + spec_validate_fields_loop(fields, tyfs, schema, k + 1));
        assert((dk + a0) + d + b0 =~= dk + (a0 + d + b0));
    }
}

/// A null supplied for a non-null type is always flagged, with exactly
/// the one diagnostic; a null supplied for a nullable type never is.
pub proof fn lemma_null_against_type(ty: SpecType)
    ensures
        !ty.nullable ==> spec_validate_value(SpecValue::Null, ty) == seq![
            Error::NullValueMustBeNonNull,
        ],
        ty.nullable ==> spec_validate_value(SpecValue::Null, ty) == Seq::<Error>::empty(),
{
    if !ty.nullable {
        assert(spec_validate_value(SpecValue::Null, ty) =~= seq![Error::NullValueMustBeNonNull]);
    } else {
        assert(spec_validate_value(SpecValue::Null, ty) =~= Seq::<Error>::empty());
    }
}

/// A required (non-null) argument supplied as `null` always fails
/// validation: the diagnostics of the argument list contain the
/// null-on-non-null code.
pub proof fn lemma_required_null_rejected(
    args: Seq<(Seq<char>, SpecValue)>,
    decl: Seq<(Seq<char>, SpecType)>,
    i: int,
)
    requires
        0 <= i < args.len(),
        args[i].1 == SpecValue::Null,
        find_type(decl, args[i].0) matches Some(ty) && !ty.nullable,
    ensures
        spec_validate_args(args, decl).contains(Error::NullValueMustBeNonNull),
{
    let ty = find_type(decl, args[i].0)->Some_0;
    lemma_null_against_type(ty);
    lemma_args_loop_contains(args, decl, 0, i);
    let (a0, b0) = choose|a0: Seq<Error>, b0: Seq<Error>|
        spec_validate_args_loop(args, decl, 0) == a0 + arg_diags(args, decl, i) + b0;
    assert(arg_diags(args, decl, i).contains(Error::NullValueMustBeNonNull)) by {
        let dup: Seq<Error> = if exists|j: int| 0 <= j < i && (#[trigger] args[j]).0 == args[i].0 {
            seq![Error::DuplicateArgument]
        } else {
            Seq::empty()
        };
        assert(arg_diags(args, decl, i) == dup + spec_validate_value(args[i].1, ty));
        assert(arg_diags(args, decl, i)[dup.len() as int] == Error::NullValueMustBeNonNull);
    }
    let k = choose|k: int|
        0 <= k < arg_diags(args, decl, i).len() && #[trigger] arg_diags(args, decl, i)[k]
            == Error::NullValueMustBeNonNull;
    assert(spec_validate_args_loop(args, decl, 0)[a0.len() + k] == Error::NullValueMustBeNonNull);
    assert(spec_validate_args(args, decl)[a0.len() + k] == Error::NullValueMustBeNonNull);
}

/// What one supplied argument contributes to the diagnostics, in place.
pub open spec fn arg_diags(
    args: Seq<(Seq<char>, SpecValue)>,
    decl: Seq<(Seq<char>, SpecType)>,
    i: int,
) -> Seq<Error> {
    if 0 <= i < args.len() {
        let dup: Seq<Error> = if exists|j: int| 0 <= j < i && (#[trigger] args[j]).0 == args[i].0 {
            seq![Error::DuplicateArgument]
        } else {
            Seq::empty()
        };
        let val: Seq<Error> = match find_type(decl, args[i].0) {
            Some(ty) => spec_validate_value(args[i].1, ty),
            None => seq![Error::ArgumentNotFound],
        };
        dup + val
    } else {
        Seq::empty()
    }
}

proof fn lemma_args_loop_contains(
    args: Seq<(Seq<char>, SpecValue)>,
    decl: Seq<(Seq<char>, SpecType)>,
    k: int,
    i: int,
)
    requires
        0 <= k <= i < args.len(),
    ensures
        exists|a: Seq<Error>, b: Seq<Error>|
            spec_validate_args_loop(args, decl, k) == a + arg_diags(args, decl, i) + b,
    decreases i - k,
{
    let d = arg_diags(args, decl, i);
    if k == i {
        let a = Seq::<Error>::empty();
        let b = spec_validate_args_loop(args, decl, i + 1);
        assert(spec_validate_args_loop(args, decl, k) =~= a + d + b);
    } else {
        lemma_args_loop_contains(args, decl, k + 1, i);
        let (a0, b0) = choose|a0: Seq<Error>, b0: Seq<Error>|
            spec_validate_args_loop(args, decl, k + 1) == a0 + d + b0;
        let dk = arg_diags(args, decl, k);
        assert(spec_validate_args_loop(args, decl, k) == dk + spec_validate_args_loop(
            args,
            decl,
            k + 1,
        ));
        assert((dk + a0) + d + b0 =~= dk + (a0 + d + b0));
    }
}

/// A required (non-null) argument not supplied at all is always flagged
/// as missing.
pub proof fn lemma_required_missing_rejected(
    args: Seq<(Seq<char>, SpecValue)>,
    decl: Seq<(Seq<char>, SpecType)>,
    k: int,
)
    requires
        0 <= k < decl.len(),
        !has_arg(args, decl[k].0),
        !decl[k].1.nullable,
    ensures
        spec_validate_args(args, decl).contains(Error::MissingArgument),
{
    lemma_missing_contains(args, decl, 0, k);
    let idx = choose|idx: int|
        0 <= idx < spec_missing_args(args, decl, 0).len() && #[trigger] spec_missing_args(
            args,
            decl,
            0,
        )[idx] == Error::MissingArgument;
    assert(spec_validate_args(args, decl)[spec_validate_args_loop(args, decl, 0).len() + idx]
        == Error::MissingArgument);
}

proof fn lemma_missing_contains(
    args: Seq<(Seq<char>, SpecValue)>,
    decl: Seq<(Seq<char>, SpecType)>,
    j: int,
    k: int,
)
    requires
        0 <= j <= k < decl.len(),
        !has_arg(args, decl[k].0),
        !decl[k].1.nullable,
    ensures
        spec_missing_args(args, decl, j).contains(Error::MissingArgument),
    decreases k - j,
{
    if j == k {
        assert(spec_missing_args(args, decl, j)[0] == Error::MissingArgument);
    } else {
        lemma_missing_contains(args, decl, j + 1, k);
        let idx = choose|idx: int|
            0 <= idx < spec_missing_args(args, decl, j + 1).len() && #[trigger] spec_missing_args(
                args,
                decl,
                j + 1,
            )[idx] == Error::MissingArgument;
        let m: Seq<Error> = if !has_arg(args, decl[j].0) && !decl[j].1.nullable {
            seq![Error::MissingArgument]
        } else {
            Seq::empty()
        };
        assert(spec_missing_args(args, decl, j)[m.len() + idx] == Error::MissingArgument);
    }
}

} // verus!
