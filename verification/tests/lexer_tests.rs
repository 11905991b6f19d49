use graphql::lexer::{tokenise, LexError};
use graphql::token::{Atom, Token, TokenKind};

fn assert_atom(tok: &Token) -> &Atom {
    match &tok.kind {
        TokenKind::Atom(atom) => atom,
        _ => panic!("Non-atomic token"),
    }
}

fn assert_number(tok: &Token) -> i64 {
    match assert_atom(tok) {
        Atom::Number(n) => *n,
        _ => panic!("Non-number token, expected number"),
    }
}

fn assert_name(tok: &Token) -> &str {
    match assert_atom(tok) {
        Atom::Name(n) => n.as_str(),
        _ => panic!("Non-number token, expected name"),
    }
}

fn assert_string(tok: &Token) -> &str {
    match assert_atom(tok) {
        Atom::String(s) => s.as_str(),
        _ => panic!("Non-string token, expected string"),
    }
}

#[test]
fn test_empty() {
    let result = tokenise("").unwrap();
    assert!(result.is_empty());

    let result = tokenise("   ").unwrap();
    assert!(result.is_empty());
}

#[test]
fn test_numbers() {
    let result = tokenise("0 42 -3 56785665657656").unwrap();
    assert_eq!(result.len(), 4);
    assert_eq!(assert_number(&result[0]), 0);
    assert_eq!(assert_number(&result[1]), 42);
    assert_eq!(assert_number(&result[2]), -3);
    assert_eq!(assert_number(&result[3]), 56785665657656);
}

#[test]
fn test_names() {
    let result = tokenise("a foo bar42 ላዊዲሞክ").unwrap();
    assert_eq!(result.len(), 4);
    assert_eq!(assert_name(&result[0]), "a");
    assert_eq!(assert_name(&result[1]), "foo");
    assert_eq!(assert_name(&result[2]), "bar42");
    assert_eq!(assert_name(&result[3]), "ላዊዲሞክ");

    let result = tokenise("a\nb").unwrap();
    assert_eq!(result.len(), 3);
    assert_eq!(assert_name(&result[0]), "a");
    assert_eq!(assert_atom(&result[1]), &Atom::NewLine);
    assert_eq!(assert_name(&result[2]), "b");
}

#[test]
fn test_atoms() {
    let result = tokenise(":,! !").unwrap();
    assert_eq!(result.len(), 4);
    assert_eq!(assert_atom(&result[0]), &Atom::Colon);
    assert_eq!(assert_atom(&result[1]), &Atom::Comma);
    assert_eq!(assert_atom(&result[2]), &Atom::Bang);
    assert_eq!(assert_atom(&result[3]), &Atom::Bang);
}

#[test]
// Also tests newline/whitespace handling.
fn test_strings() {
    let result = tokenise("  \"foo\"\r\n    \"bar\"").unwrap();
    assert_eq!(result.len(), 3);
    assert_eq!(assert_string(&result[0]), "foo");
    assert_eq!(assert_atom(&result[1]), &Atom::NewLine);
    assert_eq!(assert_string(&result[2]), "bar");
}

#[test]
fn test_query() {
    let input = r"{
          human(id: 1002) {
            name,
            appearsIn,
            id
          }
        }";
    let result = tokenise(input).unwrap();
    assert_eq!(result.len(), 1);
    assert_eq!(
        result[0].to_text().replace(' ', ""),
        input.replace(' ', "")
    );
}

#[test]
fn test_query_with_comments() {
    let input = r"{
          # A comment
          human(id: 1002) {
            name # field comment
            appearsIn
            id
          }
        }";

    let expected = r"{

          human(id: 1002) {
            name
            appearsIn
            id
          }
        }";
    let result = tokenise(input).unwrap();
    assert_eq!(result.len(), 1);
    assert_eq!(
        result[0].to_text().replace(' ', ""),
        expected.replace(' ', "")
    );
}

#[test]
fn test_unexpected_char() {
    match tokenise("a % b") {
        Err(LexError::Unexpected(c)) => assert_eq!(c, '%'),
        other => panic!("Found: {:?}", other),
    }
}

#[test]
fn test_mismatched_closer() {
    match tokenise("{ a ]") {
        Err(LexError::Unmatched(expected, found)) => {
            assert_eq!(expected, '}');
            assert_eq!(found, ']');
        }
        other => panic!("Found: {:?}", other),
    }
    match tokenise("( x }") {
        Err(LexError::Unmatched(expected, found)) => {
            assert_eq!(expected, ')');
            assert_eq!(found, '}');
        }
        other => panic!("Found: {:?}", other),
    }
}

#[test]
fn test_closer_without_opener() {
    match tokenise(") a") {
        Err(LexError::Unexpected(c)) => assert_eq!(c, ')'),
        other => panic!("Found: {:?}", other),
    }
}

#[test]
fn test_unterminated_forms_are_dropped() {
    // An unterminated string at end of input is silently dropped.
    let result = tokenise("\"abc").unwrap();
    assert!(result.is_empty());
    // An unclosed bracket yields the innermost open group's tokens.
    let result = tokenise("{ a").unwrap();
    assert_eq!(result.len(), 1);
    assert_eq!(assert_name(&result[0]), "a");
}

#[test]
fn test_number_bounds() {
    let result = tokenise("9223372036854775807 -9223372036854775808").unwrap();
    assert_eq!(result.len(), 2);
    assert_eq!(assert_number(&result[0]), i64::MAX);
    assert_eq!(assert_number(&result[1]), i64::MIN);

    match tokenise("9223372036854775808") {
        Err(LexError::Unexpected(c)) => assert_eq!(c, '9'),
        other => panic!("Found: {:?}", other),
    }
    match tokenise("- 3") {
        Err(LexError::Unexpected(c)) => assert_eq!(c, '-'),
        other => panic!("Found: {:?}", other),
    }
}

#[test]
fn test_retokenise_clean_input() {
    // Re-serializing the token tree of "{ a b }" and re-tokenizing
    // yields the same tree shape.
    let first = tokenise("{ a b }").unwrap();
    assert_eq!(first.len(), 1);
    let text = first[0].to_text();
    assert_eq!(text, "{a b}");
    let second = tokenise(&text).unwrap();
    assert_eq!(second.len(), 1);
    assert_eq!(second[0].to_text(), text);
    match (&first[0].kind, &second[0].kind) {
        (TokenKind::Tree(b1, kids1), TokenKind::Tree(b2, kids2)) => {
            assert_eq!(b1, b2);
            assert_eq!(kids1.len(), 2);
            assert_eq!(kids2.len(), 2);
            assert_eq!(assert_name(&kids1[0]), assert_name(&kids2[0]));
            assert_eq!(assert_name(&kids1[1]), assert_name(&kids2[1]));
        }
        _ => panic!("Expected bracketed groups"),
    }
}
