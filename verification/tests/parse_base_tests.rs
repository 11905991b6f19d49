use graphql::lexer::tokenise;
use graphql::parse_base::TokenStream;
use graphql::token::{Atom, Token, TokenKind};
use graphql::{ParseError, QlError};

fn assert_atom<'a>(tok: &'a Token) -> &'a Atom {
    match &tok.kind {
        TokenKind::Atom(atom) => atom,
        _ => panic!("Non-atomic token"),
    }
}

#[test]
fn test_bump() {
    let tokens = tokenise("foo bar").unwrap();
    let mut parser = TokenStream::new(&tokens);
    assert_eq!(parser.tokens.len(), 2);
    parser.bump();
    assert_eq!(parser.tokens.len(), 1);
    parser.bump();
    assert_eq!(parser.tokens.len(), 0);
}

#[test]
fn test_maybe_eat() {
    let tokens = tokenise("foo bar!").unwrap();
    let mut parser = TokenStream::new(&tokens);
    assert_eq!(
        assert_atom(parser.peek_tok().unwrap()),
        &Atom::Name("foo".to_string())
    );
    parser.maybe_eat(Atom::Name("bar".to_string()));
    assert_eq!(
        assert_atom(parser.next_tok().unwrap()),
        &Atom::Name("foo".to_string())
    );
    parser.maybe_eat(Atom::Name("bar".to_string()));
    parser.maybe_eat(Atom::Bang);
}

#[test]
fn test_eat() {
    let tokens = tokenise("foo bar!").unwrap();
    let mut parser = TokenStream::new(&tokens);
    assert_eq!(
        assert_atom(parser.next_tok().unwrap()),
        &Atom::Name("foo".to_string())
    );
    parser.eat(Atom::Name("bar".to_string())).unwrap();
    parser.eat(Atom::Bang).unwrap();
}

#[test]
fn test_bad_eat() {
    let tokens = tokenise("foo bar!").unwrap();
    let mut parser = TokenStream::new(&tokens);
    match parser.eat(Atom::Name("bar".to_string())) {
        Err(QlError::ParseError(ParseError(_))) => {}
        result => panic!("Found: {:?}", result),
    }
}

#[test]
fn test_ignore_newlines() {
    let tokens = tokenise("foo \n\n\n\n\n bar").unwrap();
    let mut parser = TokenStream::new(&tokens);
    assert_eq!(
        assert_atom(parser.peek_tok().unwrap()),
        &Atom::Name("foo".to_string())
    );
    parser.ignore_newlines();
    assert_eq!(
        assert_atom(parser.next_tok().unwrap()),
        &Atom::Name("foo".to_string())
    );
    parser.ignore_newlines();
    assert_eq!(
        assert_atom(parser.next_tok().unwrap()),
        &Atom::Name("bar".to_string())
    );
}

#[test]
fn parse_query_test_bump() {
    let tokens = tokenise("foo bar").unwrap();
    let mut parser = TokenStream::new(&tokens);
    assert_eq!(parser.tokens.len(), 2);
    parser.bump();
    assert_eq!(parser.tokens.len(), 1);
    parser.bump();
    assert_eq!(parser.tokens.len(), 0);
}

#[test]
fn parse_query_test_maybe_eat() {
    let tokens = tokenise("foo bar!").unwrap();
    let mut parser = TokenStream::new(&tokens);
    assert_eq!(
        assert_atom(parser.peek_tok().unwrap()),
        &Atom::Name("foo".to_string())
    );
    parser.maybe_eat(Atom::Name("bar".to_string()));
    assert_eq!(
        assert_atom(parser.next_tok().unwrap()),
        &Atom::Name("foo".to_string())
    );
    parser.maybe_eat(Atom::Name("bar".to_string()));
    parser.maybe_eat(Atom::Bang);
}

#[test]
fn parse_query_test_eat() {
    let tokens = tokenise("foo bar!").unwrap();
    let mut parser = TokenStream::new(&tokens);
    assert_eq!(
        assert_atom(parser.next_tok().unwrap()),
        &Atom::Name("foo".to_string())
    );
    parser.eat(Atom::Name("bar".to_string())).unwrap();
    parser.eat(Atom::Bang).unwrap();
}

#[test]
fn parse_query_test_bad_eat() {
    let tokens = tokenise("foo bar!").unwrap();
    let mut parser = TokenStream::new(&tokens);
    match parser.eat(Atom::Name("bar".to_string())) {
        Err(QlError::ParseError(ParseError(_))) => {}
        result => panic!("Found: {:?}", result),
    }
}

#[test]
fn parse_query_test_ignore_newlines() {
    let tokens = tokenise("foo \n\n\n\n\n bar").unwrap();
    let mut parser = TokenStream::new(&tokens);
    assert_eq!(
        assert_atom(parser.peek_tok().unwrap()),
        &Atom::Name("foo".to_string())
    );
    parser.ignore_newlines();
    assert_eq!(
        assert_atom(parser.next_tok().unwrap()),
        &Atom::Name("foo".to_string())
    );
    parser.ignore_newlines();
    assert_eq!(
        assert_atom(parser.next_tok().unwrap()),
        &Atom::Name("bar".to_string())
    );
}

#[test]
fn test_next_tok_empty() {
    let tokens = tokenise("").unwrap();
    let mut parser = TokenStream::new(&tokens);
    match parser.next_tok() {
        Err(QlError::ParseError(ParseError(m))) => assert_eq!(m, "Unexpected end of stream"),
        other => panic!("Found: {:?}", other),
    }
}
