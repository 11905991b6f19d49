use graphql::lexer::tokenise;
use graphql::parse_base::TokenStream;
use graphql::parse_query::{maybe_parse_args, maybe_parse_fields, parse_name, parse_operation,
    parse_value};
use graphql::query::{Field, Query, Value};
use graphql::token::Atom;
use graphql::types::Name;

#[test]
fn test_parse_name() {
    let tokens = tokenise("foo bar!").unwrap();
    let mut ts = TokenStream::new(&tokens);
    assert_eq!(parse_name(&mut ts).unwrap().0, "foo");
    assert_eq!(parse_name(&mut ts).unwrap().0, "bar");
    ts.eat(Atom::Bang).unwrap();
}

#[test]
fn parse_query_test_parse_name() {
    let tokens = tokenise("foo bar!").unwrap();
    let mut ts = TokenStream::new(&tokens);
    assert_eq!(parse_name(&mut ts).unwrap().0, "foo");
    assert_eq!(parse_name(&mut ts).unwrap().0, "bar");
    ts.eat(Atom::Bang).unwrap();
}

#[test]
fn test_parse_value() {
    let tokens = tokenise("null \"foo\" 42 bar [null, null, foo, \"bar\"]").unwrap();
    let mut ts = TokenStream::new(&tokens);
    assert_eq!(parse_value(&mut ts).unwrap(), Value::Null);
    assert_eq!(
        parse_value(&mut ts).unwrap(),
        Value::String("foo".to_owned())
    );
    assert_eq!(
        parse_value(&mut ts).unwrap(),
        Value::Name(Name("42".to_owned()))
    );
    assert_eq!(
        parse_value(&mut ts).unwrap(),
        Value::Name(Name("bar".to_owned()))
    );
    assert_eq!(
        parse_value(&mut ts).unwrap(),
        Value::Array(vec![
            Value::Null,
            Value::Null,
            Value::Name(Name("foo".to_owned())),
            Value::String("bar".to_owned()),
        ])
    );
}

#[test]
fn test_parse_args() {
    let tokens = tokenise("  ").unwrap();
    let mut ts = TokenStream::new(&tokens);
    assert_eq!(maybe_parse_args(&mut ts).unwrap(), vec![]);

    let tokens = tokenise("(x: 42, foo: \"bar\")").unwrap();
    let mut ts = TokenStream::new(&tokens);
    assert_eq!(
        maybe_parse_args(&mut ts).unwrap(),
        vec![
            (Name("x".to_owned()), Value::Name(Name("42".to_owned()))),
            (Name("foo".to_owned()), Value::String("bar".to_owned())),
        ]
    );
}

fn name_field(s: &str) -> Field {
    Field {
        name: Name(s.to_owned()),
        alias: None,
        args: vec![],
        fields: vec![],
    }
}

#[test]
fn test_parse_fields() {
    let tokens = tokenise("").unwrap();
    let mut ts = TokenStream::new(&tokens);
    assert_eq!(maybe_parse_fields(&mut ts).unwrap(), vec![]);

    let tokens = tokenise("{}").unwrap();
    let mut ts = TokenStream::new(&tokens);
    assert_eq!(maybe_parse_fields(&mut ts).unwrap(), vec![]);

    let tokens = tokenise(
        r"{ a, foo, bar(x: 42)

            baz {
                a
                b
            }}",
    )
    .unwrap();
    let mut ts = TokenStream::new(&tokens);
    assert_eq!(
        maybe_parse_fields(&mut ts).unwrap(),
        vec![
            name_field("a"),
            name_field("foo"),
            Field {
                name: Name("bar".to_owned()),
                alias: None,
                args: vec![(Name("x".to_owned()), Value::Name(Name("42".to_owned())))],
                fields: vec![],
            },
            Field {
                name: Name("baz".to_owned()),
                alias: None,
                args: vec![],
                fields: vec![name_field("a"), name_field("b")],
            },
        ]
    );
}

#[test]
fn test_parse_query() {
    let tokens = tokenise(
        r"{
          human(id: 1002) {
            name,
            appearsIn,
            id
          }
        }",
    )
    .unwrap();
    let mut ts = TokenStream::new(&tokens);
    let result = parse_operation(&mut ts).unwrap();
    if let Query::Query(fields) = result {
        assert_eq!(fields.len(), 1);
        println!("{:?}", fields);
        assert_eq!(fields[0].name.0, "query");
        assert_eq!(fields[0].args.len(), 0);
        assert_eq!(fields[0].fields.len(), 1);
        assert_eq!(fields[0].fields[0].name.0, "human");
        assert_eq!(
            &fields[0].fields[0].args[0],
            &(Name("id".to_owned()), Value::Name(Name("1002".to_owned())))
        );
        assert_eq!(fields[0].fields[0].fields.len(), 3);
        assert_eq!(fields[0].fields[0].fields[0].name.0, "name");
        assert_eq!(fields[0].fields[0].fields[1].name.0, "appearsIn");
        assert_eq!(fields[0].fields[0].fields[2].name.0, "id");
    } else {
        panic!();
    }
}

#[test]
fn test_parse_query_keyword_form() {
    let q = graphql::query::Query::parse("query { hero { name } }").unwrap();
    if let Query::Query(fields) = q {
        assert_eq!(fields.len(), 1);
        assert_eq!(fields[0].name.0, "query");
        assert_eq!(fields[0].fields.len(), 1);
        assert_eq!(fields[0].fields[0].name.0, "hero");
    } else {
        panic!();
    }
}

#[test]
fn test_parse_query_mutation_placeholder() {
    let q = graphql::query::Query::parse("mutation").unwrap();
    assert!(matches!(q, Query::Mutation));
}

#[test]
fn test_parse_query_rejects_junk() {
    assert!(graphql::query::Query::parse("hero { name }").is_err());
    assert!(graphql::query::Query::parse("query hero").is_err());
    assert!(graphql::query::Query::parse("").is_err());
}

#[test]
fn test_find_arg() {
    let tokens = tokenise("(x: 1, y: 2, x: 3)").unwrap();
    let mut ts = TokenStream::new(&tokens);
    let args = maybe_parse_args(&mut ts).unwrap();
    let f = Field {
        name: Name("f".to_owned()),
        alias: None,
        args,
        fields: vec![],
    };
    // The first match wins.
    assert_eq!(
        f.find_arg(&Name("x".to_owned())),
        Some(&Value::Name(Name("1".to_owned())))
    );
    assert_eq!(
        f.find_arg(&Name("y".to_owned())),
        Some(&Value::Name(Name("2".to_owned())))
    );
    assert_eq!(f.find_arg(&Name("z".to_owned())), None);
}

#[test]
fn test_value_text() {
    let tokens = tokenise("[null, 42, foo, \"bar\"]").unwrap();
    let mut ts = TokenStream::new(&tokens);
    let v = parse_value(&mut ts).unwrap();
    assert_eq!(v.text(), "[null,42,foo,\"bar\"]");
}
