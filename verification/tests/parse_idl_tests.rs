use graphql::lexer::tokenise;
use graphql::parse_base::{maybe_parse_name, TokenStream};
use graphql::parse_idl::{parse_doc, parse_schema, parse_type};
use graphql::schema::{Item, TypeKind};
use graphql::token::Bracket;
use graphql::types::Name;

#[test]
fn test_parse_type() {
    let tokens = tokenise("foo").unwrap();
    let mut ts = TokenStream::new(&tokens);
    let result = parse_type(&mut ts).unwrap();
    assert_eq!(result.nullable, true);
    match result.kind {
        TypeKind::Name(n) => assert_eq!(n.0, "foo"),
        _ => panic!(),
    }

    let tokens = tokenise("[ID!]!").unwrap();
    let mut ts = TokenStream::new(&tokens);
    let result = parse_type(&mut ts).unwrap();
    assert_eq!(result.nullable, false);
    match result.kind {
        TypeKind::Array(inner) => {
            assert_eq!(inner.nullable, false);
            match inner.kind {
                TypeKind::Id => {}
                _ => panic!(),
            }
        }
        _ => panic!(),
    }
}

#[test]
fn parse_idl_test_parse_type() {
    let tokens = tokenise("foo!").unwrap();
    let mut ts = TokenStream::new(&tokens);
    let result = parse_type(&mut ts).unwrap();
    assert_eq!(result.nullable, false);
    match result.kind {
        TypeKind::Name(n) => assert_eq!(n.0, "foo"),
        _ => panic!(),
    }

    let tokens = tokenise("[ID!]!").unwrap();
    let mut ts = TokenStream::new(&tokens);
    let result = parse_type(&mut ts).unwrap();
    assert_eq!(result.nullable, false);
    match result.kind {
        TypeKind::Array(inner) => {
            assert_eq!(inner.nullable, false);
            match inner.kind {
                TypeKind::Id => {}
                _ => panic!(),
            }
        }
        _ => panic!(),
    }
}

#[test]
fn test_parse_doc() {
    let tokens = tokenise(
        r"
            schema {
                query: Query
            }

            type Query {
                hero(episode: Episode): Character
                human(id : ID!): Human
            }

            enum Episode {
                NEWHOPE
                EMPIRE
                JEDI
            }

            interface Character {
                id: ID!
                name: String!
                friends: [Character]
                appearsIn: [Episode]!
            }

            type Human implements Character {
                id: ID!
                name: String!
                friends: [Character]
                appearsIn: [Episode]!
                homePlanet: String
            }
        ",
    )
    .unwrap();
    let mut ts = TokenStream::new(&tokens);
    let result = parse_doc(&mut ts).unwrap();
    assert_eq!(result.items.len(), 5);
    let schema = result.get(&Name::new("schema")).unwrap();
    match schema {
        Item::Schema(i) => {
            assert_eq!(i.fields.len(), 1);
        }
        _ => panic!(),
    }
    let epsiode = result.get(&Name::new("Episode")).unwrap();
    match epsiode {
        Item::Enum(e) => {
            assert_eq!(e.variants.len(), 3);
            assert_eq!(e.variants[0].0, "NEWHOPE");
            assert_eq!(e.variants[1].0, "EMPIRE");
            assert_eq!(e.variants[2].0, "JEDI");
        }
        _ => panic!(),
    }
    let human = result.get(&Name::new("Human")).unwrap();
    match human {
        Item::Object(o) => {
            assert_eq!(o.implements.len(), 1);
            assert_eq!(o.implements[0].0, "Character");
            assert_eq!(o.fields.len(), 5);
            assert_eq!(o.fields[0].name.0, "id");
            assert_eq!(o.fields[3].name.0, "appearsIn");
            let ep_ty = &o.fields[3].ty;
            match &ep_ty.kind {
                TypeKind::Array(inner) => match &inner.kind {
                    TypeKind::Name(inner) => assert_eq!(inner.0, "Episode"),
                    _ => panic!(),
                },
                _ => panic!(),
            }
        }
        _ => panic!(),
    }
}

#[test]
fn test_parse_schema_declaration_order() {
    let schema = parse_schema("type A { x: ID }\ntype B { y: String }").unwrap();
    assert_eq!(schema.items.len(), 2);
    assert_eq!(schema.items[0].0 .0, "A");
    assert_eq!(schema.items[1].0 .0, "B");
}

#[test]
fn test_parse_schema_rejects_junk() {
    assert!(parse_schema("widget Foo { x: ID }").is_err());
    assert!(parse_schema("type Foo ( x: ID )").is_err());
    assert!(parse_schema("type Foo { x ID }").is_err());
    assert!(parse_schema("type { x: ID }").is_err());
}

#[test]
fn test_parse_schema_field_arguments() {
    let schema = parse_schema("type Query { hero(episode: Episode, id: ID!): Character }").unwrap();
    let q = schema.get(&Name::new("Query")).unwrap();
    match q {
        Item::Object(o) => {
            assert_eq!(o.fields.len(), 1);
            let f = &o.fields[0];
            assert_eq!(f.name.0, "hero");
            assert_eq!(f.args.len(), 2);
            assert_eq!(f.args[0].0 .0, "episode");
            assert!(f.args[0].1.nullable);
            assert_eq!(f.args[1].0 .0, "id");
            assert!(!f.args[1].1.nullable);
        }
        _ => panic!(),
    }
}

#[test]
fn test_maybe_parse_seq() {
    // A parenthesised group is consumed and its children handed through;
    // anything else yields the empty list and consumes nothing.
    let tokens = tokenise("(foo bar) baz").unwrap();
    let mut ts = TokenStream::new(&tokens);
    let names = ts
        .maybe_parse_seq(Bracket::Paren, |s| {
            let mut m = s;
            let mut out: Vec<Name> = vec![];
            loop {
                match maybe_parse_name(&mut m) {
                    Ok(Some(n)) => out.push(n),
                    Ok(None) => return (m, Ok(out)),
                    Err(e) => return (m, Err(e)),
                }
            }
        })
        .unwrap();
    assert_eq!(names.len(), 2);
    assert_eq!(names[0].0, "foo");
    assert_eq!(names[1].0, "bar");
    let none = ts
        .maybe_parse_seq(Bracket::Brace, |s| (s, Ok(Vec::<Name>::new())))
        .unwrap();
    assert!(none.is_empty());
    assert_eq!(ts.len(), 1);
}

#[test]
fn test_assert_field_and_assert_name() {
    let schema = parse_schema("type Query { hero(episode: Episode): Character }").unwrap();
    let q = schema.get(&Name::new("Query")).unwrap();
    let hero = q.assert_field(Name::new("hero"));
    assert_eq!(hero.name.0, "hero");
    assert_eq!(hero.ty.assert_name().0, "Character");
    assert_eq!(hero.ty.as_name_null().unwrap().0, "Character");
    assert!(q.fields().len() == 1);
}
