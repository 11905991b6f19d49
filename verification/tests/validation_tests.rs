use graphql::parse_idl::parse_schema;
use graphql::query::Query;
use graphql::validation::Error;
use graphql::QlError;

fn demo_schema() -> graphql::schema::Schema {
    parse_schema(
        r"
        schema {
            query: Query
        }

        type Query {
            hero(episode: Episode): Character
            human(id: ID!): Human
        }

        enum Episode {
            NEWHOPE
            EMPIRE
            JEDI
        }

        interface Character {
            id: ID!
            name: String!
            friends: [Character]
            appearsIn: [Episode]!
        }

        type Human implements Character {
            id: ID!
            name: String!
            friends: [Character]
            appearsIn: [Episode]!
            homePlanet: String
        }
    ",
    )
    .unwrap()
}

fn diagnostics(query: &str) -> Vec<Error> {
    let schema = demo_schema();
    let q = Query::parse(query).unwrap();
    match q.validate(&schema) {
        Ok(()) => vec![],
        Err(QlError::ValidationError(errors)) => errors,
        Err(other) => panic!("Found: {:?}", other),
    }
}

#[test]
fn valid_query_accepted() {
    assert_eq!(diagnostics("{ hero { name } }"), vec![]);
    assert_eq!(diagnostics("{ human(id: 1000) { name appearsIn } }"), vec![]);
}

#[test]
fn field_not_found_reported() {
    assert_eq!(diagnostics("{ bogus { name } }"), vec![Error::FieldNotFound]);
}

#[test]
fn duplicate_field_reported() {
    // Duplicate detection keys on the field name.
    let errors = diagnostics("{ hero { name name } }");
    assert_eq!(errors, vec![Error::DuplicateField]);
}

#[test]
fn empty_selection_on_object_reported() {
    assert_eq!(
        diagnostics("{ hero }"),
        vec![Error::ObjectTypeMustHaveFields]
    );
}

#[test]
fn selection_on_scalar_reported() {
    assert_eq!(
        diagnostics("{ hero { name { id } } }"),
        vec![Error::FieldsOnScalarType]
    );
}

#[test]
fn argument_errors_reported() {
    assert_eq!(
        diagnostics("{ human(id: 1000, id: 1000) { name } }"),
        vec![Error::DuplicateArgument]
    );
    assert_eq!(
        diagnostics("{ human(id: 1000, extra: 2) { name } }"),
        vec![Error::ArgumentNotFound]
    );
    assert_eq!(diagnostics("{ human { name } }"), vec![Error::MissingArgument]);
}

#[test]
fn type_mismatch_reported() {
    // A string literal is not an identifier-like value.
    assert_eq!(
        diagnostics("{ human(id: \"1000\") { name } }"),
        vec![Error::TypeMismatch]
    );
}

#[test]
fn validation_is_exhaustive() {
    // Two independent errors: an unknown field and a missing required
    // argument elsewhere must both be reported, not just the first.
    let errors = diagnostics("{ bogus { name } human { name } }");
    assert_eq!(errors, vec![Error::FieldNotFound, Error::MissingArgument]);
}

#[test]
fn required_null_rejected_optional_null_accepted() {
    // A required (non-null) argument supplied as null always fails.
    assert_eq!(
        diagnostics("{ human(id: null) { name } }"),
        vec![Error::NullValueMustBeNonNull]
    );
    // An optional one supplied as null always succeeds.
    assert_eq!(diagnostics("{ hero(episode: null) { name } }"), vec![]);
}

#[test]
fn unresolved_reference_reported() {
    let schema = parse_schema(
        r"
        schema {
            query: Query
        }

        type Query {
            ghost: Phantom
        }
    ",
    )
    .unwrap();
    let q = Query::parse("{ ghost { x } }").unwrap();
    match q.validate(&schema) {
        Err(QlError::ValidationError(errors)) => {
            assert_eq!(errors, vec![Error::TypeNotFound]);
        }
        other => panic!("Found: {:?}", other),
    }
}

#[test]
fn diagnostic_texts() {
    assert_eq!(Error::FieldsOnScalarType.text(), "fields on scalar type");
    assert_eq!(
        Error::ObjectTypeMustHaveFields.text(),
        "object type must have fields"
    );
    assert_eq!(Error::DuplicateField.text(), "duplicate field");
    assert_eq!(Error::FieldNotFound.text(), "field not found");
    assert_eq!(Error::TypeNotFound.text(), "type not found");
    assert_eq!(Error::ArgumentNotFound.text(), "argument not found");
    assert_eq!(Error::DuplicateArgument.text(), "duplicate argument");
    assert_eq!(Error::MissingArgument.text(), "missing argument");
    assert_eq!(
        Error::NullValueMustBeNonNull.text(),
        "null value must be non-null"
    );
    assert_eq!(Error::TypeMismatch.text(), "type mismatch");
}

#[test]
fn array_literals_validated_elementwise() {
    let schema = parse_schema(
        r"
        schema {
            query: Query
        }

        type Query {
            pick(ids: [ID!]!): String
        }
    ",
    )
    .unwrap();
    let q = Query::parse("{ pick(ids: [1, null, 2]) }").unwrap();
    match q.validate(&schema) {
        Err(QlError::ValidationError(errors)) => {
            assert_eq!(errors, vec![Error::NullValueMustBeNonNull]);
        }
        other => panic!("Found: {:?}", other),
    }
    let q = Query::parse("{ pick(ids: [1, 2]) }").unwrap();
    assert!(q.validate(&schema).is_ok());
}
