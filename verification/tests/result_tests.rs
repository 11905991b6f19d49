use graphql::query::{option_from_value, vec_from_value, FromValue, Value as QValue};
use graphql::schema::{Enum, Item, Schema};
use graphql::result::{resolve_option, resolve_vec, Object, Resolve, Value};
use graphql::types::{Id, Name};
use graphql::QlError;

#[test]
fn render_scalars() {
    assert_eq!(Value::Null.render(), "null");
    assert_eq!(Value::Int(0).render(), "0");
    assert_eq!(Value::Int(-42).render(), "-42");
    assert_eq!(Value::Int(i64::MAX).render(), "9223372036854775807");
    assert_eq!(Value::Int(i64::MIN).render(), "-9223372036854775808");
    assert_eq!(Value::String("hi".to_owned()).render(), "\"hi\"");
    assert_eq!(Value::Id(Id("2001".to_owned())).render(), "2001");
}

#[test]
fn render_structures() {
    let v = Value::Object(Object {
        fields: vec![
            (Name::new("a"), Value::Int(1)),
            (
                Name::new("b"),
                Value::Array(vec![Value::Null, Value::String("x".to_owned())]),
            ),
        ],
    });
    assert_eq!(v.render(), "{a:1,b:[null,\"x\"]}");
    assert_eq!(Value::Array(vec![]).render(), "[]");
    assert_eq!(Value::Object(Object { fields: vec![] }).render(), "{}");
}

#[test]
fn render_keeps_field_order_and_repeats() {
    // Object fields are never re-sorted or de-duplicated.
    let v = Value::Object(Object {
        fields: vec![
            (Name::new("z"), Value::Int(1)),
            (Name::new("a"), Value::Int(2)),
            (Name::new("z"), Value::Int(3)),
        ],
    });
    assert_eq!(v.render(), "{z:1,a:2,z:3}");
}

#[test]
fn from_value_conversions() {
    let s: String = FromValue::from(&QValue::String("hi".to_owned())).unwrap();
    assert_eq!(s, "hi");
    let id: Id = FromValue::from(&QValue::Name(Name::new("1000"))).unwrap();
    assert_eq!(id.0, "1000");
    let n: Name = FromValue::from(&QValue::Name(Name::new("luke"))).unwrap();
    assert_eq!(n.0, "luke");
    let v: Vec<Id> = FromValue::from(&QValue::Array(vec![
        QValue::Name(Name::new("1")),
        QValue::Name(Name::new("2")),
    ]))
    .unwrap();
    assert_eq!(v.len(), 2);
    assert_eq!(v[1].0, "2");
    let o: Option<Id> = FromValue::from(&QValue::Null).unwrap();
    assert!(o.is_none());
    let o: Option<Id> = FromValue::from(&QValue::Name(Name::new("3"))).unwrap();
    assert_eq!(o.unwrap().0, "3");
}

#[test]
fn from_value_failures_name_source_and_target() {
    match <String as FromValue>::from(&QValue::Null) {
        Err(QlError::TranslationError(from, to)) => {
            assert_eq!(from, "null");
            assert_eq!(to, "String");
        }
        other => panic!("Found: {:?}", other),
    }
    match <Id as FromValue>::from(&QValue::String("x".to_owned())) {
        Err(QlError::TranslationError(from, to)) => {
            assert_eq!(from, "\"x\"");
            assert_eq!(to, "Id");
        }
        other => panic!("Found: {:?}", other),
    }
    match <Vec<Id> as FromValue>::from(&QValue::Name(Name::new("n"))) {
        Err(QlError::TranslationError(from, to)) => {
            assert_eq!(from, "n");
            assert_eq!(to, "Array");
        }
        other => panic!("Found: {:?}", other),
    }
}

#[test]
fn schema_lookup_last_entry_wins() {
    let mut schema = Schema::new();
    schema.insert(
        Name::new("E"),
        Item::Enum(Enum { variants: vec![Name::new("A")] }),
    );
    schema.insert(
        Name::new("E"),
        Item::Enum(Enum { variants: vec![Name::new("B")] }),
    );
    match schema.get(&Name::new("E")) {
        Some(Item::Enum(e)) => {
            assert_eq!(e.variants.len(), 1);
            assert_eq!(e.variants[0].0, "B");
        }
        other => panic!("Found: {:?}", other),
    }
    assert!(schema.get(&Name::new("F")).is_none());
}

#[test]
fn query_value_equality_is_by_content() {
    assert_eq!(
        QValue::Name(Name::new("x")),
        QValue::Name(Name::new("x"))
    );
    assert_ne!(QValue::Name(Name::new("x")), QValue::String("x".to_owned()));
}

#[test]
fn option_lifting_rules() {
    // Null maps to the optional's empty state.
    let o: Option<Id> = option_from_value(&QValue::Null).unwrap();
    assert!(o.is_none());
    // A non-null value goes through the base coercion.
    let o: Option<Id> = option_from_value(&QValue::Name(Name::new("7"))).unwrap();
    assert_eq!(o.unwrap().0, "7");
    // A base coercion error is propagated unchanged.
    match option_from_value::<Id>(&QValue::String("x".to_owned())) {
        Err(QlError::TranslationError(from, to)) => {
            assert_eq!(from, "\"x\"");
            assert_eq!(to, "Id");
        }
        other => panic!("Found: {:?}", other),
    }
}

#[test]
fn vec_lifting_propagates_first_error() {
    let arr = QValue::Array(vec![
        QValue::Name(Name::new("1")),
        QValue::String("bad".to_owned()),
        QValue::Null,
    ]);
    // The second element is the first to fail, and its error comes back.
    match vec_from_value::<Id>(&arr) {
        Err(QlError::TranslationError(from, to)) => {
            assert_eq!(from, "\"bad\"");
            assert_eq!(to, "Id");
        }
        other => panic!("Found: {:?}", other),
    }
    let ok = QValue::Array(vec![QValue::Name(Name::new("1")), QValue::Name(Name::new("2"))]);
    let v: Vec<Id> = vec_from_value(&ok).unwrap();
    assert_eq!(v.len(), 2);
    assert_eq!(v[0].0, "1");
    assert_eq!(v[1].0, "2");
}

#[test]
fn resolve_lifting_rules() {
    // The empty state resolves to null; a present value to its own
    // resolution; a list element-wise, first failure propagated.
    let none: Option<Id> = None;
    assert_eq!(resolve_option(&none, &[]).unwrap().render(), "null");
    let some: Option<Id> = Some(Id("7".to_owned()));
    assert_eq!(resolve_option(&some, &[]).unwrap().render(), "7");
    let ids = vec![Id("1".to_owned()), Id("2".to_owned())];
    assert_eq!(resolve_vec(&ids, &[]).unwrap().render(), "[1,2]");
    let empty: Vec<Id> = vec![];
    assert_eq!(empty.resolve(&[]).unwrap().render(), "[]");
}
