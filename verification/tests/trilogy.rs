use graphql::execution::select_fields;
use graphql::query::{self, FromValue, Root};
use graphql::result::{self, Resolve};
use graphql::schema::{Enum, Field, Interface, Item, Object, Reflect, ResolveEnum, ResolveObject,
    Schema, Type, TypeKind, schema_type, SCHEMA_NAME};
use graphql::types::{Id, Name};
use graphql::{handle_query, QlError, QlResult};

fn character_fields() -> Vec<Field> {
    vec![
        Field::field(Name::new("id"), Type::non_null(TypeKind::Id)),
        Field::field(
            Name::new("name"),
            Type::non_null(TypeKind::String),
        ),
        Field::field(Name::new("friends"), Type::array(Type::name("Character"))),
        Field::fun(
            Name::new("appearsIn"),
            vec![],
            Type::non_null(TypeKind::Array(Box::new(Type::non_null(TypeKind::Name(
                Name::new("Episode"),
            ))))),
        ),
    ]
}

fn trilogy_schema() -> Schema {
    let mut schema = Schema::new();
    schema.insert(Name::new(SCHEMA_NAME), schema_type());
    schema.insert(
        Name::new("Query"),
        Item::Object(Object {
            implements: vec![],
            fields: vec![
                Field::fun(
                    Name::new("hero"),
                    vec![(Name::new("episode"), Type::name("Episode"))],
                    Type::name("Character"),
                ),
                Field::fun(
                    Name::new("human"),
                    vec![(Name::new("id"), Type::non_null(TypeKind::Id))],
                    Type::name("Human"),
                ),
                Field::fun(
                    Name::new("droid"),
                    vec![(Name::new("id"), Type::non_null(TypeKind::Id))],
                    Type::name("Droid"),
                ),
            ],
        }),
    );
    schema.insert(
        Name::new("Episode"),
        Item::Enum(Enum {
            variants: vec![Name::new("NEWHOPE"), Name::new("EMPIRE"), Name::new("JEDI")],
        }),
    );
    schema.insert(
        Name::new("Character"),
        Item::Interface(Interface {
            fields: character_fields(),
        }),
    );
    let mut human_fields = character_fields();
    human_fields.push(Field::field(
        Name::new("homePlanet"),
        Type { kind: TypeKind::String, nullable: true },
    ));
    schema.insert(
        Name::new("Human"),
        Item::Object(Object {
            implements: vec![Name::new("Character")],
            fields: human_fields,
        }),
    );
    let mut droid_fields = character_fields();
    droid_fields.push(Field::field(
        Name::new("primaryFunction"),
        Type { kind: TypeKind::String, nullable: true },
    ));
    schema.insert(
        Name::new("Droid"),
        Item::Object(Object {
            implements: vec![Name::new("Character")],
            fields: droid_fields,
        }),
    );
    assert!(schema.validate().is_ok());
    schema
}

#[derive(Clone, Debug)]
enum Episode {
    Newhope,
    Empire,
    Jedi,
}

impl FromValue for Episode {
    fn from(value: &query::Value) -> QlResult<Episode> {
        Ok(match <Name as FromValue>::from(value)?.0.as_str() {
            "NEWHOPE" => Episode::Newhope,
            "EMPIRE" => Episode::Empire,
            "JEDI" => Episode::Jedi,
            _ => {
                return Err(QlError::TranslationError(
                    value.text(),
                    "Option<Episode>".to_owned(),
                ))
            }
        })
    }
}

impl Reflect for Episode {
    fn name() -> Name {
        Name::new("Episode")
    }

    fn schema() -> Item {
        Item::Enum(Enum {
            variants: vec![Name::new("NEWHOPE"), Name::new("EMPIRE"), Name::new("JEDI")],
        })
    }
}

impl Resolve for Episode {
    fn resolve(&self, _fields: &[query::Field]) -> QlResult<result::Value> {
        Ok(match self {
            Episode::Newhope => result::Value::String("NEWHOPE".to_owned()),
            Episode::Empire => result::Value::String("EMPIRE".to_owned()),
            Episode::Jedi => result::Value::String("JEDI".to_owned()),
        })
    }
}

impl ResolveEnum for Episode {}

#[derive(Clone, Debug)]
struct Character {
    id: Id,
    name: String,
    friends: Option<Vec<Option<Character>>>,
    appears_in: Vec<Episode>,
}

impl Reflect for Character {
    fn name() -> Name {
        Name::new("Character")
    }

    fn schema() -> Item {
        Item::Interface(Interface {
            fields: character_fields(),
        })
    }
}

impl Resolve for Character {
    fn resolve(&self, fields: &[query::Field]) -> QlResult<result::Value> {
        select_fields(self, fields)
    }
}

impl ResolveObject for Character {
    fn resolve_field(&self, field: &query::Field) -> QlResult<result::Value> {
        match field.name.0.as_str() {
            "id" => self.id.resolve(&field.fields),
            "name" => self.name.resolve(&field.fields),
            "friends" => self.friends.resolve(&field.fields),
            "appearsIn" => self.appears_in.resolve(&field.fields),
            _ => Err(QlError::ResolveError("field", field.name.0.clone(), None)),
        }
    }
}

#[derive(Clone, Debug)]
struct Human {
    id: Id,
    name: String,
    friends: Option<Vec<Option<Character>>>,
    appears_in: Vec<Episode>,
    home_planet: Option<String>,
}

impl Human {
    fn to_character(&self) -> Character {
        Character {
            id: self.id.clone(),
            name: self.name.clone(),
            friends: self.friends.clone(),
            appears_in: self.appears_in.clone(),
        }
    }
}

impl Reflect for Human {
    fn name() -> Name {
        Name::new("Human")
    }

    fn schema() -> Item {
        let mut fields = character_fields();
        fields.push(Field::field(
            Name::new("homePlanet"),
            Type { kind: TypeKind::String, nullable: true },
        ));
        Item::Object(Object {
            implements: vec![Name::new("Character")],
            fields,
        })
    }
}

impl Resolve for Human {
    fn resolve(&self, fields: &[query::Field]) -> QlResult<result::Value> {
        select_fields(self, fields)
    }
}

impl ResolveObject for Human {
    fn resolve_field(&self, field: &query::Field) -> QlResult<result::Value> {
        match field.name.0.as_str() {
            "id" => self.id.resolve(&field.fields),
            "name" => self.name.resolve(&field.fields),
            "friends" => self.friends.resolve(&field.fields),
            "appearsIn" => self.appears_in.resolve(&field.fields),
            "homePlanet" => self.home_planet.resolve(&field.fields),
            _ => Err(QlError::ResolveError("field", field.name.0.clone(), None)),
        }
    }
}

#[derive(Clone, Debug)]
struct Droid {
    id: Id,
    name: String,
    friends: Option<Vec<Option<Character>>>,
    appears_in: Vec<Episode>,
    primary_function: Option<String>,
}

impl Droid {
    fn to_character(&self) -> Character {
        Character {
            id: self.id.clone(),
            name: self.name.clone(),
            friends: self.friends.clone(),
            appears_in: self.appears_in.clone(),
        }
    }
}

#[derive(Clone)]
struct StaticQuery {
    luke: Human,
    vader: Human,
    han: Human,
    leia: Human,
    tarkin: Human,
    artoo: Droid,
}

fn all_episodes() -> Vec<Episode> {
    vec![Episode::Newhope, Episode::Empire, Episode::Jedi]
}

impl StaticQuery {
    fn new() -> StaticQuery {
        let luke = Human {
            id: Id("1000".to_owned()),
            name: "Luke Skywalker".to_owned(),
            friends: None,
            appears_in: all_episodes(),
            home_planet: Some("Tatooine".to_owned()),
        };
        let vader = Human {
            id: Id("1001".to_owned()),
            name: "Darth Vader".to_owned(),
            friends: None,
            appears_in: all_episodes(),
            home_planet: Some("Tatooine".to_owned()),
        };
        let han = Human {
            id: Id("1002".to_owned()),
            name: "Han Solo".to_owned(),
            friends: None,
            appears_in: all_episodes(),
            home_planet: None,
        };
        let leia = Human {
            id: Id("1003".to_owned()),
            name: "Leia Organa".to_owned(),
            friends: None,
            appears_in: all_episodes(),
            home_planet: Some("Alderaan".to_owned()),
        };
        let tarkin = Human {
            id: Id("1004".to_owned()),
            name: "Wilhuff Tarkin".to_owned(),
            friends: None,
            appears_in: vec![Episode::Newhope],
            home_planet: None,
        };
        let artoo = Droid {
            id: Id("2001".to_owned()),
            name: "R2-D2".to_owned(),
            friends: None,
            appears_in: all_episodes(),
            primary_function: Some("Astromech".to_owned()),
        };
        StaticQuery {
            luke,
            vader,
            han,
            leia,
            tarkin,
            artoo,
        }
    }

    fn hero(&self, episode: Option<Episode>) -> QlResult<Option<Character>> {
        match episode {
            Some(Episode::Empire) => Ok(Some(self.luke.to_character())),
            _ => Ok(Some(self.artoo.to_character())),
        }
    }

    fn human(&self, id: Id) -> QlResult<Option<Human>> {
        match id.0.as_str() {
            "1000" => Ok(Some(self.luke.clone())),
            "1001" => Ok(Some(self.vader.clone())),
            "1002" => Ok(Some(self.han.clone())),
            "1003" => Ok(Some(self.leia.clone())),
            "1004" => Ok(Some(self.tarkin.clone())),
            _ => Ok(None),
        }
    }
}

impl Resolve for StaticQuery {
    fn resolve(&self, fields: &[query::Field]) -> QlResult<result::Value> {
        let mut result: Vec<(Name, result::Value)> = vec![];
        for field in fields {
            match field.name.0.as_str() {
                "hero" => {
                    let episode: Option<Episode> =
                        match field.find_arg(&Name::new("episode")) {
                            Some(val) => FromValue::from(val)?,
                            None => None,
                        };
                    let sub = self.hero(episode)?;
                    let sub = sub.resolve(&field.fields)?;
                    result.push((Name::new("hero"), sub));
                }
                "human" => {
                    let id: Id = match field.find_arg(&Name::new("id")) {
                        Some(val) => FromValue::from(val)?,
                        None => panic!("Required non-null argument not supplied: id"),
                    };
                    let sub = self.human(id)?;
                    let sub = sub.resolve(&field.fields)?;
                    result.push((Name::new("human"), sub));
                }
                n => {
                    return Err(QlError::ExecutionError(format!(
                        "Missing field executor in Query: {}",
                        n
                    )))
                }
            }
        }
        Ok(result::Value::Object(result::Object { fields: result }))
    }
}

struct Service {
    query: StaticQuery,
}

impl Service {
    fn new() -> Service {
        Service {
            query: StaticQuery::new(),
        }
    }
}

impl Root for Service {
    fn schema() -> Schema {
        trilogy_schema()
    }
}

impl Resolve for Service {
    fn resolve(&self, fields: &[query::Field]) -> QlResult<result::Value> {
        let mut results: Vec<(Name, result::Value)> = vec![];
        for field in fields {
            match field.name.0.as_str() {
                "query" => {
                    assert_eq!(field.args.len(), 0);
                    let sub = self.query.clone().resolve(&field.fields)?;
                    results.push((Name::new("data"), sub));
                }
                n => {
                    return Err(QlError::ExecutionError(format!(
                        "Missing field executor in Root: {}",
                        n
                    )))
                }
            }
        }
        Ok(result::Value::Object(result::Object { fields: results }))
    }
}

fn query_string(q: &str, expected: &str) {
    let schema = Service::schema();
    let result = handle_query(q, &schema, Service::new()).unwrap().render();
    assert_eq!(expected, result);
}

#[test]
fn find_hero() {
    let q = r#"{
      hero {
        name
      }
    }"#;
    query_string(q, r#"{data:{hero:{name:"R2-D2"}}}"#);
}

#[test]
fn find_hero_id_and_friends() {
    let q = r#"{
      hero {
        id
        name
        #friends {
          #name
        #}
      }
    }"#;
    query_string(q, r#"{data:{hero:{id:2001,name:"R2-D2"}}}"#);
}

#[test]
fn find_luke() {
    let q = r#"{
      human(id: 1000) {
        name
      }
    }"#;
    query_string(q, r#"{data:{human:{name:"Luke Skywalker"}}}"#);
}

#[test]
fn find_missing_human() {
    let q = r#"{
      human(id: 9999) {
        name
      }
    }"#;
    query_string(q, r#"{data:{human:null}}"#);
}

#[test]
fn undeclared_field_fails_validation() {
    let schema = Service::schema();
    let q = r#"{
      hero {
        bogus
      }
    }"#;
    match handle_query(q, &schema, Service::new()) {
        Err(QlError::ValidationError(errors)) => {
            assert_eq!(errors.len(), 1);
            assert_eq!(errors[0].text(), "field not found");
        }
        other => panic!("Found: {:?}", other),
    }
}

#[test]
fn hero_of_empire() {
    let q = r#"{
      hero(episode: EMPIRE) {
        name
      }
    }"#;
    query_string(q, r#"{data:{hero:{name:"Luke Skywalker"}}}"#);
}

#[test]
fn mutation_reported_as_execution_error() {
    let schema = Service::schema();
    match handle_query("mutation", &schema, Service::new()) {
        Err(QlError::ExecutionError(_)) => {}
        other => panic!("Found: {:?}", other),
    }
}

#[test]
fn resolve_error_names_the_field() {
    let luke = StaticQuery::new().luke;
    let q = graphql::query::Field {
        name: Name::new("bogus"),
        alias: None,
        args: vec![],
        fields: vec![],
    };
    match luke.resolve_field(&q) {
        Err(QlError::ResolveError(kind, found, expected)) => {
            assert_eq!(kind, "field");
            assert_eq!(found, "bogus");
            assert!(expected.is_none());
        }
        other => panic!("Found: {:?}", other),
    }
}

#[test]
fn select_fields_empty_selection_succeeds() {
    let luke = StaticQuery::new().luke;
    let v = select_fields(&luke, &[]).unwrap();
    assert_eq!(v.render(), "{}");
}

#[test]
fn select_fields_uses_alias_as_output_name() {
    let luke = StaticQuery::new().luke;
    let q = graphql::query::Field {
        name: Name::new("name"),
        alias: Some(Name::new("fullName")),
        args: vec![],
        fields: vec![],
    };
    let v = select_fields(&luke, &[q]).unwrap();
    assert_eq!(v.render(), "{fullName:\"Luke Skywalker\"}");
}
