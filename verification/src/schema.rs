//! The schema model: the validated type universe a query is checked
//! against. A schema maps names to items; an item is the schema root, an
//! object type, an interface, or an enum.

use vstd::prelude::*;
use crate::types::Name;

verus! {

/// The reserved key under which the schema root is stored.
pub const SCHEMA_NAME: &'static str = "schema";

/// A schema: a mapping from names to items. Looking a name up yields the
/// item of the last entry holding it, as `items_map` describes.
#[derive(Debug)]
pub struct Schema {
    pub items: Vec<(Name, Item)>,
}

#[derive(Debug)]
pub enum Item {
    Schema(Interface),
    Object(Object),
    Interface(Interface),
    Enum(Enum),
}

#[derive(Debug)]
pub struct Object {
    pub implements: Vec<Name>,
    pub fields: Vec<Field>,
}

#[derive(Debug)]
pub struct Interface {
    pub fields: Vec<Field>,
}

#[derive(Debug)]
pub struct Enum {
    pub variants: Vec<Name>,
}

/// A field declaration: a name, the declared arguments, and the return
/// type.
#[derive(Debug)]
pub struct Field {
    pub name: Name,
    pub args: Vec<(Name, Type)>,
    pub ty: Type,
}

/// A schema-side type with its nullability; a type is nullable unless a
/// `!` suffix said otherwise.
#[derive(Debug)]
pub struct Type {
    pub kind: TypeKind,
    pub nullable: bool,
}

#[derive(Debug)]
pub enum TypeKind {
    String,
    Id,
    Name(Name),
    Array(Box<Type>),
}

/// The mathematical model of a schema-side type.
#[verifier::ext_equal]
pub struct SpecType {
    pub kind: SpecTypeKind,
    pub nullable: bool,
}

#[verifier::ext_equal]
pub enum SpecTypeKind {
    String,
    Id,
    Name(Seq<char>),
    Array(Box<SpecType>),
}

/// The mathematical model of a field declaration.
#[verifier::ext_equal]
pub struct SpecField {
    pub name: Seq<char>,
    pub args: Seq<(Seq<char>, SpecType)>,
    pub ty: SpecType,
}

/// The first declared field of the given name.
pub open spec fn find_field(fs: Seq<SpecField>, name: Seq<char>) -> Option<SpecField>
    decreases fs.len(),
{
    if fs.len() == 0 {
        None
    } else if fs[0].name == name {
        Some(fs[0])
    } else {
        find_field(fs.drop_first(), name)
    }
}

/// The mathematical model of a schema item.
#[verifier::ext_equal]
pub enum SpecItem {
    Schema(Seq<SpecField>),
    Object(Seq<Seq<char>>, Seq<SpecField>),
    Interface(Seq<SpecField>),
    Enum(Seq<Seq<char>>),
}

/// The model of a schema-side type, by structural recursion.
pub open spec fn type_view(t: Type) -> SpecType
    decreases t,
{
    SpecType {
        kind: match t.kind {
            TypeKind::String => SpecTypeKind::String,
            TypeKind::Id => SpecTypeKind::Id,
            TypeKind::Name(n) => SpecTypeKind::Name(n@),
            TypeKind::Array(b) => SpecTypeKind::Array(Box::new(type_view(*b))),
        },
        nullable: t.nullable,
    }
}

impl View for Type {
    type V = SpecType;

    open spec fn view(&self) -> SpecType {
        type_view(*self)
    }
}

impl View for Field {
    type V = SpecField;

    open spec fn view(&self) -> SpecField {
        SpecField {
            name: self.name@,
            args: Seq::new(self.args@.len(), |i: int| (self.args@[i].0@, self.args@[i].1@)),
            ty: self.ty@,
        }
    }
}

/// The models of a sequence of field declarations.
pub open spec fn fields_view(fs: Seq<Field>) -> Seq<SpecField> {
    Seq::new(fs.len(), |i: int| fs[i]@)
}

/// The models of a sequence of names.
pub open spec fn names_view(ns: Seq<Name>) -> Seq<Seq<char>> {
    Seq::new(ns.len(), |i: int| ns[i]@)
}

impl View for Item {
    type V = SpecItem;

    open spec fn view(&self) -> SpecItem {
        match self {
            Item::Schema(i) => SpecItem::Schema(fields_view(i.fields@)),
            Item::Object(o) => SpecItem::Object(names_view(o.implements@), fields_view(o.fields@)),
            Item::Interface(i) => SpecItem::Interface(fields_view(i.fields@)),
            Item::Enum(e) => SpecItem::Enum(names_view(e.variants@)),
        }
    }
}

/// The mapping a sequence of entries denotes: a later entry for a name
/// overrides an earlier one.
pub open spec fn items_map(items: Seq<(Name, Item)>) -> Map<Seq<char>, SpecItem>
    decreases items.len(),
{
    if items.len() == 0 {
        Map::empty()
    } else {
        items_map(items.drop_last()).insert(items.last().0@, items.last().1@)
    }
}

impl View for Schema {
    type V = Map<Seq<char>, SpecItem>;

    open spec fn view(&self) -> Map<Seq<char>, SpecItem> {
        items_map(self.items@)
    }
}

/// Looking up a name in the entry list: the last entry wins.
pub proof fn lemma_items_map_lookup(items: Seq<(Name, Item)>, name: Seq<char>, j: int)
    requires
        0 <= j < items.len(),
        items[j].0@ == name,
        forall|k: int| j < k < items.len() ==> (#[trigger] items[k].0)@ != name,
    ensures
        items_map(items).contains_key(name),
        items_map(items)[name] == items[j].1@,
    decreases items.len(),
{
    if j == items.len() - 1 {
    } else {
        lemma_items_map_lookup(items.drop_last(), name, j);
    }
}

/// A name held by no entry is not in the mapping.
pub proof fn lemma_items_map_absent(items: Seq<(Name, Item)>, name: Seq<char>)
    requires
        forall|k: int| 0 <= k < items.len() ==> (#[trigger] items[k].0)@ != name,
    ensures
        !items_map(items).contains_key(name),
    decreases items.len(),
{
    if items.len() > 0 {
        lemma_items_map_absent(items.drop_last(), name);
    }
}

impl Schema {
    /// An empty schema.
    pub fn new() -> (r: Schema)
        ensures
            r@ == Map::<Seq<char>, SpecItem>::empty(),
            r.items@.len() == 0,
    {
        let r = Schema { items: Vec::new() };
        proof {
            assert(r@ =~= Map::<Seq<char>, SpecItem>::empty());
        }
        r
    }

    /// Adds an entry; it overrides any earlier entry for the same name.
    pub fn insert(&mut self, name: Name, item: Item)
        ensures
            final(self)@ == old(self)@.insert(name@, item@),
            final(self).items@.len() == old(self).items@.len() + 1,
    {
        let ghost olditems = self.items@;
        let ghost nv = name@;
        let ghost iv = item@;
        self.items.push((name, item));
        proof {
            assert(self.items@.drop_last() =~= olditems);
            assert(self.items@.last().0@ == nv);
            assert(self.items@.last().1@ == iv);
        }
    }

    /// Looks a name up: the item of the last entry holding it, if any.
    pub fn get(&self, name: &Name) -> (r: Option<&Item>)
        ensures
            self@.contains_key(name@) ==> (r matches Some(it) && it@ == self@[name@]),
            !self@.contains_key(name@) ==> r is None,
    {
        let n = self.items.len();
        let mut k = n;
        while k > 0
            invariant
                0 <= k <= n,
                n == self.items@.len(),
                forall|t: int| k <= t < n ==> (#[trigger] self.items@[t].0)@ != name@,
            decreases k,
        {
            if self.items[k - 1].0.eq(name) {
                proof {
                    lemma_items_map_lookup(self.items@, name@, k - 1);
                }
                return Some(&self.items[k - 1].1);
            }
            k = k - 1;
        }
        proof {
            lemma_items_map_absent(self.items@, name@);
        }
        None
    }

    /// Schema-level validation accepts every schema; checking that every
    /// referenced type resolves is deliberately left open.
    pub fn validate(&self) -> (r: Result<(), ()>)
        ensures
            r is Ok,
    {
        Ok(())
    }
}

/// Compile-time reflection of a data type into its schema item; a
/// code-generation layer outside this crate may implement it for
/// concrete data types.
pub trait Reflect {
    fn name() -> Name;

    fn schema() -> Item;
}

/// Resolution for structured objects: given one requested field, return
/// its value, typically by name-matching against the object's members.
pub trait ResolveObject: Reflect + crate::result::Resolve {
    fn resolve_field(&self, field: &crate::query::Field) -> crate::QlResult<crate::result::Value>;
}

/// Resolution for enum values, which resolve to their variant's name.
pub trait ResolveEnum: Reflect + crate::result::Resolve {

}

/// The schema root modeled as an object type with one `query` field.
pub fn schema_type() -> (r: Item)
    ensures
        r@ == SpecItem::Object(
            Seq::empty(),
            seq![
                SpecField {
                    name: "query"@,
                    args: Seq::empty(),
                    ty: SpecType { kind: SpecTypeKind::Name("Query"@), nullable: true },
                },
            ],
    ),
{
    let mut fields: Vec<Field> = Vec::new();
    fields.push(Field::fun(Name::new("query"), Vec::new(), Type::name("Query")));
    let r = Item::Object(Object { implements: Vec::new(), fields });
    proof {
        assert(fields_view(fields@).len() == 1);
        assert(fields_view(fields@)[0] =~~= SpecField {
            name: "query"@,
            args: Seq::empty(),
            ty: SpecType { kind: SpecTypeKind::Name("Query"@), nullable: true },
        });
        assert(r@ matches SpecItem::Object(im, fs) && im =~~= Seq::<Seq<char>>::empty() && fs =~~= seq![
            SpecField {
                name: "query"@,
                args: Seq::empty(),
                ty: SpecType { kind: SpecTypeKind::Name("Query"@), nullable: true },
            },
        ]);
    }
    r
}

impl Item {
    /// The declared fields: an enum has none, the other items theirs.
    pub open spec fn spec_fields(self) -> Seq<SpecField> {
        match self@ {
            SpecItem::Schema(fs) => fs,
            SpecItem::Object(_, fs) => fs,
            SpecItem::Interface(fs) => fs,
            SpecItem::Enum(_) => Seq::empty(),
        }
    }

    /// The declared fields; the empty sequence for an enum.
    pub fn fields(&self) -> (r: &[Field])
        ensures
            fields_view(r@) == self.spec_fields(),
    {
        match self {
            Item::Object(obj) => {
                let r = obj.fields.as_slice();
                proof {
                    assert(fields_view(r@) =~= self.spec_fields());
                }
                r
            }
            Item::Schema(i) => {
                let r = i.fields.as_slice();
                proof {
                    assert(fields_view(r@) =~= self.spec_fields());
                }
                r
            }
            Item::Interface(i) => {
                let r = i.fields.as_slice();
                proof {
                    assert(fields_view(r@) =~= self.spec_fields());
                }
                r
            }
            Item::Enum(_) => {
                let r: &[Field] = &[];
                proof {
                    assert(fields_view(r@) =~= self.spec_fields());
                }
                r
            }
        }
    }

    /// The first declared field of the given name; the caller must know
    /// one exists.
    pub fn assert_field(&self, name: Name) -> (r: &Field)
        requires
            exists|i: int|
                0 <= i < self.spec_fields().len() && (#[trigger] self.spec_fields()[i]).name
                    == name@,
        ensures
            find_field(self.spec_fields(), name@) matches Some(d) && r@ == d,
    {
        let ghost fv = self.spec_fields();
        let fields = self.fields();
        let n = fields.len();
        let mut k: usize = 0;
        proof {
            assert(fv.skip(0) =~= fv);
        }
        while k < n
            invariant
                0 <= k <= n,
                n == fields@.len(),
                fields_view(fields@) == fv,
                fv == self.spec_fields(),
                exists|i: int|
                    0 <= i < fv.len() && (#[trigger] fv[i]).name == name@,
                find_field(fv, name@) == find_field(fv.skip(k as int), name@),
                forall|t: int| 0 <= t < k ==> (#[trigger] fv[t]).name != name@,
            decreases n - k,
        {
            proof {
                assert(fv[k as int] == fields@[k as int]@);
                assert(fv.skip(k as int)[0] == fv[k as int]);
                assert(fv.skip(k as int).drop_first() =~= fv.skip(k as int + 1));
            }
            if fields[k].name.eq(&name) {
                return &fields[k];
            }
            k = k + 1;
        }
        proof {
            assert(false);
        }
        unreached()
    }
}

impl Field {
    /// A field with no arguments.
    pub fn field(name: Name, ty: Type) -> (r: Field)
        ensures
            r@.name == name@,
            r@.args == Seq::<(Seq<char>, SpecType)>::empty(),
            r@.ty == ty@,
    {
        let r = Field { name, args: Vec::new(), ty };
        proof {
            assert(r@.args =~= Seq::<(Seq<char>, SpecType)>::empty());
        }
        r
    }

    /// A field with arguments: a declared operation.
    pub fn fun(name: Name, args: Vec<(Name, Type)>, ty: Type) -> (r: Field)
        ensures
            r@.name == name@,
            r@.args == Seq::new(args@.len(), |i: int| ((args@[i].0)@, (args@[i].1)@)),
            r@.ty == ty@,
    {
        Field { name, args, ty }
    }
}

impl Type {
    /// A type with the non-null mark set.
    pub fn non_null(kind: TypeKind) -> (r: Type)
        ensures
            r == (Type { kind, nullable: false }),
    {
        Type { kind, nullable: false }
    }

    /// A nullable array of the given element type.
    pub fn array(ty: Type) -> (r: Type)
        ensures
            r@ == (SpecType { kind: SpecTypeKind::Array(Box::new(ty@)), nullable: true }),
    {
        Type { kind: TypeKind::Array(Box::new(ty)), nullable: true }
    }

    /// A nullable reference to the named item.
    pub fn name(s: &str) -> (r: Type)
        ensures
            r@ == (SpecType { kind: SpecTypeKind::Name(s@), nullable: true }),
    {
        Type { kind: TypeKind::Name(Name::new(s)), nullable: true }
    }

    /// Whether the type accepts the null value.
    pub fn is_nullable(&self) -> (r: bool)
        ensures
            r == self@.nullable,
    {
        self.nullable
    }

    /// The referenced name; the caller must know this is a reference type.
    pub fn assert_name(&self) -> (r: &Name)
        requires
            self@.kind is Name,
        ensures
            self@.kind == SpecTypeKind::Name(r@),
    {
        match &self.kind {
            TypeKind::Name(n) => n,
            _ => unreached(),
        }
    }

    /// The referenced name, or nothing for a scalar or array type.
    pub fn as_name_null(&self) -> (r: Option<&Name>)
        ensures
            self@.kind matches SpecTypeKind::Name(n) ==> (r matches Some(m) && m@ == n),
            !(self@.kind is Name) ==> r is None,
    {
        match &self.kind {
            TypeKind::Name(n) => Some(n),
            _ => None,
        }
    }
}

} // verus!
