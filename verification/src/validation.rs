//! Validation of a query against a schema. Unlike parsing, validation
//! walks the whole query and collects every diagnostic it finds: a
//! client sees all problems with a request in one round trip.

use vstd::prelude::*;
use crate::query::{Field, Query, SpecQField, SpecValue, Value, args_view, qfields_view};
use crate::schema::{find_field, Item, Schema, SpecField, SpecItem, SpecType, SpecTypeKind, Type,
    TypeKind};
use crate::types::Name;
use crate::{QlError, QlResult};

verus! {

/// A validation diagnostic: a fixed code, not free text.
#[derive(Clone, Copy, Debug, PartialEq, Eq, Structural)]
pub enum Error {
    FieldsOnScalarType,
    ObjectTypeMustHaveFields,
    DuplicateField,
    FieldNotFound,
    TypeNotFound,
    ArgumentNotFound,
    DuplicateArgument,
    MissingArgument,
    NullValueMustBeNonNull,
    TypeMismatch,
}

impl Error {
    /// The diagnostic's fixed text.
    pub open spec fn spec_text(self) -> Seq<char> {
        match self {
            Error::FieldsOnScalarType => "fields on scalar type"@,
            Error::ObjectTypeMustHaveFields => "object type must have fields"@,
            Error::DuplicateField => "duplicate field"@,
            Error::FieldNotFound => "field not found"@,
            Error::TypeNotFound => "type not found"@,
            Error::ArgumentNotFound => "argument not found"@,
            Error::DuplicateArgument => "duplicate argument"@,
            Error::MissingArgument => "missing argument"@,
            Error::NullValueMustBeNonNull => "null value must be non-null"@,
            Error::TypeMismatch => "type mismatch"@,
        }
    }

    pub fn text(&self) -> (r: &'static str)
        ensures
            r@ == self.spec_text(),
    {
        match *self {
            Error::FieldsOnScalarType => "fields on scalar type",
            Error::ObjectTypeMustHaveFields => "object type must have fields",
            Error::DuplicateField => "duplicate field",
            Error::FieldNotFound => "field not found",
            Error::TypeNotFound => "type not found",
            Error::ArgumentNotFound => "argument not found",
            Error::DuplicateArgument => "duplicate argument",
            Error::MissingArgument => "missing argument",
            Error::NullValueMustBeNonNull => "null value must be non-null",
            Error::TypeMismatch => "type mismatch",
        }
    }
}

/// The diagnostics for one literal against one declared type: a null
/// against a non-null type is flagged, and then the literal's shape is
/// held against the type's kind; arrays recurse element-wise.
pub open spec fn spec_validate_value(v: SpecValue, ty: SpecType) -> Seq<Error>
    decreases v, 0nat,
{
    let null_errs: Seq<Error> = if v is Null && !ty.nullable {
        seq![Error::NullValueMustBeNonNull]
    } else {
        Seq::empty()
    };
    let kind_errs: Seq<Error> = match ty.kind {
        SpecTypeKind::String => match v {
            SpecValue::Null => Seq::empty(),
            SpecValue::String(_) => Seq::empty(),
            _ => seq![Error::TypeMismatch],
        },
        SpecTypeKind::Id => match v {
            SpecValue::Null => Seq::empty(),
            SpecValue::Name(_) => Seq::empty(),
            _ => seq![Error::TypeMismatch],
        },
        SpecTypeKind::Name(_) => match v {
            SpecValue::Null => Seq::empty(),
            SpecValue::Name(_) => Seq::empty(),
            _ => seq![Error::TypeMismatch],
        },
        SpecTypeKind::Array(el) => match v {
            SpecValue::Null => Seq::empty(),
            SpecValue::Array(vs) => spec_validate_values(vs, *el, 0),
            _ => seq![Error::TypeMismatch],
        },
    };
    null_errs + kind_errs
}

/// The diagnostics for the elements of an array literal from index `i`
/// on, each against the element type.
pub open spec fn spec_validate_values(vs: Seq<SpecValue>, el: SpecType, i: int) -> Seq<Error>
    decreases vs, 1nat, vs.len() - i,
{
    if 0 <= i < vs.len() {
        spec_validate_value(vs[i], el) + spec_validate_values(vs, el, i + 1)
    } else {
        Seq::empty()
    }
}

/// The first declared argument type of the given name.
pub open spec fn find_type(decl: Seq<(Seq<char>, SpecType)>, name: Seq<char>) -> Option<SpecType>
    decreases decl.len(),
{
    if decl.len() == 0 {
        None
    } else if decl[0].0 == name {
        Some(decl[0].1)
    } else {
        find_type(decl.drop_first(), name)
    }
}

/// Whether any of the supplied arguments bears the given name.
pub open spec fn has_arg(args: Seq<(Seq<char>, SpecValue)>, name: Seq<char>) -> bool {
    exists|j: int| 0 <= j < args.len() && (#[trigger] args[j]).0 == name
}

/// The diagnostics for the supplied arguments from index `i` on: a
/// repeated name, an undeclared name, and the value against the declared
/// type.
pub open spec fn spec_validate_args_loop(
    args: Seq<(Seq<char>, SpecValue)>,
    decl: Seq<(Seq<char>, SpecType)>,
    i: int,
) -> Seq<Error>
    decreases args.len() - i,
{
    if 0 <= i < args.len() {
        let dup: Seq<Error> = if exists|j: int|
            0 <= j < i && (#[trigger] args[j]).0 == args[i].0 {
            seq![Error::DuplicateArgument]
        } else {
            Seq::empty()
        };
        let val: Seq<Error> = match find_type(decl, args[i].0) {
            Some(ty) => spec_validate_value(args[i].1, ty),
            None => seq![Error::ArgumentNotFound],
        };
        dup + val + spec_validate_args_loop(args, decl, i + 1)
    } else {
        Seq::empty()
    }
}

/// The diagnostics for declared arguments from index `k` on that are
/// non-null but were not supplied.
pub open spec fn spec_missing_args(
    args: Seq<(Seq<char>, SpecValue)>,
    decl: Seq<(Seq<char>, SpecType)>,
    k: int,
) -> Seq<Error>
    decreases decl.len() - k,
{
    if 0 <= k < decl.len() {
        let missing: Seq<Error> = if !has_arg(args, decl[k].0) && !decl[k].1.nullable {
            seq![Error::MissingArgument]
        } else {
            Seq::empty()
        };
        missing + spec_missing_args(args, decl, k + 1)
    } else {
        Seq::empty()
    }
}

/// All diagnostics for one field's supplied arguments against its
/// declaration.
pub open spec fn spec_validate_args(
    args: Seq<(Seq<char>, SpecValue)>,
    decl: Seq<(Seq<char>, SpecType)>,
) -> Seq<Error> {
    spec_validate_args_loop(args, decl, 0) + spec_missing_args(args, decl, 0)
}

/// The size of a requested field, for recursion over selections.
pub open spec fn qf_size(f: SpecQField) -> nat
    decreases f,
{
    1 + qfs_size(f.fields)
}

pub open spec fn qfs_size(fs: Seq<SpecQField>) -> nat
    decreases fs,
{
    if fs.len() == 0 {
        0
    } else {
        qf_size(fs[0]) + qfs_size(fs.drop_first())
    }
}

pub proof fn lemma_qfs_size_elem(fs: Seq<SpecQField>, i: int)
    requires
        0 <= i < fs.len(),
    ensures
        qf_size(fs[i]) <= qfs_size(fs),
    decreases i,
{
    if i > 0 {
        lemma_qfs_size_elem(fs.drop_first(), i - 1);
        assert(fs.drop_first()[i - 1] == fs[i]);
    }
}

/// The declared fields of an item: an enum has none.
pub open spec fn item_fields(it: SpecItem) -> Seq<SpecField> {
    match it {
        SpecItem::Schema(fs) => fs,
        SpecItem::Object(_, fs) => fs,
        SpecItem::Interface(fs) => fs,
        SpecItem::Enum(_) => Seq::empty(),
    }
}

/// The diagnostics for one requested field against its declaration: the
/// arguments are checked, and then the field's selection against the
/// declared return type — a reference type must resolve and is recursed
/// into, and a selection on a scalar or array type is flagged.
pub open spec fn spec_validate_field(
    f: SpecQField,
    decl: SpecField,
    schema: Map<Seq<char>, SpecItem>,
) -> Seq<Error>
    decreases qf_size(f), 0nat, 0nat,
    via spec_validate_field_decreases
{
    let arg_errs = spec_validate_args(f.args, decl.args);
    let sub_errs: Seq<Error> = match decl.ty.kind {
        SpecTypeKind::Name(n) => {
            if schema.contains_key(n) {
                spec_validate_fields(f.fields, item_fields(schema[n]), schema)
            } else {
                seq![Error::TypeNotFound]
            }
        }
        _ => {
            if f.fields.len() > 0 {
                seq![Error::FieldsOnScalarType]
            } else {
                Seq::empty()
            }
        }
    };
    arg_errs + sub_errs
}

#[via_fn]
proof fn spec_validate_field_decreases(f: SpecQField, decl: SpecField, schema: Map<Seq<char>,
    SpecItem>) {
}

/// The diagnostics for a whole selection set against an item's declared
/// fields: a selection on a field-less item, an empty selection on an
/// item with fields, and then each requested field in order.
pub open spec fn spec_validate_fields(
    fields: Seq<SpecQField>,
    tyfs: Seq<SpecField>,
    schema: Map<Seq<char>, SpecItem>,
) -> Seq<Error>
    decreases qfs_size(fields), 3nat, 0nat,
{
    if tyfs.len() == 0 && fields.len() > 0 {
        seq![Error::FieldsOnScalarType]
    } else {
        let header: Seq<Error> = if tyfs.len() > 0 && fields.len() == 0 {
            seq![Error::ObjectTypeMustHaveFields]
        } else {
            Seq::empty()
        };
        header + spec_validate_fields_loop(fields, tyfs, schema, 0)
    }
}

/// The diagnostics for the requested fields from index `i` on: a
/// repeated field name, an undeclared field name, and each field against
/// its declaration.
/// The diagnostics one requested field contributes, in place: a repeated
/// name, an undeclared name, or the field held against its declaration.
pub open spec fn field_diags(
    fields: Seq<SpecQField>,
    tyfs: Seq<SpecField>,
    schema: Map<Seq<char>, SpecItem>,
    i: int,
) -> Seq<Error>
    decreases qfs_size(fields), 1nat, 0nat,
    via field_diags_decreases
{
    if 0 <= i < fields.len() {
        let dup: Seq<Error> = if exists|j: int|
            0 <= j < i && (#[trigger] fields[j]).name == fields[i].name {
            seq![Error::DuplicateField]
        } else {
            Seq::empty()
        };
        let fe: Seq<Error> = match find_field(tyfs, fields[i].name) {
            None => seq![Error::FieldNotFound],
            Some(decl) => spec_validate_field(fields[i], decl, schema),
        };
        dup + fe
    } else {
        Seq::empty()
    }
}

#[via_fn]
proof fn field_diags_decreases(
    fields: Seq<SpecQField>,
    tyfs: Seq<SpecField>,
    schema: Map<Seq<char>, SpecItem>,
    i: int,
) {
    if 0 <= i < fields.len() {
        lemma_qfs_size_elem(fields, i);
    }
}

pub open spec fn spec_validate_fields_loop(
    fields: Seq<SpecQField>,
    tyfs: Seq<SpecField>,
    schema: Map<Seq<char>, SpecItem>,
    i: int,
) -> Seq<Error>
    decreases qfs_size(fields), 2nat, fields.len() - i,
    via spec_validate_fields_loop_decreases
{
    if 0 <= i < fields.len() {
        field_diags(fields, tyfs, schema, i) + spec_validate_fields_loop(fields, tyfs, schema, i
            + 1)
    } else {
        Seq::empty()
    }
}

#[via_fn]
proof fn spec_validate_fields_loop_decreases(
    fields: Seq<SpecQField>,
    tyfs: Seq<SpecField>,
    schema: Map<Seq<char>, SpecItem>,
    i: int,
) {
    if 0 <= i < fields.len() {
        lemma_qfs_size_elem(fields, i);
    }
}

/// All diagnostics for a query's selection set against a schema: the
/// traversal starts at the reserved schema entry.
pub open spec fn spec_validate_query(
    fields: Seq<SpecQField>,
    schema: Map<Seq<char>, SpecItem>,
) -> Seq<Error> {
    spec_validate_fields(fields, item_fields(schema["schema"@]), schema)
}

/// Validates one literal against one declared type, as
/// `spec_validate_value` describes, appending the diagnostics found.
pub fn validate_value(value: &Value, ty: &Type, errs: &mut Vec<Error>)
    ensures
        final(errs)@ == old(errs)@ + spec_validate_value(value@, ty@),
    decreases crate::query::value_size(value@),
{
    let ghost e0 = errs@;
    if let Value::Null = value {
        if !ty.nullable {
            errs.push(Error::NullValueMustBeNonNull);
        }
    }
    let ghost e1 = errs@;
    match &ty.kind {
        TypeKind::String => match value {
            Value::Null => {}
            Value::String(_) => {}
            _ => {
                errs.push(Error::TypeMismatch);
            }
        },
        TypeKind::Id => match value {
            Value::Null => {}
            Value::Name(_) => {}
            _ => {
                errs.push(Error::TypeMismatch);
            }
        },
        TypeKind::Name(_) => match value {
            Value::Null => {}
            Value::Name(_) => {}
            _ => {
                errs.push(Error::TypeMismatch);
            }
        },
        TypeKind::Array(el) => match value {
            Value::Null => {}
            Value::Array(vs) => {
                let ghost vsv = crate::query::values_view(vs@);
                proof {
                    assert(value@ matches SpecValue::Array(x) && x =~= vsv);
                }
                let n = vs.len();
                let mut i: usize = 0;
                while i < n
                    invariant
                        0 <= i <= n,
                        n == vs@.len(),
                        vsv == crate::query::values_view(vs@),
                        value@ == SpecValue::Array(vsv),
                        forall|k: int|
                            0 <= k < vs@.len() ==> vsv[k] == (#[trigger] vs@[k])@,
                        errs@ + spec_validate_values(vsv, el@, i as int) == e1
                            + spec_validate_values(vsv, el@, 0),
                    decreases n - i,
                {
                    proof {
                        assert(vsv[i as int] == vs@[i as int]@);
                        crate::query::lemma_values_size_elem(vsv, i as int);
                        assert(crate::query::value_size(vs@[i as int]@) < crate::query::value_size(
                            value@,
                        ));
                    }
                    validate_value(&vs[i], el, errs);
                    proof {
                        assert((errs@ + spec_validate_values(vsv, el@, i + 1 as int)) =~= (errs@
                            .subrange(0, errs@.len() - spec_validate_value(vsv[i as int], el@).len())
                            + (spec_validate_value(vsv[i as int], el@) + spec_validate_values(
                            vsv,
                            el@,
                            i + 1 as int,
                        ))));
                    }
                    i = i + 1;
                }
                proof {
                    assert(spec_validate_values(vsv, el@, n as int) =~= Seq::<Error>::empty());
                    assert(errs@ =~= e1 + spec_validate_values(vsv, el@, 0));
                }
            }
            _ => {
                errs.push(Error::TypeMismatch);
            }
        },
    }
    proof {
        assert(errs@ =~= e0 + spec_validate_value(value@, ty@));
    }
}

/// Validates the supplied arguments against the declared ones, as
/// `spec_validate_args` describes, appending the diagnostics found.
pub fn validate_args(args: &Vec<(Name, Value)>, decl: &Vec<(Name, Type)>, errs: &mut Vec<Error>)
    ensures
        final(errs)@ == old(errs)@ + spec_validate_args(
            args_view(args@),
            crate::parse_base::views_of(decl@),
        ),
{
    let ghost av = args_view(args@);
    let ghost dv = crate::parse_base::views_of(decl@);
    let ghost e0 = errs@;
    let n = args.len();
    let mut i: usize = 0;
    while i < n
        invariant
            0 <= i <= n,
            n == args@.len(),
            av == args_view(args@),
            dv == crate::parse_base::views_of(decl@),
            errs@ + spec_validate_args_loop(av, dv, i as int) == e0 + spec_validate_args_loop(
                av,
                dv,
                0,
            ),
        decreases n - i,
    {
        let ghost epre = errs@;
        let mut dup = false;
        let mut j: usize = 0;
        while j < i
            invariant
                0 <= j <= i < n,
                n == args@.len(),
                av == args_view(args@),
                dup == exists|t: int| 0 <= t < j && (#[trigger] av[t]).0 == av[i as int].0,
            decreases i - j,
        {
            proof {
                assert(av[j as int] == (args@[j as int].0@, args@[j as int].1@));
                assert(av[i as int] == (args@[i as int].0@, args@[i as int].1@));
            }
            if args[j].0.eq(&args[i].0) {
                dup = true;
            }
            j = j + 1;
        }
        if dup {
            errs.push(Error::DuplicateArgument);
        }
        let ghost edup = errs@;
        proof {
            assert(dv.skip(0) =~= dv);
        }
        let mut found: bool = false;
        let mut k: usize = 0;
        let m = decl.len();
        while k < m && !found
            invariant
                0 <= k <= m,
                0 <= i < n,
                m == decl@.len(),
                dv == crate::parse_base::views_of(decl@),
                found ==> (find_type(dv, av[i as int].0) matches Some(ty) && errs@ == edup
                    + spec_validate_value(av[i as int].1, ty)),
                !found ==> errs@ == edup && find_type(dv, av[i as int].0) == find_type(
                    dv.skip(k as int),
                    av[i as int].0,
                ),
                av == args_view(args@),
                n == args@.len(),
            decreases m - k,
        {
            proof {
                assert(dv.skip(k as int)[0] == dv[k as int]);
                assert(dv.skip(k as int).drop_first() =~= dv.skip(k as int + 1));
                assert(dv[k as int] == (decl@[k as int].0@, decl@[k as int].1@));
                assert(av[i as int] == (args@[i as int].0@, args@[i as int].1@));
            }
            if decl[k].0.eq(&args[i].0) {
                found = true;
                validate_value(&args[i].1, &decl[k].1, errs);
            }
            k = k + 1;
        }
        if !found {
            proof {
                assert(dv.skip(m as int) =~= Seq::<(Seq<char>, SpecType)>::empty());
            }
            errs.push(Error::ArgumentNotFound);
        }
        proof {
            let dupv: Seq<Error> = if exists|t: int|
                0 <= t < i && (#[trigger] av[t]).0 == av[i as int].0 {
                seq![Error::DuplicateArgument]
            } else {
                Seq::<Error>::empty()
            };
            let valv: Seq<Error> = match find_type(dv, av[i as int].0) {
                Some(ty) => spec_validate_value(av[i as int].1, ty),
                None => seq![Error::ArgumentNotFound],
            };
            assert(av[i as int] == (args@[i as int].0@, args@[i as int].1@));
            assert(errs@ =~= epre + (dupv + valv));
            assert((epre + (dupv + valv)) + spec_validate_args_loop(av, dv, i + 1 as int) =~= epre
                + ((dupv + valv) + spec_validate_args_loop(av, dv, i + 1 as int)));
        }
        i = i + 1;
    }
    proof {
        assert(spec_validate_args_loop(av, dv, n as int) =~= Seq::<Error>::empty());
        assert(errs@ =~= e0 + spec_validate_args_loop(av, dv, 0));
    }
    let ghost emid = errs@;
    let m = decl.len();
    let mut k: usize = 0;
    while k < m
        invariant
            0 <= k <= m,
            m == decl@.len(),
            n == args@.len(),
            av == args_view(args@),
            dv == crate::parse_base::views_of(decl@),
            errs@ + spec_missing_args(av, dv, k as int) == emid + spec_missing_args(av, dv, 0),
        decreases m - k,
    {
        let ghost epre = errs@;
        let mut supplied = false;
        let mut j: usize = 0;
        while j < n
            invariant
                0 <= j <= n,
                n == args@.len(),
                av == args_view(args@),
                dv == crate::parse_base::views_of(decl@),
                m == decl@.len(),
                0 <= k < m,
                supplied == exists|t: int| 0 <= t < j && (#[trigger] av[t]).0 == dv[k as int].0,
            decreases n - j,
        {
            proof {
                assert(av[j as int] == (args@[j as int].0@, args@[j as int].1@));
                assert(dv[k as int] == (decl@[k as int].0@, decl@[k as int].1@));
            }
            if args[j].0.eq(&decl[k].0) {
                supplied = true;
            }
            j = j + 1;
        }
        if !supplied && !decl[k].1.nullable {
            proof {
                assert(!has_arg(av, dv[k as int].0));
            }
            errs.push(Error::MissingArgument);
        }
        proof {
            let missv: Seq<Error> = if !has_arg(av, dv[k as int].0) && !dv[k as int].1.nullable {
                seq![Error::MissingArgument]
            } else {
                Seq::<Error>::empty()
            };
            if supplied {
                assert(has_arg(av, dv[k as int].0));
            }
            assert(errs@ =~= epre + missv);
            assert((epre + missv) + spec_missing_args(av, dv, k + 1 as int) =~= epre + (missv
                + spec_missing_args(av, dv, k + 1 as int)));
        }
        k = k + 1;
    }
    proof {
        assert(spec_missing_args(av, dv, m as int) =~= Seq::<Error>::empty());
        assert(errs@ =~= emid + spec_missing_args(av, dv, 0));
        assert(errs@ =~= e0 + spec_validate_args(av, dv));
    }
}

/// The first declared field of the given name, as `find_field` describes.
pub fn get_field<'a>(fields: &'a [crate::schema::Field], name: &Name) -> (r: Option<
    &'a crate::schema::Field,
>)
    ensures
        find_field(crate::schema::fields_view(fields@), name@) matches Some(d) ==> (r matches
            Some(x) && x@ == d),
        find_field(crate::schema::fields_view(fields@), name@) is None ==> r is None,
{
    let ghost fv = crate::schema::fields_view(fields@);
    let n = fields.len();
    let mut i: usize = 0;
    proof {
        assert(fv.skip(0) =~= fv);
    }
    while i < n
        invariant
            0 <= i <= n,
            n == fields@.len(),
            fv == crate::schema::fields_view(fields@),
            find_field(fv, name@) == find_field(fv.skip(i as int), name@),
        decreases n - i,
    {
        proof {
            assert(fv.skip(i as int)[0] == fv[i as int]);
            assert(fv.skip(i as int).drop_first() =~= fv.skip(i as int + 1));
        }
        if vstd::slice::slice_index_get(fields, i).name.eq(name) {
            return Some(vstd::slice::slice_index_get(fields, i));
        }
        i = i + 1;
    }
    proof {
        assert(fv.skip(n as int) =~= Seq::<SpecField>::empty());
    }
    None
}

/// Validates one requested field against its declaration, as
/// `spec_validate_field` describes, appending the diagnostics found.
pub fn validate_field(
    field: &Field,
    decl: &crate::schema::Field,
    schema: &Schema,
    errs: &mut Vec<Error>,
)
    ensures
        final(errs)@ == old(errs)@ + spec_validate_field(field@, decl@, schema@),
    decreases qf_size(field@), 0nat, 0nat,
{
    let ghost e0 = errs@;
    validate_args(&field.args, &decl.args, errs);
    proof {
        assert(field@.args =~= args_view(field.args@));
        assert(decl@.args =~= crate::parse_base::views_of(decl.args@));
    }
    match decl.ty.as_name_null() {
        Some(n) => match schema.get(n) {
            Some(item) => {
                proof {
                    assert(field@.fields =~= qfields_view(field.fields@));
                    assert(qfs_size(qfields_view(field.fields@)) < qf_size(field@));
                }
                validate_fields_sel(&field.fields, item, schema, errs);
            }
            None => {
                errs.push(Error::TypeNotFound);
            }
        },
        None => {
            if field.fields.len() > 0 {
                errs.push(Error::FieldsOnScalarType);
            }
        }
    }
    proof {
        assert(errs@ =~= e0 + spec_validate_field(field@, decl@, schema@));
    }
}

/// Validates a selection set against an item, as `spec_validate_fields`
/// describes, appending the diagnostics found.
pub fn validate_fields_sel(fields: &Vec<Field>, ty: &Item, schema: &Schema, errs: &mut Vec<Error>)
    ensures
        final(errs)@ == old(errs)@ + spec_validate_fields(
            qfields_view(fields@),
            ty.spec_fields(),
            schema@,
        ),
    decreases qfs_size(qfields_view(fields@)), 1nat, 0nat,
{
    let ghost fsv = qfields_view(fields@);
    let ghost e0 = errs@;
    let ty_fields = ty.fields();
    if ty_fields.len() == 0 && fields.len() > 0 {
        errs.push(Error::FieldsOnScalarType);
        proof {
            assert(errs@ =~= e0 + spec_validate_fields(fsv, ty.spec_fields(), schema@));
        }
        return ;
    }
    if ty_fields.len() > 0 && fields.len() == 0 {
        errs.push(Error::ObjectTypeMustHaveFields);
    }
    let ghost e1 = errs@;
    let n = fields.len();
    let mut i: usize = 0;
    while i < n
        invariant
            0 <= i <= n,
            n == fields@.len(),
            fsv == qfields_view(fields@),
            crate::schema::fields_view(ty_fields@) == ty.spec_fields(),
            errs@ + spec_validate_fields_loop(fsv, ty.spec_fields(), schema@, i as int) == e1
                + spec_validate_fields_loop(fsv, ty.spec_fields(), schema@, 0),
        decreases n - i,
    {
        let ghost epre = errs@;
        let mut dup = false;
        let mut j: usize = 0;
        while j < i
            invariant
                0 <= j <= i < n,
                n == fields@.len(),
                fsv == qfields_view(fields@),
                dup == exists|t: int|
                    0 <= t < j && (#[trigger] fsv[t]).name == fsv[i as int].name,
            decreases i - j,
        {
            proof {
                assert(fsv[j as int] == fields@[j as int]@);
                assert(fsv[i as int] == fields@[i as int]@);
            }
            if fields[j].name.eq(&fields[i].name) {
                dup = true;
            }
            j = j + 1;
        }
        if dup {
            errs.push(Error::DuplicateField);
        }
        match get_field(ty_fields, &fields[i].name) {
            None => {
                errs.push(Error::FieldNotFound);
            }
            Some(decl) => {
                proof {
                    lemma_qfs_size_elem(fsv, i as int);
                }
                validate_field(&fields[i], decl, schema, errs);
            }
        }
        proof {
            let dupv: Seq<Error> = if exists|t: int|
                0 <= t < i && (#[trigger] fsv[t]).name == fsv[i as int].name {
                seq![Error::DuplicateField]
            } else {
                Seq::<Error>::empty()
            };
            let fev: Seq<Error> = match find_field(ty.spec_fields(), fsv[i as int].name) {
                None => seq![Error::FieldNotFound],
                Some(d) => spec_validate_field(fsv[i as int], d, schema@),
            };
            assert(dupv + fev =~= field_diags(fsv, ty.spec_fields(), schema@, i as int));
            assert(errs@ =~= epre + (dupv + fev));
            assert((epre + (dupv + fev)) + spec_validate_fields_loop(
                fsv,
                ty.spec_fields(),
                schema@,
                i + 1 as int,
            ) =~= epre + ((dupv + fev) + spec_validate_fields_loop(
                fsv,
                ty.spec_fields(),
                schema@,
                i + 1 as int,
            )));
        }
        i = i + 1;
    }
    proof {
        assert(spec_validate_fields_loop(fsv, ty.spec_fields(), schema@, n as int) =~= Seq::<
            Error,
        >::empty());
        assert(errs@ =~= e1 + spec_validate_fields_loop(fsv, ty.spec_fields(), schema@, 0));
        assert(errs@ =~= e0 + spec_validate_fields(fsv, ty.spec_fields(), schema@));
    }
}

/// Validates a query against a schema: every diagnostic of
/// `spec_validate_query` is collected, and the request is accepted
/// exactly when there is none.
pub fn validate_query(query: &Query, schema: &Schema) -> (r: QlResult<()>)
    requires
        query@ is Query,
        schema@.contains_key("schema"@),
    ensures
        ({
            let ds = spec_validate_query(query@->Query_0, schema@);
            match r {
                Ok(()) => ds.len() == 0,
                Err(e) => ds.len() > 0 && (e matches QlError::ValidationError(v) && v@ == ds),
            }
        }),
{
    let mut errs: Vec<Error> = Vec::new();
    match query {
        Query::Query(fields) => {
            let root = match schema.get(&Name::new("schema")) {
                Some(item) => item,
                None => {
                    proof {
                        assert(false);
                    }
                    unreached()
                }
            };
            validate_fields_sel(fields, root, schema, &mut errs);
            proof {
                assert(query@->Query_0 =~= qfields_view(fields@));
                assert(errs@ =~= spec_validate_query(query@->Query_0, schema@));
            }
        }
        Query::Mutation => {
            proof {
                assert(false);
            }
            return unreached();
        }
    }
    if errs.len() == 0 {
        Ok(())
    } else {
        Err(QlError::ValidationError(errs))
    }
}

} // verus!
