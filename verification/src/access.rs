//! Element access: `[[`, `[` and `$` on a subject's type.

use vstd::prelude::*;

use crate::diagnostics;
use crate::diagnostics::nearest_field_name;
use crate::explain::field_names;
use crate::findings::{TypeError, TypeErrorKind, TypeErrorKindV, TypeErrorV};
use crate::operands;
use crate::operands::{union_field_names, widen_error_container, VectorIndexShape};
use crate::syntax::TextRange;
use crate::table;
use crate::type_ops::{any, null, scalar, union_of, union_of_two, unknown};
use crate::types;
use crate::types::{Atomic, FieldV, RecordField, Ty, TyKind, TyV};
use crate::unify::field_types;

verus! {

broadcast use crate::types::group_type_views;

/// What an access gives: whether some shape of the subject is not modelled, and
/// the type of the result or why there is none.
pub type AccessV = (bool, Result<TyV, TypeErrorV>);

/// An access that is not modelled.
pub open spec fn refused() -> AccessV {
    (true, Ok(TyV::Unknown))
}

pub open spec fn given(ty: TyV) -> AccessV {
    (false, Ok(ty))
}

pub open spec fn failed(range: TextRange, kind: TypeErrorKindV) -> AccessV {
    (false, Err(TypeErrorV { range, kind }))
}

/// The key of an `[[` access, where it is a literal.
pub struct KeyV {
    /// A literal position, counted from zero.
    pub position: Option<nat>,
    pub name: Option<Seq<char>>,
}

/// The element at a literal position.
pub open spec fn at_position(
    items: Seq<TyV>,
    position: nat,
    container: TyV,
    range: TextRange,
) -> AccessV {
    if position < items.len() {
        given(items[position as int])
    } else {
        failed(
            range,
            TypeErrorKindV::PositionDoesNotExist { position: (position + 1) as usize, container },
        )
    }
}

/// The type of a named field.
pub open spec fn named_field(
    fields: Seq<FieldV>,
    name: Seq<char>,
    container: TyV,
    range: TextRange,
) -> AccessV {
    match table::field_type(fields, name) {
        Some(ty) => given(ty),
        None => failed(
            range,
            TypeErrorKindV::FieldDoesNotExist {
                suggestion: diagnostics::nearest(name, table::field_names(fields)),
                field: name,
                container,
            },
        ),
    }
}

/// `[[`: the type of one element. A union must allow the access in every shape.
pub open spec fn extracted(subject: TyV, key: KeyV, range: TextRange, key_range: TextRange) -> AccessV
    decreases subject, 1int, 0int,
{
    match subject {
        TyV::Union(members) => {
            let (unmodelled, outcome) = extracted_each(
                members,
                key,
                range,
                key_range,
                0,
                Seq::empty(),
                false,
            );
            (
                unmodelled,
                match outcome {
                    Ok(results) => Ok(TyV::union_of(results)),
                    Err(error) => Err(operands::widened(error, subject)),
                },
            )
        },
        TyV::Unknown => given(TyV::Unknown),
        TyV::Any => given(TyV::Any),
        TyV::Scalar(atomic) => given(TyV::Scalar(atomic)),
        TyV::Vector(element) => given(*element),
        TyV::List(element) => given(*element),
        TyV::NamedVector(element) => given(named_element(*element, key.name is Some)),
        TyV::NamedList(element) => given(named_element(*element, key.name is Some)),
        TyV::Tuple(items) => match key.position {
            Some(position) => at_position(items, position, subject, key_range),
            None => given(TyV::union_of(items)),
        },
        TyV::Record(fields) => match (key.position, key.name) {
            (Some(position), _) => at_position(
                table::field_types(fields),
                position,
                subject,
                key_range,
            ),
            (None, Some(name)) => named_field(fields, name, subject, key_range),
            (None, None) => given(TyV::union_of(table::field_types(fields))),
        },
        TyV::Named(_, _) => refused(),
        TyV::Var(_) => refused(),
        TyV::Rigid(_) => refused(),
        _ => failed(range, TypeErrorKindV::NotAList { found: subject }),
    }
}

/// An element of a map-like container: a literal name may be absent.
pub open spec fn named_element(element: TyV, by_name: bool) -> TyV {
    if by_name {
        TyV::union_of(seq![element, TyV::Null])
    } else {
        element
    }
}

pub open spec fn extracted_each(
    members: Seq<TyV>,
    key: KeyV,
    range: TextRange,
    key_range: TextRange,
    from: int,
    results: Seq<TyV>,
    unmodelled: bool,
) -> (bool, Result<Seq<TyV>, TypeErrorV>)
    decreases members, 0int, members.len() - from,
{
    if 0 <= from < members.len() {
        let (own, outcome) = extracted(members[from], key, range, key_range);
        match outcome {
            Ok(ty) => extracted_each(
                members,
                key,
                range,
                key_range,
                from + 1,
                results.push(ty),
                unmodelled || own,
            ),
            Err(error) => (unmodelled || own, Err(error)),
        }
    } else {
        (unmodelled, Ok(results))
    }
}

/// How an index selects from a vector: one position, or many.
pub open spec fn index_shape(index: TyV, range: TextRange) -> Result<VectorIndexShape, TypeErrorV>
    decreases index, 1int, 0int,
{
    match index {
        TyV::Scalar(atomic) => match atomic {
            Atomic::Integer => Ok(VectorIndexShape::ScalarLike),
            Atomic::Double => Ok(VectorIndexShape::ScalarLike),
            Atomic::Character => Ok(VectorIndexShape::ScalarLike),
            Atomic::Logical => Ok(VectorIndexShape::VectorLike),
            _ => Err(TypeErrorV { range, kind: TypeErrorKindV::BadVectorIndex { index } }),
        },
        TyV::Vector(_) => Ok(VectorIndexShape::VectorLike),
        TyV::NamedVector(_) => Ok(VectorIndexShape::VectorLike),
        TyV::Null => Ok(VectorIndexShape::VectorLike),
        TyV::Unknown => Ok(VectorIndexShape::ScalarLike),
        TyV::Any => Ok(VectorIndexShape::ScalarLike),
        TyV::Var(_) => Ok(VectorIndexShape::ScalarLike),
        TyV::Rigid(_) => Ok(VectorIndexShape::ScalarLike),
        TyV::Named(_, _) => Ok(VectorIndexShape::ScalarLike),
        TyV::Union(members) => index_shape_each(members, range, 0, VectorIndexShape::ScalarLike),
        _ => Err(TypeErrorV { range, kind: TypeErrorKindV::BadVectorIndex { index } }),
    }
}

pub open spec fn index_shape_each(
    members: Seq<TyV>,
    range: TextRange,
    from: int,
    shape: VectorIndexShape,
) -> Result<VectorIndexShape, TypeErrorV>
    decreases members, 0int, members.len() - from,
{
    if 0 <= from < members.len() {
        match index_shape(members[from], range) {
            Ok(own) => index_shape_each(
                members,
                range,
                from + 1,
                if own == VectorIndexShape::VectorLike {
                    own
                } else {
                    shape
                },
            ),
            Err(error) => Err(error),
        }
    } else {
        Ok(shape)
    }
}

/// The shape of an index that may be absent.
pub open spec fn opt_index_shape(index: Option<TyV>, range: TextRange) -> Result<
    VectorIndexShape,
    TypeErrorV,
> {
    match index {
        Some(index) => index_shape(index, range),
        None => Ok(VectorIndexShape::VectorLike),
    }
}

/// A vector subset: one type for a single position, another for many.
pub open spec fn selected(
    index: Option<TyV>,
    range: TextRange,
    one: TyV,
    many: TyV,
) -> AccessV {
    (
        false,
        match opt_index_shape(index, range) {
            Ok(VectorIndexShape::ScalarLike) => Ok(one),
            Ok(VectorIndexShape::VectorLike) => Ok(many),
            Err(error) => Err(error),
        },
    )
}

/// `[`: the slice of a list, and the subset of a vector.
pub open spec fn subset(subject: TyV, index: Option<TyV>, range: TextRange) -> AccessV
    decreases subject, 1int, 0int,
{
    match subject {
        TyV::Union(members) => {
            let (unmodelled, outcome) = subset_each(
                members,
                index,
                range,
                0,
                Seq::empty(),
                false,
            );
            (
                unmodelled,
                match outcome {
                    Ok(results) => Ok(TyV::union_of(results)),
                    Err(error) => Err(operands::widened(error, subject)),
                },
            )
        },
        TyV::Unknown => given(TyV::Unknown),
        TyV::Any => given(TyV::Any),
        TyV::Scalar(_) => selected(index, range, subject, TyV::Vector(Box::new(subject))),
        TyV::Vector(element) => selected(index, range, *element, subject),
        TyV::NamedVector(element) => selected(index, range, *element, subject),
        TyV::List(_) => given(subject),
        TyV::NamedList(_) => given(subject),
        TyV::Tuple(items) => given(TyV::List(Box::new(TyV::union_of(items)))),
        TyV::Record(fields) => given(
            TyV::NamedList(Box::new(TyV::union_of(table::field_types(fields)))),
        ),
        TyV::Named(_, _) => refused(),
        TyV::Var(_) => refused(),
        TyV::Rigid(_) => refused(),
        _ => failed(range, TypeErrorKindV::UnsupportedSubset { found: subject }),
    }
}

pub open spec fn subset_each(
    members: Seq<TyV>,
    index: Option<TyV>,
    range: TextRange,
    from: int,
    results: Seq<TyV>,
    unmodelled: bool,
) -> (bool, Result<Seq<TyV>, TypeErrorV>)
    decreases members, 0int, members.len() - from,
{
    if 0 <= from < members.len() {
        let (own, outcome) = subset(members[from], index, range);
        match outcome {
            Ok(ty) => subset_each(
                members,
                index,
                range,
                from + 1,
                results.push(ty),
                unmodelled || own,
            ),
            Err(error) => (unmodelled || own, Err(error)),
        }
    } else {
        (unmodelled, Ok(results))
    }
}

/// What the shapes of a union give for a field: the types of those that have it,
/// and the first refusal of one that lacks it.
pub type FieldsV = (bool, Result<(Seq<TyV>, Option<TypeErrorV>), TypeErrorV>);

/// A missing field, with the suggestion drawn from every name a union carries.
pub open spec fn absent_field(error: TypeErrorV, name: Seq<char>, subject: TyV) -> TypeErrorV {
    TypeErrorV {
        range: error.range,
        kind: match error.kind {
            TypeErrorKindV::FieldDoesNotExist { field, container, .. } => {
                TypeErrorKindV::FieldDoesNotExist {
                    suggestion: diagnostics::nearest(name, operands::union_names(subject)),
                    field,
                    container,
                }
            },
            other => other,
        },
    }
}

/// `$`: the type of a field. A shape of a union that lacks the field contributes
/// `NULL`; a field that no shape has is an error.
pub open spec fn dollar(
    subject: TyV,
    name: Seq<char>,
    range: TextRange,
    name_range: TextRange,
) -> AccessV
    decreases subject, 1int, 0int,
{
    match subject {
        TyV::Union(members) => {
            let (unmodelled, outcome) = dollar_each(
                members,
                name,
                range,
                name_range,
                0,
                Seq::empty(),
                None,
                false,
            );
            (
                unmodelled,
                match outcome {
                    Err(error) => Err(operands::widened(error, subject)),
                    Ok((results, None)) => Ok(TyV::union_of(results)),
                    Ok((results, Some(error))) => if results.len() == 0 {
                        Err(operands::widened(absent_field(error, name, subject), subject))
                    } else {
                        Ok(TyV::union_of(results.push(TyV::Null)))
                    },
                },
            )
        },
        TyV::Unknown => given(TyV::Unknown),
        TyV::Any => given(TyV::Any),
        TyV::Scalar(_) | TyV::Vector(_) | TyV::NamedVector(_) => failed(
            range,
            TypeErrorKindV::DollarOnAtomicVector { found: subject },
        ),
        TyV::NamedList(element) => given(named_element(*element, true)),
        TyV::Record(fields) => named_field(fields, name, subject, name_range),
        TyV::Tuple(_) | TyV::List(_) => failed(
            name_range,
            TypeErrorKindV::FieldDoesNotExist { suggestion: None, field: name, container: subject },
        ),
        TyV::Named(_, _) => refused(),
        TyV::Var(_) => refused(),
        TyV::Rigid(_) => refused(),
        _ => failed(range, TypeErrorKindV::NotAList { found: subject }),
    }
}

pub open spec fn dollar_each(
    members: Seq<TyV>,
    name: Seq<char>,
    range: TextRange,
    name_range: TextRange,
    from: int,
    results: Seq<TyV>,
    absent: Option<TypeErrorV>,
    unmodelled: bool,
) -> FieldsV
    decreases members, 0int, members.len() - from,
{
    if 0 <= from < members.len() {
        let (own, outcome) = dollar(members[from], name, range, name_range);
        match outcome {
            Ok(ty) => dollar_each(
                members,
                name,
                range,
                name_range,
                from + 1,
                results.push(ty),
                absent,
                unmodelled || own,
            ),
            Err(error) => if error.kind is FieldDoesNotExist {
                dollar_each(
                    members,
                    name,
                    range,
                    name_range,
                    from + 1,
                    results,
                    match absent {
                        Some(first) => Some(first),
                        None => Some(error),
                    },
                    unmodelled || own,
                )
            } else {
                (unmodelled || own, Err(error))
            },
        }
    } else {
        (unmodelled, Ok((results, absent)))
    }
}

/// What an access gives.
#[derive(Debug)]
pub struct Access {
    /// Whether some shape of the subject is not modelled.
    pub unmodelled: bool,
    pub result: Result<Ty, TypeError>,
}

pub open spec fn result_view(result: Result<Ty, TypeError>) -> Result<TyV, TypeErrorV> {
    match result {
        Ok(ty) => Ok(ty@),
        Err(error) => Err(error@),
    }
}

pub open spec fn results_view(results: Result<Vec<Ty>, TypeError>) -> Result<Seq<TyV>, TypeErrorV> {
    match results {
        Ok(types) => Ok(types::tys(types@)),
        Err(error) => Err(error@),
    }
}

impl Access {
    pub open spec fn view(&self) -> AccessV {
        (self.unmodelled, result_view(self.result))
    }
}

fn gives(ty: Ty) -> (r: Access)
    ensures
        r@ == given(ty@),
{
    Access { unmodelled: false, result: Ok(ty) }
}

fn refuses() -> (r: Access)
    ensures
        r@ == refused(),
{
    Access { unmodelled: true, result: Ok(unknown()) }
}

fn fails(range: TextRange, kind: TypeErrorKind) -> (r: Access)
    ensures
        r@ == failed(range, kind@),
{
    Access { unmodelled: false, result: Err(TypeError { range, kind }) }
}

/// The key of an `[[` access, where it is a literal.
#[derive(Debug)]
pub struct Key {
    /// A literal position, counted from zero.
    pub position: Option<usize>,
    pub name: Option<String>,
}

impl Key {
    pub open spec fn view(&self) -> KeyV {
        KeyV {
            position: match self.position {
                Some(position) => Some(position as nat),
                None => None,
            },
            name: types::opt_text(self.name),
        }
    }
}

fn item_at(items: &Vec<Ty>, position: usize, container: &Ty, range: TextRange) -> (r: Access)
    ensures
        r@ == at_position(types::tys(items@), position as nat, container@, range),
{
    if position < items.len() {
        gives(items[position].clone())
    } else {
        let shown: usize = (position as u128 + 1) as usize;
        fails(
            range,
            TypeErrorKind::PositionDoesNotExist { position: shown, container: container.clone() },
        )
    }
}

fn field_of(fields: &Vec<RecordField>, name: &String, container: &Ty, range: TextRange) -> (r:
    Access)
    ensures
        r@ == named_field(types::fields_view(fields@), name@, container@, range),
{
    match crate::compatible::find_field(fields, name.as_str()) {
        Some(field) => gives(field.ty.clone()),
        None => fails(
            range,
            TypeErrorKind::FieldDoesNotExist {
                suggestion: nearest_field_name(name.as_str(), &field_names(fields)),
                field: name.clone(),
                container: container.clone(),
            },
        ),
    }
}

fn element_of(element: &Ty, by_name: bool) -> (r: Ty)
    ensures
        r@ == named_element(element@, by_name),
{
    if by_name {
        union_of_two(element, &null())
    } else {
        element.clone()
    }
}

/// `[[`: the type of one element.
pub fn extract_result(subject: &Ty, key: &Key, range: TextRange, key_range: TextRange) -> (r: Access)
    ensures
        r@ == extracted(subject@, key@, range, key_range),
    decreases subject@, 1int,
{
    match subject.kind() {
        TyKind::Union(members) => {
            proof {
                assert(decreases_to!(subject@ => subject@->Union_0));
            }
            let (unmodelled, results) = extract_each(members, key, range, key_range);
            Access {
                unmodelled,
                result: match results {
                    Ok(results) => Ok(union_of(&results)),
                    Err(error) => Err(widen_error_container(error, subject)),
                },
            }
        },
        TyKind::Unknown => gives(unknown()),
        TyKind::Any => gives(any()),
        TyKind::Scalar(atomic) => gives(scalar(*atomic)),
        TyKind::Vector(element) | TyKind::List(element) => gives(element.clone()),
        TyKind::NamedVector(element) | TyKind::NamedList(element) => gives(
            element_of(element, key.name.is_some()),
        ),
        TyKind::Tuple(items) => match key.position {
            Some(position) => item_at(items, position, subject, key_range),
            None => gives(union_of(items)),
        },
        TyKind::Record(fields) => {
            let all = field_types(fields);
            match (key.position, &key.name) {
                (Some(position), _) => item_at(&all, position, subject, key_range),
                (None, Some(name)) => field_of(fields, name, subject, key_range),
                (None, None) => gives(union_of(&all)),
            }
        },
        TyKind::Named(_, _) | TyKind::Var(_) | TyKind::Rigid(_) => refuses(),
        _ => fails(range, TypeErrorKind::NotAList { found: subject.clone() }),
    }
}

fn extract_each(members: &Vec<Ty>, key: &Key, range: TextRange, key_range: TextRange) -> (r: (
    bool,
    Result<Vec<Ty>, TypeError>,
))
    ensures
        (r.0, results_view(r.1)) == extracted_each(
            types::tys(members@),
            key@,
            range,
            key_range,
            0,
            Seq::empty(),
            false,
        ),
    decreases types::tys(members@), 0int,
{
    let mut results: Vec<Ty> = Vec::new();
    let mut unmodelled = false;
    let mut i: usize = 0;
    assert(types::tys(results@) =~= Seq::empty());
    while i < members.len()
        invariant
            i <= members.len(),
            extracted_each(
                types::tys(members@),
                key@,
                range,
                key_range,
                i as int,
                types::tys(results@),
                unmodelled,
            ) == extracted_each(
                types::tys(members@),
                key@,
                range,
                key_range,
                0,
                Seq::empty(),
                false,
            ),
        decreases members.len() - i,
    {
        assert(decreases_to!(types::tys(members@) => types::tys(members@)[i as int]));
        let access = extract_result(&members[i], key, range, key_range);
        unmodelled = unmodelled || access.unmodelled;
        match access.result {
            Ok(ty) => {
                results.push(ty);
            },
            Err(error) => {
                return (unmodelled, Err(error));
            },
        }
        i += 1;
    }
    (unmodelled, Ok(results))
}

pub open spec fn shape_view(shape: Result<VectorIndexShape, TypeError>) -> Result<
    VectorIndexShape,
    TypeErrorV,
> {
    match shape {
        Ok(shape) => Ok(shape),
        Err(error) => Err(error@),
    }
}

fn classify_vector_index(index: &Ty, range: TextRange) -> (r: Result<VectorIndexShape, TypeError>)
    ensures
        shape_view(r) == index_shape(index@, range),
    decreases index@, 1int,
{
    match index.kind() {
        TyKind::Scalar(Atomic::Integer) | TyKind::Scalar(Atomic::Double)
        | TyKind::Scalar(Atomic::Character) => Ok(VectorIndexShape::ScalarLike),
        TyKind::Scalar(Atomic::Logical) => Ok(VectorIndexShape::VectorLike),
        TyKind::Vector(_) | TyKind::NamedVector(_) | TyKind::Null => Ok(
            VectorIndexShape::VectorLike,
        ),
        TyKind::Unknown | TyKind::Any | TyKind::Var(_) | TyKind::Rigid(_) | TyKind::Named(_, _) => Ok(
            VectorIndexShape::ScalarLike,
        ),
        TyKind::Union(members) => {
            proof {
                assert(decreases_to!(index@ => index@->Union_0));
            }
            classify_each(members, range)
        },
        _ => Err(
            TypeError { range, kind: TypeErrorKind::BadVectorIndex { index: index.clone() } },
        ),
    }
}

fn classify_each(members: &Vec<Ty>, range: TextRange) -> (r: Result<VectorIndexShape, TypeError>)
    ensures
        shape_view(r) == index_shape_each(
            types::tys(members@),
            range,
            0,
            VectorIndexShape::ScalarLike,
        ),
    decreases types::tys(members@), 0int,
{
    let mut shape = VectorIndexShape::ScalarLike;
    let mut i: usize = 0;
    while i < members.len()
        invariant
            i <= members.len(),
            index_shape_each(types::tys(members@), range, i as int, shape) == index_shape_each(
                types::tys(members@),
                range,
                0,
                VectorIndexShape::ScalarLike,
            ),
        decreases members.len() - i,
    {
        assert(decreases_to!(types::tys(members@) => types::tys(members@)[i as int]));
        match classify_vector_index(&members[i], range) {
            Ok(own) => {
                if own == VectorIndexShape::VectorLike {
                    shape = own;
                }
            },
            Err(error) => {
                return Err(error);
            },
        }
        i += 1;
    }
    Ok(shape)
}

fn select(index: &Option<Ty>, range: TextRange, one: Ty, many: Ty) -> (r: Access)
    ensures
        r@ == selected(types::opt_ty(*index), range, one@, many@),
{
    let shape = match index {
        Some(index) => classify_vector_index(index, range),
        None => Ok(VectorIndexShape::VectorLike),
    };
    Access {
        unmodelled: false,
        result: match shape {
            Ok(VectorIndexShape::ScalarLike) => Ok(one),
            Ok(VectorIndexShape::VectorLike) => Ok(many),
            Err(error) => Err(error),
        },
    }
}

/// `[`: the slice of a list, and the subset of a vector. The index is resolved.
pub fn subset_result(subject: &Ty, index: &Option<Ty>, range: TextRange) -> (r: Access)
    ensures
        r@ == subset(subject@, types::opt_ty(*index), range),
    decreases subject@, 1int,
{
    match subject.kind() {
        TyKind::Union(members) => {
            proof {
                assert(decreases_to!(subject@ => subject@->Union_0));
            }
            let (unmodelled, results) = subset_members(members, index, range);
            Access {
                unmodelled,
                result: match results {
                    Ok(results) => Ok(union_of(&results)),
                    Err(error) => Err(widen_error_container(error, subject)),
                },
            }
        },
        TyKind::Unknown => gives(unknown()),
        TyKind::Any => gives(any()),
        TyKind::Scalar(_) => select(
            index,
            range,
            subject.clone(),
            Ty::new(TyKind::Vector(subject.clone())),
        ),
        TyKind::Vector(element) | TyKind::NamedVector(element) => select(
            index,
            range,
            element.clone(),
            subject.clone(),
        ),
        TyKind::List(_) | TyKind::NamedList(_) => gives(subject.clone()),
        TyKind::Tuple(items) => gives(Ty::new(TyKind::List(union_of(items)))),
        TyKind::Record(fields) => {
            let all = field_types(fields);
            gives(Ty::new(TyKind::NamedList(union_of(&all))))
        },
        TyKind::Named(_, _) | TyKind::Var(_) | TyKind::Rigid(_) => refuses(),
        _ => fails(range, TypeErrorKind::UnsupportedSubset { found: subject.clone() }),
    }
}

fn subset_members(members: &Vec<Ty>, index: &Option<Ty>, range: TextRange) -> (r: (
    bool,
    Result<Vec<Ty>, TypeError>,
))
    ensures
        (r.0, results_view(r.1)) == subset_each(
            types::tys(members@),
            types::opt_ty(*index),
            range,
            0,
            Seq::empty(),
            false,
        ),
    decreases types::tys(members@), 0int,
{
    let mut results: Vec<Ty> = Vec::new();
    let mut unmodelled = false;
    let mut i: usize = 0;
    assert(types::tys(results@) =~= Seq::empty());
    while i < members.len()
        invariant
            i <= members.len(),
            subset_each(
                types::tys(members@),
                types::opt_ty(*index),
                range,
                i as int,
                types::tys(results@),
                unmodelled,
            ) == subset_each(
                types::tys(members@),
                types::opt_ty(*index),
                range,
                0,
                Seq::empty(),
                false,
            ),
        decreases members.len() - i,
    {
        assert(decreases_to!(types::tys(members@) => types::tys(members@)[i as int]));
        let access = subset_result(&members[i], index, range);
        unmodelled = unmodelled || access.unmodelled;
        match access.result {
            Ok(ty) => {
                results.push(ty);
            },
            Err(error) => {
                return (unmodelled, Err(error));
            },
        }
        i += 1;
    }
    (unmodelled, Ok(results))
}

pub open spec fn fields_outcome(
    outcome: Result<(Vec<Ty>, Option<TypeError>), TypeError>,
) -> Result<(Seq<TyV>, Option<TypeErrorV>), TypeErrorV> {
    match outcome {
        Ok((results, absent)) => Ok(
            (types::tys(results@), crate::matching::opt_error(absent)),
        ),
        Err(error) => Err(error@),
    }
}

fn with_suggestion(error: TypeError, name: &String, subject: &Ty) -> (r: TypeError)
    ensures
        r@ == absent_field(error@, name@, subject@),
{
    let range = error.range;
    let kind = match error.kind {
        TypeErrorKind::FieldDoesNotExist { field, container, .. } => {
            TypeErrorKind::FieldDoesNotExist {
                suggestion: nearest_field_name(name.as_str(), &union_field_names(subject)),
                field,
                container,
            }
        },
        other => other,
    };
    TypeError { range, kind }
}

/// `$`: the type of a field.
pub fn dollar_result(subject: &Ty, name: &String, range: TextRange, name_range: TextRange) -> (r:
    Access)
    ensures
        r@ == dollar(subject@, name@, range, name_range),
    decreases subject@, 1int,
{
    match subject.kind() {
        TyKind::Union(members) => {
            proof {
                assert(decreases_to!(subject@ => subject@->Union_0));
            }
            let (unmodelled, outcome) = dollar_members(members, name, range, name_range);
            let result = match outcome {
                Err(error) => Err(widen_error_container(error, subject)),
                Ok((results, None)) => Ok(union_of(&results)),
                Ok((results, Some(error))) => {
                    if results.len() == 0 {
                        Err(widen_error_container(with_suggestion(error, name, subject), subject))
                    } else {
                        let mut all = results;
                        all.push(null());
                        Ok(union_of(&all))
                    }
                },
            };
            Access { unmodelled, result }
        },
        TyKind::Unknown => gives(unknown()),
        TyKind::Any => gives(any()),
        TyKind::Scalar(_) | TyKind::Vector(_) | TyKind::NamedVector(_) => fails(
            range,
            TypeErrorKind::DollarOnAtomicVector { found: subject.clone() },
        ),
        TyKind::NamedList(element) => gives(element_of(element, true)),
        TyKind::Record(fields) => field_of(fields, name, subject, name_range),
        TyKind::Tuple(_) | TyKind::List(_) => fails(
            name_range,
            TypeErrorKind::FieldDoesNotExist {
                suggestion: None,
                field: name.clone(),
                container: subject.clone(),
            },
        ),
        TyKind::Named(_, _) | TyKind::Var(_) | TyKind::Rigid(_) => refuses(),
        _ => fails(range, TypeErrorKind::NotAList { found: subject.clone() }),
    }
}

fn dollar_members(members: &Vec<Ty>, name: &String, range: TextRange, name_range: TextRange) -> (r: (
    bool,
    Result<(Vec<Ty>, Option<TypeError>), TypeError>,
))
    ensures
        (r.0, fields_outcome(r.1)) == dollar_each(
            types::tys(members@),
            name@,
            range,
            name_range,
            0,
            Seq::empty(),
            None,
            false,
        ),
    decreases types::tys(members@), 0int,
{
    let mut results: Vec<Ty> = Vec::new();
    let mut absent: Option<TypeError> = None;
    let mut unmodelled = false;
    let mut i: usize = 0;
    assert(types::tys(results@) =~= Seq::empty());
    while i < members.len()
        invariant
            i <= members.len(),
            dollar_each(
                types::tys(members@),
                name@,
                range,
                name_range,
                i as int,
                types::tys(results@),
                crate::matching::opt_error(absent),
                unmodelled,
            ) == dollar_each(
                types::tys(members@),
                name@,
                range,
                name_range,
                0,
                Seq::empty(),
                None,
                false,
            ),
        decreases members.len() - i,
    {
        assert(decreases_to!(types::tys(members@) => types::tys(members@)[i as int]));
        let access = dollar_result(&members[i], name, range, name_range);
        unmodelled = unmodelled || access.unmodelled;
        match access.result {
            Ok(ty) => {
                results.push(ty);
            },
            Err(error) => {
                let missing = match &error.kind {
                    TypeErrorKind::FieldDoesNotExist { .. } => true,
                    _ => false,
                };
                if !missing {
                    return (unmodelled, Err(error));
                }
                if absent.is_none() {
                    absent = Some(error);
                }
            },
        }
        i += 1;
    }
    (unmodelled, Ok((results, absent)))
}

} // verus!
