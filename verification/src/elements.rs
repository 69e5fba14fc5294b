//! What containers hold: the laws of `[`, `[[`, `$`, of iteration and of
//! replacement over types.

use vstd::prelude::*;

use crate::access::{self, KeyV};
use crate::checking::CheckV;
use crate::findings::{TypeErrorKindV, TypeErrorV};
use crate::hir::{ExprId, Module};
use crate::operands::{self, VectorIndexShape};
use crate::replacing;
use crate::syntax::TextRange;
use crate::table;
use crate::types::{self, Atomic, FieldV, TyV};
use crate::unions;

verus! {

/// The key of an access that is no literal.
pub open spec fn open_key() -> KeyV {
    KeyV { position: None, name: None }
}

/// The key of an access by a literal name.
pub open spec fn name_key(name: Seq<char>) -> KeyV {
    KeyV { position: None, name: Some(name) }
}

/// The key of an access by a literal position, counted from zero.
pub open spec fn position_key(position: nat) -> KeyV {
    KeyV { position: Some(position), name: None }
}

/// Iterating over a value binds what `[[` with an unknown key extracts, on every
/// container that `[[` takes and that is no union.
pub proof fn iterating_extracts_the_elements(
    subject: TyV,
    range: TextRange,
    key_range: TextRange,
)
    requires
        !(subject is Union),
        access::extracted(subject, open_key(), range, key_range).1 is Ok,
        !access::extracted(subject, open_key(), range, key_range).0,
    ensures
        operands::iterated(subject) == Ok::<TyV, TyV>(
            access::extracted(subject, open_key(), range, key_range).1->Ok_0,
        ),
{
}

/// A list holds what iterating over it binds and what `[[` extracts from it.
pub proof fn a_list_holds_what_it_gives(subject: TyV, range: TextRange, key_range: TextRange)
    requires
        operands::list_element(subject) is Some,
    ensures
        operands::iterated(subject) == Ok::<TyV, TyV>(operands::list_element(subject)->0),
        access::extracted(subject, open_key(), range, key_range) == access::given(
            operands::list_element(subject)->0,
        ),
{
}

/// A slice of a list is a list of the same elements.
pub proof fn a_slice_keeps_the_elements(subject: TyV, index: Option<TyV>, range: TextRange)
    requires
        operands::list_element(subject) is Some,
    ensures
        access::subset(subject, index, range).1 is Ok,
        operands::list_element(access::subset(subject, index, range).1->Ok_0)
            == operands::list_element(subject),
        access::subset(subject, index, range).1->Ok_0 is NamedList <==> subject is NamedList
            || subject is Record,
{
}

/// One position of an atomic vector gives what `[[` extracts, many positions
/// give a vector of it.
pub proof fn a_subset_of_a_vector(
    subject: TyV,
    index: Option<TyV>,
    range: TextRange,
    key_range: TextRange,
)
    requires
        subject is Scalar || subject is Vector || subject is NamedVector,
    ensures
        ({
            let element = access::extracted(subject, open_key(), range, key_range).1->Ok_0;
            let outcome = access::subset(subject, index, range);
            match access::opt_index_shape(index, range) {
                Ok(VectorIndexShape::ScalarLike) => outcome == access::given(element),
                Ok(VectorIndexShape::VectorLike) => {
                    &&& outcome.1 is Ok
                    &&& outcome.1->Ok_0 is Vector || outcome.1->Ok_0 is NamedVector
                    &&& access::extracted(outcome.1->Ok_0, open_key(), range, key_range)
                        == access::given(element)
                },
                Err(error) => outcome.1 == Err::<TyV, TypeErrorV>(error),
            }
        }),
        index is None ==> access::subset(subject, index, range).1->Ok_0 !is Scalar,
{
}

/// One number or one name selects one position; logicals, vectors and an absent
/// index select many; nothing of another mode selects at all.
pub proof fn an_index_selects_by_its_mode(atomic: Atomic, range: TextRange)
    ensures
        access::index_shape(TyV::Scalar(atomic), range) == Ok::<VectorIndexShape, TypeErrorV>(
            VectorIndexShape::ScalarLike,
        ) <==> atomic == Atomic::Character || (operands::combined(atomic, Atomic::Double) == Some(
            Atomic::Double,
        ) && atomic != Atomic::Logical),
        access::index_shape(TyV::Scalar(atomic), range) == Ok::<VectorIndexShape, TypeErrorV>(
            VectorIndexShape::VectorLike,
        ) <==> atomic == Atomic::Logical,
        access::opt_index_shape(None, range) == Ok::<VectorIndexShape, TypeErrorV>(
            VectorIndexShape::VectorLike,
        ),
        access::index_shape(TyV::Vector(Box::new(TyV::Scalar(atomic))), range) == Ok::<
            VectorIndexShape,
            TypeErrorV,
        >(VectorIndexShape::VectorLike),
{
}

/// A literal position of a tuple gives the item that stands there; past the end
/// the position is refused, counted from one.
pub proof fn a_position_gives_its_item(
    items: Seq<TyV>,
    position: nat,
    range: TextRange,
    key_range: TextRange,
)
    requires
        position < usize::MAX,
    ensures
        position < items.len() ==> access::extracted(
            TyV::Tuple(items),
            position_key(position),
            range,
            key_range,
        ) == access::given(items[position as int]),
        position >= items.len() ==> access::extracted(
            TyV::Tuple(items),
            position_key(position),
            range,
            key_range,
        ).1 == Err::<TyV, TypeErrorV>(
            TypeErrorV {
                range: key_range,
                kind: TypeErrorKindV::PositionDoesNotExist {
                    position: (position + 1) as usize,
                    container: TyV::Tuple(items),
                },
            },
        ),
{
}

/// The first field of a name, as a position.
proof fn field_type_is_first(fields: Seq<FieldV>, name: Seq<char>, i: int)
    requires
        0 <= i < fields.len(),
        fields[i].name == name,
        forall|j: int| 0 <= j < i ==> (#[trigger] fields[j]).name != name,
    ensures
        table::field_type(fields, name) == Some(fields[i].ty),
    decreases fields.len(),
{
    if i > 0 {
        let rest = fields.drop_first();
        assert(fields[0].name != name);
        assert forall|j: int| 0 <= j < i - 1 implies (#[trigger] rest[j]).name != name by {
            assert(fields[j + 1].name != name);
        }
        field_type_is_first(rest, name, i - 1);
    }
}

proof fn absent_field_type(fields: Seq<FieldV>, name: Seq<char>)
    ensures
        table::field_type(fields, name) is None <==> forall|j: int|
            0 <= j < fields.len() ==> (#[trigger] fields[j]).name != name,
    decreases fields.len(),
{
    if fields.len() > 0 {
        let rest = fields.drop_first();
        absent_field_type(rest, name);
        if fields[0].name != name {
            if table::field_type(fields, name) is None {
                assert forall|j: int| 0 <= j < fields.len() implies (#[trigger] fields[j]).name
                    != name by {
                    if j > 0 {
                        assert(rest[j - 1].name != name);
                    }
                }
            } else {
                let j = choose|j: int| 0 <= j < rest.len() && (#[trigger] rest[j]).name == name;
                assert(fields[j + 1].name == name);
            }
        }
    }
}

/// The fields of a record are read alike by position, by `[[name]]` and by
/// `$name`: all three give the type of the field.
pub proof fn a_field_reads_alike_by_place_and_by_name(
    fields: Seq<FieldV>,
    i: int,
    range: TextRange,
    key_range: TextRange,
)
    requires
        0 <= i < fields.len(),
        forall|j: int| 0 <= j < i ==> (#[trigger] fields[j]).name != fields[i].name,
    ensures
        access::extracted(TyV::Record(fields), position_key(i as nat), range, key_range)
            == access::given(fields[i].ty),
        access::extracted(TyV::Record(fields), name_key(fields[i].name), range, key_range)
            == access::given(fields[i].ty),
        access::dollar(TyV::Record(fields), fields[i].name, range, key_range) == access::given(
            fields[i].ty,
        ),
{
    field_type_is_first(fields, fields[i].name, i);
}

/// `$name` and `[["name"]]` agree on records and on map-like lists; a field that
/// a record does not have is refused by both, and one of a map-like list may be
/// absent.
pub proof fn dollar_and_brackets_agree(
    subject: TyV,
    name: Seq<char>,
    range: TextRange,
    key_range: TextRange,
)
    requires
        subject is Record || subject is NamedList,
    ensures
        access::dollar(subject, name, range, key_range) == access::extracted(
            subject,
            name_key(name),
            range,
            key_range,
        ),
        subject is Record ==> (access::dollar(subject, name, range, key_range).1 is Err
            <==> forall|j: int|
            0 <= j < subject->Record_0.len() ==> (#[trigger] subject->Record_0[j]).name != name),
        subject is NamedList ==> access::dollar(subject, name, range, key_range) == access::given(
            TyV::union_of(seq![*subject->NamedList_0, TyV::Null]),
        ),
{
    if subject is Record {
        absent_field_type(subject->Record_0, name);
    }
}

/// `$` on an atomic value is refused whatever the name.
pub proof fn dollar_needs_a_list(
    subject: TyV,
    name: Seq<char>,
    range: TextRange,
    key_range: TextRange,
)
    requires
        operands::element_atomic(subject) is Some,
    ensures
        access::dollar(subject, name, range, key_range).1 is Err,
        (access::dollar(subject, name, range, key_range).1->Err_0).range == range,
{
}

proof fn place_is_first(fields: Seq<FieldV>, name: Seq<char>, from: int)
    requires
        0 <= from <= fields.len(),
    ensures
        match replacing::field_place(fields, name, from) {
            Some(i) => from <= i < fields.len() && fields[i].name == name && forall|j: int|
                from <= j < i ==> (#[trigger] fields[j]).name != name,
            None => forall|j: int|
                from <= j < fields.len() ==> (#[trigger] fields[j]).name != name,
        },
    decreases fields.len() - from,
{
    if from < fields.len() {
        place_is_first(fields, name, from + 1);
    }
}

/// A record read after a write: the written field has the written type, and
/// every other field is as it was.
pub proof fn a_written_field_is_read_back(
    fields: Seq<FieldV>,
    name: Seq<char>,
    ty: TyV,
    other: Seq<char>,
    range: TextRange,
    key_range: TextRange,
)
    ensures
        access::dollar(
            TyV::Record(replacing::with_field(fields, name, ty)),
            name,
            range,
            key_range,
        ) == access::given(ty),
        other != name ==> table::field_type(replacing::with_field(fields, name, ty), other)
            == table::field_type(fields, other),
{
    let after = replacing::with_field(fields, name, ty);
    place_is_first(fields, name, 0);
    match replacing::field_place(fields, name, 0) {
        Some(i) => {
            assert forall|j: int| 0 <= j < i implies (#[trigger] after[j]).name != name by {
                assert(fields[j].name != name);
            }
            field_type_is_first(after, name, i);
        },
        None => {
            assert forall|j: int| 0 <= j < fields.len() implies (#[trigger] after[j]).name
                != name by {
                assert(fields[j].name != name);
            }
            field_type_is_first(after, name, fields.len() as int);
        },
    }
    if other != name {
        absent_field_type(fields, other);
        absent_field_type(after, other);
        place_is_first(fields, other, 0);
        match replacing::field_place(fields, other, 0) {
            Some(k) => {
                field_type_is_first(fields, other, k);
                assert(after[k] == fields[k]);
                assert forall|j: int| 0 <= j < k implies (#[trigger] after[j]).name != other by {
                    assert(fields[j].name != other);
                }
                field_type_is_first(after, other, k);
            },
            None => {
                assert forall|j: int| 0 <= j < after.len() implies (#[trigger] after[j]).name
                    != other by {
                    if j < fields.len() {
                        assert(fields[j].name != other);
                    }
                }
            },
        }
    }
}

/// A write to one field of a record by `$` or `[[` leaves a record in which the
/// field has the written type; nothing is reported.
pub proof fn a_replacement_sets_the_field(
    c: CheckV,
    m: Module,
    lhs: ExprId,
    base: ExprId,
    value_expression: ExprId,
    fields: Seq<FieldV>,
    value: TyV,
)
    requires
        replacing::written_field(m, lhs, base) is Some,
    ensures
        ({
            let (after, ty) = c.replaced(
                m,
                lhs,
                base,
                value_expression,
                TyV::Record(fields),
                value,
            );
            &&& after == c
            &&& ty is Record
            &&& table::field_type(ty->Record_0, replacing::written_field(m, lhs, base)->0) == Some(
                value,
            )
        }),
        ({
            let empty = c.replaced(
                m,
                lhs,
                base,
                value_expression,
                TyV::Tuple(Seq::empty()),
                value,
            ).1;
            empty is Record && table::field_type(
                empty->Record_0,
                replacing::written_field(m, lhs, base)->0,
            ) == Some(value)
        }),
{
    let name = replacing::written_field(m, lhs, base)->0;
    a_written_field_is_read_back(
        fields,
        name,
        value,
        name,
        TextRange { start: 0, end: 0 },
        TextRange { start: 0, end: 0 },
    );
    let single = seq![FieldV { name, ty: value, optional: false }];
    assert(single[0].name == name);
    field_type_is_first(single, name, 0);
}

/// A write to an element of a list makes room for the value: the list then
/// holds what it held and the value.
pub proof fn an_element_write_makes_room(prior: TyV, value: TyV, ty: TyV)
    requires
        prior is List || prior is NamedList,
        operands::list_element(prior) is Some,
        unions::is_flat(seq![operands::list_element(prior)->0]),
        unions::is_flat(seq![value]),
        operands::list_element(prior)->0 !is Any && operands::list_element(prior)->0 !is Unknown,
        value !is Any && value !is Unknown,
        !types::members_of(operands::list_element(prior)->0).contains(TyV::Any),
        !types::members_of(operands::list_element(prior)->0).contains(TyV::Unknown),
        !types::members_of(value).contains(TyV::Any),
        !types::members_of(value).contains(TyV::Unknown),
    ensures
        operands::list_element(replacing::with_element(prior, value)) is Some,
        replacing::with_element(prior, value) is NamedList <==> prior is NamedList,
        types::members_of(
            operands::list_element(replacing::with_element(prior, value))->0,
        ).contains(ty) <==> types::members_of(operands::list_element(prior)->0).contains(ty)
            || types::members_of(value).contains(ty),
{
    let held = operands::list_element(prior)->0;
    let both = seq![held, value];
    assert(seq![held][0] == held && seq![value][0] == value);
    assert(both[0] == held && both[1] == value);
    assert(unions::is_flat(both));
    unions::a_union_has_the_members_of_its_parts(both, ty);
    assert(unions::is_member(both, ty) <==> types::members_of(held).contains(ty)
        || types::members_of(value).contains(ty)) by {
        if types::members_of(held).contains(ty) {
            assert(types::members_of(both[0]).contains(ty));
        }
        if types::members_of(value).contains(ty) {
            assert(types::members_of(both[1]).contains(ty));
        }
    }
    assert(!unions::is_member(both, TyV::Any)) by {
        if unions::is_member(both, TyV::Any) {
            let i = choose|i: int|
                0 <= i < both.len() && types::members_of(#[trigger] both[i]).contains(TyV::Any);
            assert(i == 0 || i == 1);
        }
    }
    assert(!unions::is_member(both, TyV::Unknown)) by {
        if unions::is_member(both, TyV::Unknown) {
            let i = choose|i: int|
                0 <= i < both.len() && types::members_of(#[trigger] both[i]).contains(TyV::Unknown);
            assert(i == 0 || i == 1);
        }
    }
}

proof fn each_must_allow(
    members: Seq<TyV>,
    key: KeyV,
    range: TextRange,
    key_range: TextRange,
    from: int,
    results: Seq<TyV>,
    unmodelled: bool,
)
    requires
        0 <= from <= members.len(),
        results.len() == from,
    ensures
        ({
            let outcome = access::extracted_each(
                members,
                key,
                range,
                key_range,
                from,
                results,
                unmodelled,
            ).1;
            &&& outcome is Ok <==> forall|i: int|
                from <= i < members.len() ==> access::extracted(
                    #[trigger] members[i],
                    key,
                    range,
                    key_range,
                ).1 is Ok
            &&& outcome is Ok ==> outcome->Ok_0.len() == members.len()
            &&& outcome is Ok ==> forall|i: int|
                0 <= i < members.len() ==> #[trigger] outcome->Ok_0[i] == if i < from {
                    results[i]
                } else {
                    access::extracted(members[i], key, range, key_range).1->Ok_0
                }
        }),
    decreases members.len() - from,
{
    if from < members.len() {
        let (own, outcome) = access::extracted(members[from], key, range, key_range);
        match outcome {
            Ok(ty) => {
                each_must_allow(
                    members,
                    key,
                    range,
                    key_range,
                    from + 1,
                    results.push(ty),
                    unmodelled || own,
                );
            },
            Err(_) => {
                assert(access::extracted(members[from], key, range, key_range).1 is Err);
            },
        }
    }
}

/// `[[` on a union must be allowed by every shape, and then gives the union of
/// what they give.
pub proof fn a_union_is_accessed_in_every_shape(
    members: Seq<TyV>,
    key: KeyV,
    range: TextRange,
    key_range: TextRange,
)
    ensures
        ({
            let outcome = access::extracted(TyV::Union(members), key, range, key_range).1;
            let each = |i: int| access::extracted(members[i], key, range, key_range).1;
            &&& outcome is Ok <==> forall|i: int|
                0 <= i < members.len() ==> access::extracted(
                    #[trigger] members[i],
                    key,
                    range,
                    key_range,
                ).1 is Ok
            &&& outcome is Ok ==> outcome->Ok_0 == TyV::union_of(
                Seq::new(members.len(), |i: int| each(i)->Ok_0),
            )
        }),
{
    let each = |i: int| access::extracted(members[i], key, range, key_range).1;
    each_must_allow(members, key, range, key_range, 0, Seq::empty(), false);
    let found = access::extracted_each(members, key, range, key_range, 0, Seq::empty(), false).1;
    if found is Ok {
        assert(found->Ok_0 =~= Seq::new(members.len(), |i: int| each(i)->Ok_0));
    }
}

/// In a value that may be one of two records, a field that only one of them has
/// may be `NULL`; one that neither has is an error.
pub proof fn a_field_of_one_alternative_may_be_null(
    with: FieldV,
    without: FieldV,
    name: Seq<char>,
    range: TextRange,
    name_range: TextRange,
)
    requires
        with.name == name,
        without.name != name,
    ensures
        ({
            let one = TyV::Record(seq![with]);
            let other = TyV::Record(seq![without]);
            let read = |members: Seq<TyV>|
                access::dollar(TyV::Union(members), name, range, name_range).1;
            let either = TyV::union_of(seq![with.ty, TyV::Null]);
            &&& read(seq![one, other]) == Ok::<TyV, TypeErrorV>(either)
            &&& read(seq![other, one]) == Ok::<TyV, TypeErrorV>(either)
            &&& read(seq![other, other]) is Err
            &&& read(seq![one, one]) == Ok::<TyV, TypeErrorV>(
                TyV::union_of(seq![with.ty, with.ty]),
            )
        }),
{
    let one = TyV::Record(seq![with]);
    let other = TyV::Record(seq![without]);
    let none: Seq<TyV> = Seq::empty();
    reveal_with_fuel(table::field_type, 3);
    assert(seq![with][0] == with && seq![without][0] == without);
    assert(access::dollar(one, name, range, name_range) == access::given(with.ty));
    let missing = access::dollar(other, name, range, name_range).1;
    assert(missing is Err && missing->Err_0.kind is FieldDoesNotExist);
    let error = missing->Err_0;
    let found = none.push(with.ty);
    both_are_read(seq![one, other], name, range, name_range, found, Some(error));
    both_are_read(seq![other, one], name, range, name_range, found, Some(error));
    both_are_read(seq![other, other], name, range, name_range, none, Some(error));
    both_are_read(seq![one, one], name, range, name_range, found.push(with.ty), None);
    assert(found.push(TyV::Null) =~= seq![with.ty, TyV::Null]);
    assert(found.push(with.ty) =~= seq![with.ty, with.ty]);
}

proof fn both_are_read(
    members: Seq<TyV>,
    name: Seq<char>,
    range: TextRange,
    name_range: TextRange,
    found: Seq<TyV>,
    absent: Option<TypeErrorV>,
)
    requires
        members.len() == 2,
        ({
            let first = access::dollar(members[0], name, range, name_range);
            let second = access::dollar(members[1], name, range, name_range);
            let none: Seq<TyV> = Seq::empty();
            let after = if first.1 is Ok {
                none.push(first.1->Ok_0)
            } else {
                none
            };
            &&& !first.0 && !second.0
            &&& first.1 is Err ==> first.1->Err_0.kind is FieldDoesNotExist && absent == Some(
                first.1->Err_0,
            )
            &&& second.1 is Err ==> second.1->Err_0.kind is FieldDoesNotExist && absent == Some(
                second.1->Err_0,
            )
            &&& first.1 is Ok && second.1 is Ok ==> absent is None
            &&& found == if second.1 is Ok {
                after.push(second.1->Ok_0)
            } else {
                after
            }
        }),
    ensures
        access::dollar_each(members, name, range, name_range, 0, Seq::empty(), None, false) == (
            false,
            Ok::<(Seq<TyV>, Option<TypeErrorV>), TypeErrorV>((found, absent)),
        ),
{
    let first = access::dollar(members[0], name, range, name_range);
    let none: Seq<TyV> = Seq::empty();
    let after = if first.1 is Ok {
        none.push(first.1->Ok_0)
    } else {
        none
    };
    let lacks = match first.1 {
        Ok(_) => None,
        Err(error) => Some(error),
    };
    assert(access::dollar_each(members, name, range, name_range, 2, found, absent, false) == (
        false,
        Ok::<(Seq<TyV>, Option<TypeErrorV>), TypeErrorV>((found, absent)),
    ));
    assert(access::dollar_each(members, name, range, name_range, 1, after, lacks, false)
        == access::dollar_each(members, name, range, name_range, 2, found, absent, false));
    assert(access::dollar_each(members, name, range, name_range, 0, none, None, false)
        == access::dollar_each(members, name, range, name_range, 1, after, lacks, false));
}

} // verus!
