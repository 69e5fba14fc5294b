//! What a test tells of a value, and what reads and writes are held to: the laws
//! of guards, of reads, and of values that leave a function.

use vstd::prelude::*;

use crate::checking::{self, CheckV, ItemV};
use crate::compatible;
use crate::demands::fits;
use crate::environment::SlotV;
use crate::hir::{ExprId, ExpressionKind, Module};
use crate::operands::{self, GuardKind};
use crate::table::{self, RecordMismatchV};
use crate::types::{Atomic, FieldV, TyV};
use crate::unions;

verus! {

proof fn the_kept_of_two(first: TyV, second: TyV, kind: GuardKind, edge: bool)
    ensures
        ({
            let both = seq![first, second];
            let kept = operands::kept_members(both, kind, edge, 2);
            let drops = |ty: TyV| operands::decided(kind, ty) == Some(!edge);
            &&& !drops(first) && drops(second) ==> kept == seq![first]
            &&& drops(first) && !drops(second) ==> kept == seq![second]
            &&& !drops(first) && !drops(second) ==> kept == both
        }),
{
    let both = seq![first, second];
    reveal_with_fuel(operands::kept_members, 3);
    assert(operands::kept_members(both, kind, edge, 0) =~= Seq::<TyV>::empty());
    let kept = operands::kept_members(both, kind, edge, 2);
    if operands::decided(kind, first) != Some(!edge) {
        assert(operands::kept_members(both, kind, edge, 1) =~= seq![first]);
    }
    assert(operands::decided(kind, first) != Some(!edge) && operands::decided(kind, second) == Some(
        !edge,
    ) ==> kept =~= seq![first]);
    assert(operands::decided(kind, first) == Some(!edge) && operands::decided(kind, second) != Some(
        !edge,
    ) ==> kept =~= seq![second]);
    assert(operands::decided(kind, first) != Some(!edge) && operands::decided(kind, second) != Some(
        !edge,
    ) ==> kept =~= both);
}

/// A test of which one of two members is sure to pass and the other is sure to
/// fail tells them apart: where it holds the value is the one, where it does not
/// the other.
pub proof fn a_test_tells_two_members_apart(
    c: CheckV,
    kind: GuardKind,
    slot: u32,
    passes: TyV,
    fails: TyV,
)
    requires
        operands::decided(kind, passes) == Some(true),
        operands::decided(kind, fails) == Some(false),
        !(passes is Union) && !(fails is Union),
        kind is Null ==> passes is Null,
    ensures
        ({
            let (after, guard) = c.guard_edges(kind, slot, TyV::Union(seq![passes, fails]));
            &&& after == c
            &&& guard is Some
            &&& (guard->0).slot == slot
            &&& (guard->0).true_edge == Some(passes)
            &&& (guard->0).false_edge == Some(fails)
            &&& !(guard->0).missing_on_true
            &&& c.guard_edges(kind, slot, TyV::Union(seq![fails, passes])).1 == guard
        }),
{
    the_kept_of_two(passes, fails, kind, true);
    the_kept_of_two(passes, fails, kind, false);
    the_kept_of_two(fails, passes, kind, true);
    the_kept_of_two(fails, passes, kind, false);
    unions::a_union_of_one_type_is_the_type(passes);
    unions::a_union_of_one_type_is_the_type(fails);
    let both = seq![passes, fails];
    let other = seq![fails, passes];
    assert(both[0] == passes && other[1] == passes);
    assert(both.contains(passes) && other.contains(passes));
}

/// A test for `NULL` on a value that cannot be `NULL` tells nothing; on one that
/// nothing is known of, it tells where it holds.
pub proof fn a_test_for_null(c: CheckV, slot: u32, resolved: TyV)
    ensures
        resolved is Any || resolved is Unknown ==> {
            let guard = c.guard_edges(GuardKind::Null, slot, resolved).1;
            &&& guard is Some
            &&& (guard->0).true_edge == Some(TyV::Null)
            &&& (guard->0).false_edge is None
        },
        resolved is Scalar || resolved is Vector || resolved is List || resolved is Function
            || resolved is Record ==> c.guard_edges(GuardKind::Null, slot, resolved) == (
            c,
            None::<crate::reads::GuardV>,
        ),
{
    let alone = seq![resolved];
    assert(alone.contains(TyV::Null) ==> alone[0] == TyV::Null);
}

/// Where `missing` holds of a formal without a default, reading that formal is
/// reported and gives nothing that is known; elsewhere it reads as before.
pub proof fn a_missing_formal_cannot_be_read(
    c: CheckV,
    item: ItemV,
    read: ExprId,
    slot: u32,
    held: TyV,
)
    requires
        item.slot_of(read) == Some(slot),
        c.env.get(slot) == Some(SlotV::Mono(held)),
    ensures
        ({
            let (after, guard) = c.guard_on("missing"@, slot);
            let inside = c.on_true_edge(guard).read(item, read);
            &&& after == c
            &&& c.no_default_formals.contains(slot) ==> {
                &&& inside.1 is Unknown
                &&& inside.0.errors.len() == c.errors.len() + 1
                &&& inside.0.errors.last().kind is MissingFormalRead
            }
            &&& !c.no_default_formals.contains(slot) ==> guard is None && inside == (c, held)
            &&& c.on_false_edge(guard).read(item, read) == (c, held)
        }),
{
}

/// A slot that holds a type reads as that type, and reading it changes nothing.
pub proof fn a_written_slot_reads_as_it_is(c: CheckV, item: ItemV, read: ExprId, slot: u32, ty: TyV)
    requires
        item.slot_of(read) == Some(slot),
        c.env.get(slot) == Some(SlotV::Mono(ty)),
    ensures
        c.read(item, read) == (c, ty),
{
}

/// A name that nothing declares reads as unknown, without a finding; one that is
/// declared reads as an instance of what is declared.
pub proof fn an_outer_name_reads_as_declared(c: CheckV, item: ItemV, id: ExprId, name: Seq<char>)
    requires
        c.refined_outside(name) is None,
    ensures
        ({
            let deferred = item.naming.deferred_non_locals.contains(id.0);
            let outcome = c.read_outside(item, id, name);
            match item.scheme(name, deferred) {
                None => outcome == (c, TyV::Unknown),
                Some(scheme) => outcome.1 == c.instantiate(scheme).1 && outcome.0.errors
                    == c.instantiate(scheme).0.errors,
            }
        }),
{
}

/// A field of a class is written as the class declares it: a value that does not
/// fit is reported, and so is a field that the class does not have.
pub proof fn a_field_of_a_class_is_checked(
    c: CheckV,
    m: Module,
    nominal: TyV,
    field: FieldV,
    name: Seq<char>,
    value: ExprId,
    found: Atomic,
)
    requires
        c.table.structural(nominal) == TyV::Record(seq![field]),
        field.ty is Scalar,
    ensures
        ({
            let after = c.check_nominal_write(m, nominal, name, value, TyV::Scalar(found));
            let wanted = field.ty->Scalar_0;
            &&& field.name == name && fits(TyV::Scalar(found), wanted) ==> after == c
            &&& field.name == name && !fits(TyV::Scalar(found), wanted) ==> after.errors.len()
                == c.errors.len() + 1
            &&& field.name != name ==> {
                &&& after.errors.len() == c.errors.len() + 1
                &&& after.errors.last().kind is FieldDoesNotExist
            }
            &&& c.check_nominal_write(m, nominal, field.name, value, TyV::Unknown) == c
        }),
{
    let fields = seq![field];
    let wanted = field.ty->Scalar_0;
    compatible::scalars_widen_one_way(c.table, found, wanted);
    compatible::leaves_resolve_to_themselves(c.table, TyV::Scalar(found));
    compatible::leaves_resolve_to_themselves(c.table, TyV::Scalar(wanted));
    reveal_with_fuel(table::field_type, 3);
    assert(fields[0] == field);
}

/// What a function body gives is held to the declared result: a single value that
/// does not fit is reported once, where it stands.
pub proof fn a_body_is_held_to_its_result(
    c: CheckV,
    m: Module,
    wanted: Atomic,
    body: ExprId,
    found: Atomic,
)
    requires
        operands::tail_expressions(m, body) == seq![body],
    ensures
        ({
            let after = c.check_body_value(m, TyV::Scalar(wanted), body, TyV::Scalar(found));
            &&& fits(TyV::Scalar(found), wanted) ==> after == c
            &&& !fits(TyV::Scalar(found), wanted) ==> after.errors.len() == c.errors.len() + 1
            &&& c.check_body_value(m, TyV::Scalar(wanted), body, TyV::Unknown) == c
        }),
{
    compatible::leaves_resolve_to_themselves(c.table, TyV::Scalar(found));
    compatible::leaves_resolve_to_themselves(c.table, TyV::Scalar(wanted));
    compatible::leaves_resolve_to_themselves(c.table, TyV::Unknown);
    compatible::scalars_widen_one_way(c.table, found, wanted);
    let leaves = seq![body];
    assert(leaves[0] == body);
    let next = c.compatible(TyV::Scalar(found), TyV::Scalar(wanted)).0;
    assert(next == c);
    reveal_with_fuel(CheckV::culprits, 3);
}

/// Only an assignment defines something; the types of its parts are those that
/// were recorded, resolved.
pub proof fn only_an_assignment_defines(
    c: CheckV,
    item: ItemV,
    root: ExprId,
    demand: Option<crate::annotations::DemandV>,
    id: u32,
)
    ensures
        c.check_root(item, root, demand).1 is Some <==> item.module.kind_of(root)
            is Assign,
        c.recorded.dom().contains(id) && id < item.module.expressions@.len()
            ==> c.resolved_types(item.module).dom().contains(id) && c.resolved_types(
            item.module,
        )[id] == c.table.resolve(c.recorded[id]),
        !c.recorded.dom().contains(id) ==> !c.resolved_types(item.module).dom().contains(id),
{
}

/// A slot of an item with an error is exported as nothing that is known; else as
/// what it holds, closed.
pub proof fn a_slot_is_exported_as_it_is(c: CheckV, ty: TyV, index: u32)
    ensures
        c.errors.len() > 0 ==> c.slot_scheme(SlotV::Mono(ty)).body is Unknown,
        c.errors.len() == 0 ==> c.slot_scheme(SlotV::Mono(ty)) == c.table.close_scheme(
            crate::schemes::SchemeV::monomorphic(ty),
        ),
{
}

/// A finding points into the parentheses around an expression.
pub proof fn parentheses_are_not_blamed(m: Module, id: ExprId)
    ensures
        match m.kind_of(id) {
            ExpressionKind::Paren(inner) => inner.0 < id.0 ==> checking::blame_range(m, id)
                == checking::blame_range(m, inner),
            _ => checking::blame_range(m, id) == m.range_of(id),
        },
{
}

/// A record that does not fit is blamed where it goes wrong: at the value of the
/// field, at the name that is too much, or as a whole where a field is missing.
pub proof fn a_record_is_blamed_where_it_goes_wrong(
    m: Module,
    value: ExprId,
    name: Seq<char>,
    expected: TyV,
    found: TyV,
    near: Option<Seq<char>>,
)
    ensures
        ({
            let path = seq![name];
            let given = checking::tagged_argument(m, value, name);
            let missing = RecordMismatchV::Missing { path, near };
            let field = RecordMismatchV::Field { path, expected, found };
            let surplus = RecordMismatchV::Unexpected { path, near };
            &&& checking::record_field_range(m, value, missing) == Some(
                checking::blame_range(m, value),
            )
            &&& given is Some && (given->0).value is Some ==> checking::record_field_range(
                m,
                value,
                field,
            ) == Some(checking::blame_range(m, (given->0).value->0))
            &&& given is Some && (given->0).name_range is Some ==> checking::record_field_range(
                m,
                value,
                surplus,
            ) == (given->0).name_range
        }),
{
    let path = seq![name];
    assert(path.last() == name);
    assert(checking::descend(m, value, path, 0, 0) == Some(value));
}

} // verus!
