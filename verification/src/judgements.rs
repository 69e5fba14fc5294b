//! What a check concludes: the laws of the types that expressions get, and of
//! the state that names keep.

use vstd::prelude::*;

use crate::arithmetic;
use crate::building::CombineV;
use crate::checking::{CheckV, ItemV};
use crate::compatible;
use crate::declared;
use crate::environment::{SlotV, WritesV};
use crate::hir::{
    Argument, AssignSpelling, BinaryOperator, ExprId, ExpressionKind, Module, Parameter,
    UnaryOperator,
};
use crate::inference;
use crate::operands;
use crate::reads::GuardV;
use crate::syntax::TextRange;
use crate::table::TableV;
use crate::types::{self, Atomic, ParameterV, RestV, TyV};
use crate::unions;
use crate::walk;

verus! {

/// The value of a loop is `NULL`.
pub proof fn a_loop_gives_null(c: CheckV, item: ItemV, id: ExprId)
    requires
        item.module.kind_of(id) is For || item.module.kind_of(id) is While || item.module.kind_of(
            id,
        ) is Repeat,
    ensures
        c.infer_kind(item, id).1 == TyV::Null,
{
}

/// Parentheses change nothing.
pub proof fn parentheses_only_group(c: CheckV, item: ItemV, id: ExprId)
    ensures
        match item.module.kind_of(id) {
            ExpressionKind::Paren(inner) => c.infer_kind(item, id) == c.below(item, id, inner),
            _ => true,
        },
{
}

/// A literal has its own type and leaves the state alone.
pub proof fn a_literal_is_its_type(c: CheckV, item: ItemV, id: ExprId)
    ensures
        match item.module.kind_of(id) {
            ExpressionKind::Literal(literal) => c.infer_kind(item, id) == (
                c,
                operands::literal_type(literal),
            ),
            _ => true,
        },
{
}

/// Statements come one after another: the last one is judged in the state that
/// the others leave.
proof fn statements_in_order(
    c: CheckV,
    item: ItemV,
    bound: ExprId,
    ids: Seq<ExprId>,
    from: int,
    last: TyV,
)
    requires
        0 <= from < ids.len(),
    ensures
        c.infer_all(item, bound, ids, from, last) == c.infer_all(
            item,
            bound,
            ids.drop_last(),
            from,
            last,
        ).0.below(item, bound, ids.last()),
    decreases ids.len() - from,
{
    let (next, ty) = c.below(item, bound, ids[from]);
    if from < ids.len() - 1 {
        statements_in_order(next, item, bound, ids, from + 1, ty);
        assert(ids.drop_last()[from] == ids[from]);
    } else {
        assert(next.infer_all(item, bound, ids, from + 1, ty) == (next, ty));
    }
}

/// The value of a block is that of its last statement, judged in the state that
/// the others leave; it is `NULL` where the block is empty or ends in `;`.
pub proof fn a_block_gives_its_last_value(c: CheckV, item: ItemV, id: ExprId)
    ensures
        match item.module.kind_of(id) {
            ExpressionKind::Block { statements, trailing_semicolon } => {
                &&& trailing_semicolon || statements@.len() == 0 ==> c.infer_kind(item, id).1
                    == TyV::Null
                &&& !trailing_semicolon && statements@.len() > 0 ==> c.infer_kind(item, id)
                    == c.infer_all(item, id, statements@.drop_last(), 0, TyV::Null).0.below(
                    item,
                    id,
                    statements@.last(),
                )
            },
            _ => true,
        },
{
    match item.module.kind_of(id) {
        ExpressionKind::Block { statements, trailing_semicolon } => {
            if statements@.len() > 0 {
                statements_in_order(c, item, id, statements@, 0, TyV::Null);
            }
        },
        _ => {},
    }
}

/// `&&` and `||` give one logical, whatever their operands are.
pub proof fn conditions_combine_to_a_logical(
    c: CheckV,
    item: ItemV,
    id: ExprId,
    operator: BinaryOperator,
    lhs: ExprId,
    rhs: ExprId,
)
    requires
        operator == BinaryOperator::And2 || operator == BinaryOperator::Or2,
    ensures
        c.infer_binary(item, id, operator, None, lhs, rhs).1 == TyV::Scalar(Atomic::Logical),
        c.infer_binary(item, id, operator, None, lhs, rhs).0 == c.expect_logical(
            item,
            id,
            lhs,
        ).expect_logical(item, id, rhs),
{
}

/// A single value is taken as a condition exactly where it is a number or a
/// logical; `NULL` and vectors are not.
pub proof fn numbers_and_logicals_are_conditions(ty: TyV)
    requires
        ty is Scalar,
    ensures
        operands::coerces(ty) <==> operands::numeric_part(ty) is Some,
        !operands::coerces(TyV::Null),
        !operands::coerces(TyV::Vector(Box::new(ty))),
{
}

/// Joining with `NULL` keeps both: the result is the union, and nothing is bound.
pub proof fn joining_with_null_is_the_union(t: TableV, ty: TyV)
    ensures
        t.join_types(ty, TyV::Null) == (t, TyV::union_of(seq![t.resolve(ty), TyV::Null])),
        t.join_branch_values(ty, TyV::Null) == (t, TyV::union_of(seq![t.resolve(ty), TyV::Null])),
{
    compatible::leaves_resolve_to_themselves(t, TyV::Null);
}

/// Two single values join to one where they have the same mode, and to the union
/// of both where they do not.
pub proof fn single_values_join_by_mode(t: TableV, a: Atomic, b: Atomic)
    ensures
        t.join_types(TyV::Scalar(a), TyV::Scalar(b)).0 == t,
        a == b ==> t.join_types(TyV::Scalar(a), TyV::Scalar(b)).1 == TyV::Scalar(a),
        a != b ==> t.join_types(TyV::Scalar(a), TyV::Scalar(b)).1 == TyV::Union(
            seq![TyV::Scalar(a), TyV::Scalar(b)],
        ),
{
    compatible::leaves_resolve_to_themselves(t, TyV::Scalar(a));
    compatible::leaves_resolve_to_themselves(t, TyV::Scalar(b));
    compatible::unification_never_widens(t, a, b);
    if a != b {
        let both = seq![TyV::Scalar(a), TyV::Scalar(b)];
        reveal_with_fuel(types::spliced, 3);
        reveal_with_fuel(types::distinct, 3);
        assert(both.drop_last() =~= seq![TyV::Scalar(a)]);
        assert(seq![TyV::Scalar(a)].drop_last() =~= Seq::empty());
        assert(types::spliced(seq![TyV::Scalar(a)]) =~= seq![TyV::Scalar(a)]);
        assert(types::spliced(both) =~= both);
        assert(types::distinct(seq![TyV::Scalar(a)]) =~= seq![TyV::Scalar(a)]);
        assert(!seq![TyV::Scalar(a)].contains(TyV::Scalar(b)));
        assert(types::distinct(both) =~= both);
    }
}

/// Where the join of two types is not the first of them, it is the union of both
/// and nothing has been bound.
pub proof fn a_join_binds_or_unites(t: TableV, left: TyV, right: TyV)
    ensures
        t.join_types(left, right).1 == left && t.unify(left, right).1 is Ok || t.join_types(
            left,
            right,
        ) == (t, TyV::union_of(seq![t.resolve(left), t.resolve(right)])),
{
}

/// Where an arm that falls through meets the state without it, the value may be
/// `NULL`.
proof fn met_with_nothing(c: CheckV, writes: WritesV, mark: nat, ty: TyV)
    ensures
        may_be_null(c.meet((false, false), writes, mark, ty, TyV::Null).1),
{
    let joined = c.join_writes(writes, 0, Seq::empty()).0;
    joining_with_null_is_the_union(joined.table, ty);
    let own = seq![joined.table.resolve(ty)];
    assert(own.push(TyV::Null) =~= seq![joined.table.resolve(ty), TyV::Null]);
    assert(c.meet((false, false), writes, mark, ty, TyV::Null).1 == TyV::union_of(
        own.push(TyV::Null),
    ));
}

/// Whether a type is the union of `NULL` and other types.
pub open spec fn may_be_null(ty: TyV) -> bool {
    exists|others: Seq<TyV>| ty == #[trigger] TyV::union_of(others.push(TyV::Null))
}

/// A branch without an `else` may give `NULL`; where its arm never falls
/// through, it gives nothing else.
#[verifier::spinoff_prover]
pub proof fn a_branch_without_an_else_may_be_null(
    c: CheckV,
    item: ItemV,
    id: ExprId,
    condition: ExprId,
    then_branch: ExprId,
)
    ensures
        walk::diverges(item.module, then_branch) ==> c.infer_if(
            item,
            id,
            condition,
            then_branch,
            None,
        ).1 == TyV::Null,
        !walk::diverges(item.module, then_branch) ==> may_be_null(
            c.infer_if(item, id, condition, then_branch, None).1,
        ),
{
    let tested = c.expect_logical(item, id, condition);
    let (ready, guard) = tested.guard_below(item, id, condition);
    let mark = ready.env.mark();
    let (taken, then_ty) = ready.on_true_edge(guard).below(item, id, then_branch);
    let writes = taken.env.writes_since(mark);
    let back = taken.rolled_back(mark);
    let other = back.on_false_edge(guard);
    met_with_nothing(other, writes, back.env.mark(), then_ty);
}

/// An arm that never falls through gives a branch neither its value nor its
/// writes.
pub proof fn a_diverging_arm_adds_nothing(
    c: CheckV,
    writes: WritesV,
    others: WritesV,
    mark: nat,
    a: TyV,
    b: TyV,
    other: TyV,
)
    ensures
        c.meet((true, false), writes, mark, a, b) == c.meet((true, false), others, mark, other, b),
        c.meet((true, false), writes, mark, a, b) == (c, b),
        c.meet((false, true), writes, mark, a, b) == c.meet((false, true), writes, mark, a, other),
        c.meet((false, true), writes, mark, a, b).1 == a,
        c.meet((false, true), writes, mark, a, b).0.env == c.rolled_back(mark).adopt_writes(
            writes,
            0,
        ).env,
{
}

/// A slot that a branch wrote is unknown to no later read: where the branch
/// meets a state, the slot holds something, and a slot it did not write holds
/// what it held.
pub proof fn a_joined_write_is_kept(c: CheckV, slot: u32, written: Option<SlotV>, other: u32)
    ensures
        written is Some ==> c.join_write(slot, written).0.env.get(slot) is Some,
        written is None ==> c.join_write(slot, written).0 == c,
        other != slot ==> c.join_write(slot, written).0.env.get(other) == c.env.get(other),
        c.env.get(slot) is None && written is Some ==> c.join_write(slot, written).0.env.get(slot)
            == match written {
            Some(SlotV::MissingFormal(ty)) => Some(SlotV::Mono(ty)),
            entry => entry,
        },
        c.join_write(slot, written).1 <==> c.join_write(slot, written).0.env.get(slot)
            != c.env.get(slot),
{
}

/// Where two known types of a slot meet, the slot holds their join.
pub proof fn a_joined_slot_holds_the_join(c: CheckV, slot: u32, held: TyV, written: TyV)
    requires
        c.env.get(slot) == Some(SlotV::Mono(held)),
    ensures
        held == written ==> c.join_write(slot, Some(SlotV::Mono(written))) == (c, false),
        held != written ==> c.join_write(slot, Some(SlotV::Mono(written))).0.env.get(slot) == Some(
            SlotV::Mono(c.join_types(held, written).1),
        ),
{
}

/// A name reads back what was assigned to it, and every other slot is as it was.
pub proof fn an_assigned_name_reads_back(
    c: CheckV,
    item: ItemV,
    spelling: AssignSpelling,
    target: ExprId,
    value: TyV,
    read: ExprId,
    slot: u32,
    other: u32,
)
    requires
        spelling != AssignSpelling::Super,
        item.slot_of(target) == Some(slot),
        item.slot_of(read) == Some(slot),
        !(c.table.shallow(value) is Function),
    ensures
        c.write_name(item, spelling, target, value).read(item, read).1 == value,
        other != slot ==> c.write_name(item, spelling, target, value).env.get(other) == c.env.get(
            other,
        ),
        c.write_name(item, spelling, target, value).errors == c.errors,
{
}

/// A function is generalized where it is assigned: a read instantiates its
/// scheme anew.
pub proof fn an_assigned_function_is_generalized(
    c: CheckV,
    item: ItemV,
    spelling: AssignSpelling,
    target: ExprId,
    value: TyV,
    slot: u32,
)
    requires
        spelling != AssignSpelling::Super,
        item.slot_of(target) == Some(slot),
        c.table.shallow(value) is Function,
        c.schemes.len() < u32::MAX,
    ensures
        ({
            let after = c.write_name(item, spelling, target, value);
            match after.env.get(slot) {
                Some(SlotV::Scheme(index)) => after.scheme_at(index) == c.table.generalize(value),
                _ => false,
            }
        }),
{
}

/// `<<-` leaves its write pending for the scopes around, and what the slot held
/// is joined, not replaced.
pub proof fn a_super_assignment_is_pending(
    c: CheckV,
    item: ItemV,
    target: ExprId,
    value: TyV,
    slot: u32,
)
    requires
        item.slot_of(target) == Some(slot),
    ensures
        ({
            let after = c.write_name(item, AssignSpelling::Super, target, value);
            let written = c.table.resolve(value);
            &&& after.pending == c.pending.push((slot, written))
            &&& c.env.get(slot) is None ==> after.env.get(slot) == Some(SlotV::Mono(written))
            &&& match c.env.get(slot) {
                Some(SlotV::Mono(held)) => after.env.get(slot) == Some(
                    SlotV::Mono(
                        if held == written {
                            held
                        } else {
                            c.join_types(held, written).1
                        },
                    ),
                ),
                _ => true,
            }
        }),
{
}

/// The edges of a guard change places under `!`; a test for a missing formal has
/// no other edge.
pub proof fn negation_exchanges_the_edges(c: CheckV, guard: GuardV)
    ensures
        !guard.missing_on_true ==> c.on_false_edge(Some(guard.negated())) == c.on_true_edge(
            Some(guard),
        ),
        c.on_true_edge(Some(guard.negated())) == c.on_false_edge(Some(guard)),
        guard.negated().slot == guard.slot,
        !guard.negated().missing_on_true,
{
}

/// On an edge the tested slot has the type the guard refined it to, and no other
/// slot changes.
pub proof fn an_edge_refines_only_the_tested_slot(c: CheckV, guard: GuardV, other: u32)
    ensures
        guard.true_edge is Some ==> c.on_true_edge(Some(guard)).env.get(guard.slot) == Some(
            SlotV::Mono(guard.true_edge->0),
        ),
        guard.false_edge is Some ==> c.on_false_edge(Some(guard)).env.get(guard.slot) == Some(
            SlotV::Mono(guard.false_edge->0),
        ),
        other != guard.slot ==> c.on_true_edge(Some(guard)).env.get(other) == c.env.get(other),
        other != guard.slot ==> c.on_false_edge(Some(guard)).env.get(other) == c.env.get(other),
        c.on_true_edge(Some(guard)).errors == c.errors,
        c.on_false_edge(Some(guard)).errors == c.errors,
{
}

/// An early return is remembered in the innermost function, and yields nothing
/// where it stands.
pub proof fn a_return_is_remembered(
    c: CheckV,
    item: ItemV,
    id: ExprId,
    arguments: Seq<Argument>,
)
    ensures
        c.infer_return(item, id, arguments).1 == TyV::Null,
        arguments.len() == 0 && c.return_frames.len() > 0 ==> c.infer_return(
            item,
            id,
            arguments,
        ).0.return_frames.last().last().0 == TyV::Null,
{
    compatible::leaves_resolve_to_themselves(c.table, TyV::Null);
}

/// A function returns what its body gives and what any early return gives;
/// without an early return, what its body gives and nothing else.
pub proof fn a_function_returns_every_value(
    t: TableV,
    early: Seq<(TyV, TextRange)>,
    trailing: TyV,
    ty: TyV,
)
    requires
        unions::is_flat(declared::early_types(early).push(t.resolve(trailing))),
        !unions::is_member(declared::early_types(early).push(t.resolve(trailing)), TyV::Any),
        !unions::is_member(declared::early_types(early).push(t.resolve(trailing)), TyV::Unknown),
    ensures
        early.len() == 0 ==> declared::returned_type(t, early, trailing) == trailing,
        early.len() > 0 ==> (types::members_of(
            declared::returned_type(t, early, trailing),
        ).contains(ty) <==> types::members_of(t.resolve(trailing)).contains(ty) || exists|i: int|
            0 <= i < early.len() && types::members_of((#[trigger] early[i]).0).contains(ty)),
{
    let list = declared::early_types(early).push(t.resolve(trailing));
    unions::a_union_has_the_members_of_its_parts(list, ty);
    if early.len() > 0 {
        if unions::is_member(list, ty) {
            let i = choose|i: int|
                0 <= i < list.len() && types::members_of(#[trigger] list[i]).contains(ty);
            if i < early.len() {
                assert(list[i] == early[i].0);
            }
        }
        if types::members_of(t.resolve(trailing)).contains(ty) {
            assert(types::members_of(list[early.len() as int]).contains(ty));
        }
        if exists|i: int|
            0 <= i < early.len() && types::members_of((#[trigger] early[i]).0).contains(ty) {
            let i = choose|i: int|
                0 <= i < early.len() && types::members_of((#[trigger] early[i]).0).contains(ty);
            assert(list[i] == early[i].0);
        }
    }
}

/// The formals of a definition other than `...`, from one on.
pub open spec fn plain_names(parameters: Seq<Parameter>, from: int) -> Seq<Seq<char>>
    decreases parameters.len() - from,
{
    if 0 <= from < parameters.len() {
        if parameters[from].name@ == "..."@ {
            plain_names(parameters, from + 1)
        } else {
            seq![parameters[from].name@] + plain_names(parameters, from + 1)
        }
    } else {
        Seq::empty()
    }
}

/// The names of formals.
pub open spec fn names_of(formals: Seq<ParameterV>) -> Seq<Seq<char>> {
    Seq::new(formals.len(), |i: int| formals[i].name)
}

/// The signature of a definition has its formals in their order, without `...`,
/// and a rest parameter exactly where `...` stands among them.
pub proof fn a_signature_has_the_formals_in_order(
    c: CheckV,
    item: ItemV,
    id: ExprId,
    parameters: Seq<Parameter>,
    body: ExprId,
    from: int,
    named: Seq<ParameterV>,
    variadic: Option<RestV>,
)
    requires
        0 <= from <= parameters.len(),
    ensures
        ({
            let (after, formals, rest) = c.infer_formals(
                item,
                id,
                parameters,
                body,
                from,
                named,
                variadic,
            );
            &&& names_of(formals) == names_of(named) + plain_names(parameters, from)
            &&& rest is Some <==> variadic is Some || exists|i: int|
                from <= i < parameters.len() && (#[trigger] parameters[i]).name@ == "..."@
        }),
    decreases parameters.len() - from,
{
    if from < parameters.len() {
        let parameter = parameters[from];
        if parameter.name@ == "..."@ {
            a_signature_has_the_formals_in_order(
                c,
                item,
                id,
                parameters,
                body,
                from + 1,
                named,
                Some(RestV { element: TyV::Any, preceding_named: named.len() as usize }),
            );
            assert(parameters[from].name@ == "..."@);
        } else {
            let (fresh, ty) = c.fresh(types::Constraint::Unconstrained);
            let bound = fresh.bind_formal(item, parameter, ty);
            let (next, default) = match parameter.default {
                Some(default) => {
                    let (next, default_ty) = bound.below(item, id, default);
                    (next, Some(default_ty))
                },
                None => (bound, None),
            };
            let more = named.push(
                ParameterV {
                    name: parameter.name@,
                    ty,
                    optional: declared::is_optional(item.module, body, parameter),
                    default,
                },
            );
            a_signature_has_the_formals_in_order(
                next,
                item,
                id,
                parameters,
                body,
                from + 1,
                more,
                variadic,
            );
            assert(names_of(more) =~= names_of(named).push(parameter.name@));
            assert(names_of(named) + plain_names(parameters, from) =~= names_of(more)
                + plain_names(parameters, from + 1));
            assert(forall|i: int|
                from <= i < parameters.len() && (#[trigger] parameters[i]).name@ == "..."@
                    ==> from + 1 <= i);
        }
    } else {
        assert(names_of(named) + plain_names(parameters, from) =~= names_of(named));
    }
}

/// A formal may be left out where it has a default, and where it has none only
/// if the body asks whether it is missing.
pub proof fn a_formal_with_a_default_may_be_left_out(m: Module, body: ExprId, parameter: Parameter)
    ensures
        parameter.default is Some ==> declared::is_optional(m, body, parameter),
        parameter.default is None ==> (declared::is_optional(m, body, parameter)
            <==> operands::missing_tested(m, body).contains(parameter.name@)),
{
}

proof fn items_are_counted(
    c: CheckV,
    item: ItemV,
    bound: ExprId,
    arguments: Seq<Argument>,
    from: int,
    done: Seq<TyV>,
)
    requires
        0 <= from <= arguments.len(),
    ensures
        c.infer_items(item, bound, arguments, from, done).1.len() == done.len() + arguments.len()
            - from,
    decreases arguments.len() - from,
{
    if from < arguments.len() {
        match arguments[from].value {
            Some(value) => {
                let (next, ty) = c.below(item, bound, value);
                items_are_counted(
                    next,
                    item,
                    bound,
                    arguments,
                    from + 1,
                    done.push(next.table.resolve(ty)),
                );
            },
            None => {
                items_are_counted(c, item, bound, arguments, from + 1, done.push(TyV::Unknown));
            },
        }
    }
}

/// `list(...)` keeps its arguments apart where it can: without names it has one
/// item for each argument, with names throughout one field of that name for
/// each, and otherwise it is a list of all of them.
pub proof fn a_list_keeps_its_arguments(
    c: CheckV,
    item: ItemV,
    id: ExprId,
    arguments: Seq<Argument>,
    i: int,
)
    requires
        0 <= i < arguments.len(),
    ensures
        ({
            let ty = c.infer_list(item, id, arguments).1;
            &&& (forall|k: int| 0 <= k < arguments.len() ==> (#[trigger] arguments[k]).name is None)
                ==> ty is Tuple && ty->Tuple_0.len() == arguments.len()
            &&& (forall|k: int| 0 <= k < arguments.len() ==> (#[trigger] arguments[k]).name is Some)
                ==> {
                &&& ty is Record
                &&& ty->Record_0.len() == arguments.len()
                &&& ty->Record_0[i].name == arguments[i].name->0@
                &&& !ty->Record_0[i].optional
            }
            &&& (exists|k: int|
                0 <= k < arguments.len() && (#[trigger] arguments[k]).name is Some) && (exists|
                k: int,
            |
                0 <= k < arguments.len() && (#[trigger] arguments[k]).name is None) ==> ty is List
        }),
{
    items_are_counted(c, item, id, arguments, 0, Seq::empty());
    let own = arguments[i].name;
    if forall|k: int| 0 <= k < arguments.len() ==> (#[trigger] arguments[k]).name is None {
        assert(inference::all_unnamed(arguments));
    }
    if forall|k: int| 0 <= k < arguments.len() ==> (#[trigger] arguments[k]).name is Some {
        assert(inference::all_named(arguments));
        assert(arguments[i].name is Some);
        assert(!inference::all_unnamed(arguments));
    }
}

/// `switch` may give `NULL` where no branch stands for the other cases.
pub proof fn a_switch_without_a_default_may_be_null(
    c: CheckV,
    item: ItemV,
    id: ExprId,
    arguments: Seq<Argument>,
)
    requires
        arguments.len() > 0,
        forall|i: int| 1 <= i < arguments.len() ==> (#[trigger] arguments[i]).name is Some,
    ensures
        may_be_null(c.infer_switch(item, id, arguments).1),
{
    all_named_from(arguments, 1);
    let ready = match arguments[0].value {
        Some(value) => c.below(item, id, value).0,
        None => c,
    };
    let members = ready.infer_branches(
        item,
        id,
        arguments,
        1,
        ready.env.mark(),
        Seq::empty(),
        Seq::empty(),
    ).1;
    assert(c.infer_switch(item, id, arguments).1 == TyV::union_of(members.push(TyV::Null)));
}

proof fn all_named_from(arguments: Seq<Argument>, from: int)
    requires
        0 <= from,
        forall|i: int| from <= i < arguments.len() ==> (#[trigger] arguments[i]).name is Some,
    ensures
        walk::argument_unnamed(arguments, from) is None,
    decreases arguments.len() - from,
{
    if from < arguments.len() {
        all_named_from(arguments, from + 1);
    }
}

/// Whether a mode is at least as high as another in the hierarchy of `c(...)`.
pub open spec fn is_above(higher: Atomic, lower: Atomic) -> bool {
    operands::combined(higher, lower) == Some(higher)
}

/// The modes that `c(...)` gathers combine to the highest of them: it is one of
/// them or what was gathered before, and no other is above it. Nothing is
/// reported, unless `raw` meets another mode.
pub proof fn combining_takes_the_highest_mode(
    c: CheckV,
    range: TextRange,
    resolved: TyV,
    atomics: Seq<Atomic>,
    from: int,
    gathered: CombineV,
)
    requires
        0 <= from <= atomics.len(),
        forall|i: int| 0 <= i < atomics.len() ==> #[trigger] atomics[i] != Atomic::Raw,
        gathered.atomic != Some(Atomic::Raw),
    ensures
        ({
            let (after, all) = c.combine_atomics(range, resolved, atomics, from, gathered);
            &&& after == c
            &&& all.all_named == gathered.all_named
            &&& all.saw_value == gathered.saw_value
            &&& all.indeterminate == gathered.indeterminate
            &&& gathered.atomic is Some || from < atomics.len() ==> all.atomic is Some
            &&& all.atomic is Some ==> {
                &&& all.atomic->0 != Atomic::Raw
                &&& gathered.atomic is Some ==> is_above(all.atomic->0, gathered.atomic->0)
                &&& forall|i: int|
                    from <= i < atomics.len() ==> is_above(all.atomic->0, #[trigger] atomics[i])
                &&& gathered.atomic == all.atomic || exists|i: int|
                    from <= i < atomics.len() && all.atomic == Some(#[trigger] atomics[i])
            }
        }),
    decreases atomics.len() - from,
{
    if from < atomics.len() {
        let own = atomics[from];
        let promoted = match gathered.atomic {
            None => own,
            Some(previous) => operands::combined(previous, own)->0,
        };
        combining_takes_the_highest_mode(
            c,
            range,
            resolved,
            atomics,
            from + 1,
            CombineV { atomic: Some(promoted), ..gathered },
        );
        let all = c.combine_atomics(range, resolved, atomics, from, gathered).1;
        assert(is_above(all.atomic->0, promoted));
        assert(is_above(all.atomic->0, own));
    }
}

/// One argument of `c(...)`: a value is seen, a name counts only where every
/// value has one, and `NULL` is as if it were not there.
pub proof fn an_argument_of_c_is_seen(
    c: CheckV,
    m: Module,
    id: ExprId,
    range: TextRange,
    named: bool,
    mode: Atomic,
    gathered: CombineV,
)
    requires
        mode != Atomic::Raw,
        gathered.atomic != Some(Atomic::Raw),
    ensures
        c.combine_argument(m, id, range, named, TyV::Null, gathered) == (c, gathered),
        ({
            let (after, all) = c.combine_argument(
                m,
                id,
                range,
                named,
                TyV::Scalar(mode),
                gathered,
            );
            &&& after == c
            &&& all.saw_value
            &&& all.all_named == (gathered.all_named && named)
            &&& all.indeterminate == gathered.indeterminate
            &&& gathered.atomic is None ==> all.atomic == Some(mode)
            &&& gathered.atomic is Some ==> all.atomic == operands::combined(
                gathered.atomic->0,
                mode,
            )
        }),
{
    let ty = TyV::Scalar(mode);
    reveal_with_fuel(crate::building::member_atomics, 2);
    assert(types::members_of(ty) == seq![ty]);
    assert(crate::building::member_atomics(seq![ty], 1)->0 =~= seq![mode]);
    assert(crate::building::argument_atomics(ty) == Some(seq![mode]));
    let seen = CombineV { saw_value: true, all_named: gathered.all_named && named, ..gathered };
    reveal_with_fuel(CheckV::combine_atomics, 2);
    assert(c.combine_atomics(range, ty, seq![mode], 0, seen).0 == c);
}

/// What `c(...)` builds is a vector of the mode gathered, with names where every
/// value has one; without any value it is `NULL`.
pub proof fn c_builds_a_vector_of_its_mode(gathered: CombineV)
    ensures
        !gathered.saw_value ==> gathered.result() == TyV::Null,
        gathered.saw_value && !gathered.indeterminate && gathered.atomic is Some ==> {
            &&& operands::element_atomic(gathered.result()) == gathered.atomic
            &&& gathered.result() is NamedVector <==> gathered.all_named
            &&& gathered.result() !is Scalar
        },
        gathered.saw_value && gathered.indeterminate ==> gathered.result() == TyV::Unknown,
{
}

/// An end of `a:b` makes it a sequence of doubles or leaves its mode: whole
/// numbers leave it, other doubles do not, and once a double it stays one. The
/// order of the ends does not matter.
pub proof fn the_ends_of_a_sequence_have_no_order(
    c: CheckV,
    m: Module,
    range: TextRange,
    first: (bool, Atomic),
    second: (bool, Atomic),
)
    requires
        first.1 == Atomic::Integer || first.1 == Atomic::Double,
        second.1 == Atomic::Integer || second.1 == Atomic::Double,
    ensures
        ({
            let mode = |end: (bool, Atomic), before: Atomic|
                c.colon_end(m, range, end.0, TyV::Scalar(end.1), before);
            let whole = |end: (bool, Atomic)| end.1 == Atomic::Integer || end.0;
            &&& mode(first, Atomic::Integer).0 == c
            &&& mode(first, Atomic::Integer).1 is Some
            &&& mode(first, Atomic::Integer).1 == Some(Atomic::Integer) <==> whole(first)
            &&& mode(first, Atomic::Double).1 == Some(Atomic::Double)
            &&& mode(second, mode(first, Atomic::Integer).1->0) == mode(
                first,
                mode(second, Atomic::Integer).1->0,
            )
        }),
{
}

/// Nothing but a number is an end of a sequence.
pub proof fn the_ends_of_a_sequence_are_numbers(
    c: CheckV,
    m: Module,
    range: TextRange,
    whole: bool,
    ty: TyV,
    atomic: Atomic,
)
    requires
        ty is Scalar,
        ty->Scalar_0 != Atomic::Integer && ty->Scalar_0 != Atomic::Double,
    ensures
        c.colon_end(m, range, whole, ty, atomic).1 is None,
        c.colon_end(m, range, whole, ty, atomic).0.errors.len() == c.errors.len() + 1,
{
}

/// A minus keeps the mode of a double, and a negation gives a logical: the two
/// prefix operators do what their names say.
pub proof fn prefix_operators_compute_or_invert(
    c: CheckV,
    item: ItemV,
    id: ExprId,
    operand: ExprId,
)
    requires
        c.infer_structural(item, id, operand).1 == TyV::Scalar(Atomic::Double),
    ensures
        ({
            let next = c.infer_structural(item, id, operand).0;
            &&& c.infer_unary(item, id, UnaryOperator::Minus, operand) == (
                next,
                TyV::Scalar(Atomic::Double),
            )
            &&& c.infer_unary(item, id, UnaryOperator::Not, operand) == (
                next,
                TyV::Scalar(Atomic::Logical),
            )
        }),
{
    let next = c.infer_structural(item, id, operand).0;
    let double = TyV::Scalar(Atomic::Double);
    let parts = seq![(operands::OperandShape::Scalar, Atomic::Double)];
    assert(operands::numeric_operand(next.table, double) == operands::NumericV::Concrete(parts));
    assert(parts[0] == (operands::OperandShape::Scalar, Atomic::Double));
    reveal_with_fuel(arithmetic::part_types, 2);
    assert(arithmetic::part_types(parts, 1) =~= seq![double]);
    unions::a_union_of_one_type_is_the_type(double);
}

/// A negated condition tells the opposite of the condition, and parentheses
/// around one tell the same.
pub proof fn a_negated_condition_tells_the_opposite(c: CheckV, item: ItemV, condition: ExprId)
    ensures
        match item.module.kind_of(condition) {
            ExpressionKind::Unary { operator, operand } => operator == UnaryOperator::Not
                && operand.0 < condition.0 ==> {
                let inner = c.recognize_guard(item, operand);
                let outer = c.recognize_guard(item, condition);
                &&& outer.0 == inner.0
                &&& outer.1 is Some <==> inner.1 is Some
                &&& inner.1 is Some ==> {
                    &&& (outer.1->0).slot == (inner.1->0).slot
                    &&& (outer.1->0).true_edge == (inner.1->0).false_edge
                    &&& (outer.1->0).false_edge == (inner.1->0).true_edge
                }
            },
            ExpressionKind::Paren(inner) => inner.0 < condition.0 ==> c.recognize_guard(
                item,
                condition,
            ) == c.recognize_guard(item, inner),
            _ => true,
        },
{
    match item.module.kind_of(condition) {
        ExpressionKind::Unary { operator, operand } => {
            if operand.0 < condition.0 {
                assert(c.guard_below(item, condition, operand) == c.recognize_guard(
                    item,
                    operand,
                ));
            }
        },
        ExpressionKind::Paren(inner) => {
            if inner.0 < condition.0 {
                assert(c.guard_below(item, condition, inner) == c.recognize_guard(item, inner));
            }
        },
        _ => {},
    }
}

/// Nothing is known of a slot that a loop keeps changing, and every other slot is
/// as it was.
pub proof fn a_widened_slot_is_unknown(
    c: CheckV,
    item: ItemV,
    id: ExprId,
    slots: Seq<u32>,
    from: int,
    slot: u32,
)
    requires
        0 <= from <= slots.len(),
    ensures
        ({
            let listed = exists|i: int| from <= i < slots.len() && #[trigger] slots[i] == slot;
            let after = c.widen(item, id, slots, from);
            &&& listed ==> after.env.get(slot) == Some(SlotV::Mono(TyV::Unknown))
            &&& !listed ==> after.env.get(slot) == c.env.get(slot)
        }),
    decreases slots.len() - from,
{
    if from < slots.len() {
        let next = c.set_slot(slots[from], SlotV::Mono(TyV::Unknown));
        let noted = match item.binding(slots[from]) {
            Some(binding) => next.origin(
                item.module,
                id,
                crate::findings::OriginKindV::LoopWidened(binding.name),
            ),
            None => next,
        };
        assert(noted.env == next.env);
        a_widened_slot_is_unknown(noted, item, id, slots, from + 1, slot);
    }
}

/// A structured value is the argument `.Data`, or the first one without a name;
/// with a dimension it is another kind of value.
pub proof fn a_structure_is_its_data(arguments: Seq<Argument>)
    ensures
        ({
            let named = |name: Seq<char>| walk::argument_named(arguments, name, 0);
            let value = inference::structured_value(arguments);
            &&& named("dim"@) is Some || named(".Dim"@) is Some ==> value is None
            &&& named("dim"@) is None && named(".Dim"@) is None && named(".Data"@) is Some
                ==> value == arguments[named(".Data"@)->0].value
            &&& named("dim"@) is None && named(".Dim"@) is None && named(".Data"@) is None
                && arguments.len() > 0 && arguments[0].name is None ==> value
                == arguments[0].value
        }),
{
    reveal_with_fuel(walk::argument_unnamed, 2);
}

/// Where a list is among what is combined, the result is a list: a list gives its
/// elements, anything else gives itself.
pub proof fn a_combined_list_holds_every_element(types: Seq<TyV>, i: int)
    requires
        0 <= i < types.len(),
    ensures
        ({
            let elements = crate::building::listed_elements(types);
            &&& elements.len() == types.len()
            &&& match types[i] {
                TyV::List(element) => elements[i] == *element,
                TyV::NamedList(element) => elements[i] == *element,
                TyV::Tuple(items) => elements[i] == TyV::union_of(items),
                TyV::Scalar(_) | TyV::Vector(_) | TyV::NamedVector(_) | TyV::Null
                | TyV::Function(_) => elements[i] == types[i],
                _ => true,
            }
        }),
        types[i] is List || types[i] is NamedList || types[i] is Tuple || types[i] is Record
            ==> crate::building::any_list(types),
{
}

/// An argument forwards the rest of the formals where it is `...` without a name.
pub proof fn dots_are_forwarded(m: Module, range: TextRange, argument: Argument, ty: Option<TyV>)
    ensures
        ({
            let call = inference::call_argument(m, range, argument, ty);
            &&& call.forwards_dots <==> argument.name is None && argument.value is Some
                && m.name_of(argument.value->0) == Some("..."@)
            &&& call.ty == ty
            &&& call.name == types::opt_text(argument.name)
            &&& call.value == argument.value
        }),
{
}

/// A write to an outer slot joins what the slot holds; an empty slot takes what is
/// written.
pub proof fn an_outer_write_joins_what_is_held(c: CheckV, slot: u32, written: TyV, other: u32)
    ensures
        ({
            let after = c.join_enclosing_write(slot, written);
            &&& c.env.get(slot) is None ==> after.env.get(slot) == Some(SlotV::Mono(written))
            &&& match c.env.get(slot) {
                Some(SlotV::Mono(held)) => after.env.get(slot) == Some(
                    SlotV::Mono(
                        if held == written {
                            held
                        } else {
                            c.join_types(held, written).1
                        },
                    ),
                ),
                _ => true,
            }
            &&& c.env.get(slot) is None && other != slot ==> after.env.get(other) == c.env.get(
                other,
            )
        }),
{
}

/// What a captured slot may hold is what every write to it may leave.
pub proof fn a_captured_slot_may_hold_every_write(
    c: CheckV,
    naming: walk::NamingV,
    slot: u32,
    value: TyV,
)
    ensures
        !naming.captured_slots.contains(slot) ==> c.note_captured_write(naming, slot, value) == c,
        naming.captured_slots.contains(slot) ==> {
            let after = c.note_captured_write(naming, slot, value);
            let written = c.table.resolve(value).erased();
            &&& after.capture_joins.dom().contains(slot)
            &&& !c.capture_joins.dom().contains(slot) ==> after.capture_joins[slot]
                == crate::checking::recordable(written)
            &&& c.capture_joins.dom().contains(slot) && c.capture_joins[slot] != written
                ==> after.capture_joins[slot] == crate::checking::recordable(
                c.join_types(c.capture_joins[slot], written).1,
            )
        },
{
}

/// What was seen of a slot is put back where the slot is empty, and nowhere else.
pub proof fn only_empty_slots_are_established(
    c: CheckV,
    observed: Seq<(u32, TyV)>,
    from: int,
    slot: u32,
)
    requires
        0 <= from <= observed.len(),
    ensures
        c.env.get(slot) is Some ==> c.establish(observed, from).env.get(slot) == c.env.get(slot),
        c.env.get(slot) is None ==> (c.establish(observed, from).env.get(slot) is Some
            <==> exists|i: int| from <= i < observed.len() && (#[trigger] observed[i]).0 == slot),
    decreases observed.len() - from,
{
    if from < observed.len() {
        let (at, ty) = observed[from];
        let next = if c.env.get(at) is None {
            c.set_slot(at, SlotV::Mono(ty))
        } else {
            c
        };
        only_empty_slots_are_established(next, observed, from + 1, slot);
        assert(observed[from].0 == at);
    }
}

} // verus!
