//! What a naming walk keeps, however often it passes over an expression.

use vstd::prelude::*;

use crate::hir::{Argument, AssignSpelling, BinaryOperator, ExprId, ExpressionKind, Module, Parameter};
use crate::syntax::TextRange;
use crate::types;
use crate::walk;
use crate::walk::{BindingId, BindingKind, VerbsV, WalkV, WriteV};

verus! {

/// Whether a write is another one, possibly read in between.
pub open spec fn same_write(before: WriteV, after: WriteV) -> bool {
    &&& after.name == before.name
    &&& after.range == before.range
    &&& after.scope == before.scope
    &&& after.reportable == before.reportable
    &&& before.used ==> after.used
}

/// Whether two states hold the same findings.
pub open spec fn same_findings(before: WalkV, after: WalkV) -> bool {
    &&& after.maybe_undefined == before.maybe_undefined
    &&& after.non_locals == before.non_locals
    &&& after.deferred_non_locals == before.deferred_non_locals
    &&& after.quiet_reads == before.quiet_reads
    &&& after.deferred_quiet_reads == before.deferred_quiet_reads
    &&& after.namespace_reads == before.namespace_reads
    &&& after.super_globals == before.super_globals
    &&& after.invalid_targets == before.invalid_targets
}

/// Whether the reads of a state fit together: a read from a nested function is a
/// read, and one that a path without a write can reach has a slot.
pub open spec fn coherent(w: WalkV) -> bool {
    &&& w.deferred_non_locals.subset_of(w.non_locals.dom())
    &&& w.deferred_quiet_reads.subset_of(w.quiet_reads.dom())
    &&& w.maybe_undefined.subset_of(w.resolutions.dom())
}

/// Whether every slot of a scope is one of the first `count`.
pub open spec fn scope_held(slots: Seq<(Seq<char>, BindingId)>, count: nat) -> bool {
    forall|j: int| 0 <= j < slots.len() ==> (#[trigger] slots[j]).1.0 < count
}

/// Whether every slot that a state speaks of is one of its bindings.
pub open spec fn slots_held(w: WalkV) -> bool {
    &&& forall|i: int|
        0 <= i < w.scopes.len() ==> scope_held((#[trigger] w.scopes[i]).slots, w.bindings.len())
    &&& forall|id: u32| #[trigger]
        w.resolutions.dom().contains(id) ==> w.resolutions[id].0 < w.bindings.len()
    &&& forall|slot: u32| #[trigger]
        w.captured_slots.contains(slot) ==> slot < w.bindings.len()
}

/// Whether one state only adds to another: every slot and every write keeps its
/// place, what was used stays used, the scopes and the modes are as they were, a
/// pass that records nothing records nothing, and quoted code assigns nothing.
pub open spec fn adds_to(before: WalkV, after: WalkV) -> bool {
    &&& before.bindings.len() <= after.bindings.len()
    &&& forall|i: int|
        #![trigger after.bindings[i]]
        0 <= i < before.bindings.len() ==> after.bindings[i] == before.bindings[i]
    &&& before.writes.len() <= after.writes.len()
    &&& forall|i: int|
        #![trigger after.writes[i]]
        0 <= i < before.writes.len() ==> same_write(before.writes[i], after.writes[i])
    &&& before.captured_slots.subset_of(after.captured_slots)
    &&& before.read_parameters.subset_of(after.read_parameters)
    &&& before.used_top_level_names.subset_of(after.used_top_level_names)
    &&& before.scopes.len() == after.scopes.len()
    &&& forall|i: int|
        #![trigger after.scopes[i]]
        0 <= i < before.scopes.len() ==> after.scopes[i].id == before.scopes[i].id
            && after.scopes[i].kind == before.scopes[i].kind
    &&& after.emit == before.emit
    &&& after.quiet == before.quiet
    &&& after.deferred == before.deferred
    &&& after.quoted == before.quoted
    &&& !before.emit ==> same_findings(before, after)
    &&& before.quoted ==> after.writes.len() == before.writes.len()
    &&& coherent(before) ==> coherent(after)
    &&& slots_held(before) ==> slots_held(after)
}

/// Minting is idempotent by site: a second walk over a binding site gives the
/// slot it already has and mints nothing.
pub proof fn minting_is_idempotent(
    w: WalkV,
    name: Seq<char>,
    range: TextRange,
    kind: BindingKind,
    again: BindingKind,
)
    ensures
        ({
            let (minted, slot) = w.mint(name, range, kind);
            minted.mint(name, range, again) == (minted, slot)
        }),
{
    if walk::binding_at(w.bindings, name, range, 0) is None {
        let minted = w.mint(name, range, kind).0;
        minted_site_is_last(w.bindings, minted.bindings, name, range, 0);
    }
}

proof fn minted_site_is_last(
    before: Seq<walk::BindingV>,
    after: Seq<walk::BindingV>,
    name: Seq<char>,
    range: TextRange,
    from: int,
)
    requires
        0 <= from <= before.len(),
        after.len() == before.len() + 1,
        forall|i: int| 0 <= i < before.len() ==> #[trigger] after[i] == before[i],
        after[before.len() as int].name == name,
        after[before.len() as int].range == range,
        walk::binding_at(before, name, range, from) is None,
    ensures
        walk::binding_at(after, name, range, from) == Some(before.len() as int),
    decreases before.len() - from,
{
    if from < before.len() {
        minted_site_is_last(before, after, name, range, from + 1);
    }
}

/// Walking a function leaves the reaching writes around it as they were: its
/// body runs when it is called.
pub proof fn functions_leave_the_state_around(
    w: WalkV,
    m: Module,
    verbs: VerbsV,
    id: ExprId,
)
    requires
        m.kind_of(id) is Function,
    ensures
        w.resolve(m, verbs, id).flow == w.flow,
{
}

proof fn bind_adds(w: WalkV, name: Seq<char>, slot: BindingId)
    requires
        w.scopes.len() > 0,
        slot.0 < w.bindings.len(),
    ensures
        adds_to(w, w.bind(name, slot)),
{
}

proof fn site_is_held(bindings: Seq<walk::BindingV>, name: Seq<char>, range: TextRange, from: int)
    requires
        0 <= from,
    ensures
        walk::binding_at(bindings, name, range, from) matches Some(i) ==> from <= i
            < bindings.len(),
    decreases bindings.len() - from,
{
    if from < bindings.len() {
        site_is_held(bindings, name, range, from + 1);
    }
}

proof fn mint_adds(w: WalkV, name: Seq<char>, range: TextRange, kind: BindingKind)
    ensures
        adds_to(w, w.mint(name, range, kind).0),
        w.mint(name, range, kind).1.0 < w.mint(name, range, kind).0.bindings.len(),
{
    site_is_held(w.bindings, name, range, 0);
}

proof fn slot_in_scope_is_held(slots: Seq<(Seq<char>, BindingId)>, name: Seq<char>, count: nat)
    requires
        scope_held(slots, count),
    ensures
        walk::slot_in(slots, name) matches Some(slot) ==> slot.0 < count,
    decreases slots.len(),
{
    if slots.len() > 0 {
        assert(slots[slots.len() - 1].1.0 < count);
        assert forall|j: int| 0 <= j < slots.drop_last().len() implies (
        #[trigger] slots.drop_last()[j]).1.0 < count by {
            assert(slots[j].1.0 < count);
        }
        slot_in_scope_is_held(slots.drop_last(), name, count);
    }
}

proof fn visible_slot_is_held(w: WalkV, name: Seq<char>, upto: nat)
    requires
        slots_held(w),
        upto <= w.scopes.len(),
    ensures
        w.visible_slot(name, upto) matches Some((_, slot)) ==> slot.0 < w.bindings.len(),
    decreases upto,
{
    if upto > 0 {
        slot_in_scope_is_held(w.scopes[upto - 1].slots, name, w.bindings.len());
        visible_slot_is_held(w, name, (upto - 1) as nat);
    }
}

proof fn enclosing_slot_is_held(w: WalkV, name: Seq<char>, upto: nat)
    requires
        slots_held(w),
        upto <= w.scopes.len(),
    ensures
        w.enclosing_slot(name, upto) matches Some((_, slot)) ==> slot.0 < w.bindings.len(),
    decreases upto,
{
    if upto > 0 {
        slot_in_scope_is_held(w.scopes[upto - 1].slots, name, w.bindings.len());
        enclosing_slot_is_held(w, name, (upto - 1) as nat);
    }
}

proof fn slot_read_adds(w: WalkV, name: Seq<char>)
    ensures
        adds_to(w, w.slot_read(name).0),
        slots_held(w) ==> (w.slot_read(name).1 matches Some((slot, _)) ==> slot.0
            < w.bindings.len()),
{
    if slots_held(w) {
        visible_slot_is_held(w, name, w.scopes.len());
    }
}

proof fn read_adds(w: WalkV, id: ExprId, name: Seq<char>)
    ensures
        adds_to(w, w.read(id, name)),
{
    slot_read_adds(w, name);
}

proof fn write_adds(
    w: WalkV,
    assignment: ExprId,
    name: Seq<char>,
    range: TextRange,
    slot: BindingId,
    reportable: bool,
)
    requires
        !w.quoted,
    ensures
        adds_to(w, w.write_at(assignment, name, range, slot, reportable)),
{
}

proof fn own_slot_adds(w: WalkV, name: Seq<char>, range: TextRange)
    requires
        w.scopes.len() > 0,
    ensures
        adds_to(w, w.own_or_minted(name, range).0),
        slots_held(w) ==> w.own_or_minted(name, range).1.0 < w.own_or_minted(
            name,
            range,
        ).0.bindings.len(),
{
    if slots_held(w) {
        slot_in_scope_is_held(w.scopes[w.scopes.len() - 1].slots, name, w.bindings.len());
    }
    let (minted, slot) = w.mint(name, range, w.own_kind());
    mint_adds(w, name, range, w.own_kind());
    bind_adds(minted, name, slot);
}

proof fn assign_own_adds(
    w: WalkV,
    assignment: ExprId,
    target: ExprId,
    name: Seq<char>,
    range: TextRange,
)
    requires
        w.scopes.len() > 0,
        !w.quoted,
    ensures
        adds_to(w, w.assign_own(assignment, target, name, range)),
{
    let reportable = w.own_kind() == BindingKind::Local;
    let (ready, slot) = w.own_or_minted(name, range);
    own_slot_adds(w, name, range);
    let resolved = WalkV { resolutions: ready.resolutions.insert(target.0, slot), ..ready };
    write_adds(resolved, assignment, name, range, slot, reportable);
}

proof fn assign_super_adds(
    w: WalkV,
    assignment: ExprId,
    target: ExprId,
    name: Seq<char>,
    range: TextRange,
)
    requires
        w.scopes.len() > 0,
        !w.quoted,
    ensures
        adds_to(w, w.assign_super(assignment, target, name, range)),
{
    match w.enclosing_slot(name, (w.scopes.len() - 1) as nat) {
        Some((depth, slot)) => {
            let ready = WalkV {
                resolutions: w.resolutions.insert(target.0, slot),
                captured_slots: w.captured_slots.insert(slot.0),
                ..w.frame_used(w.scopes[depth as int].id, name)
            };
            if slots_held(w) {
                enclosing_slot_is_held(w, name, (w.scopes.len() - 1) as nat);
            }
            assert(adds_to(w, ready));
            write_adds(ready, assignment, name, range, slot, true);
        },
        None => {},
    }
}

proof fn parameters_add(w: WalkV, parameters: Seq<Parameter>, from: int)
    requires
        w.scopes.len() > 0,
    ensures
        adds_to(w, w.with_parameters(parameters, from)),
    decreases parameters.len() - from,
{
    if 0 <= from < parameters.len() {
        let parameter = parameters[from];
        let (minted, slot) = w.mint(parameter.name@, parameter.range, BindingKind::Parameter);
        mint_adds(w, parameter.name@, parameter.range, BindingKind::Parameter);
        bind_adds(minted, parameter.name@, slot);
        let written = minted.bind(parameter.name@, slot).written(
            slot,
            crate::flow::ReachV::of_implicit(),
        );
        parameters_add(written, parameters, from + 1);
    }
}

proof fn preminted_adds(w: WalkV, name: Seq<char>, range: TextRange, kind: BindingKind)
    requires
        w.scopes.len() > 0,
    ensures
        adds_to(w, w.preminted(name, range, kind)),
{
    let (minted, slot) = w.mint(name, range, kind);
    mint_adds(w, name, range, kind);
    bind_adds(minted, name, slot);
}

proof fn premint_adds(w: WalkV, m: Module, id: ExprId)
    requires
        w.scopes.len() > 0,
    ensures
        adds_to(w, w.premint(m, id)),
    decreases id.0, 1int, 0int,
{
    match m.kind_of(id) {
        ExpressionKind::Function { .. } => {},
        ExpressionKind::Local { .. } => {},
        ExpressionKind::Assign { spelling, target, value } => {
            let ready = if spelling != AssignSpelling::Super {
                match walk::target_name(m, target) {
                    Some(name) => {
                        preminted_adds(w, name, m.range_of(target), BindingKind::Local);
                        w.preminted(name, m.range_of(target), BindingKind::Local)
                    },
                    None => w,
                }
            } else {
                w
            };
            if value.0 < id.0 {
                premint_adds(ready, m, value);
            }
        },
        ExpressionKind::For { variable, variable_range, sequence, body } => {
            let ready = match (variable, variable_range) {
                (Some(variable), Some(range)) => {
                    preminted_adds(w, variable@, range, BindingKind::ForVariable);
                    w.preminted(variable@, range, BindingKind::ForVariable)
                },
                _ => w,
            };
            premint_all_adds(ready, m, id, seq![sequence, body], 0);
        },
        ExpressionKind::Call { callee, .. } => {
            if !walk::builds_expression(m, callee) {
                premint_all_adds(w, m, id, m.kind_of(id).children(), 0);
            }
        },
        _ => premint_all_adds(w, m, id, m.kind_of(id).children(), 0),
    }
}

proof fn premint_all_adds(w: WalkV, m: Module, bound: ExprId, ids: Seq<ExprId>, from: int)
    requires
        w.scopes.len() > 0,
    ensures
        adds_to(w, w.premint_all(m, bound, ids, from)),
    decreases bound.0, 0int, ids.len() - from,
{
    if 0 <= from < ids.len() {
        if ids[from].0 < bound.0 {
            premint_adds(w, m, ids[from]);
            premint_all_adds(w.premint(m, ids[from]), m, bound, ids, from + 1);
        } else {
            premint_all_adds(w, m, bound, ids, from + 1);
        }
    }
}

/// A walk only adds: no pass over an expression moves a slot or a write,
/// forgets a read, or changes the scopes it stands in; a pass that looks for a
/// loop's fixed point records no finding; and an assignment in quoted code is
/// none.
pub proof fn walking_only_adds(w: WalkV, m: Module, verbs: VerbsV, id: ExprId)
    requires
        w.scopes.len() > 0,
    ensures
        adds_to(w, w.resolve(m, verbs, id)),
    decreases id.0, 10int, 0int,
{
    match m.kind_of(id) {
        ExpressionKind::NameRef(name) => read_adds(w, id, name@),
        ExpressionKind::Assign { spelling, target, value } => {
            if m.name_of(target) is Some {
                below_adds(w, m, verbs, id, value);
                target_adds(w.below(m, verbs, id, value), m, verbs, id, target, spelling);
            } else {
                target_adds(w, m, verbs, id, target, spelling);
                below_adds(
                    w.resolve_target(m, verbs, id, target, spelling),
                    m,
                    verbs,
                    id,
                    value,
                );
            }
        },
        ExpressionKind::Unary { operator, operand } => below_adds(w, m, verbs, id, operand),
        ExpressionKind::Binary { operator, special_name, lhs, rhs } => binary_adds(
            w,
            m,
            verbs,
            id,
            operator,
            types::opt_text(special_name),
            lhs,
            rhs,
        ),
        ExpressionKind::Call { callee, arguments } => {
            below_adds(w, m, verbs, id, callee);
            call_adds(w.below(m, verbs, id, callee), m, verbs, id, callee, arguments@);
        },
        ExpressionKind::Index { double, target, arguments } => {
            below_adds(w, m, verbs, id, target);
            let ready = w.below(m, verbs, id, target);
            arguments_add(ready, m, verbs, id, arguments@, 0);
            arguments_add(
                WalkV {
                    masked_subsets: ready.masked_subsets.insert(id.0),
                    quiet: true,
                    ..ready
                },
                m,
                verbs,
                id,
                arguments@,
                0,
            );
        },
        ExpressionKind::Field { target, .. } => below_adds(w, m, verbs, id, target),
        ExpressionKind::Function { parameters, body } => function_adds(
            w,
            m,
            verbs,
            id,
            parameters@,
            body,
        ),
        ExpressionKind::If { condition, then_branch, else_branch } => {
            let entry = w.below(m, verbs, id, condition);
            let taken = entry.below(m, verbs, id, then_branch);
            let other = WalkV { flow: entry.flow, ..taken };
            below_adds(w, m, verbs, id, condition);
            below_adds(entry, m, verbs, id, then_branch);
            match else_branch {
                Some(else_branch) => below_adds(other, m, verbs, id, else_branch),
                None => {},
            }
        },
        ExpressionKind::For { variable, variable_range, sequence, body } => {
            let entered = w.below(m, verbs, id, sequence);
            below_adds(w, m, verbs, id, sequence);
            match (types::opt_text(variable), variable_range) {
                (Some(variable), Some(range)) => {
                    let (minted, slot) = entered.mint(variable, range, BindingKind::ForVariable);
                    mint_adds(entered, variable, range, BindingKind::ForVariable);
                    bind_adds(minted, variable, slot);
                },
                _ => {},
            }
            let ready = entered.loop_variable(types::opt_text(variable), variable_range);
            assert(adds_to(entered, ready));
            loop_adds(ready, m, verbs, id, body, true);
        },
        ExpressionKind::While { condition, body } => {
            below_adds(w, m, verbs, id, condition);
            loop_adds(w.below(m, verbs, id, condition), m, verbs, id, body, true);
        },
        ExpressionKind::Repeat { body } => loop_adds(w, m, verbs, id, body, false),
        ExpressionKind::Local { body } => {
            let (framed, frame) = w.frame_id(id);
            let entered = framed.enter(walk::ScopeKind::Local, frame);
            premint_adds(entered, m, body);
            below_adds(entered.premint(m, body), m, verbs, id, body);
        },
        ExpressionKind::Block { statements, .. } => all_add(w, m, verbs, id, statements@, 0),
        ExpressionKind::Paren(inner) => below_adds(w, m, verbs, id, inner),
        _ => {},
    }
}

/// A name that is held over on purpose is no dead store.
proof fn held_over_names_are_alive(writes: Seq<WriteV>, upto: nat)
    ensures
        forall|i: int|
            0 <= i < walk::dead_stores(writes, upto).len() ==> !held_over(
                (#[trigger] walk::dead_stores(writes, upto)[i]).name,
            ),
    decreases upto,
{
    if upto > 0 {
        held_over_names_are_alive(writes, (upto - 1) as nat);
        let before = walk::dead_stores(writes, (upto - 1) as nat);
        let all = walk::dead_stores(writes, upto);
        assert forall|i: int| 0 <= i < all.len() implies !held_over((#[trigger] all[i]).name) by {
            if i < before.len() {
                assert(all[i] == before[i]);
            }
        }
    }
}

proof fn rest_parameters_are_read(bindings: Seq<walk::BindingV>, read: Set<u32>, upto: nat)
    ensures
        forall|i: int|
            0 <= i < walk::unread_parameters(bindings, read, upto).len() ==> (
            #[trigger] walk::unread_parameters(bindings, read, upto)[i]).name != "..."@,
    decreases upto,
{
    if upto > 0 {
        rest_parameters_are_read(bindings, read, (upto - 1) as nat);
        let before = walk::unread_parameters(bindings, read, (upto - 1) as nat);
        let all = walk::unread_parameters(bindings, read, upto);
        assert forall|i: int| 0 <= i < all.len() implies (#[trigger] all[i]).name != "..."@ by {
            if i < before.len() {
                assert(all[i] == before[i]);
            }
        }
    }
}

/// Whether a name has the leading `.` or `_` of one that is held over on purpose.
pub open spec fn held_over(name: Seq<char>) -> bool {
    name.len() > 0 && (name[0] == '.' || name[0] == '_')
}

/// Names that are held over on purpose are never reported as dead stores, and
/// `...` is never reported as an unused parameter.
pub proof fn some_names_are_never_reported(m: Module, verbs: VerbsV)
    ensures
        ({
            let naming = walk::naming_of(m, verbs);
            &&& forall|i: int|
                0 <= i < naming.unused_assignments.len() ==> !held_over(
                    (#[trigger] naming.unused_assignments[i]).name,
                )
            &&& forall|i: int|
                0 <= i < naming.unused_parameters.len() ==> (
                #[trigger] naming.unused_parameters[i]).name != "..."@
        }),
{
    let done = match m.root {
        Some(root) => walk::initial().resolve(m, verbs, root),
        None => walk::initial(),
    };
    held_over_names_are_alive(done.writes, done.writes.len());
    rest_parameters_are_read(done.bindings, done.read_parameters, done.bindings.len());
}

/// In every naming, a read from inside a nested function is among the reads, a
/// read that a path without a write can reach has resolved to a slot, and every
/// slot that a read or a capture speaks of is one of the bindings.
pub proof fn namings_are_coherent(m: Module, verbs: VerbsV)
    ensures
        ({
            let naming = walk::naming_of(m, verbs);
            &&& naming.deferred_non_locals.subset_of(naming.non_locals.dom())
            &&& naming.deferred_quiet_reads.subset_of(naming.quiet_reads.dom())
            &&& naming.maybe_undefined.subset_of(naming.resolutions.dom())
            &&& forall|id: u32| #[trigger]
                naming.resolutions.dom().contains(id) ==> naming.resolutions[id].0
                    < naming.bindings.len()
            &&& forall|slot: u32| #[trigger]
                naming.captured_slots.contains(slot) ==> slot < naming.bindings.len()
        }),
{
    match m.root {
        Some(root) => walking_only_adds(walk::initial(), m, verbs, root),
        None => {},
    }
}

proof fn below_adds(w: WalkV, m: Module, verbs: VerbsV, bound: ExprId, id: ExprId)
    requires
        w.scopes.len() > 0,
    ensures
        adds_to(w, w.below(m, verbs, bound, id)),
    decreases bound.0, 0int, 0int,
{
    if id.0 < bound.0 {
        walking_only_adds(w, m, verbs, id);
    }
}

proof fn all_add(
    w: WalkV,
    m: Module,
    verbs: VerbsV,
    bound: ExprId,
    ids: Seq<ExprId>,
    from: int,
)
    requires
        w.scopes.len() > 0,
    ensures
        adds_to(w, w.resolve_all(m, verbs, bound, ids, from)),
    decreases bound.0, 1int, ids.len() - from,
{
    if 0 <= from < ids.len() {
        below_adds(w, m, verbs, bound, ids[from]);
        all_add(w.below(m, verbs, bound, ids[from]), m, verbs, bound, ids, from + 1);
    }
}

proof fn arguments_add(
    w: WalkV,
    m: Module,
    verbs: VerbsV,
    bound: ExprId,
    arguments: Seq<Argument>,
    from: int,
)
    requires
        w.scopes.len() > 0,
    ensures
        adds_to(w, w.resolve_arguments(m, verbs, bound, arguments, from)),
    decreases bound.0, 1int, arguments.len() - from,
{
    if 0 <= from < arguments.len() {
        let next = match arguments[from].value {
            Some(value) => {
                below_adds(w, m, verbs, bound, value);
                w.below(m, verbs, bound, value)
            },
            None => w,
        };
        arguments_add(next, m, verbs, bound, arguments, from + 1);
    }
}

proof fn defaults_add(
    w: WalkV,
    m: Module,
    verbs: VerbsV,
    bound: ExprId,
    parameters: Seq<Parameter>,
    from: int,
)
    requires
        w.scopes.len() > 0,
    ensures
        adds_to(w, w.resolve_defaults(m, verbs, bound, parameters, from)),
    decreases bound.0, 1int, parameters.len() - from,
{
    if 0 <= from < parameters.len() {
        let next = match parameters[from].default {
            Some(default) => {
                below_adds(w, m, verbs, bound, default);
                w.below(m, verbs, bound, default)
            },
            None => w,
        };
        defaults_add(next, m, verbs, bound, parameters, from + 1);
    }
}

proof fn binary_adds(
    w: WalkV,
    m: Module,
    verbs: VerbsV,
    id: ExprId,
    operator: BinaryOperator,
    special_name: Option<Seq<char>>,
    lhs: ExprId,
    rhs: ExprId,
)
    requires
        w.scopes.len() > 0,
    ensures
        adds_to(w, w.resolve_binary(m, verbs, id, operator, special_name, lhs, rhs)),
    decreases id.0, 9int, 0int,
{
    let ready = match special_name {
        Some(name) => {
            let listed = WalkV {
                quiet_operator_reads: w.quiet_operator_reads.insert(name),
                ..w
            };
            slot_read_adds(listed, name);
            listed.slot_read(name).0
        },
        None => w,
    };
    let quiet = ready.with_quiet(true);
    below_adds(ready, m, verbs, id, lhs);
    below_adds(ready.below(m, verbs, id, lhs), m, verbs, id, rhs);
    below_adds(quiet, m, verbs, id, lhs);
    below_adds(quiet.below(m, verbs, id, lhs), m, verbs, id, rhs);
}

proof fn function_adds(
    w: WalkV,
    m: Module,
    verbs: VerbsV,
    id: ExprId,
    parameters: Seq<Parameter>,
    body: ExprId,
)
    requires
        w.scopes.len() > 0,
    ensures
        adds_to(w, w.resolve_function(m, verbs, id, parameters, body)),
    decreases id.0, 9int, 0int,
{
    let (framed, frame) = w.frame_id(id);
    let entered = WalkV {
        flow: Map::empty(),
        ..framed.enter(walk::ScopeKind::Function, frame)
    };
    let bound = entered.with_parameters(parameters, 0);
    let inside = bound.premint(m, body);
    let defaulted = inside.resolve_defaults(m, verbs, id, parameters, 0);
    parameters_add(entered, parameters, 0);
    premint_adds(bound, m, body);
    defaults_add(inside, m, verbs, id, parameters, 0);
    below_adds(defaulted, m, verbs, id, body);
}

proof fn call_adds(
    w: WalkV,
    m: Module,
    verbs: VerbsV,
    id: ExprId,
    callee: ExprId,
    arguments: Seq<Argument>,
)
    requires
        w.scopes.len() > 0,
    ensures
        adds_to(w, w.resolve_call(m, verbs, id, callee, arguments)),
    decreases id.0, 5int, 0int,
{
    arguments_add(w, m, verbs, id, arguments, 1);
    arguments_add(w, m, verbs, id, arguments, 0);
    arguments_add(WalkV { deferred: true, ..w }, m, verbs, id, arguments, 0);
    arguments_add(
        WalkV { quoted: true, deferred: true, quiet: true, ..w },
        m,
        verbs,
        id,
        arguments,
        0,
    );
    switch_adds(w, m, verbs, id, arguments);
    match w.masking_call(m, verbs, callee) {
        Some(leading) => {
            let claimed = walk::claimed_by_name(arguments, leading, arguments.len());
            masked_adds(
                w,
                m,
                verbs,
                id,
                arguments,
                leading,
                0,
                if claimed <= leading.len() {
                    (leading.len() - claimed) as nat
                } else {
                    0
                },
            );
        },
        None => {},
    }
}

proof fn masked_adds(
    w: WalkV,
    m: Module,
    verbs: VerbsV,
    bound: ExprId,
    arguments: Seq<Argument>,
    leading: Seq<Seq<char>>,
    from: int,
    unclaimed: nat,
)
    requires
        w.scopes.len() > 0,
    ensures
        adds_to(w, w.resolve_masked(m, verbs, bound, arguments, leading, from, unclaimed)),
    decreases bound.0, 1int, arguments.len() - from,
{
    if 0 <= from < arguments.len() {
        let (is_data, left) = match arguments[from].name {
            Some(name) => (leading.contains(name@), unclaimed),
            None => (
                unclaimed > 0,
                if unclaimed > 0 {
                    (unclaimed - 1) as nat
                } else {
                    0
                },
            ),
        };
        let next = match arguments[from].value {
            None => w,
            Some(value) => {
                below_adds(w, m, verbs, bound, value);
                below_adds(w.with_quiet(true), m, verbs, bound, value);
                if is_data {
                    w.below(m, verbs, bound, value)
                } else {
                    w.with_quiet(true).below(m, verbs, bound, value).with_quiet(w.quiet)
                }
            },
        };
        masked_adds(next, m, verbs, bound, arguments, leading, from + 1, left);
    }
}

proof fn switch_adds(w: WalkV, m: Module, verbs: VerbsV, bound: ExprId, arguments: Seq<Argument>)
    requires
        w.scopes.len() > 0,
    ensures
        adds_to(w, w.resolve_switch(m, verbs, bound, arguments)),
    decreases bound.0, 4int, 0int,
{
    let subject = walk::switch_subject(arguments);
    let entered = match subject {
        Some(i) => match arguments[i].value {
            Some(value) => {
                below_adds(w, m, verbs, bound, value);
                w.below(m, verbs, bound, value)
            },
            None => w,
        },
        None => w,
    };
    branches_add(entered, m, verbs, bound, arguments, subject, entered.flow, 0, None);
}

proof fn branches_add(
    w: WalkV,
    m: Module,
    verbs: VerbsV,
    bound: ExprId,
    arguments: Seq<Argument>,
    subject: Option<int>,
    entry: crate::flow::FlowV,
    from: int,
    joined: Option<crate::flow::FlowV>,
)
    requires
        w.scopes.len() > 0,
    ensures
        adds_to(
            w,
            w.resolve_branches(m, verbs, bound, arguments, subject, entry, from, joined).0,
        ),
    decreases bound.0, 3int, arguments.len() - from,
{
    if 0 <= from < arguments.len() {
        match arguments[from].value {
            Some(value) if subject != Some(from) => {
                let walked = WalkV { flow: entry, ..w }.below(m, verbs, bound, value);
                below_adds(WalkV { flow: entry, ..w }, m, verbs, bound, value);
                let next = if walk::diverges(m, value) {
                    joined
                } else {
                    match joined {
                        Some(state) => Some(crate::flow::joined(state, walked.flow)),
                        None => Some(walked.flow),
                    }
                };
                branches_add(walked, m, verbs, bound, arguments, subject, entry, from + 1, next);
            },
            _ => branches_add(w, m, verbs, bound, arguments, subject, entry, from + 1, joined),
        }
    }
}

proof fn settling_adds(
    w: WalkV,
    m: Module,
    verbs: VerbsV,
    bound: ExprId,
    body: ExprId,
    passes: nat,
)
    requires
        w.scopes.len() > 0,
    ensures
        adds_to(w, w.settle(m, verbs, bound, body, passes)),
    decreases bound.0, 3int, passes,
{
    let walked = w.below(m, verbs, bound, body);
    let next = WalkV { flow: crate::flow::joined(walked.flow, w.flow), ..walked };
    below_adds(w, m, verbs, bound, body);
    if next.flow != w.flow && passes > 0 {
        settling_adds(next, m, verbs, bound, body, (passes - 1) as nat);
    }
}

proof fn loop_adds(
    w: WalkV,
    m: Module,
    verbs: VerbsV,
    bound: ExprId,
    body: ExprId,
    may_skip: bool,
)
    requires
        w.scopes.len() > 0,
    ensures
        adds_to(w, w.resolve_loop(m, verbs, bound, body, may_skip)),
    decreases bound.0, 4int, 0int,
{
    let silent = WalkV { emit: false, loop_exits: Seq::empty(), ..w };
    let settled = silent.settle(m, verbs, bound, body, usize::MAX as nat);
    settling_adds(silent, m, verbs, bound, body, usize::MAX as nat);
    below_adds(
        WalkV { emit: w.emit, loop_exits: Seq::empty(), ..settled },
        m,
        verbs,
        bound,
        body,
    );
}

proof fn target_adds(
    w: WalkV,
    m: Module,
    verbs: VerbsV,
    id: ExprId,
    target: ExprId,
    spelling: AssignSpelling,
)
    requires
        w.scopes.len() > 0,
    ensures
        adds_to(w, w.resolve_target(m, verbs, id, target, spelling)),
    decreases id.0, 5int, 0int,
{
    below_adds(w, m, verbs, id, target);
    if !w.quoted {
        match walk::target_name(m, target) {
            Some(name) => {
                assign_super_adds(w, id, target, name, m.range_of(target));
                assign_own_adds(w, id, target, name, m.range_of(target));
            },
            None => match walk::replacement_base(m, target) {
                Some(base) => replacement_adds(w, m, verbs, id, target, base),
                None => {},
            },
        }
    }
}

proof fn replacement_adds(
    w: WalkV,
    m: Module,
    verbs: VerbsV,
    id: ExprId,
    target: ExprId,
    base: ExprId,
)
    requires
        w.scopes.len() > 0,
        !w.quoted,
    ensures
        adds_to(w, w.resolve_replacement(m, verbs, id, target, base)),
    decreases id.0, 4int, 0int,
{
    let name = match m.name_of(base) {
        Some(name) => name,
        None => Seq::empty(),
    };
    let range = m.range_of(base);
    let entered = w.below(m, verbs, id, base);
    below_adds(w, m, verbs, id, base);
    own_slot_adds(entered, name, range);
    let (ready, slot) = entered.own_or_minted(name, range);
    let resolved = WalkV { resolutions: ready.resolutions.insert(base.0, slot), ..ready };
    write_adds(resolved, id, name, range, slot, false);
    if target.0 < id.0 {
        subscripts_add(
            resolved.write_at(id, name, range, slot, false),
            m,
            verbs,
            target,
            base,
        );
    }
}

proof fn subscripts_add(w: WalkV, m: Module, verbs: VerbsV, target: ExprId, base: ExprId)
    requires
        w.scopes.len() > 0,
    ensures
        adds_to(w, w.resolve_subscripts(m, verbs, target, base)),
    decreases target.0, 20int, 0int,
{
    if target != base {
        match m.kind_of(target) {
            ExpressionKind::Field { target: inner, .. } => if inner.0 < target.0 {
                subscripts_add(w, m, verbs, inner, base);
            },
            ExpressionKind::Index { target: inner, arguments, .. } => {
                let ready = if inner.0 < target.0 {
                    subscripts_add(w, m, verbs, inner, base);
                    w.resolve_subscripts(m, verbs, inner, base)
                } else {
                    w
                };
                arguments_add(ready, m, verbs, target, arguments@, 0);
            },
            ExpressionKind::Call { callee, arguments } => {
                let called = w.with_quiet(true).below(m, verbs, target, callee).with_quiet(
                    w.quiet,
                );
                below_adds(w.with_quiet(true), m, verbs, target, callee);
                assert(adds_to(w, called));
                let ready = if arguments@.len() > 0 {
                    match arguments@[0].value {
                        Some(value) => if value.0 < target.0 {
                            subscripts_add(called, m, verbs, value, base);
                            called.resolve_subscripts(m, verbs, value, base)
                        } else {
                            called
                        },
                        None => called,
                    }
                } else {
                    called
                };
                arguments_add(ready, m, verbs, target, arguments@, 1);
            },
            _ => walking_only_adds(w, m, verbs, target),
        }
    }
}

} // verus!
