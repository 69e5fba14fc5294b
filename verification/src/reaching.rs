//! What reaches where: the laws of branches, loops, reads and writes over the
//! states of a walk.

use vstd::prelude::*;

use crate::flow::{self, FlowV, ReachV};
use crate::hir::{Argument, ExprId, ExpressionKind, Module, Parameter};
use crate::passes;
use crate::syntax::TextRange;
use crate::types;
use crate::walk::{self, BindingId, BindingKind, BindingV, UnusedV, VerbsV, WalkV, WriteV};

verus! {

/// Whether everything that reaches by one way is among what reaches by another.
pub open spec fn is_among(less: ReachV, more: ReachV) -> bool {
    &&& less.unassigned ==> more.unassigned
    &&& less.implicit ==> more.implicit
    &&& forall|write: u32| #[trigger]
        less.assignments.contains(write) ==> more.assignments.contains(write)
}

/// Whether a state keeps all that reaches in another: every write that reaches a
/// slot still does, and a slot that nothing had reached may be unassigned.
pub open spec fn covers(after: FlowV, before: FlowV) -> bool {
    &&& forall|slot: u32| #[trigger]
        before.dom().contains(slot) ==> after.dom().contains(slot) && is_among(
            before[slot],
            after[slot],
        )
    &&& forall|slot: u32| #[trigger]
        after.dom().contains(slot) && !before.dom().contains(slot) ==> after[slot].unassigned
}

/// A state keeps what reaches in it, and keeping is transitive.
pub proof fn covering_is_an_order(a: FlowV, b: FlowV, c: FlowV)
    ensures
        covers(a, a),
        covers(a, b) && covers(b, c) ==> covers(a, c),
        covers(a, b) && covers(b, a) ==> a == b,
{
    if covers(a, b) && covers(b, c) {
        assert forall|slot: u32| #[trigger] c.dom().contains(slot) implies a.dom().contains(slot)
            && is_among(c[slot], a[slot]) by {
            assert(b.dom().contains(slot));
        }
        assert forall|slot: u32| #[trigger]
            a.dom().contains(slot) && !c.dom().contains(slot) implies a[slot].unassigned by {
            if b.dom().contains(slot) {
                assert(b[slot].unassigned);
            }
        }
    }
    if covers(a, b) && covers(b, a) {
        assert forall|slot: u32| #[trigger] a.dom().contains(slot) implies a[slot] == b[slot] by {
            assert(b.dom().contains(slot));
            assert(a[slot].assignments =~= b[slot].assignments);
        }
        assert forall|slot: u32| #[trigger] b.dom().contains(slot) implies a.dom().contains(
            slot,
        ) by {}
        assert(a =~= b);
    }
}

/// Where two ways meet, the state is the least one that keeps what reaches by
/// each.
pub proof fn a_join_is_the_least_state_that_keeps_both(a: FlowV, b: FlowV, c: FlowV)
    ensures
        covers(flow::joined(a, b), a),
        covers(flow::joined(a, b), b),
        covers(c, a) && covers(c, b) ==> covers(c, flow::joined(a, b)),
{
    let both = flow::joined(a, b);
    assert forall|slot: u32| #[trigger] a.dom().contains(slot) implies both.dom().contains(slot)
        && is_among(a[slot], both[slot]) by {}
    assert forall|slot: u32| #[trigger] b.dom().contains(slot) implies both.dom().contains(slot)
        && is_among(b[slot], both[slot]) by {}
    if covers(c, a) && covers(c, b) {
        assert forall|slot: u32| #[trigger] both.dom().contains(slot) implies c.dom().contains(slot)
            && is_among(both[slot], c[slot]) by {
            if a.dom().contains(slot) {
                assert(is_among(a[slot], c[slot]));
            }
            if b.dom().contains(slot) {
                assert(is_among(b[slot], c[slot]));
            }
        }
        assert forall|slot: u32| #[trigger]
            c.dom().contains(slot) && !both.dom().contains(slot) implies c[slot].unassigned by {
            assert(!a.dom().contains(slot));
        }
    }
}

proof fn join_all_keeps(state: FlowV, others: Seq<FlowV>, from: int)
    requires
        0 <= from <= others.len(),
    ensures
        covers(walk::join_all(state, others, from), state),
        forall|i: int|
            from <= i < others.len() ==> covers(
                walk::join_all(state, others, from),
                #[trigger] others[i],
            ),
    decreases others.len() - from,
{
    covering_is_an_order(state, state, state);
    if from < others.len() {
        let next = flow::joined(state, others[from]);
        let all = walk::join_all(state, others, from);
        join_all_keeps(next, others, from + 1);
        a_join_is_the_least_state_that_keeps_both(state, others[from], next);
        covering_is_an_order(all, next, state);
        covering_is_an_order(all, next, others[from]);
    }
}

/// A loop that may be skipped keeps what reached it: after a `for` or a `while`
/// loop every write that reached its entry still does, and a slot that was
/// unassigned there may still be.
pub proof fn a_loop_that_may_be_skipped_keeps_its_entry(
    w: WalkV,
    m: Module,
    verbs: VerbsV,
    bound: ExprId,
    body: ExprId,
)
    ensures
        covers(w.resolve_loop(m, verbs, bound, body, true).flow, w.flow),
{
    let after = w.resolve_loop(m, verbs, bound, body, true);
    let settled = WalkV { emit: false, loop_exits: Seq::empty(), ..w }.settle(
        m,
        verbs,
        bound,
        body,
        usize::MAX as nat,
    );
    let last = WalkV { emit: w.emit, loop_exits: Seq::empty(), ..settled }.below(
        m,
        verbs,
        bound,
        body,
    );
    let left = walk::join_all(last.flow, last.loop_exits, 0);
    a_join_is_the_least_state_that_keeps_both(left, w.flow, w.flow);
}

/// After a `while` loop, what reached its condition's end still reaches; after a
/// `for` loop, what reached its sequence's end, but for the loop's own variable.
pub proof fn loops_keep_what_reached_them(w: WalkV, m: Module, verbs: VerbsV, id: ExprId)
    ensures
        match m.kind_of(id) {
            ExpressionKind::While { condition, body } => covers(
                w.resolve(m, verbs, id).flow,
                w.below(m, verbs, id, condition).flow,
            ),
            ExpressionKind::For { variable, variable_range, sequence, body } => covers(
                w.resolve(m, verbs, id).flow,
                w.below(m, verbs, id, sequence).loop_variable(
                    types::opt_text(variable),
                    variable_range,
                ).flow,
            ),
            _ => true,
        },
{
    match m.kind_of(id) {
        ExpressionKind::While { condition, body } => a_loop_that_may_be_skipped_keeps_its_entry(
            w.below(m, verbs, id, condition),
            m,
            verbs,
            id,
            body,
        ),
        ExpressionKind::For { variable, variable_range, sequence, body } =>
            a_loop_that_may_be_skipped_keeps_its_entry(
            w.below(m, verbs, id, sequence).loop_variable(
                types::opt_text(variable),
                variable_range,
            ),
            m,
            verbs,
            id,
            body,
        ),
        _ => {},
    }
}

/// The variable of a `for` loop is assigned in its body, and entering the loop
/// changes what reaches no other slot.
pub proof fn a_loop_variable_is_assigned(
    w: WalkV,
    variable: Seq<char>,
    range: TextRange,
    slot: u32,
)
    requires
        w.scopes.len() > 0,
    ensures
        ({
            let inside = w.loop_variable(Some(variable), Some(range));
            let own = inside.own_slot(variable);
            &&& own is Some
            &&& inside.flow.dom().contains((own->0).0)
            &&& !inside.flow[(own->0).0].unassigned
            &&& slot != (own->0).0 ==> (inside.flow.dom().contains(slot) <==> w.flow.dom().contains(
                slot,
            )) && (w.flow.dom().contains(slot) ==> inside.flow[slot] == w.flow[slot])
        }),
{
    let (minted, own) = w.mint(variable, range, BindingKind::ForVariable);
    binding_is_seen(minted, variable, own, variable);
}

/// The head of a loop keeps what reaches its entry, and what the end of a pass
/// over its body leaves.
pub proof fn the_head_of_a_loop_keeps_every_way_in(
    w: WalkV,
    m: Module,
    verbs: VerbsV,
    bound: ExprId,
    body: ExprId,
    passes: nat,
)
    ensures
        covers(w.settle(m, verbs, bound, body, passes).flow, w.flow),
        covers(
            w.settle(m, verbs, bound, body, passes).flow,
            w.below(m, verbs, bound, body).flow,
        ),
    decreases passes,
{
    let walked = w.below(m, verbs, bound, body);
    let next = WalkV { flow: flow::joined(walked.flow, w.flow), ..walked };
    let settled = w.settle(m, verbs, bound, body, passes);
    a_join_is_the_least_state_that_keeps_both(walked.flow, w.flow, w.flow);
    if next.flow == w.flow || passes == 0 {
    } else {
        the_head_of_a_loop_keeps_every_way_in(next, m, verbs, bound, body, (passes - 1) as nat);
        covering_is_an_order(settled.flow, next.flow, w.flow);
        covering_is_an_order(settled.flow, next.flow, walked.flow);
    }
}

/// After a loop of any kind, what reaches the end of its last pass still
/// reaches, and so does what reached each `break` on the way.
pub proof fn a_loop_is_left_by_every_way_out(
    w: WalkV,
    m: Module,
    verbs: VerbsV,
    bound: ExprId,
    body: ExprId,
    may_skip: bool,
    i: int,
)
    ensures
        ({
            let settled = WalkV { emit: false, loop_exits: Seq::empty(), ..w }.settle(
                m,
                verbs,
                bound,
                body,
                usize::MAX as nat,
            );
            let last = WalkV { emit: w.emit, loop_exits: Seq::empty(), ..settled }.below(
                m,
                verbs,
                bound,
                body,
            );
            let after = w.resolve_loop(m, verbs, bound, body, may_skip);
            &&& covers(after.flow, last.flow)
            &&& 0 <= i < last.loop_exits.len() ==> covers(after.flow, last.loop_exits[i])
            &&& after.loop_exits == w.loop_exits
            &&& !may_skip && last.loop_exits.len() == 0 ==> covers(after.flow, settled.flow)
        }),
{
    let settled = WalkV { emit: false, loop_exits: Seq::empty(), ..w }.settle(
        m,
        verbs,
        bound,
        body,
        usize::MAX as nat,
    );
    let last = WalkV { emit: w.emit, loop_exits: Seq::empty(), ..settled }.below(
        m,
        verbs,
        bound,
        body,
    );
    let left = walk::join_all(last.flow, last.loop_exits, 0);
    let after = w.resolve_loop(m, verbs, bound, body, may_skip);
    join_all_keeps(last.flow, last.loop_exits, 0);
    covering_is_an_order(left, left, left);
    a_join_is_the_least_state_that_keeps_both(left, w.flow, w.flow);
    a_join_is_the_least_state_that_keeps_both(left, settled.flow, w.flow);
    covering_is_an_order(after.flow, left, last.flow);
    if 0 <= i < last.loop_exits.len() {
        covering_is_an_order(after.flow, left, last.loop_exits[i]);
    }
}

/// A `break` remembers the state it leaves the loop in, and nothing more.
pub proof fn a_break_remembers_its_state(w: WalkV, m: Module, verbs: VerbsV, id: ExprId)
    requires
        m.kind_of(id) is Break,
    ensures
        w.resolve(m, verbs, id).loop_exits.last() == w.flow,
        w.resolve(m, verbs, id).loop_exits.drop_last() == w.loop_exits,
        w.resolve(m, verbs, id).flow == w.flow,
{
    assert(w.loop_exits.push(w.flow).drop_last() =~= w.loop_exits);
}

/// After a branch, what reaches the end of either arm still reaches; without an
/// `else`, what reached the condition's end does.
pub proof fn a_branch_keeps_both_arms(w: WalkV, m: Module, verbs: VerbsV, id: ExprId)
    ensures
        match m.kind_of(id) {
            ExpressionKind::If { condition, then_branch, else_branch } => {
                let entry = w.below(m, verbs, id, condition);
                let taken = entry.below(m, verbs, id, then_branch);
                let other = WalkV { flow: entry.flow, ..taken };
                let after = w.resolve(m, verbs, id);
                &&& covers(after.flow, taken.flow)
                &&& match else_branch {
                    Some(other_branch) => covers(
                        after.flow,
                        other.below(m, verbs, id, other_branch).flow,
                    ),
                    None => covers(after.flow, entry.flow),
                }
            },
            _ => true,
        },
{
    match m.kind_of(id) {
        ExpressionKind::If { condition, then_branch, else_branch } => {
            let entry = w.below(m, verbs, id, condition);
            let taken = entry.below(m, verbs, id, then_branch);
            let other = WalkV { flow: entry.flow, ..taken };
            let after = match else_branch {
                Some(else_branch) => other.below(m, verbs, id, else_branch),
                None => other,
            };
            a_join_is_the_least_state_that_keeps_both(after.flow, taken.flow, after.flow);
        },
        _ => {},
    }
}

/// A `switch` without a default keeps what reached its alternatives: none of
/// them may run.
pub proof fn a_switch_without_a_default_keeps_its_entry(
    w: WalkV,
    m: Module,
    verbs: VerbsV,
    bound: ExprId,
    arguments: Seq<Argument>,
)
    requires
        !walk::has_default(arguments),
    ensures
        ({
            let entered = match walk::switch_subject(arguments) {
                Some(i) => match arguments[i].value {
                    Some(value) => w.below(m, verbs, bound, value),
                    None => w,
                },
                None => w,
            };
            covers(w.resolve_switch(m, verbs, bound, arguments).flow, entered.flow)
        }),
{
    let subject = walk::switch_subject(arguments);
    let entered = match subject {
        Some(i) => match arguments[i].value {
            Some(value) => w.below(m, verbs, bound, value),
            None => w,
        },
        None => w,
    };
    let (after, joined) = entered.resolve_branches(
        m,
        verbs,
        bound,
        arguments,
        subject,
        entered.flow,
        0,
        None,
    );
    covering_is_an_order(entered.flow, entered.flow, entered.flow);
    if joined is Some {
        a_join_is_the_least_state_that_keeps_both(joined->0, entered.flow, entered.flow);
    }
}

/// The alternatives of a `switch` only add up: what an earlier one left still
/// reaches after the later ones.
pub proof fn alternatives_add_up(
    w: WalkV,
    m: Module,
    verbs: VerbsV,
    bound: ExprId,
    arguments: Seq<Argument>,
    subject: Option<int>,
    entry: FlowV,
    from: int,
    joined: Option<FlowV>,
)
    requires
        0 <= from <= arguments.len(),
    ensures
        ({
            let (after, all) = w.resolve_branches(
                m,
                verbs,
                bound,
                arguments,
                subject,
                entry,
                from,
                joined,
            );
            &&& joined is Some ==> all is Some && covers(all->0, joined->0)
            &&& from < arguments.len() && subject != Some(from) && arguments[from].value is Some
                && !walk::diverges(m, arguments[from].value->0) ==> all is Some && covers(
                all->0,
                WalkV { flow: entry, ..w }.below(m, verbs, bound, arguments[from].value->0).flow,
            )
        }),
    decreases arguments.len() - from,
{
    if joined is Some {
        covering_is_an_order(joined->0, joined->0, joined->0);
    }
    if from < arguments.len() {
        match arguments[from].value {
            Some(value) if subject != Some(from) => {
                let walked = WalkV { flow: entry, ..w }.below(m, verbs, bound, value);
                let next = if walk::diverges(m, value) {
                    joined
                } else {
                    match joined {
                        Some(state) => Some(flow::joined(state, walked.flow)),
                        None => Some(walked.flow),
                    }
                };
                alternatives_add_up(
                    walked,
                    m,
                    verbs,
                    bound,
                    arguments,
                    subject,
                    entry,
                    from + 1,
                    next,
                );
                let (after, all) = w.resolve_branches(
                    m,
                    verbs,
                    bound,
                    arguments,
                    subject,
                    entry,
                    from,
                    joined,
                );
                covering_is_an_order(walked.flow, walked.flow, walked.flow);
                if joined is Some {
                    a_join_is_the_least_state_that_keeps_both(joined->0, walked.flow, walked.flow);
                    if next is Some {
                        covering_is_an_order(all->0, next->0, joined->0);
                    }
                }
                if next is Some {
                    covering_is_an_order(all->0, next->0, walked.flow);
                }
            },
            _ => alternatives_add_up(
                w,
                m,
                verbs,
                bound,
                arguments,
                subject,
                entry,
                from + 1,
                joined,
            ),
        }
    }
}

/// The slot a name is given in a scope is the one it has there, and no other
/// name's slot changes.
pub proof fn binding_is_seen(w: WalkV, name: Seq<char>, slot: BindingId, other: Seq<char>)
    requires
        w.scopes.len() > 0,
    ensures
        w.bind(name, slot).own_slot(name) == Some(slot),
        other != name ==> w.bind(name, slot).own_slot(other) == w.own_slot(other),
{
    let top = w.scopes.len() - 1;
    let before = w.scopes[top].slots;
    let after = w.bind(name, slot).scopes[top].slots;
    assert(after == before.push((name, slot)));
    assert(after.drop_last() =~= before);
}

/// A read sees the innermost slot of its name that a write reaches or that an
/// enclosing frame holds: no scope further in has one.
pub proof fn a_read_sees_the_innermost_slot(w: WalkV, name: Seq<char>, upto: nat, between: int)
    requires
        upto <= w.scopes.len(),
    ensures
        match w.visible_slot(name, upto) {
            Some((depth, slot)) => {
                &&& depth < upto
                &&& walk::slot_in(w.scopes[depth as int].slots, name) == Some(slot)
                &&& w.flow.dom().contains(slot.0) || depth < w.depth()
                &&& depth < between < upto ==> match walk::slot_in(
                    w.scopes[between].slots,
                    name,
                ) {
                    Some(hidden) => !w.flow.dom().contains(hidden.0) && between >= w.depth(),
                    None => true,
                }
            },
            None => 0 <= between < upto ==> match walk::slot_in(w.scopes[between].slots, name) {
                Some(hidden) => !w.flow.dom().contains(hidden.0) && between >= w.depth(),
                None => true,
            },
        },
    decreases upto,
{
    if upto > 0 {
        a_read_sees_the_innermost_slot(w, name, (upto - 1) as nat, between);
    }
}

/// `<<-` writes to the nearest slot of its name in the scopes around: no scope
/// between has one.
pub proof fn a_super_assignment_finds_the_nearest_slot(
    w: WalkV,
    name: Seq<char>,
    upto: nat,
    between: int,
)
    ensures
        match w.enclosing_slot(name, upto) {
            Some((depth, slot)) => {
                &&& depth < upto
                &&& walk::slot_in(w.scopes[depth as int].slots, name) == Some(slot)
                &&& depth < between < upto ==> walk::slot_in(w.scopes[between].slots, name) is None
            },
            None => 0 <= between < upto ==> walk::slot_in(w.scopes[between].slots, name) is None,
        },
    decreases upto,
{
    if upto > 0 {
        a_super_assignment_finds_the_nearest_slot(w, name, (upto - 1) as nat, between);
    }
}

/// `<<-` leaves the innermost scope alone, and what reaches any slot but the one
/// it writes.
pub proof fn a_super_assignment_spares_the_own_scope(
    w: WalkV,
    assignment: ExprId,
    target: ExprId,
    name: Seq<char>,
    range: TextRange,
)
    requires
        w.scopes.len() > 0,
    ensures
        w.assign_super(assignment, target, name, range).scopes == w.scopes,
        w.assign_super(assignment, target, name, range).bindings == w.bindings,
{
}

/// Every write that reaches a read is used by it, no write loses its use, and
/// where the read stands in the frame of the slot and runs with its line, only
/// those that reach become used. The name may be undefined exactly where a path
/// without a write reaches the slot.
pub proof fn a_read_uses_what_reaches_it(w: WalkV, name: Seq<char>, i: int)
    requires
        w.visible_slot(name, w.scopes.len()) is Some,
        0 <= i < w.writes.len() <= u32::MAX,
    ensures
        ({
            let (depth, slot) = w.visible_slot(name, w.scopes.len())->0;
            let (after, found) = w.slot_read(name);
            let reaches = w.flow.dom().contains(slot.0) && w.flow[slot.0].assignments.contains(
                i as u32,
            );
            &&& after.flow == w.flow
            &&& after.writes.len() == w.writes.len()
            &&& reaches || w.writes[i].used ==> after.writes[i].used
            &&& depth >= w.depth() && !w.deferred ==> (after.writes[i].used <==> reaches
                || w.writes[i].used)
            &&& depth < w.depth() || w.deferred ==> (after.writes[i].used <==> reaches
                || w.writes[i].used || (w.writes[i].name == name && w.writes[i].scope
                == w.scopes[depth as int].id))
            &&& found == Some(
                (slot, w.flow.dom().contains(slot.0) && w.flow[slot.0].unassigned),
            )
            &&& depth < w.depth() ==> after.captured_slots.contains(slot.0)
        }),
{
}

/// A read of a name resolves to the slot it sees, or else is a read of a name
/// from outside the item; it never changes what reaches.
pub proof fn a_read_resolves_or_is_free(w: WalkV, id: ExprId, name: Seq<char>)
    requires
        !walk::is_dots(name),
        w.emit,
    ensures
        ({
            let after = w.read(id, name);
            &&& after.flow == w.flow
            &&& match w.visible_slot(name, w.scopes.len()) {
                Some((_, slot)) => {
                    &&& after.resolutions.dom().contains(id.0)
                    &&& after.resolutions[id.0] == slot
                    &&& after.non_locals == w.non_locals
                    &&& after.quiet_reads == w.quiet_reads
                    &&& after.maybe_undefined.contains(id.0) <==> w.maybe_undefined.contains(id.0)
                        || (w.flow.dom().contains(slot.0) && w.flow[slot.0].unassigned)
                },
                None => {
                    &&& after.resolutions == w.resolutions
                    &&& after.maybe_undefined == w.maybe_undefined
                    &&& !w.quiet ==> after.non_locals == w.non_locals.insert(id.0, name)
                    &&& w.quiet ==> after.quiet_reads == w.quiet_reads.insert(id.0, name)
                    &&& !w.quiet ==> (after.deferred_non_locals.contains(id.0)
                        <==> w.deferred_non_locals.contains(id.0) || w.depth() > 0)
                },
            }
        }),
{
}

/// After an assignment its own write alone reaches the slot, and what reaches
/// any other slot is as it was.
pub proof fn an_assignment_hides_the_writes_before_it(
    w: WalkV,
    assignment: ExprId,
    target: ExprId,
    name: Seq<char>,
    range: TextRange,
    other: u32,
)
    requires
        w.scopes.len() > 0,
    ensures
        ({
            let after = w.assign_own(assignment, target, name, range);
            let slot = after.own_slot(name);
            &&& slot is Some
            &&& after.resolutions.dom().contains(target.0)
            &&& after.resolutions[target.0] == slot->0
            &&& after.flow.dom().contains((slot->0).0)
            &&& !after.flow[(slot->0).0].unassigned
            &&& !after.flow[(slot->0).0].implicit
            &&& after.write_sites.dom().contains(assignment.0)
            &&& after.flow[(slot->0).0].assignments =~= set![after.write_sites[assignment.0]]
            &&& w.own_slot(name) is Some ==> slot == w.own_slot(name)
            &&& other != (slot->0).0 ==> {
                &&& after.flow.dom().contains(other) <==> w.flow.dom().contains(other)
                &&& w.flow.dom().contains(other) ==> after.flow[other] == w.flow[other]
            }
        }),
{
    let (ready, slot) = w.own_or_minted(name, range);
    let (minted, fresh) = w.mint(name, range, w.own_kind());
    binding_is_seen(minted, name, fresh, name);
    let after = w.assign_own(assignment, target, name, range);
    assert(after.scopes == ready.scopes);
}

/// A write that a new assignment records carries the name and place of its
/// target and is unused until it is read, unless its slot is captured.
pub proof fn a_new_write_is_unused(
    w: WalkV,
    assignment: ExprId,
    name: Seq<char>,
    range: TextRange,
    slot: BindingId,
    reportable: bool,
)
    requires
        !w.write_sites.dom().contains(assignment.0),
        w.writes.len() < u32::MAX,
    ensures
        ({
            let after = w.write_at(assignment, name, range, slot, reportable);
            let write = after.writes.last();
            &&& after.writes.len() == w.writes.len() + 1
            &&& write.name == name
            &&& write.range == range
            &&& write.reportable == reportable
            &&& write.used <==> w.captured_slots.contains(slot.0)
            &&& forall|i: int| 0 <= i < w.writes.len() ==> #[trigger] after.writes[i] == w.writes[i]
        }),
{
}

/// The parameters of a function are assigned on entry to its body.
pub proof fn parameters_are_assigned(w: WalkV, parameters: Seq<Parameter>, from: int)
    requires
        w.scopes.len() > 0,
        0 <= from <= parameters.len(),
    ensures
        ({
            let inside = w.with_parameters(parameters, from);
            forall|i: int|
                from <= i < parameters.len() ==> {
                    let own = inside.own_slot((#[trigger] parameters[i]).name@);
                    &&& own is Some
                    &&& inside.flow.dom().contains((own->0).0)
                    &&& !inside.flow[(own->0).0].unassigned
                }
        }),
        forall|name: Seq<char>| #[trigger]
            assigned_here(w, name) ==> assigned_here(w.with_parameters(parameters, from), name),
    decreases parameters.len() - from,
{
    if from < parameters.len() {
        let parameter = parameters[from];
        let (minted, slot) = w.mint(parameter.name@, parameter.range, BindingKind::Parameter);
        let next = minted.bind(parameter.name@, slot).written(slot, ReachV::of_implicit());
        let inside = w.with_parameters(parameters, from);
        parameters_are_assigned(next, parameters, from + 1);
        binding_is_seen(minted, parameter.name@, slot, parameter.name@);
        assert(next.own_slot(parameter.name@) == Some(slot));
        assert(assigned_here(next, parameter.name@));
        assert(assigned_here(inside, parameter.name@));
        assert forall|name: Seq<char>| #[trigger] assigned_here(w, name) implies assigned_here(
            inside,
            name,
        ) by {
            binding_is_seen(minted, parameter.name@, slot, name);
            assert(assigned_here(next, name));
        }
    }
}

/// Whether a name has a slot in the innermost scope that every path has written.
pub open spec fn assigned_here(w: WalkV, name: Seq<char>) -> bool {
    w.own_slot(name) is Some && w.flow.dom().contains((w.own_slot(name)->0).0) && !w.flow[(
    w.own_slot(name)->0).0].unassigned
}

/// A write is reported as a dead store exactly where nothing reads it, it may be
/// reported, and its name is not one that is held over on purpose.
pub proof fn dead_stores_are_the_unread_writes(writes: Seq<WriteV>, unused: UnusedV)
    ensures
        walk::dead_stores(writes, writes.len()).contains(unused) <==> exists|i: int|
            0 <= i < writes.len() && !(#[trigger] writes[i]).used && writes[i].reportable
                && !passes::held_over(writes[i].name) && writes[i].name == unused.name
                && writes[i].range == unused.range,
{
    stores_upto(writes, writes.len(), unused);
}

proof fn stores_upto(writes: Seq<WriteV>, upto: nat, unused: UnusedV)
    requires
        upto <= writes.len(),
    ensures
        walk::dead_stores(writes, upto).contains(unused) <==> exists|i: int|
            0 <= i < upto && !(#[trigger] writes[i]).used && writes[i].reportable
                && !passes::held_over(writes[i].name) && writes[i].name == unused.name
                && writes[i].range == unused.range,
    decreases upto,
{
    if upto > 0 {
        let before = walk::dead_stores(writes, (upto - 1) as nat);
        let all = walk::dead_stores(writes, upto);
        stores_upto(writes, (upto - 1) as nat, unused);
        let last = writes[upto - 1];
        if all.contains(unused) {
            let k = choose|k: int| 0 <= k < all.len() && all[k] == unused;
            if k < before.len() {
                assert(before[k] == unused);
                assert(before.contains(unused));
            } else {
                assert(!writes[upto - 1].used);
            }
        }
        if before.contains(unused) {
            let k = choose|k: int| 0 <= k < before.len() && before[k] == unused;
            assert(all[k] == unused);
        }
        if walk::is_dead_store(last) && last.name == unused.name && last.range == unused.range {
            assert(all.last() == unused);
        }
    }
}

/// A parameter is reported as unused exactly where no read marked it, `...`
/// apart.
pub proof fn unused_parameters_are_the_unread_ones(
    bindings: Seq<BindingV>,
    read: Set<u32>,
    unused: UnusedV,
)
    requires
        bindings.len() <= u32::MAX,
    ensures
        walk::unread_parameters(bindings, read, bindings.len()).contains(unused) <==> exists|i: int|
            0 <= i < bindings.len() && (#[trigger] bindings[i]).kind == BindingKind::Parameter
                && bindings[i].name != "..."@ && !read.contains(i as u32) && bindings[i].name
                == unused.name && bindings[i].range == unused.range,
{
    unread_upto(bindings, read, bindings.len(), unused);
}

proof fn unread_upto(bindings: Seq<BindingV>, read: Set<u32>, upto: nat, unused: UnusedV)
    requires
        upto <= bindings.len() <= u32::MAX,
    ensures
        walk::unread_parameters(bindings, read, upto).contains(unused) <==> exists|i: int|
            0 <= i < upto && (#[trigger] bindings[i]).kind == BindingKind::Parameter
                && bindings[i].name != "..."@ && !read.contains(i as u32) && bindings[i].name
                == unused.name && bindings[i].range == unused.range,
    decreases upto,
{
    if upto > 0 {
        let before = walk::unread_parameters(bindings, read, (upto - 1) as nat);
        let all = walk::unread_parameters(bindings, read, upto);
        unread_upto(bindings, read, (upto - 1) as nat, unused);
        let last = bindings[upto - 1];
        if all.contains(unused) {
            let k = choose|k: int| 0 <= k < all.len() && all[k] == unused;
            if k < before.len() {
                assert(before[k] == unused);
                assert(before.contains(unused));
            } else {
                assert(bindings[upto - 1].kind == BindingKind::Parameter);
            }
        }
        if before.contains(unused) {
            let k = choose|k: int| 0 <= k < before.len() && before[k] == unused;
            assert(all[k] == unused);
        }
        if all.len() > before.len() && last.name == unused.name && last.range == unused.range {
            assert(all.last() == unused);
        }
    }
}

} // verus!
