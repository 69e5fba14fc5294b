//! What the forms of the language read and bind: the laws of quoting, masking,
//! assigning, switching and diverging.

use vstd::prelude::*;

use crate::hir::{
    Argument, AssignSpelling, BinaryOperator, ExprId, ExpressionKind, LiteralKind, Module,
    UnaryOperator,
};
use crate::types;
use crate::walk::{self, BindingKind, VerbsV, WalkV};

verus! {

/// Whether a name is read as one that nothing here binds.
pub open spec fn is_free(w: WalkV, name: Seq<char>) -> bool {
    !walk::is_dots(name) && w.visible_slot(name, w.scopes.len()) is None
}

/// Whether an argument is a name without a tag.
pub open spec fn is_plain_name(m: Module, argument: Argument, bound: ExprId) -> bool {
    &&& argument.name is None
    &&& argument.value is Some
    &&& (argument.value->0).0 < bound.0
    &&& m.kind_of(argument.value->0) is NameRef
}

/// The name that an argument is.
pub open spec fn name_in(m: Module, argument: Argument) -> Seq<char> {
    m.kind_of(argument.value->0)->NameRef_0@
}

proof fn a_name_is_read(w: WalkV, m: Module, verbs: VerbsV, bound: ExprId, id: ExprId)
    requires
        id.0 < bound.0,
        m.kind_of(id) is NameRef,
    ensures
        w.below(m, verbs, bound, id) == w.read(id, m.kind_of(id)->NameRef_0@),
{
    assert(w.below(m, verbs, bound, id) == w.resolve(m, verbs, id));
}

/// A formula and a request for help read nothing and bind nothing.
pub proof fn formulas_are_not_evaluated(w: WalkV, m: Module, verbs: VerbsV, id: ExprId)
    ensures
        match m.kind_of(id) {
            ExpressionKind::Unary { operator, .. } => operator == UnaryOperator::Tilde || operator
                == UnaryOperator::Help ==> w.resolve(m, verbs, id) == w,
            ExpressionKind::Binary { operator, special_name, .. } => special_name is None && (
            operator == BinaryOperator::Tilde || operator == BinaryOperator::Help)
                ==> w.resolve(m, verbs, id) == w,
            ExpressionKind::Literal(_) => w.resolve(m, verbs, id) == w,
            _ => true,
        },
{
}

/// A prefix operator that is none of these, a pair of parentheses and an access to
/// a field read what they stand before, hold or look into.
pub proof fn an_operand_is_evaluated(w: WalkV, m: Module, verbs: VerbsV, id: ExprId)
    ensures
        match m.kind_of(id) {
            ExpressionKind::Unary { operator, operand } => operator != UnaryOperator::Tilde
                && operator != UnaryOperator::Help && operand.0 < id.0 ==> w.resolve(m, verbs, id)
                == w.resolve(m, verbs, operand),
            ExpressionKind::Paren(inner) => inner.0 < id.0 ==> w.resolve(m, verbs, id)
                == w.resolve(m, verbs, inner),
            ExpressionKind::Field { target, .. } => target.0 < id.0 ==> w.resolve(m, verbs, id)
                == w.resolve(m, verbs, target),
            _ => true,
        },
{
    match m.kind_of(id) {
        ExpressionKind::Unary { operand, .. } => {
            assert(operand.0 < id.0 ==> w.below(m, verbs, id, operand) == w.resolve(
                m,
                verbs,
                operand,
            ));
        },
        ExpressionKind::Paren(inner) => {
            assert(inner.0 < id.0 ==> w.below(m, verbs, id, inner) == w.resolve(m, verbs, inner));
        },
        ExpressionKind::Field { target, .. } => {
            assert(target.0 < id.0 ==> w.below(m, verbs, id, target) == w.resolve(
                m,
                verbs,
                target,
            ));
        },
        _ => {},
    }
}

/// The value of an assignment is read before its name is bound: a name that was
/// free is still free in the value that is assigned to it.
pub proof fn a_value_is_read_before_its_name_is_bound(
    w: WalkV,
    m: Module,
    verbs: VerbsV,
    id: ExprId,
    spelling: AssignSpelling,
    target: ExprId,
    value: ExprId,
)
    requires
        m.kind_of(id) == (ExpressionKind::Assign { spelling, target, value }),
        spelling != AssignSpelling::Super,
        m.kind_of(target) is NameRef,
        m.kind_of(value) is NameRef,
        target.0 < id.0,
        value.0 < id.0,
        is_free(w, m.kind_of(value)->NameRef_0@),
        w.scopes.len() > 0,
        w.emit,
        !w.quiet,
        !w.quoted,
    ensures
        ({
            let after = w.resolve(m, verbs, id);
            let name = m.kind_of(target)->NameRef_0@;
            &&& after.non_locals == w.non_locals.insert(value.0, m.kind_of(value)->NameRef_0@)
            &&& after.own_slot(name) is Some
            &&& after.resolutions.dom().contains(target.0)
            &&& Some(after.resolutions[target.0]) == after.own_slot(name)
        }),
{
    let name = m.kind_of(target)->NameRef_0@;
    let range = m.range_of(target);
    a_name_is_read(w, m, verbs, id, value);
    let read = w.below(m, verbs, id, value);
    assert(read.resolve_target(m, verbs, id, target, spelling) == read.assign_own(
        id,
        target,
        name,
        range,
    ));
    let (minted, slot) = read.mint(name, range, read.own_kind());
    crate::reaching::binding_is_seen(minted, name, slot, name);
}

/// Only the part of a call that is evaluated is read: `library`, `require` and
/// `help` take a name as it is written.
pub proof fn attached_names_are_not_read(
    w: WalkV,
    m: Module,
    verbs: VerbsV,
    id: ExprId,
    callee: ExprId,
    arguments: Seq<Argument>,
)
    requires
        m.name_of(callee) == Some("library"@) || m.name_of(callee) == Some("require"@)
            || m.name_of(callee) == Some("help"@),
        arguments.len() == 1,
        is_plain_name(m, arguments[0], id),
    ensures
        w.resolve_call(m, verbs, id, callee, arguments) == w,
{
    assert(w.quotes_first(m, callee, arguments));
    assert(w.resolve_arguments(m, verbs, id, arguments, 1) == w);
}

/// The verbs of the base language that evaluate in their data name that data;
/// what others declare cannot take that from them.
pub proof fn base_verbs_keep_their_meaning(verbs: VerbsV, name: Seq<char>)
    ensures
        walk::masking(verbs, "with"@) == Some(seq!["data"@]),
        walk::masking(verbs, "within"@) == Some(seq!["data"@]),
        walk::masking(verbs, "subset"@) == Some(seq!["x"@]),
        walk::masking(verbs, "transform"@) == Some(seq!["x"@]),
        name != "with"@ && name != "within"@ && name != "subset"@ && name != "transform"@ ==> {
            &&& walk::masking(verbs, name) is Some <==> verbs.dom().contains(name)
            &&& verbs.dom().contains(name) ==> walk::masking(verbs, name) == Some(verbs[name])
        },
{
    reveal_strlit("with");
    reveal_strlit("within");
    reveal_strlit("subset");
    reveal_strlit("transform");
    assert("subset"@[0] != "within"@[0]);
    assert("transform"@.len() == 9 && "with"@.len() == 4 && "within"@.len() == 6);
}

/// In a call that evaluates in its data, the data is read as any name is, and what
/// is evaluated in it may name what the data holds: it is not reported.
pub proof fn a_masked_call_reads_its_data(
    w: WalkV,
    m: Module,
    verbs: VerbsV,
    id: ExprId,
    arguments: Seq<Argument>,
    leading: Seq<Seq<char>>,
)
    requires
        arguments.len() == 2,
        is_plain_name(m, arguments[0], id),
        is_plain_name(m, arguments[1], id),
        arguments[0].value != arguments[1].value,
        is_free(w, name_in(m, arguments[0])),
        is_free(w, name_in(m, arguments[1])),
        w.emit,
        !w.quiet,
    ensures
        ({
            let data = (arguments[0].value->0).0;
            let within = (arguments[1].value->0).0;
            let after = w.resolve_masked(m, verbs, id, arguments, leading, 0, 1);
            &&& after.non_locals == w.non_locals.insert(data, name_in(m, arguments[0]))
            &&& after.quiet_reads == w.quiet_reads.insert(within, name_in(m, arguments[1]))
            &&& !after.quiet
        }),
{
    let data = arguments[0].value->0;
    let within = arguments[1].value->0;
    a_name_is_read(w, m, verbs, id, data);
    let first = w.below(m, verbs, id, data);
    assert(first.scopes == w.scopes && first.flow == w.flow);
    assert forall|upto: nat| upto <= w.scopes.len() implies #[trigger] first.with_quiet(
        true,
    ).visible_slot(name_in(m, arguments[1]), upto) == w.visible_slot(
        name_in(m, arguments[1]),
        upto,
    ) by {
        the_slots_are_the_same(w, first.with_quiet(true), name_in(m, arguments[1]), upto);
    }
    a_name_is_read(first.with_quiet(true), m, verbs, id, within);
    let second = first.with_quiet(true).below(m, verbs, id, within).with_quiet(first.quiet);
    assert(w.resolve_masked(m, verbs, id, arguments, leading, 0, 1) == first.resolve_masked(
        m,
        verbs,
        id,
        arguments,
        leading,
        1,
        0,
    ));
    assert(first.resolve_masked(m, verbs, id, arguments, leading, 1, 0) == second.resolve_masked(
        m,
        verbs,
        id,
        arguments,
        leading,
        2,
        0,
    ));
    assert(second.resolve_masked(m, verbs, id, arguments, leading, 2, 0) == second);
}

proof fn the_slots_are_the_same(w: WalkV, other: WalkV, name: Seq<char>, upto: nat)
    requires
        other.scopes == w.scopes,
        other.flow == w.flow,
        upto <= w.scopes.len(),
    ensures
        other.visible_slot(name, upto) == w.visible_slot(name, upto),
    decreases upto,
{
    if upto > 0 {
        the_slots_are_the_same(w, other, name, (upto - 1) as nat);
    }
}

/// What a call quotes is not reported as undefined, and the walk goes on
/// evaluating behind it.
pub proof fn quoted_names_are_not_reported(
    w: WalkV,
    m: Module,
    verbs: VerbsV,
    id: ExprId,
    callee: ExprId,
    arguments: Seq<Argument>,
)
    requires
        m.name_of(callee) == Some("quote"@) || m.name_of(callee) == Some("substitute"@)
            || m.name_of(callee) == Some("bquote"@) || m.name_of(callee) == Some("expression"@),
        !w.resolutions.dom().contains(callee.0),
        arguments.len() == 1,
        is_plain_name(m, arguments[0], id),
    ensures
        ({
            let after = w.resolve_call(m, verbs, id, callee, arguments);
            &&& after.non_locals == w.non_locals
            &&& after.bindings == w.bindings
            &&& after.flow == w.flow
            &&& after.quoted == w.quoted
            &&& after.quiet == w.quiet
            &&& after.deferred == w.deferred
        }),
{
    reveal_strlit("quote");
    reveal_strlit("substitute");
    reveal_strlit("bquote");
    reveal_strlit("expression");
    reveal_strlit("library");
    reveal_strlit("require");
    reveal_strlit("help");
    reveal_strlit("on.exit");
    reveal_strlit("switch");
    let name = m.name_of(callee)->0;
    assert(name.len() == 5 || name.len() == 6 || name.len() == 10);
    if name.len() == 6 {
        assert(name[0] == 'b' && "switch"@[0] == 's');
    }
    let inside = WalkV { quoted: true, deferred: true, quiet: true, ..w };
    let value = arguments[0].value->0;
    a_name_is_read(inside, m, verbs, id, value);
    let after = inside.below(m, verbs, id, value);
    assert(inside.resolve_arguments(m, verbs, id, arguments, 0) == after.resolve_arguments(
        m,
        verbs,
        id,
        arguments,
        1,
    ));
    assert(after.resolve_arguments(m, verbs, id, arguments, 1) == after);
}

/// An operator reads both of its sides, the left one first. Those that may not
/// evaluate a side, or give it another meaning, do not report what is free there.
pub proof fn an_operator_reads_both_sides(
    w: WalkV,
    m: Module,
    verbs: VerbsV,
    id: ExprId,
    operator: BinaryOperator,
    lhs: ExprId,
    rhs: ExprId,
)
    requires
        lhs.0 < id.0,
        rhs.0 < id.0,
        lhs != rhs,
        m.kind_of(lhs) is NameRef,
        m.kind_of(rhs) is NameRef,
        is_free(w, m.kind_of(lhs)->NameRef_0@),
        is_free(w, m.kind_of(rhs)->NameRef_0@),
        operator != BinaryOperator::Tilde,
        operator != BinaryOperator::Help,
        w.emit,
        !w.quiet,
    ensures
        ({
            let after = w.resolve_binary(m, verbs, id, operator, None, lhs, rhs);
            let left = m.kind_of(lhs)->NameRef_0@;
            let right = m.kind_of(rhs)->NameRef_0@;
            let silent = operator == BinaryOperator::And || operator == BinaryOperator::Or
                || operator == BinaryOperator::Pipe || operator == BinaryOperator::Special;
            &&& !after.quiet
            &&& silent ==> {
                &&& after.non_locals == w.non_locals
                &&& after.quiet_reads == w.quiet_reads.insert(lhs.0, left).insert(rhs.0, right)
            }
            &&& !silent ==> {
                &&& after.non_locals == w.non_locals.insert(lhs.0, left).insert(rhs.0, right)
                &&& after.quiet_reads == w.quiet_reads
            }
        }),
{
    let silent = operator == BinaryOperator::And || operator == BinaryOperator::Or || operator
        == BinaryOperator::Pipe || operator == BinaryOperator::Special;
    let ready = w.with_quiet(silent);
    let right = m.kind_of(rhs)->NameRef_0@;
    the_slots_are_the_same(w, ready, m.kind_of(lhs)->NameRef_0@, w.scopes.len());
    a_name_is_read(ready, m, verbs, id, lhs);
    let first = ready.below(m, verbs, id, lhs);
    the_slots_are_the_same(w, first, right, w.scopes.len());
    a_name_is_read(first, m, verbs, id, rhs);
    assert(w.with_quiet(false) == w);
}

/// A name that is read from inside a function counts as read for the function
/// around: every write to it there is used, and so is every later one.
pub proof fn a_captured_name_spares_its_writes(w: WalkV, name: Seq<char>, i: int)
    requires
        w.visible_slot(name, w.scopes.len()) is Some,
        (w.visible_slot(name, w.scopes.len())->0).0 < w.depth(),
        0 <= i < w.writes.len(),
    ensures
        ({
            let (depth, slot) = w.visible_slot(name, w.scopes.len())->0;
            let after = w.slot_read(name).0;
            &&& after.captured_slots.contains(slot.0)
            &&& after.writes.len() == w.writes.len()
            &&& w.writes[i].scope == w.scopes[depth as int].id && w.writes[i].name == name
                ==> after.writes[i].used
            &&& w.writes[i].used ==> after.writes[i].used
            &&& after.writes[i].name == w.writes[i].name
        }),
{
}

/// A write to a captured slot is never an unused one.
pub proof fn a_captured_slot_is_always_used(
    w: WalkV,
    assignment: ExprId,
    name: Seq<char>,
    range: crate::syntax::TextRange,
    slot: walk::BindingId,
    reportable: bool,
)
    requires
        w.captured_slots.contains(slot.0),
        !w.write_sites.dom().contains(assignment.0),
        w.writes.len() < u32::MAX,
    ensures
        ({
            let after = w.write_at(assignment, name, range, slot, reportable);
            &&& after.writes.len() == w.writes.len() + 1
            &&& after.writes.last().used
            &&& after.flow.dom().contains(slot.0)
            &&& !after.flow[slot.0].unassigned
        }),
{
}

/// What leaves a loop or a function leaves it from the end of a block, from inside
/// parentheses, and from a branch of which both arms leave; a branch that one arm
/// goes on behind does not.
pub proof fn leaving_is_seen_through_the_forms(m: Module, id: ExprId)
    ensures
        match m.kind_of(id) {
            ExpressionKind::Break => walk::diverges(m, id),
            ExpressionKind::Next => walk::diverges(m, id),
            ExpressionKind::Call { callee, .. } => walk::diverges(m, id) <==> (m.name_of(callee)
                == Some("return"@) || m.name_of(callee) == Some("stop"@)),
            ExpressionKind::Block { statements, .. } => {
                &&& statements@.len() == 0 ==> !walk::diverges(m, id)
                &&& statements@.len() > 0 && statements@.last().0 < id.0 ==> walk::diverges(m, id)
                    == walk::diverges(m, statements@.last())
            },
            ExpressionKind::Paren(inner) => inner.0 < id.0 ==> walk::diverges(m, id)
                == walk::diverges(m, inner),
            ExpressionKind::If { then_branch, else_branch, .. } => {
                &&& else_branch is None ==> !walk::diverges(m, id)
                &&& walk::diverges(m, id) ==> walk::diverges(m, then_branch) && walk::diverges(
                    m,
                    else_branch->0,
                )
                &&& else_branch is Some && then_branch.0 < id.0 && (else_branch->0).0 < id.0
                    && walk::diverges(m, then_branch) && walk::diverges(m, else_branch->0)
                    ==> walk::diverges(m, id)
            },
            ExpressionKind::Literal(_) | ExpressionKind::NameRef(_)
            | ExpressionKind::Assign { .. } | ExpressionKind::For { .. }
            | ExpressionKind::While { .. } | ExpressionKind::Function { .. } => !walk::diverges(
                m,
                id,
            ),
            _ => true,
        },
{
}

/// Whether an argument of `switch` is a branch without a tag.
pub open spec fn is_default(arguments: Seq<Argument>, i: int) -> bool {
    &&& 0 <= i < arguments.len()
    &&& walk::switch_subject(arguments) != Some(i)
    &&& arguments[i].name is None
    &&& arguments[i].value is Some
}

proof fn bodies_are_counted(arguments: Seq<Argument>, upto: nat)
    requires
        upto <= arguments.len(),
    ensures
        ({
            let count = walk::unnamed_bodies(arguments, walk::switch_subject(arguments), upto);
            &&& count == 0 <==> forall|i: int| 0 <= i < upto ==> !#[trigger] is_default(
                arguments,
                i,
            )
            &&& count <= 1 <==> forall|i: int, j: int|
                0 <= i < j < upto ==> !(#[trigger] is_default(arguments, i)
                    && #[trigger] is_default(arguments, j))
        }),
    decreases upto,
{
    if upto > 0 {
        bodies_are_counted(arguments, (upto - 1) as nat);
        let subject = walk::switch_subject(arguments);
        let before = walk::unnamed_bodies(arguments, subject, (upto - 1) as nat);
        let last = upto - 1;
        if is_default(arguments, last) {
            if before > 0 {
                let i = choose|i: int| 0 <= i < last && #[trigger] is_default(arguments, i);
                assert(is_default(arguments, i) && is_default(arguments, last));
            }
        }
    }
}

proof fn alternatives_are_counted(arguments: Seq<Argument>, upto: nat)
    requires
        upto <= arguments.len(),
    ensures
        walk::named_alternatives(arguments, walk::switch_subject(arguments), upto) > 0
            <==> exists|i: int|
            0 <= i < upto && walk::switch_subject(arguments) != Some(i) && (
            #[trigger] arguments[i]).name is Some,
    decreases upto,
{
    if upto > 0 {
        alternatives_are_counted(arguments, (upto - 1) as nat);
        let last = arguments[upto - 1];
        assert(last == arguments[upto - 1]);
    }
}

/// A `switch` has a default where exactly one branch has no tag, and another has
/// one.
pub proof fn a_default_is_the_one_branch_without_a_tag(arguments: Seq<Argument>)
    ensures
        walk::has_default(arguments) <==> {
            &&& exists|i: int| #[trigger] is_default(arguments, i)
            &&& forall|i: int, j: int|
                #[trigger] is_default(arguments, i) && #[trigger] is_default(arguments, j) ==> i
                    == j
            &&& exists|i: int|
                0 <= i < arguments.len() && walk::switch_subject(arguments) != Some(i) && (
                #[trigger] arguments[i]).name is Some
        },
{
    bodies_are_counted(arguments, arguments.len());
    alternatives_are_counted(arguments, arguments.len());
    if walk::has_default(arguments) {
        assert forall|i: int, j: int|
            #[trigger] is_default(arguments, i) && #[trigger] is_default(arguments, j) implies i
            == j by {
            if i < j {
                assert(is_default(arguments, i) && is_default(arguments, j));
            }
            if j < i {
                assert(is_default(arguments, j) && is_default(arguments, i));
            }
        }
    }
}

proof fn the_first_named(arguments: Seq<Argument>, name: Seq<char>, from: int)
    requires
        0 <= from <= arguments.len(),
    ensures
        match walk::argument_named(arguments, name, from) {
            Some(i) => from <= i < arguments.len() && types::opt_text(arguments[i].name) == Some(
                name,
            ),
            None => forall|i: int|
                from <= i < arguments.len() ==> types::opt_text((#[trigger] arguments[i]).name)
                    != Some(name),
        },
    decreases arguments.len() - from,
{
    if from < arguments.len() {
        the_first_named(arguments, name, from + 1);
    }
}

proof fn the_first_unnamed(arguments: Seq<Argument>, from: int)
    requires
        0 <= from <= arguments.len(),
    ensures
        match walk::argument_unnamed(arguments, from) {
            Some(i) => {
                &&& from <= i < arguments.len()
                &&& arguments[i].name is None
                &&& forall|k: int| from <= k < i ==> (#[trigger] arguments[k]).name is Some
            },
            None => forall|i: int|
                from <= i < arguments.len() ==> (#[trigger] arguments[i]).name is Some,
        },
    decreases arguments.len() - from,
{
    if from < arguments.len() {
        the_first_unnamed(arguments, from + 1);
    }
}

/// What `switch` decides on is its argument `EXPR`; where none has that name, the
/// first one without a name.
pub proof fn a_switch_decides_on_its_subject(arguments: Seq<Argument>, i: int)
    requires
        0 <= i < arguments.len(),
    ensures
        ({
            let subject = walk::switch_subject(arguments);
            let named = exists|k: int|
                0 <= k < arguments.len() && types::opt_text((#[trigger] arguments[k]).name)
                    == Some("EXPR"@);
            &&& named ==> subject is Some && 0 <= subject->0 < arguments.len()
                && types::opt_text(arguments[subject->0].name) == Some("EXPR"@)
            &&& !named && arguments[i].name is None ==> subject is Some && 0 <= subject->0 <= i
                && arguments[subject->0].name is None
        }),
{
    the_first_named(arguments, "EXPR"@, 0);
    the_first_unnamed(arguments, 0);
}

/// What a replacement writes to is the name at the bottom of its target, however
/// deep the access is.
pub proof fn a_replacement_writes_to_the_name_below(m: Module, target: ExprId)
    ensures
        walk::replacement_base(m, target) is Some ==> m.kind_of(
            walk::replacement_base(m, target)->0,
        ) is NameRef,
        match m.kind_of(target) {
            ExpressionKind::NameRef(_) => walk::replacement_base(m, target) == Some(target),
            ExpressionKind::Field { target: inner, .. } => inner.0 < target.0
                ==> walk::replacement_base(m, target) == walk::replacement_base(m, inner),
            ExpressionKind::Index { target: inner, .. } => inner.0 < target.0
                ==> walk::replacement_base(m, target) == walk::replacement_base(m, inner),
            ExpressionKind::Call { arguments, .. } => arguments@.len() > 0 && arguments@[0].value
                is Some && (arguments@[0].value->0).0 < target.0 ==> walk::replacement_base(
                m,
                target,
            ) == walk::replacement_base(m, arguments@[0].value->0),
            _ => walk::replacement_base(m, target) is None,
        },
    decreases target.0,
{
    match m.kind_of(target) {
        ExpressionKind::Field { target: inner, .. } => {
            if inner.0 < target.0 {
                a_replacement_writes_to_the_name_below(m, inner);
            }
        },
        ExpressionKind::Index { target: inner, .. } => {
            if inner.0 < target.0 {
                a_replacement_writes_to_the_name_below(m, inner);
            }
        },
        ExpressionKind::Call { arguments, .. } => {
            if arguments@.len() > 0 && arguments@[0].value is Some && (arguments@[0].value->0).0
                < target.0 {
                a_replacement_writes_to_the_name_below(m, arguments@[0].value->0);
            }
        },
        _ => {},
    }
}

/// A string names what it is assigned to as the bare name does; no other literal
/// can be assigned to.
pub proof fn a_string_is_a_name_to_assign_to(m: Module, target: ExprId)
    ensures
        match m.kind_of(target) {
            ExpressionKind::NameRef(name) => walk::target_name(m, target) == Some(name@),
            ExpressionKind::Literal(LiteralKind::String(name)) => walk::target_name(m, target)
                == Some(name@),
            _ => walk::target_name(m, target) is None,
        },
        match m.kind_of(target) {
            ExpressionKind::Literal(literal) => walk::refuses_assignment(m.kind_of(target))
                == !(literal is String),
            ExpressionKind::Binary { .. } => walk::refuses_assignment(m.kind_of(target)),
            ExpressionKind::NameRef(_) | ExpressionKind::Field { .. }
            | ExpressionKind::Index { .. } | ExpressionKind::Call { .. } =>
                !walk::refuses_assignment(m.kind_of(target)),
            _ => true,
        },
{
}

/// A name bound in the outermost scope is a top-level one; inside a function or a
/// local scope it is a local one, and only there is an unused write reported.
pub proof fn a_name_belongs_to_its_scope(
    w: WalkV,
    assignment: ExprId,
    target: ExprId,
    name: Seq<char>,
    range: crate::syntax::TextRange,
)
    requires
        w.scopes.len() > 0,
        w.own_slot(name) is None,
        walk::binding_at(w.bindings, name, range, 0) is None,
        !w.write_sites.dom().contains(assignment.0),
        w.bindings.len() < u32::MAX,
        w.writes.len() < u32::MAX,
    ensures
        ({
            let after = w.assign_own(assignment, target, name, range);
            let outermost = w.scopes.last().kind == walk::ScopeKind::TopLevel;
            &&& after.bindings.len() == w.bindings.len() + 1
            &&& after.bindings.last().name == name
            &&& after.bindings.last().range == range
            &&& after.bindings.last().kind == if outermost {
                BindingKind::TopLevel
            } else {
                BindingKind::Local
            }
            &&& after.writes.len() == w.writes.len() + 1
            &&& after.writes.last().reportable == !outermost
            &&& after.writes.last().name == name
            &&& after.writes.last().scope == w.scopes.last().id
        }),
{
    let (minted, slot) = w.mint(name, range, w.own_kind());
    crate::reaching::binding_is_seen(minted, name, slot, name);
    let ready = minted.bind(name, slot);
    let upto = ready.scopes.len();
    assert(walk::slot_in(ready.scopes[upto - 1].slots, name) == Some(slot));
    assert(ready.owner_of(name, slot, upto) == ready.scopes[upto - 1].id);
    let resolved = WalkV { resolutions: ready.resolutions.insert(target.0, slot), ..ready };
    assert(resolved.owner_of(name, slot, upto) == resolved.scopes[upto - 1].id);
}

/// Reading a name marks what it is bound to: a formal is read, a top-level name is
/// used.
pub proof fn a_read_marks_its_binding(w: WalkV, name: Seq<char>)
    requires
        w.visible_slot(name, w.scopes.len()) is Some,
        (w.visible_slot(name, w.scopes.len())->0).1.0 < w.bindings.len(),
    ensures
        ({
            let slot = (w.visible_slot(name, w.scopes.len())->0).1;
            let kind = w.bindings[slot.0 as int].kind;
            let after = w.slot_read(name).0;
            &&& kind == BindingKind::Parameter ==> after.read_parameters.contains(slot.0)
            &&& kind == BindingKind::TopLevel ==> after.used_top_level_names.contains(name)
            &&& kind != BindingKind::Parameter ==> after.read_parameters == w.read_parameters
            &&& kind != BindingKind::TopLevel ==> after.used_top_level_names
                == w.used_top_level_names
        }),
{
}

/// Only `[` evaluates in a table: `[[` with the same arguments reads them as any
/// call does.
pub proof fn only_single_brackets_evaluate_in_a_table(
    w: WalkV,
    m: Module,
    verbs: VerbsV,
    id: ExprId,
    target: ExprId,
    argument: Argument,
)
    requires
        argument.value is None,
        types::opt_text(argument.name) == Some("by"@) || types::opt_text(argument.name) == Some(
            "keyby"@,
        ),
    ensures
        ({
            let ready = w.below(m, verbs, id, target);
            let single = w.resolve_index(m, verbs, id, false, target, seq![argument]);
            let double = w.resolve_index(m, verbs, id, true, target, seq![argument]);
            &&& single.masked_subsets == ready.masked_subsets.insert(id.0)
            &&& single.quiet == w.quiet
            &&& double == ready
        }),
{
    let arguments = seq![argument];
    let ready = w.below(m, verbs, id, target);
    let masked = WalkV {
        masked_subsets: ready.masked_subsets.insert(id.0),
        quiet: true,
        ..ready
    };
    assert(arguments[0] == argument);
    assert(walk::table_signature(m, arguments, 0));
    assert(ready.resolve_arguments(m, verbs, id, arguments, 1) == ready);
    assert(ready.resolve_arguments(m, verbs, id, arguments, 0) == ready);
    assert(masked.resolve_arguments(m, verbs, id, arguments, 1) == masked);
    assert(masked.resolve_arguments(m, verbs, id, arguments, 0) == masked);
}

/// What `on.exit` reads is read when the function ends: the writes to it until
/// then are all used, and the walk goes on as before.
pub proof fn an_exit_reads_what_is_left(
    w: WalkV,
    m: Module,
    verbs: VerbsV,
    id: ExprId,
    callee: ExprId,
    arguments: Seq<Argument>,
)
    requires
        m.name_of(callee) == Some("on.exit"@),
        !w.resolutions.dom().contains(callee.0),
        arguments.len() == 1,
        is_plain_name(m, arguments[0], id),
        !walk::is_dots(name_in(m, arguments[0])),
        w.visible_slot(name_in(m, arguments[0]), w.scopes.len()) is Some,
    ensures
        ({
            let slot = (w.visible_slot(name_in(m, arguments[0]), w.scopes.len())->0).1;
            let after = w.resolve_call(m, verbs, id, callee, arguments);
            &&& after.captured_slots.contains(slot.0)
            &&& after.deferred == w.deferred
            &&& after.flow == w.flow
        }),
{
    reveal_strlit("library");
    reveal_strlit("require");
    reveal_strlit("help");
    reveal_strlit("on.exit");
    assert("on.exit"@[0] == 'o' && "library"@[0] == 'l' && "require"@[0] == 'r');
    let inside = WalkV { deferred: true, ..w };
    let value = arguments[0].value->0;
    the_slots_are_the_same(w, inside, name_in(m, arguments[0]), w.scopes.len());
    a_name_is_read(inside, m, verbs, id, value);
    let after = inside.below(m, verbs, id, value);
    assert(after.resolve_arguments(m, verbs, id, arguments, 1) == after);
    assert(inside.resolve_arguments(m, verbs, id, arguments, 0) == after);
}

/// An operator between percent signs is a name that is read with its operands.
pub proof fn a_named_operator_is_read(
    w: WalkV,
    m: Module,
    verbs: VerbsV,
    id: ExprId,
    name: Seq<char>,
    lhs: ExprId,
    rhs: ExprId,
)
    requires
        m.kind_of(lhs) is Literal,
        m.kind_of(rhs) is Literal,
        lhs.0 < id.0,
        rhs.0 < id.0,
    ensures
        ({
            let after = w.resolve_binary(
                m,
                verbs,
                id,
                BinaryOperator::Special,
                Some(name),
                lhs,
                rhs,
            );
            &&& after.quiet_operator_reads.contains(name)
            &&& after.non_locals == w.non_locals
            &&& after.quiet == w.quiet
        }),
{
    let ready = WalkV {
        quiet_operator_reads: w.quiet_operator_reads.insert(name),
        ..w
    }.slot_read(name).0.with_quiet(true);
    assert(ready.resolve(m, verbs, lhs) == ready);
    assert(ready.below(m, verbs, id, lhs) == ready);
    assert(ready.resolve(m, verbs, rhs) == ready);
    assert(ready.below(m, verbs, id, rhs) == ready);
}

} // verus!
