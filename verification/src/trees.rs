//! What lowering leaves behind: expressions that stand before the one they
//! belong to, each belonging to at most one.

use vstd::prelude::*;

use crate::arena;
use crate::arena::{
    allocated, ArenaV, ArgumentV, ExpressionV, FormalV, KindV,
};
use crate::hir;
use crate::hir::{Argument, ExprId, ExpressionKind, Module, Parameter};
use crate::literals::PipeShape;
use crate::syntax;
use crate::syntax::{SyntaxElement, SyntaxKind, SyntaxNode, TextRange};

verus! {

/// The values among arguments.
pub open spec fn values_of(arguments: Seq<ArgumentV>) -> Seq<ExprId>
    decreases arguments.len(),
{
    if arguments.len() == 0 {
        Seq::empty()
    } else {
        match arguments.last().value {
            Some(value) => values_of(arguments.drop_last()).push(value),
            None => values_of(arguments.drop_last()),
        }
    }
}

/// The defaults among formals.
pub open spec fn defaults_of(formals: Seq<FormalV>) -> Seq<ExprId>
    decreases formals.len(),
{
    if formals.len() == 0 {
        Seq::empty()
    } else {
        match formals.last().default {
            Some(value) => defaults_of(formals.drop_last()).push(value),
            None => defaults_of(formals.drop_last()),
        }
    }
}

/// The expressions an expression is directly built from.
pub open spec fn kids(kind: KindV) -> Seq<ExprId> {
    match kind {
        KindV::Assign { target, value, .. } => seq![target, value],
        KindV::Unary { operand, .. } => seq![operand],
        KindV::Binary { lhs, rhs, .. } => seq![lhs, rhs],
        KindV::Call { callee, arguments } => seq![callee] + values_of(arguments),
        KindV::Index { target, arguments, .. } => seq![target] + values_of(arguments),
        KindV::Field { target, .. } => seq![target],
        KindV::Function { parameters, body } => defaults_of(parameters).push(body),
        KindV::If { condition, then_branch, else_branch } => match else_branch {
            Some(else_branch) => seq![condition, then_branch, else_branch],
            None => seq![condition, then_branch],
        },
        KindV::For { sequence, body, .. } => seq![sequence, body],
        KindV::While { condition, body } => seq![condition, body],
        KindV::Repeat { body } => seq![body],
        KindV::Local { body } => seq![body],
        KindV::Block { statements, .. } => statements,
        KindV::Paren(inner) => seq![inner],
        _ => Seq::empty(),
    }
}

/// Whether an expression has a child of a number.
pub open spec fn has_kid(arena: ArenaV, i: int, k: int) -> bool {
    0 <= i < arena.len() && 0 <= k < kids(arena[i].kind).len()
}

/// The child of a number.
pub open spec fn kid(arena: ArenaV, i: int, k: int) -> ExprId {
    kids(arena[i].kind)[k]
}

/// Whether the expressions from a place on are built from one another alone,
/// children before parents, and no expression twice.
pub open spec fn closed_from(arena: ArenaV, start: int) -> bool {
    &&& forall|i: int, k: int|
        start <= i && #[trigger] has_kid(arena, i, k) ==> start <= kid(arena, i, k).0 < i
    &&& forall|i: int, k: int, j: int, l: int|
        start <= i && start <= j && #[trigger] has_kid(arena, i, k) && #[trigger] has_kid(
            arena,
            j,
            l,
        ) && kid(arena, i, k) == kid(arena, j, l) ==> i == j && k == l
}

/// Whether an expression stands at or behind a place and belongs to none there.
pub open spec fn is_free(arena: ArenaV, start: int, id: ExprId) -> bool {
    &&& start <= id.0 < arena.len()
    &&& forall|i: int, k: int|
        start <= i && #[trigger] has_kid(arena, i, k) ==> kid(arena, i, k) != id
}

/// Whether an arena has grown by expressions that are built from one another
/// alone, with the given ones among those that belong to none.
spec fn grove(before: ArenaV, arena: ArenaV, ids: Seq<ExprId>) -> bool {
    &&& before.len() <= arena.len()
    &&& forall|i: int| 0 <= i < before.len() ==> #[trigger] arena[i] == before[i]
    &&& arena.len() <= 0x1_0000_0000 ==> {
        &&& closed_from(arena, before.len() as int)
        &&& ids.no_duplicates()
        &&& forall|m: int|
            0 <= m < ids.len() ==> is_free(arena, before.len() as int, #[trigger] ids[m])
    }
}

proof fn nothing_grown(arena: ArenaV)
    ensures
        grove(arena, arena, Seq::empty()),
{
}

proof fn fewer(before: ArenaV, arena: ArenaV, ids: Seq<ExprId>, some: Seq<ExprId>)
    requires
        grove(before, arena, ids),
        arena.len() <= 0x1_0000_0000 ==> some.no_duplicates(),
        forall|m: int| 0 <= m < some.len() ==> ids.contains(#[trigger] some[m]),
    ensures
        grove(before, arena, some),
{
}

proof fn joined(
    before: ArenaV,
    middle: ArenaV,
    arena: ArenaV,
    ids: Seq<ExprId>,
    more: Seq<ExprId>,
)
    requires
        grove(before, middle, ids),
        grove(middle, arena, more),
    ensures
        grove(before, arena, ids + more),
{
    assert forall|i: int| 0 <= i < before.len() implies #[trigger] arena[i] == before[i] by {
        assert(middle[i] == before[i]);
    }
    if arena.len() <= 0x1_0000_0000 {
        let start = before.len() as int;
        let edge = middle.len() as int;
        assert forall|i: int, k: int| #[trigger] has_kid(arena, i, k) && i < edge implies has_kid(
            middle,
            i,
            k,
        ) && kid(arena, i, k) == kid(middle, i, k) by {
            assert(arena[i] == middle[i]);
        }
        assert forall|i: int, k: int|
            start <= i && #[trigger] has_kid(arena, i, k) implies start <= kid(arena, i, k).0
            < i by {
            if i < edge {
                assert(has_kid(middle, i, k));
            }
        }
        assert forall|i: int, k: int, j: int, l: int|
            start <= i && start <= j && #[trigger] has_kid(arena, i, k) && #[trigger] has_kid(
                arena,
                j,
                l,
            ) && kid(arena, i, k) == kid(arena, j, l) implies i == j && k == l by {
            if i < edge {
                assert(has_kid(middle, i, k));
            }
            if j < edge {
                assert(has_kid(middle, j, l));
            }
        }
        let all = ids + more;
        assert forall|m: int| 0 <= m < all.len() implies is_free(
            arena,
            start,
            #[trigger] all[m],
        ) by {
            if m < ids.len() {
                assert(all[m] == ids[m]);
                assert(is_free(middle, start, ids[m]));
                assert forall|i: int, k: int|
                    start <= i && #[trigger] has_kid(arena, i, k) implies kid(arena, i, k)
                    != ids[m] by {
                    if i < edge {
                        assert(has_kid(middle, i, k));
                    }
                }
            } else {
                assert(all[m] == more[m - ids.len()]);
                assert(is_free(arena, edge, all[m]));
                assert forall|i: int, k: int|
                    start <= i && #[trigger] has_kid(arena, i, k) implies kid(arena, i, k)
                    != all[m] by {
                    if i < edge {
                        assert(has_kid(middle, i, k));
                    }
                }
            }
        }
        assert forall|m: int, n: int| 0 <= m < all.len() && 0 <= n < all.len() && m
            != n implies all[m] != all[n] by {
            if m < ids.len() {
                assert(all[m] == ids[m]);
                assert(is_free(middle, start, ids[m]));
            } else {
                assert(all[m] == more[m - ids.len()]);
                assert(is_free(arena, edge, all[m]));
            }
            if n < ids.len() {
                assert(all[n] == ids[n]);
                assert(is_free(middle, start, ids[n]));
            } else {
                assert(all[n] == more[n - ids.len()]);
                assert(is_free(arena, edge, all[n]));
            }
        }
    }
}

/// An expression built from free ones grows the arena by itself, and is free.
proof fn closed_by(
    before: ArenaV,
    arena: ArenaV,
    kind: KindV,
    range: TextRange,
)
    requires
        grove(before, arena, kids(kind)),
    ensures
        grove(before, allocated(arena, kind, range).0, seq![allocated(arena, kind, range).1]),
        allocated(arena, kind, range).0.len() == arena.len() + 1,
        allocated(arena, kind, range).1 == ExprId(arena.len() as u32),
{
    let (next, id) = allocated(arena, kind, range);
    assert forall|i: int| 0 <= i < before.len() implies #[trigger] next[i] == before[i] by {
        assert(arena[i] == before[i]);
    }
    if next.len() <= 0x1_0000_0000 {
        let start = before.len() as int;
        let edge = arena.len() as int;
        assert(id.0 == edge);
        assert forall|i: int, k: int| #[trigger] has_kid(next, i, k) && i < edge implies has_kid(
            arena,
            i,
            k,
        ) && kid(next, i, k) == kid(arena, i, k) by {
            assert(next[i] == arena[i]);
        }
        assert forall|k: int| #[trigger] has_kid(next, edge, k) implies is_free(
            arena,
            start,
            kid(next, edge, k),
        ) by {
            let own = kids(kind)[k];
            assert(kid(next, edge, k) == own);
            assert(is_free(arena, start, kids(kind)[k]));
        }
        assert forall|i: int, k: int|
            start <= i && #[trigger] has_kid(next, i, k) implies start <= kid(next, i, k).0
            < i by {
            if i < edge {
                assert(has_kid(arena, i, k));
            } else {
                assert(is_free(arena, start, kid(next, edge, k)));
            }
        }
        assert forall|i: int, k: int, j: int, l: int|
            start <= i && start <= j && #[trigger] has_kid(next, i, k) && #[trigger] has_kid(
                next,
                j,
                l,
            ) && kid(next, i, k) == kid(next, j, l) implies i == j && k == l by {
            if i < edge && j < edge {
                assert(has_kid(arena, i, k));
                assert(has_kid(arena, j, l));
            } else if i < edge {
                assert(has_kid(arena, i, k));
                assert(is_free(arena, start, kid(next, edge, l)));
            } else if j < edge {
                assert(has_kid(arena, j, l));
                assert(is_free(arena, start, kid(next, edge, k)));
            } else {
                assert(kids(kind)[k] == kids(kind)[l]);
            }
        }
        assert(is_free(next, start, id));
    }
}

proof fn values_joined(a: Seq<ArgumentV>, b: Seq<ArgumentV>)
    ensures
        values_of(a + b) == values_of(a) + values_of(b),
    decreases b.len(),
{
    if b.len() == 0 {
        assert(a + b =~= a);
        assert(values_of(a) + values_of(b) =~= values_of(a));
    } else {
        values_joined(a, b.drop_last());
        assert((a + b).drop_last() =~= a + b.drop_last());
        assert((a + b).last() == b.last());
        assert(values_of(a + b) =~= values_of(a) + values_of(b));
    }
}

proof fn value_pushed(done: Seq<ArgumentV>, one: ArgumentV)
    ensures
        values_of(done.push(one)) == match one.value {
            Some(value) => values_of(done).push(value),
            None => values_of(done),
        },
{
    assert(done.push(one).drop_last() =~= done);
}

proof fn default_pushed(done: Seq<FormalV>, one: FormalV)
    ensures
        defaults_of(done.push(one)) == match one.default {
            Some(value) => defaults_of(done).push(value),
            None => defaults_of(done),
        },
{
    assert(done.push(one).drop_last() =~= done);
}

/// The last of some expressions may be named first.
proof fn last_named_first(before: ArenaV, arena: ArenaV, ids: Seq<ExprId>, one: ExprId)
    requires
        grove(before, arena, ids.push(one)),
    ensures
        grove(before, arena, seq![one] + ids),
{
    let all = ids.push(one);
    let turned = seq![one] + ids;
    assert forall|m: int| 0 <= m < turned.len() implies all.contains(#[trigger] turned[m]) by {
        if m == 0 {
            assert(all[ids.len() as int] == turned[m]);
        } else {
            assert(all[m - 1] == turned[m]);
        }
    }
    if arena.len() <= 0x1_0000_0000 {
        assert forall|m: int, n: int| 0 <= m < turned.len() && 0 <= n < turned.len() && m
            != n implies turned[m] != turned[n] by {
            let p = if m == 0 {
                ids.len() as int
            } else {
                m - 1
            };
            let q = if n == 0 {
                ids.len() as int
            } else {
                n - 1
            };
            assert(all[p] == turned[m]);
            assert(all[q] == turned[n]);
        }
    }
    fewer(before, arena, all, turned);
}

/// One expression after some.
proof fn one_more(
    before: ArenaV,
    middle: ArenaV,
    arena: ArenaV,
    ids: Seq<ExprId>,
    one: ExprId,
)
    requires
        grove(before, middle, ids),
        grove(middle, arena, seq![one]),
    ensures
        grove(before, arena, ids.push(one)),
{
    joined(before, middle, arena, ids, seq![one]);
    assert(ids + seq![one] =~= ids.push(one));
}

/// Whether a node was lowered to a last expression that belongs to none.
spec fn tops(before: ArenaV, after: (ArenaV, ExprId)) -> bool {
    &&& grove(before, after.0, seq![after.1])
    &&& before.len() < after.0.len()
    &&& after.1 == ExprId((after.0.len() - 1) as u32)
}

proof fn topped(before: ArenaV, arena: ArenaV, kind: KindV, range: TextRange)
    requires
        grove(before, arena, kids(kind)),
    ensures
        tops(before, allocated(arena, kind, range)),
{
    closed_by(before, arena, kind, range);
}

/// An expression that nothing is built from may follow any.
proof fn topped_by_a_leaf(
    before: ArenaV,
    arena: ArenaV,
    ids: Seq<ExprId>,
    kind: KindV,
    range: TextRange,
)
    requires
        grove(before, arena, ids),
        kids(kind).len() == 0,
    ensures
        tops(before, allocated(arena, kind, range)),
{
    fewer(before, arena, ids, kids(kind));
    topped(before, arena, kind, range);
}

proof fn leaf(arena: ArenaV, kind: KindV, range: TextRange)
    requires
        kids(kind).len() == 0,
    ensures
        tops(arena, allocated(arena, kind, range)),
{
    nothing_grown(arena);
    topped_by_a_leaf(arena, arena, Seq::empty(), kind, range);
}

/// A value that waits to be the argument at a place.
spec fn waiting(substitute: Option<(usize, ExprId)>, given: nat) -> Seq<ExprId> {
    match substitute {
        Some((place, value)) => if given <= place {
            seq![value]
        } else {
            Seq::empty()
        },
        None => Seq::empty(),
    }
}

proof fn child_is_a_tree(
    node: SyntaxNode,
    place: Option<int>,
    fallback: TextRange,
    arena: ArenaV,
)
    ensures
        tops(arena, arena::lower_at(node, place, fallback, arena)),
    decreases node, 0int, 0int,
{
    leaf(arena, KindV::Missing, fallback);
    if let Some(i) = place {
        if 0 <= i < node.children@.len() {
            if let SyntaxElement::Node(child) = node.children@[i] {
                node_is_a_tree(child, arena);
            }
        }
    }
}

proof fn optional_child_is_a_tree(node: SyntaxNode, place: Option<int>, arena: ArenaV)
    ensures
        grove(
            arena,
            arena::lower_opt(node, place, arena).0,
            match arena::lower_opt(node, place, arena).1 {
                Some(id) => seq![id],
                None => Seq::empty(),
            },
        ),
    decreases node, 0int, 0int,
{
    nothing_grown(arena);
    if let Some(i) = place {
        if 0 <= i < node.children@.len() {
            if let SyntaxElement::Node(child) = node.children@[i] {
                node_is_a_tree(child, arena);
            }
        }
    }
}

proof fn statements_are_trees(
    node: SyntaxNode,
    from: int,
    before: ArenaV,
    arena: ArenaV,
    done: Seq<ExprId>,
)
    requires
        grove(before, arena, done),
    ensures
        grove(
            before,
            arena::lower_statements(node, from, arena, done).0,
            arena::lower_statements(node, from, arena, done).1,
        ),
    decreases node, 1int, node.children@.len() - from,
{
    if 0 <= from < node.children@.len() {
        match node.children@[from] {
            SyntaxElement::Node(child) => if child.kind.is_expression() {
                let (next, id) = arena::lower(child, arena);
                node_is_a_tree(child, arena);
                one_more(before, arena, next, done, id);
                statements_are_trees(node, from + 1, before, next, done.push(id));
            } else {
                statements_are_trees(node, from + 1, before, arena, done);
            },
            SyntaxElement::Token(_) => statements_are_trees(node, from + 1, before, arena, done),
        }
    }
}

proof fn arguments_are_trees(
    node: SyntaxNode,
    substitute: Option<(usize, ExprId)>,
    before: ArenaV,
    arena: ArenaV,
    base: Seq<ExprId>,
)
    requires
        grove(before, arena, base + waiting(substitute, 0)),
    ensures
        grove(
            before,
            arena::lower_arguments(node, substitute, arena).0,
            base + values_of(arena::lower_arguments(node, substitute, arena).1),
        ),
    decreases node, 1int, 0int,
{
    let none = Seq::<ArgumentV>::empty();
    let start = base + waiting(substitute, 0) + values_of(none);
    assert(start =~= base + waiting(substitute, 0));
    match syntax::next_node(node.children@, SyntaxKind::ArgumentList, 0) {
        Some(i) if 0 <= i < node.children@.len() && node.children@[i] is Node => {
            let list = node.children@[i]->Node_0;
            listed_are_trees(list, substitute, 0, before, arena, none, base);
        },
        _ => {
            nothing_waits(before, arena, substitute, 0, base, none);
        },
    }
}

proof fn nothing_waits(
    before: ArenaV,
    arena: ArenaV,
    substitute: Option<(usize, ExprId)>,
    given: nat,
    base: Seq<ExprId>,
    done: Seq<ArgumentV>,
)
    requires
        grove(before, arena, base + waiting(substitute, given) + values_of(done)),
    ensures
        grove(before, arena, base + values_of(done)),
{
    let all = base + waiting(substitute, given) + values_of(done);
    let some = base + values_of(done);
    let gap = waiting(substitute, given).len();
    assert forall|m: int| 0 <= m < some.len() implies all.contains(#[trigger] some[m]) by {
        let p = if m < base.len() {
            m
        } else {
            m + gap
        };
        assert(all[p] == some[m]);
    }
    if arena.len() <= 0x1_0000_0000 {
        assert forall|m: int, n: int| 0 <= m < some.len() && 0 <= n < some.len() && m
            != n implies some[m] != some[n] by {
            let p = if m < base.len() {
                m
            } else {
                m + gap
            };
            let q = if n < base.len() {
                n
            } else {
                n + gap
            };
            assert(all[p] == some[m]);
            assert(all[q] == some[n]);
        }
    }
    fewer(before, arena, all, some);
}

/// The waiting value takes its place behind the others.
proof fn the_wait_ends(
    before: ArenaV,
    arena: ArenaV,
    value: ExprId,
    base: Seq<ExprId>,
    values: Seq<ExprId>,
)
    requires
        grove(before, arena, base + seq![value] + values),
    ensures
        grove(before, arena, base + values.push(value)),
{
    let all = base + seq![value] + values;
    let turned = base + values.push(value);
    let b = base.len() as int;
    let last = all.len() - 1;
    assert forall|m: int| 0 <= m < turned.len() implies all.contains(#[trigger] turned[m]) by {
        let p = if m < b {
            m
        } else if m == last {
            b
        } else {
            m + 1
        };
        assert(all[p] == turned[m]);
    }
    if arena.len() <= 0x1_0000_0000 {
        assert forall|m: int, n: int| 0 <= m < turned.len() && 0 <= n < turned.len() && m
            != n implies turned[m] != turned[n] by {
            let p = if m < b {
                m
            } else if m == last {
                b
            } else {
                m + 1
            };
            let q = if n < b {
                n
            } else if n == last {
                b
            } else {
                n + 1
            };
            assert(all[p] == turned[m]);
            assert(all[q] == turned[n]);
        }
    }
    fewer(before, arena, all, turned);
}

proof fn listed_are_trees(
    list: SyntaxNode,
    substitute: Option<(usize, ExprId)>,
    from: int,
    before: ArenaV,
    arena: ArenaV,
    done: Seq<ArgumentV>,
    base: Seq<ExprId>,
)
    requires
        grove(before, arena, base + waiting(substitute, done.len()) + values_of(done)),
    ensures
        grove(
            before,
            arena::lower_listed(list, substitute, from, arena, done).0,
            base + values_of(arena::lower_listed(list, substitute, from, arena, done).1),
        ),
    decreases list, 1int, list.children@.len() - from,
{
    if 0 <= from < list.children@.len() {
        match list.children@[from] {
            SyntaxElement::Node(argument) => if argument.kind == SyntaxKind::Argument {
                let given = match substitute {
                    Some((place, value)) => if place == done.len() {
                        Some(value)
                    } else {
                        None
                    },
                    None => None,
                };
                let (next, lowered) = arena::lower_argument(argument, given, arena);
                let more = done.push(lowered);
                value_pushed(done, lowered);
                match given {
                    Some(value) => {
                        the_wait_ends(before, arena, value, base, values_of(done));
                        assert(base + waiting(substitute, more.len()) + values_of(more) =~= base
                            + values_of(done).push(value));
                    },
                    None => {
                        let c = argument.children@;
                        let named = arena::name_at(c, arena::tag_place(c)) is Some;
                        let place = arena::value_place(c, named);
                        optional_child_is_a_tree(argument, place, arena);
                        let old_ids = base + waiting(substitute, done.len()) + values_of(done);
                        let new_ids = match lowered.value {
                            Some(id) => seq![id],
                            None => Seq::empty(),
                        };
                        joined(before, arena, next, old_ids, new_ids);
                        assert(base + waiting(substitute, more.len()) + values_of(more) =~= old_ids
                            + new_ids);
                    },
                }
                listed_are_trees(list, substitute, from + 1, before, next, more, base);
            } else {
                listed_are_trees(list, substitute, from + 1, before, arena, done, base);
            },
            SyntaxElement::Token(_) => {
                listed_are_trees(list, substitute, from + 1, before, arena, done, base);
            },
        }
    } else {
        nothing_waits(before, arena, substitute, done.len(), base, done);
    }
}

proof fn formals_are_trees(node: SyntaxNode, arena: ArenaV)
    ensures
        grove(
            arena,
            arena::lower_formals(node, arena).0,
            defaults_of(arena::lower_formals(node, arena).1),
        ),
    decreases node, 1int, 0int,
{
    let none = Seq::<FormalV>::empty();
    nothing_grown(arena);
    assert(defaults_of(none) =~= Seq::empty());
    match syntax::next_node(node.children@, SyntaxKind::ParameterList, 0) {
        Some(i) if 0 <= i < node.children@.len() && node.children@[i] is Node => {
            let list = node.children@[i]->Node_0;
            parameters_are_trees(list, 0, arena, arena, none);
        },
        _ => {},
    }
}

proof fn parameters_are_trees(
    list: SyntaxNode,
    from: int,
    before: ArenaV,
    arena: ArenaV,
    done: Seq<FormalV>,
)
    requires
        grove(before, arena, defaults_of(done)),
    ensures
        grove(
            before,
            arena::lower_parameters(list, from, arena, done).0,
            defaults_of(arena::lower_parameters(list, from, arena, done).1),
        ),
    decreases list, 1int, list.children@.len() - from,
{
    if 0 <= from < list.children@.len() {
        match list.children@[from] {
            SyntaxElement::Node(parameter) => if parameter.kind == SyntaxKind::Parameter {
                let place = syntax::next_expression(parameter.children@, 0);
                let (next, default) = arena::lower_opt(parameter, place, arena);
                let one = FormalV {
                    name: match parameter.name() {
                        Some(name) => name,
                        None => Seq::empty(),
                    },
                    default,
                    range: match parameter.opening() {
                        Some(token) => token.range,
                        None => parameter.range,
                    },
                };
                optional_child_is_a_tree(parameter, place, arena);
                let new_ids = match default {
                    Some(id) => seq![id],
                    None => Seq::empty(),
                };
                joined(before, arena, next, defaults_of(done), new_ids);
                default_pushed(done, one);
                assert(defaults_of(done.push(one)) =~= defaults_of(done) + new_ids);
                parameters_are_trees(list, from + 1, before, next, done.push(one));
            } else {
                parameters_are_trees(list, from + 1, before, arena, done);
            },
            SyntaxElement::Token(_) => {
                parameters_are_trees(list, from + 1, before, arena, done);
            },
        }
    }
}

/// Two children in a row.
proof fn two_children(
    node: SyntaxNode,
    one: Option<int>,
    other: Option<int>,
    range: TextRange,
    arena: ArenaV,
)
    ensures
        ({
            let (next, a) = arena::lower_at(node, one, range, arena);
            let (after, b) = arena::lower_at(node, other, range, next);
            grove(arena, after, seq![a, b])
        }),
    decreases node, 1int, 0int,
{
    let (next, a) = arena::lower_at(node, one, range, arena);
    let (after, b) = arena::lower_at(node, other, range, next);
    child_is_a_tree(node, one, range, arena);
    child_is_a_tree(node, other, range, next);
    one_more(arena, next, after, seq![a], b);
    assert(seq![a].push(b) =~= seq![a, b]);
}

proof fn index_is_a_tree(node: SyntaxNode, double: bool, range: TextRange, arena: ArenaV)
    ensures
        tops(arena, arena::lower_index(node, double, range, arena)),
    decreases node, 2int, 0int,
{
    let first = syntax::next_expression(node.children@, 0);
    let (next, target) = arena::lower_at(node, first, range, arena);
    let (after, arguments) = arena::lower_arguments(node, None, next);
    child_is_a_tree(node, first, range, arena);
    assert(seq![target] + waiting(None, 0) =~= seq![target]);
    arguments_are_trees(node, None, arena, next, seq![target]);
    topped(arena, after, KindV::Index { double, target, arguments }, range);
}

proof fn piped_call_is_a_tree(
    call: SyntaxNode,
    piped: ExprId,
    shape: PipeShape,
    range: TextRange,
    before: ArenaV,
    arena: ArenaV,
)
    requires
        grove(before, arena, seq![piped]),
    ensures
        tops(before, arena::lower_piped_call(call, piped, shape, range, arena)),
    decreases call, 3int, 0int,
{
    let place = syntax::next_other_node(call.children@, SyntaxKind::ArgumentList, 0);
    let (next, callee) = arena::lower_at(call, place, range, arena);
    child_is_a_tree(call, place, range, arena);
    one_more(before, arena, next, seq![piped], callee);
    last_named_first(before, next, seq![piped], callee);
    let both = seq![callee] + seq![piped];
    match shape {
        PipeShape::FirstArgument => {
            let (after, given) = arena::lower_arguments(call, None, next);
            assert(both + waiting(None, 0) =~= both);
            arguments_are_trees(call, None, before, next, both);
            let arguments = seq![arena::unnamed(piped)] + given;
            let alone = seq![arena::unnamed(piped)];
            values_joined(alone, given);
            value_pushed(Seq::empty(), arena::unnamed(piped));
            assert(Seq::<ArgumentV>::empty().push(arena::unnamed(piped)) =~= alone);
            assert(values_of(alone) =~= seq![piped]);
            assert(seq![callee] + values_of(arguments) =~= both + values_of(given));
            topped(before, after, KindV::Call { callee, arguments }, range);
        },
        PipeShape::NamedPlaceholder(at) => {
            let substitute = Some((at, piped));
            let (after, arguments) = arena::lower_arguments(call, substitute, next);
            assert(seq![callee] + waiting(substitute, 0) =~= both);
            arguments_are_trees(call, substitute, before, next, seq![callee]);
            topped(before, after, KindV::Call { callee, arguments }, range);
        },
    }
}

proof fn binary_is_a_tree(node: SyntaxNode, range: TextRange, arena: ArenaV)
    ensures
        tops(arena, arena::lower_binary(node, range, arena)),
    decreases node, 2int, 0int,
{
    let c = node.children@;
    let first = syntax::next_expression(c, 0);
    let second = syntax::expression_after(c, first);
    leaf(arena, KindV::Missing, range);
    if let Some(token) = crate::literals::operator_of(node) {
        if token.kind == SyntaxKind::PipeGreater && arena::piped_shape(c, second) is Some {
            let shape = arena::piped_shape(c, second)->0;
            let (start, piped) = arena::lower_at(node, first, range, arena);
            child_is_a_tree(node, first, range, arena);
            topped_by_a_leaf(arena, start, seq![piped], KindV::Missing, range);
            if let Some(i) = second {
                if 0 <= i < c.len() {
                    if let SyntaxElement::Node(call) = c[i] {
                        piped_call_is_a_tree(call, piped, shape, range, arena, start);
                    }
                }
            }
        } else if arena::assignment_of(token.kind) is Some {
            let (spelling, rightward) = arena::assignment_of(token.kind)->0;
            two_children(node, first, second, range, arena);
            let (next, left) = arena::lower_at(node, first, range, arena);
            let (after, right) = arena::lower_at(node, second, range, next);
            if rightward {
                assert(seq![left].push(right) =~= seq![left, right]);
                last_named_first(arena, after, seq![left], right);
                assert(seq![right] + seq![left] =~= seq![right, left]);
                topped(
                    arena,
                    after,
                    KindV::Assign { spelling, target: right, value: left },
                    range,
                );
            } else {
                topped(
                    arena,
                    after,
                    KindV::Assign { spelling, target: left, value: right },
                    range,
                );
            }
        } else if token.kind == SyntaxKind::ColonEq {
            let (start, callee) = allocated(arena, KindV::NameRef(":="@), token.range);
            leaf(arena, KindV::NameRef(":="@), token.range);
            two_children(node, first, second, range, start);
            let (next, left) = arena::lower_at(node, first, range, start);
            let (after, right) = arena::lower_at(node, second, range, next);
            joined(arena, start, after, seq![callee], seq![left, right]);
            let one = seq![arena::unnamed(left)];
            let arguments = seq![arena::unnamed(left), arena::unnamed(right)];
            value_pushed(Seq::empty(), arena::unnamed(left));
            assert(Seq::<ArgumentV>::empty().push(arena::unnamed(left)) =~= one);
            value_pushed(one, arena::unnamed(right));
            assert(one.push(arena::unnamed(right)) =~= arguments);
            assert(values_of(arguments) =~= seq![left, right]);
            topped(arena, after, KindV::Call { callee, arguments }, range);
        } else if let Some(operator) = crate::literals::binary_of(token) {
            two_children(node, first, second, range, arena);
            let (next, lhs) = arena::lower_at(node, first, range, arena);
            let (after, rhs) = arena::lower_at(node, second, range, next);
            let special_name = if operator == hir::BinaryOperator::Special {
                Some(token.text@)
            } else {
                None
            };
            topped(arena, after, KindV::Binary { operator, special_name, lhs, rhs }, range);
        }
    }
}

proof fn call_is_a_tree(node: SyntaxNode, arena: ArenaV)
    requires
        node.kind == SyntaxKind::CallExpr,
    ensures
        tops(arena, arena::lower(node, arena)),
    decreases node, 2int, 0int,
{
    let range = crate::literals::code_range(node);
    let c = node.children@;
    let first = syntax::next_expression(c, 0);
    let none = Seq::<ExprId>::empty();
    let (next, arguments) = arena::lower_arguments(node, None, arena);
    nothing_grown(arena);
    assert(none + waiting(None, 0) =~= none);
    arguments_are_trees(node, None, arena, arena, none);
    assert(none + values_of(arguments) =~= values_of(arguments));
    if arena::local_body(arguments) is Some && arena::is_local(c, first) {
        let body = arena::local_body(arguments)->0;
        value_pushed(none_given(), arguments[0]);
        assert(none_given().push(arguments[0]) =~= arguments);
        assert(values_of(arguments) =~= seq![body]);
        topped(arena, next, KindV::Local { body }, range);
    } else {
        let (after, callee) = arena::lower_at(node, first, range, next);
        child_is_a_tree(node, first, range, next);
        one_more(arena, next, after, values_of(arguments), callee);
        last_named_first(arena, after, values_of(arguments), callee);
        topped(arena, after, KindV::Call { callee, arguments }, range);
    }
}

spec fn none_given() -> Seq<ArgumentV> {
    Seq::empty()
}

/// Lowering a node appends expressions built from one another alone, the last
/// of which is the node's.
proof fn node_is_a_tree(node: SyntaxNode, arena: ArenaV)
    ensures
        tops(arena, arena::lower(node, arena)),
    decreases node, 3int, 0int,
{
    let range = crate::literals::code_range(node);
    let c = node.children@;
    let first = syntax::next_expression(c, 0);
    let second = syntax::expression_after(c, first);
    let third = syntax::expression_after(c, second);
    match node.kind {
        SyntaxKind::Name => {
            let name = match node.name() {
                Some(name) => name,
                None => Seq::empty(),
            };
            leaf(arena, KindV::NameRef(name), range);
        },
        SyntaxKind::Literal => leaf(
            arena,
            KindV::Literal(crate::literals::literal_of(node)),
            range,
        ),
        SyntaxKind::ParenExpr => {
            let (next, inner) = arena::lower_at(node, first, range, arena);
            child_is_a_tree(node, first, range, arena);
            topped(arena, next, KindV::Paren(inner), range);
        },
        SyntaxKind::BraceExpr => {
            let (next, statements) = arena::lower_statements(node, 0, arena, Seq::empty());
            nothing_grown(arena);
            statements_are_trees(node, 0, arena, arena, Seq::empty());
            let trailing_semicolon = crate::literals::ends_in_semicolon(c, c.len());
            topped(arena, next, KindV::Block { statements, trailing_semicolon }, range);
        },
        SyntaxKind::UnaryExpr => {
            let (next, operand) = arena::lower_at(node, first, range, arena);
            child_is_a_tree(node, first, range, arena);
            match crate::literals::unary_in(c, 0) {
                Some(operator) => topped(
                    arena,
                    next,
                    KindV::Unary { operator, operand },
                    range,
                ),
                None => topped_by_a_leaf(arena, next, seq![operand], KindV::Missing, range),
            }
        },
        SyntaxKind::BinaryExpr => binary_is_a_tree(node, range, arena),
        SyntaxKind::CallExpr => call_is_a_tree(node, arena),
        SyntaxKind::SubsetExpr => index_is_a_tree(node, false, range, arena),
        SyntaxKind::Subset2Expr => index_is_a_tree(node, true, range, arena),
        SyntaxKind::DollarExpr => field_is_a_tree(node, false, range, arena),
        SyntaxKind::AtExpr => field_is_a_tree(node, true, range, arena),
        SyntaxKind::NamespaceExpr => leaf(
            arena,
            KindV::Namespace {
                internal: syntax::has_token(c, SyntaxKind::Colon3),
                package: arena::name_at(c, first),
                name: arena::name_at(c, second),
            },
            range,
        ),
        SyntaxKind::FunctionDef => {
            let (next, parameters) = arena::lower_formals(node, arena);
            let (after, body) = arena::lower_at(node, first, range, next);
            formals_are_trees(node, arena);
            child_is_a_tree(node, first, range, next);
            one_more(arena, next, after, defaults_of(parameters), body);
            topped(arena, after, KindV::Function { parameters, body }, range);
        },
        SyntaxKind::IfExpr => {
            let (tested, condition) = arena::lower_at(node, first, range, arena);
            let (taken, then_branch) = arena::lower_at(node, second, range, tested);
            two_children(node, first, second, range, arena);
            match third {
                Some(_) => {
                    let (other, last) = arena::lower_at(node, third, range, taken);
                    child_is_a_tree(node, third, range, taken);
                    one_more(arena, taken, other, seq![condition, then_branch], last);
                    assert(seq![condition, then_branch].push(last) =~= seq![
                        condition,
                        then_branch,
                        last,
                    ]);
                    topped(
                        arena,
                        other,
                        KindV::If { condition, then_branch, else_branch: Some(last) },
                        range,
                    );
                },
                None => topped(
                    arena,
                    taken,
                    KindV::If { condition, then_branch, else_branch: None },
                    range,
                ),
            }
        },
        SyntaxKind::ForExpr => {
            let (ready, sequence) = arena::lower_at(node, second, range, arena);
            let (done, body) = arena::lower_at(node, third, range, ready);
            two_children(node, second, third, range, arena);
            topped(
                arena,
                done,
                KindV::For {
                    variable: arena::loop_variable(c, first).0,
                    variable_range: arena::loop_variable(c, first).1,
                    sequence,
                    body,
                },
                range,
            );
        },
        SyntaxKind::WhileExpr => {
            let (tested, condition) = arena::lower_at(node, first, range, arena);
            let (done, body) = arena::lower_at(node, second, range, tested);
            two_children(node, first, second, range, arena);
            topped(arena, done, KindV::While { condition, body }, range);
        },
        SyntaxKind::RepeatExpr => {
            let (done, body) = arena::lower_at(node, first, range, arena);
            child_is_a_tree(node, first, range, arena);
            topped(arena, done, KindV::Repeat { body }, range);
        },
        SyntaxKind::BreakExpr => leaf(arena, KindV::Break, range),
        SyntaxKind::NextExpr => leaf(arena, KindV::Next, range),
        _ => leaf(arena, KindV::Missing, range),
    }
}

proof fn field_is_a_tree(node: SyntaxNode, at: bool, range: TextRange, arena: ArenaV)
    ensures
        tops(arena, arena::lower_field(node, at, range, arena)),
    decreases node, 2int, 0int,
{
    let c = node.children@;
    let first = syntax::next_expression(c, 0);
    let second = syntax::expression_after(c, first);
    let (next, target) = arena::lower_at(node, first, range, arena);
    let name = arena::name_at(c, second);
    let name_range = match (arena::node_at(c, second), name) {
        (Some(child), Some(_)) => Some(child.range),
        _ => None,
    };
    child_is_a_tree(node, first, range, arena);
    topped(arena, next, KindV::Field { at, target, name, name_range }, range);
}

proof fn values_are_viewed(arguments: Seq<Argument>)
    ensures
        values_of(arena::arguments_view(arguments)) == hir::argument_values(arguments),
    decreases arguments.len(),
{
    if arguments.len() > 0 {
        values_are_viewed(arguments.drop_last());
        assert(arena::arguments_view(arguments).drop_last() =~= arena::arguments_view(
            arguments.drop_last(),
        ));
    }
}

proof fn defaults_are_viewed(parameters: Seq<Parameter>)
    ensures
        defaults_of(arena::formals_view(parameters)) == hir::parameter_defaults(parameters),
    decreases parameters.len(),
{
    if parameters.len() > 0 {
        defaults_are_viewed(parameters.drop_last());
        assert(arena::formals_view(parameters).drop_last() =~= arena::formals_view(
            parameters.drop_last(),
        ));
    }
}

proof fn kids_are_children(kind: ExpressionKind)
    ensures
        kids(kind@) == kind.children(),
{
    match kind {
        ExpressionKind::Call { arguments, .. } => values_are_viewed(arguments@),
        ExpressionKind::Index { arguments, .. } => values_are_viewed(arguments@),
        ExpressionKind::Function { parameters, .. } => defaults_are_viewed(parameters@),
        _ => {},
    }
}

/// Whether an expression of a module has a child of a number.
pub open spec fn has_child(module: Module, i: int, k: int) -> bool {
    &&& 0 <= i < module.expressions@.len()
    &&& 0 <= k < module.expressions@[i].kind.children().len()
}

/// The child of a number of an expression.
pub open spec fn child(module: Module, i: int, k: int) -> ExprId {
    module.expressions@[i].kind.children()[k]
}

/// Whether the root of a module is its last expression, children stand before
/// their parents, and no expression is a child twice.
pub open spec fn is_tree(module: Module) -> bool {
    &&& module.expressions@.len() > 0
    &&& module.root == Some(ExprId((module.expressions@.len() - 1) as u32))
    &&& forall|i: int, k: int| #[trigger]
        has_child(module, i, k) ==> child(module, i, k).0 < i
    &&& forall|i: int, k: int, j: int, l: int| #[trigger]
        has_child(module, i, k) && #[trigger] has_child(module, j, l) && child(module, i, k)
            == child(module, j, l) ==> i == j && k == l
}

/// The module of an item is a tree, where every expression has a place of its
/// own.
pub proof fn a_lowered_module_is_a_tree(root: SyntaxNode, module: Module)
    requires
        module@ == arena::lowered(root),
        module.expressions@.len() <= 0x1_0000_0000,
    ensures
        is_tree(module),
{
    let none = Seq::<ExpressionV>::empty();
    let all = arena::expressions_view(module.expressions@);
    node_is_a_tree(root, none);
    assert(module@.expressions == all);
    assert(closed_from(all, 0));
    assert forall|i: int, k: int| #[trigger] has_child(module, i, k) implies has_kid(all, i, k)
        && kid(all, i, k) == child(module, i, k) by {
        kids_are_children(module.expressions@[i].kind);
        assert(all[i] == module.expressions@[i]@);
    }
    assert forall|i: int, k: int| #[trigger] has_child(module, i, k) implies child(
        module,
        i,
        k,
    ).0 < i by {
        assert(has_kid(all, i, k));
    }
    assert forall|i: int, k: int, j: int, l: int| #[trigger]
        has_child(module, i, k) && #[trigger] has_child(module, j, l) && child(module, i, k)
            == child(module, j, l) implies i == j && k == l by {
        assert(has_kid(all, i, k));
        assert(has_kid(all, j, l));
    }
}

/// Whether one arena only adds to another.
pub open spec fn extends(before: ArenaV, after: ArenaV) -> bool {
    &&& before.len() <= after.len()
    &&& forall|i: int| 0 <= i < before.len() ==> #[trigger] after[i] == before[i]
}

/// Lowering a node adds expressions behind those there are, and the node's own
/// comes last, at the place of its code.
pub proof fn a_node_is_lowered_last(node: SyntaxNode, arena: ArenaV)
    ensures
        extends(arena, arena::lower(node, arena).0),
        arena.len() < arena::lower(node, arena).0.len(),
        arena::lower(node, arena).1 == ExprId((arena::lower(node, arena).0.len() - 1) as u32),
        arena::lower(node, arena).0.last().range == crate::literals::code_range(node),
{
    node_is_a_tree(node, arena);
    let range = crate::literals::code_range(node);
    let c = node.children@;
    let first = syntax::next_expression(c, 0);
    let second = syntax::expression_after(c, first);
    match node.kind {
        SyntaxKind::BinaryExpr => {
            if let Some(shape) = arena::piped_shape(c, second) {
                let piped = arena::lower_pipe(node, first, second, shape, range, arena);
                assert(piped.0.last().range == range) by {
                    let (start, value) = arena::lower_at(node, first, range, arena);
                    if let Some(i) = second {
                        if 0 <= i < c.len() {
                            if let SyntaxElement::Node(call) = c[i] {
                                assert(arena::lower_piped_call(
                                    call,
                                    value,
                                    shape,
                                    range,
                                    start,
                                ).0.last().range == range);
                            }
                        }
                    }
                }
            }
            assert(arena::lower_binary(node, range, arena).0.last().range == range);
        },
        SyntaxKind::SubsetExpr => {
            assert(arena::lower_index(node, false, range, arena).0.last().range == range);
        },
        SyntaxKind::Subset2Expr => {
            assert(arena::lower_index(node, true, range, arena).0.last().range == range);
        },
        SyntaxKind::DollarExpr => {
            assert(arena::lower_field(node, false, range, arena).0.last().range == range);
        },
        SyntaxKind::AtExpr => {
            assert(arena::lower_field(node, true, range, arena).0.last().range == range);
        },
        _ => {},
    }
}

/// Lowering the child at a place adds behind what there is, and the child's own
/// expression comes last.
pub proof fn a_child_is_lowered_last(
    node: SyntaxNode,
    place: Option<int>,
    fallback: TextRange,
    arena: ArenaV,
)
    ensures
        extends(arena, arena::lower_at(node, place, fallback, arena).0),
        arena.len() < arena::lower_at(node, place, fallback, arena).0.len(),
        arena::lower_at(node, place, fallback, arena).1 == ExprId(
            (arena::lower_at(node, place, fallback, arena).0.len() - 1) as u32,
        ),
        match arena::node_at(node.children@, place) {
            Some(child) => place is Some && 0 <= place->0 < node.children@.len()
                ==> arena::lower_at(node, place, fallback, arena).0.last().range
                == crate::literals::code_range(child),
            None => true,
        },
{
    child_is_a_tree(node, place, fallback, arena);
    match arena::node_at(node.children@, place) {
        Some(child) => a_node_is_lowered_last(child, arena),
        None => {},
    }
}

/// Lowering the arguments or the formals of a node adds behind what there is.
pub proof fn lists_are_lowered_behind(node: SyntaxNode, arena: ArenaV)
    ensures
        extends(arena, arena::lower_arguments(node, None, arena).0),
        extends(arena, arena::lower_formals(node, arena).0),
{
    nothing_grown(arena);
    let none = Seq::<ExprId>::empty();
    assert(none + waiting(None, 0) =~= none);
    arguments_are_trees(node, None, arena, arena, none);
    formals_are_trees(node, arena);
}

} // verus!
