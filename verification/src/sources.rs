//! Where the parts of an expression come from: the laws by which lowering keeps
//! the parts of a syntax tree in their places.

use vstd::prelude::*;

use crate::arena::{self, ArenaV, ArgumentV, FormalV, KindV};
use crate::hir::ExprId;
use crate::literals::{self, PipeShape};
use crate::spellings;
use crate::syntax::{self, SyntaxElement, SyntaxKind, SyntaxNode, SyntaxToken, TextRange};
use crate::trees;

verus! {

/// The expressions among the children of a node, by their number.
pub open spec fn nth(node: SyntaxNode, n: nat) -> Option<int>
    decreases n,
{
    if n == 0 {
        syntax::next_expression(node.children@, 0)
    } else {
        syntax::expression_after(node.children@, nth(node, (n - 1) as nat))
    }
}

/// Whether an expression was lowered from the child of a number: it stands at
/// the place of that child's code.
pub open spec fn comes_from(arena: ArenaV, id: ExprId, node: SyntaxNode, n: nat) -> bool {
    match arena::node_at(node.children@, nth(node, n)) {
        Some(child) => 0 <= id.0 < arena.len() && arena[id.0 as int].range == literals::code_range(
            child,
        ),
        None => true,
    }
}

/// Whether the expressions of an arena can be numbered.
pub open spec fn is_countable(arena: ArenaV) -> bool {
    arena.len() <= 0x1_0000_0000
}

/// The next expression is the first one from a place on: there is none between.
pub proof fn the_next_expression_is_the_first(
    elements: Seq<SyntaxElement>,
    from: int,
    between: int,
)
    requires
        0 <= from <= elements.len(),
    ensures
        match syntax::next_expression(elements, from) {
            Some(i) => {
                &&& from <= i < elements.len()
                &&& elements[i] is Node
                &&& elements[i]->Node_0.kind.is_expression()
                &&& from <= between < i && elements[between] is Node
                    ==> !elements[between]->Node_0.kind.is_expression()
            },
            None => from <= between < elements.len() && elements[between] is Node
                ==> !elements[between]->Node_0.kind.is_expression(),
        },
    decreases elements.len() - from,
{
    if from < elements.len() {
        the_next_expression_is_the_first(elements, from + 1, between);
    }
}

proof fn place_is_within(node: SyntaxNode, n: nat)
    ensures
        match nth(node, n) {
            Some(i) => 0 <= i < node.children@.len() && node.children@[i] is Node,
            None => true,
        },
    decreases n,
{
    if n == 0 {
        the_next_expression_is_the_first(node.children@, 0, 0);
    } else {
        place_is_within(node, (n - 1) as nat);
        match nth(node, (n - 1) as nat) {
            Some(i) => the_next_expression_is_the_first(node.children@, i + 1, 0),
            None => {},
        }
    }
}

/// One lowered child still stands where it was after others have been lowered.
proof fn still_comes_from(
    before: ArenaV,
    arena: ArenaV,
    id: ExprId,
    node: SyntaxNode,
    n: nat,
)
    requires
        comes_from(before, id, node, n),
        trees::extends(before, arena),
    ensures
        comes_from(arena, id, node, n),
{
}

proof fn child_comes_from(node: SyntaxNode, n: nat, fallback: TextRange, arena: ArenaV)
    requires
        is_countable(arena::lower_at(node, nth(node, n), fallback, arena).0),
    ensures
        ({
            let (after, id) = arena::lower_at(node, nth(node, n), fallback, arena);
            comes_from(after, id, node, n) && trees::extends(arena, after)
        }),
{
    place_is_within(node, n);
    trees::a_child_is_lowered_last(node, nth(node, n), fallback, arena);
}

proof fn two_children(node: SyntaxNode, n: nat, fallback: TextRange, arena: ArenaV)
    requires
        is_countable(
            arena::lower_at(
                node,
                nth(node, n + 1),
                fallback,
                arena::lower_at(node, nth(node, n), fallback, arena).0,
            ).0,
        ),
    ensures
        ({
            let (next, first) = arena::lower_at(node, nth(node, n), fallback, arena);
            let (after, second) = arena::lower_at(node, nth(node, n + 1), fallback, next);
            &&& comes_from(after, first, node, n)
            &&& comes_from(after, second, node, n + 1)
            &&& trees::extends(arena, after)
        }),
{
    let (next, first) = arena::lower_at(node, nth(node, n), fallback, arena);
    let (after, second) = arena::lower_at(node, nth(node, n + 1), fallback, next);
    place_is_within(node, n);
    place_is_within(node, n + 1);
    trees::a_child_is_lowered_last(node, nth(node, n), fallback, arena);
    trees::a_child_is_lowered_last(node, nth(node, n + 1), fallback, next);
    still_comes_from(next, after, first, node, n);
}

proof fn numbered(node: SyntaxNode)
    ensures
        nth(node, 0) == syntax::next_expression(node.children@, 0),
        nth(node, 1) == syntax::expression_after(node.children@, nth(node, 0)),
        nth(node, 2) == syntax::expression_after(node.children@, nth(node, 1)),
{
    reveal_with_fuel(nth, 3);
}

/// A branch keeps its parts: the condition is the first expression, the arm that
/// is taken the second, and the other arm the third, where there is one.
pub proof fn a_branch_keeps_its_parts(node: SyntaxNode, before: ArenaV)
    requires
        node.kind == SyntaxKind::IfExpr,
        is_countable(arena::lower(node, before).0),
    ensures
        ({
            let arena = arena::lower(node, before).0;
            match arena.last().kind {
                KindV::If { condition, then_branch, else_branch } => {
                    &&& comes_from(arena, condition, node, 0)
                    &&& comes_from(arena, then_branch, node, 1)
                    &&& else_branch is Some <==> nth(node, 2) is Some
                    &&& else_branch is Some ==> comes_from(arena, else_branch->0, node, 2)
                },
                _ => false,
            }
        }),
{
    numbered(node);
    let range = literals::code_range(node);
    let (tested, condition) = arena::lower_at(node, nth(node, 0), range, before);
    let (taken, then_branch) = arena::lower_at(node, nth(node, 1), range, tested);
    let whole = arena::lower(node, before).0;
    trees::a_child_is_lowered_last(node, nth(node, 2), range, taken);
    two_children(node, 0, range, before);
    if nth(node, 2) is Some {
        let (other, else_branch) = arena::lower_at(node, nth(node, 2), range, taken);
        child_comes_from(node, 2, range, taken);
        still_comes_from(taken, other, condition, node, 0);
        still_comes_from(taken, other, then_branch, node, 1);
        still_comes_from(other, whole, condition, node, 0);
        still_comes_from(other, whole, then_branch, node, 1);
        still_comes_from(other, whole, else_branch, node, 2);
    } else {
        still_comes_from(taken, whole, condition, node, 0);
        still_comes_from(taken, whole, then_branch, node, 1);
    }
}

/// A `while` loop keeps its parts: the condition is the first expression, the
/// body the second.
pub proof fn a_while_loop_keeps_its_parts(node: SyntaxNode, before: ArenaV)
    requires
        node.kind == SyntaxKind::WhileExpr,
        is_countable(arena::lower(node, before).0),
    ensures
        ({
            let arena = arena::lower(node, before).0;
            match arena.last().kind {
                KindV::While { condition, body } => comes_from(arena, condition, node, 0)
                    && comes_from(arena, body, node, 1),
                _ => false,
            }
        }),
{
    numbered(node);
    let range = literals::code_range(node);
    let (tested, condition) = arena::lower_at(node, nth(node, 0), range, before);
    let (done, body) = arena::lower_at(node, nth(node, 1), range, tested);
    let whole = arena::lower(node, before).0;
    two_children(node, 0, range, before);
    still_comes_from(done, whole, condition, node, 0);
    still_comes_from(done, whole, body, node, 1);
}

/// A `for` loop keeps its parts: its variable is the name that stands first, its
/// sequence the second expression, its body the third.
pub proof fn a_for_loop_keeps_its_parts(node: SyntaxNode, before: ArenaV)
    requires
        node.kind == SyntaxKind::ForExpr,
        is_countable(arena::lower(node, before).0),
    ensures
        ({
            let arena = arena::lower(node, before).0;
            match arena.last().kind {
                KindV::For { variable, variable_range, sequence, body } => {
                    &&& comes_from(arena, sequence, node, 1)
                    &&& comes_from(arena, body, node, 2)
                    &&& match arena::node_at(node.children@, nth(node, 0)) {
                        Some(name) => name.kind == SyntaxKind::Name ==> variable == name.name()
                            && variable_range == Some(name.range),
                        None => variable is None && variable_range is None,
                    }
                },
                _ => false,
            }
        }),
{
    numbered(node);
    let range = literals::code_range(node);
    let (ready, sequence) = arena::lower_at(node, nth(node, 1), range, before);
    let (done, body) = arena::lower_at(node, nth(node, 2), range, ready);
    let whole = arena::lower(node, before).0;
    two_children(node, 1, range, before);
    still_comes_from(done, whole, sequence, node, 1);
    still_comes_from(done, whole, body, node, 2);
}

/// A `repeat` loop, a unary operator, parentheses and a function keep the one
/// expression they are made of.
pub proof fn a_single_part_is_kept(node: SyntaxNode, before: ArenaV)
    requires
        node.kind == SyntaxKind::RepeatExpr || node.kind == SyntaxKind::ParenExpr || node.kind
            == SyntaxKind::UnaryExpr,
        is_countable(arena::lower(node, before).0),
    ensures
        ({
            let arena = arena::lower(node, before).0;
            match arena.last().kind {
                KindV::Repeat { body } => node.kind == SyntaxKind::RepeatExpr && comes_from(
                    arena,
                    body,
                    node,
                    0,
                ),
                KindV::Paren(inner) => node.kind == SyntaxKind::ParenExpr && comes_from(
                    arena,
                    inner,
                    node,
                    0,
                ),
                KindV::Unary { operator, operand } => {
                    &&& node.kind == SyntaxKind::UnaryExpr
                    &&& comes_from(arena, operand, node, 0)
                    &&& literals::unary_in(node.children@, 0) == Some(operator)
                },
                KindV::Missing => node.kind == SyntaxKind::UnaryExpr && literals::unary_in(
                    node.children@,
                    0,
                ) is None,
                _ => false,
            }
        }),
{
    numbered(node);
    let range = literals::code_range(node);
    let (done, inner) = arena::lower_at(node, nth(node, 0), range, before);
    let whole = arena::lower(node, before).0;
    trees::a_child_is_lowered_last(node, nth(node, 0), range, before);
    child_comes_from(node, 0, range, before);
    still_comes_from(done, whole, inner, node, 0);
}

/// Whether a token is an arrow that points to the right.
pub open spec fn points_right(token: SyntaxToken) -> bool {
    match spellings::operator_text(token.kind) {
        Some(text) => text.last() == '>',
        None => false,
    }
}

/// A binary expression keeps its sides. The operands of an operator stand left
/// and right as they were written; the target of an assignment is what its arrow
/// points to, and its value what it points from.
pub proof fn a_binary_expression_keeps_its_sides(
    node: SyntaxNode,
    before: ArenaV,
    token: SyntaxToken,
)
    requires
        node.kind == SyntaxKind::BinaryExpr,
        literals::operator_of(node) == Some(token),
        token.kind != SyntaxKind::PipeGreater,
        is_countable(arena::lower(node, before).0),
    ensures
        ({
            let arena = arena::lower(node, before).0;
            match arena.last().kind {
                KindV::Binary { operator, special_name, lhs, rhs } => {
                    &&& literals::binary_of(token) == Some(operator)
                    &&& arena::assignment_of(token.kind) is None
                    &&& comes_from(arena, lhs, node, 0)
                    &&& comes_from(arena, rhs, node, 1)
                    &&& special_name is Some ==> special_name == Some(token.text@)
                    &&& special_name is Some <==> spellings::binary_text(operator) is None
                },
                KindV::Assign { spelling, target, value } => {
                    &&& arena::assignment_of(token.kind) is Some
                    &&& (arena::assignment_of(token.kind)->0).0 == spelling
                    &&& points_right(token) ==> comes_from(arena, target, node, 1) && comes_from(
                        arena,
                        value,
                        node,
                        0,
                    )
                    &&& !points_right(token) ==> comes_from(arena, target, node, 0) && comes_from(
                        arena,
                        value,
                        node,
                        1,
                    )
                },
                KindV::Call { callee, arguments } => {
                    &&& token.kind == SyntaxKind::ColonEq
                    &&& arguments.len() == 2
                    &&& arguments[0].name is None && arguments[1].name is None
                    &&& arguments[0].value is Some && arguments[1].value is Some
                    &&& comes_from(arena, arguments[0].value->0, node, 0)
                    &&& comes_from(arena, arguments[1].value->0, node, 1)
                    &&& arena[callee.0 as int].kind == KindV::NameRef(":="@)
                },
                KindV::Missing => literals::binary_of(token) is None && arena::assignment_of(
                    token.kind,
                ) is None,
                _ => false,
            }
        }),
{
    numbered(node);
    let range = literals::code_range(node);
    let whole = arena::lower(node, before).0;
    if arena::assignment_of(token.kind) is None && token.kind == SyntaxKind::ColonEq {
        let (start, callee) = arena::allocated(before, KindV::NameRef(":="@), token.range);
        let (next, left) = arena::lower_at(node, nth(node, 0), range, start);
        let (after, right) = arena::lower_at(node, nth(node, 1), range, next);
        two_children(node, 0, range, start);
        still_comes_from(after, whole, left, node, 0);
        still_comes_from(after, whole, right, node, 1);
        trees::a_child_is_lowered_last(node, nth(node, 0), range, start);
        trees::a_child_is_lowered_last(node, nth(node, 1), range, next);
        assert(start[before.len() as int].kind == KindV::NameRef(":="@));
        assert(after[before.len() as int] == start[before.len() as int]);
    } else if arena::assignment_of(token.kind) is Some || literals::binary_of(token) is Some {
        let (next, left) = arena::lower_at(node, nth(node, 0), range, before);
        let (after, right) = arena::lower_at(node, nth(node, 1), range, next);
        two_children(node, 0, range, before);
        still_comes_from(after, whole, left, node, 0);
        still_comes_from(after, whole, right, node, 1);
        if arena::assignment_of(token.kind) is Some {
            spellings::an_assignment_follows_its_arrow(token.kind);
        } else {
            spellings::every_infix_token_is_an_operator(token);
        }
    }
}

/// An index keeps its target, and is double exactly where it is written `[[`; a
/// field keeps its target and its name, and is a slot exactly where it is written
/// `@`.
pub proof fn an_access_keeps_its_target(node: SyntaxNode, before: ArenaV)
    requires
        node.kind == SyntaxKind::SubsetExpr || node.kind == SyntaxKind::Subset2Expr || node.kind
            == SyntaxKind::DollarExpr || node.kind == SyntaxKind::AtExpr,
        is_countable(arena::lower(node, before).0),
    ensures
        ({
            let arena = arena::lower(node, before).0;
            match arena.last().kind {
                KindV::Index { double, target, arguments } => {
                    &&& node.kind == SyntaxKind::SubsetExpr || node.kind == SyntaxKind::Subset2Expr
                    &&& double <==> node.kind == SyntaxKind::Subset2Expr
                    &&& comes_from(arena, target, node, 0)
                },
                KindV::Field { at, target, name, name_range } => {
                    &&& node.kind == SyntaxKind::DollarExpr || node.kind == SyntaxKind::AtExpr
                    &&& at <==> node.kind == SyntaxKind::AtExpr
                    &&& comes_from(arena, target, node, 0)
                    &&& name == arena::name_at(node.children@, nth(node, 1))
                },
                _ => false,
            }
        }),
{
    numbered(node);
    let range = literals::code_range(node);
    let (next, target) = arena::lower_at(node, nth(node, 0), range, before);
    let whole = arena::lower(node, before).0;
    trees::a_child_is_lowered_last(node, nth(node, 0), range, before);
    trees::lists_are_lowered_behind(node, next);
    child_comes_from(node, 0, range, before);
    if node.kind == SyntaxKind::SubsetExpr || node.kind == SyntaxKind::Subset2Expr {
        let after = arena::lower_arguments(node, None, next).0;
        still_comes_from(next, after, target, node, 0);
        still_comes_from(after, whole, target, node, 0);
    } else {
        still_comes_from(next, whole, target, node, 0);
    }
}

/// A qualified name is internal exactly where it is written with `:::`, and its
/// package stands before its name.
pub proof fn a_qualified_name_keeps_its_parts(node: SyntaxNode, before: ArenaV)
    requires
        node.kind == SyntaxKind::NamespaceExpr,
    ensures
        match arena::lower(node, before).0.last().kind {
            KindV::Namespace { internal, package, name } => {
                &&& internal <==> exists|i: int|
                    0 <= i < node.children@.len() && (#[trigger] node.children@[i]) is Token
                        && node.children@[i]->Token_0.kind == SyntaxKind::Colon3
                &&& package == arena::name_at(node.children@, nth(node, 0))
                &&& name == arena::name_at(node.children@, nth(node, 1))
            },
            _ => false,
        },
{
    numbered(node);
    token_is_found(node.children@, SyntaxKind::Colon3, 0);
}

proof fn token_is_found(elements: Seq<SyntaxElement>, kind: SyntaxKind, from: int)
    requires
        0 <= from <= elements.len(),
    ensures
        syntax::next_token(elements, kind, from) is Some <==> exists|i: int|
            from <= i < elements.len() && (#[trigger] elements[i]) is Token
                && elements[i]->Token_0.kind == kind,
    decreases elements.len() - from,
{
    if from < elements.len() {
        token_is_found(elements, kind, from + 1);
        if elements[from] is Token && elements[from]->Token_0.kind == kind {
            assert(syntax::next_token(elements, kind, from) == Some(from));
        }
    }
}

/// How many children of a node are of a kind, from one on.
pub open spec fn count_of(elements: Seq<SyntaxElement>, kind: SyntaxKind, from: int) -> nat
    decreases elements.len() - from,
{
    if 0 <= from < elements.len() {
        count_of(elements, kind, from + 1) + if syntax::is_node_of(elements[from], kind) {
            1nat
        } else {
            0nat
        }
    } else {
        0
    }
}

/// Every argument of a call is lowered, in order.
pub proof fn every_argument_is_lowered(
    list: SyntaxNode,
    substitute: Option<(usize, ExprId)>,
    from: int,
    arena: ArenaV,
    done: Seq<ArgumentV>,
)
    requires
        0 <= from <= list.children@.len(),
    ensures
        ({
            let all = arena::lower_listed(list, substitute, from, arena, done).1;
            &&& all.len() == done.len() + count_of(list.children@, SyntaxKind::Argument, from)
            &&& forall|i: int| 0 <= i < done.len() ==> #[trigger] all[i] == done[i]
            &&& match substitute {
                Some((place, value)) => done.len() <= place < all.len() ==> all[place as int].value
                    == Some(value),
                None => true,
            }
        }),
    decreases list.children@.len() - from,
{
    if from < list.children@.len() {
        match list.children@[from] {
            SyntaxElement::Node(argument) => if argument.kind == SyntaxKind::Argument {
                let given = match substitute {
                    Some((place, value)) => if place == done.len() {
                        Some(value)
                    } else {
                        None
                    },
                    None => None,
                };
                let (next, lowered) = arena::lower_argument(argument, given, arena);
                every_argument_is_lowered(list, substitute, from + 1, next, done.push(lowered));
                let all = arena::lower_listed(list, substitute, from, arena, done).1;
                assert(all[done.len() as int] == done.push(lowered)[done.len() as int]);
                assert forall|i: int| 0 <= i < done.len() implies #[trigger] all[i] == done[i] by {
                    assert(all[i] == done.push(lowered)[i]);
                }
            } else {
                every_argument_is_lowered(list, substitute, from + 1, arena, done);
            },
            SyntaxElement::Token(_) => every_argument_is_lowered(
                list,
                substitute,
                from + 1,
                arena,
                done,
            ),
        }
    }
}

/// Every formal of a definition is lowered, in order.
pub proof fn every_formal_is_lowered(
    list: SyntaxNode,
    from: int,
    arena: ArenaV,
    done: Seq<FormalV>,
)
    requires
        0 <= from <= list.children@.len(),
    ensures
        ({
            let all = arena::lower_parameters(list, from, arena, done).1;
            &&& all.len() == done.len() + count_of(list.children@, SyntaxKind::Parameter, from)
            &&& forall|i: int| 0 <= i < done.len() ==> #[trigger] all[i] == done[i]
            &&& from < list.children@.len() && syntax::is_node_of(
                list.children@[from],
                SyntaxKind::Parameter,
            ) ==> all[done.len() as int].name == match list.children@[from]->Node_0.name() {
                Some(name) => name,
                None => Seq::empty(),
            }
        }),
    decreases list.children@.len() - from,
{
    if from < list.children@.len() {
        match list.children@[from] {
            SyntaxElement::Node(parameter) => if parameter.kind == SyntaxKind::Parameter {
                let (next, default) = arena::lower_opt(
                    parameter,
                    syntax::next_expression(parameter.children@, 0),
                    arena,
                );
                let formal = FormalV {
                    name: match parameter.name() {
                        Some(name) => name,
                        None => Seq::empty(),
                    },
                    default,
                    range: match parameter.opening() {
                        Some(token) => token.range,
                        None => parameter.range,
                    },
                };
                every_formal_is_lowered(list, from + 1, next, done.push(formal));
                let all = arena::lower_parameters(list, from, arena, done).1;
                assert(all[done.len() as int] == done.push(formal)[done.len() as int]);
                assert forall|i: int| 0 <= i < done.len() implies #[trigger] all[i] == done[i] by {
                    assert(all[i] == done.push(formal)[i]);
                }
            } else {
                every_formal_is_lowered(list, from + 1, arena, done);
            },
            SyntaxElement::Token(_) => every_formal_is_lowered(list, from + 1, arena, done),
        }
    }
}

/// A pipe is the call it pipes into, with the piped value as one argument more:
/// the first, or the one whose value is the placeholder.
pub proof fn a_pipe_is_the_call_with_one_argument_more(
    call: SyntaxNode,
    piped: ExprId,
    shape: PipeShape,
    range: TextRange,
    before: ArenaV,
)
    ensures
        ({
            let arena = arena::lower_piped_call(call, piped, shape, range, before).0;
            let next = arena::lower_at(
                call,
                syntax::next_other_node(call.children@, SyntaxKind::ArgumentList, 0),
                range,
                before,
            ).0;
            match (arena.last().kind, shape) {
                (KindV::Call { arguments, .. }, PipeShape::FirstArgument) => {
                    &&& arguments.len() == arena::lower_arguments(call, None, next).1.len() + 1
                    &&& arguments[0].value == Some(piped)
                    &&& arguments[0].name is None
                    &&& arguments.subrange(1, arguments.len() as int)
                        == arena::lower_arguments(call, None, next).1
                },
                (KindV::Call { arguments, .. }, PipeShape::NamedPlaceholder(place)) => place
                    < arguments.len() ==> arguments[place as int].value == Some(piped),
                _ => false,
            }
        }),
{
    let next = arena::lower_at(
        call,
        syntax::next_other_node(call.children@, SyntaxKind::ArgumentList, 0),
        range,
        before,
    ).0;
    match shape {
        PipeShape::FirstArgument => {
            let given = arena::lower_arguments(call, None, next).1;
            let all = seq![arena::unnamed(piped)] + given;
            assert(all.subrange(1, all.len() as int) =~= given);
        },
        PipeShape::NamedPlaceholder(place) => {
            let substitute = Some((place, piped));
            match syntax::next_node(call.children@, SyntaxKind::ArgumentList, 0) {
                Some(i) => if 0 <= i < call.children@.len() {
                    match call.children@[i] {
                        SyntaxElement::Node(list) => every_argument_is_lowered(
                            list,
                            substitute,
                            0,
                            next,
                            Seq::empty(),
                        ),
                        _ => {},
                    }
                },
                None => {},
            }
        },
    }
}

proof fn earlier_elements_count_alike(elements: Seq<SyntaxElement>, next: SyntaxElement, upto: nat)
    requires
        upto <= elements.len(),
    ensures
        literals::ends_in_semicolon(elements.push(next), upto) == literals::ends_in_semicolon(
            elements,
            upto,
        ),
    decreases upto,
{
    if upto > 0 {
        assert(elements.push(next)[upto - 1] == elements[upto - 1]);
        earlier_elements_count_alike(elements, next, (upto - 1) as nat);
    }
}

/// A block ends in a semicolon where one is the last thing in it that is neither
/// blank nor its closing brace.
pub proof fn a_semicolon_at_the_end_counts(elements: Seq<SyntaxElement>, next: SyntaxElement)
    ensures
        ({
            let before = literals::ends_in_semicolon(elements, elements.len());
            let after = literals::ends_in_semicolon(elements.push(next), elements.len() + 1);
            match next {
                SyntaxElement::Node(_) => !after,
                SyntaxElement::Token(token) => after == if token.kind
                    == SyntaxKind::Semicolon {
                    true
                } else if token.kind.is_trivia() || token.kind == SyntaxKind::RBrace {
                    before
                } else {
                    false
                },
            }
        }),
        !literals::ends_in_semicolon(Seq::empty(), 0),
{
    earlier_elements_count_alike(elements, next, elements.len());
    assert(elements.push(next)[elements.len() as int] == next);
}

/// The operator of an expression is the first token in it that is not blank.
pub proof fn the_operator_is_the_first_token(elements: Seq<SyntaxElement>, from: int, k: int)
    requires
        0 <= from <= elements.len(),
    ensures
        match literals::operator_place(elements, from) {
            Some(i) => {
                &&& from <= i < elements.len()
                &&& elements[i] is Token
                &&& !elements[i]->Token_0.kind.is_trivia()
                &&& from <= k < i && elements[k] is Token
                    ==> elements[k]->Token_0.kind.is_trivia()
            },
            None => from <= k < elements.len() && elements[k] is Token
                ==> elements[k]->Token_0.kind.is_trivia(),
        },
    decreases elements.len() - from,
{
    if from < elements.len() {
        the_operator_is_the_first_token(elements, from + 1, k);
    }
}

/// A call that a pipe goes into takes the value first, or in the place of its one
/// placeholder; with more placeholders it takes none.
pub proof fn a_pipe_has_one_placeholder(call: SyntaxNode)
    ensures
        ({
            let count = literals::count_tokens(
                call,
                SyntaxKind::Underscore,
                call.children@.len(),
            );
            let shape = literals::shape_of(call);
            &&& count == 0 <==> shape == Some(PipeShape::FirstArgument)
            &&& count > 1 ==> shape is None
            &&& count == 1 ==> (shape is Some <==> literals::placeholder_in(
                call.children@,
                0,
            ) is Some)
        }),
{
}

/// The placeholder is found in the place of its argument: those before it have
/// none.
pub proof fn a_placeholder_stands_in_its_place(
    list: Seq<SyntaxElement>,
    from: int,
    place: nat,
    i: int,
)
    requires
        0 <= from <= i < list.len(),
        list[i] is Node,
        list[i]->Node_0.kind == SyntaxKind::Argument,
        literals::is_placeholder(list[i]->Node_0),
        forall|k: int|
            from <= k < i && (#[trigger] list[k]) is Node && list[k]->Node_0.kind
                == SyntaxKind::Argument ==> !literals::is_placeholder(list[k]->Node_0),
    ensures
        literals::placeholder_from(list, from, place) == Some(
            place + arguments_between(list, from, i),
        ),
    decreases i - from,
{
    if from < i {
        let next = match list[from] {
            SyntaxElement::Node(argument) => if argument.kind == SyntaxKind::Argument {
                place + 1
            } else {
                place
            },
            SyntaxElement::Token(_) => place,
        };
        a_placeholder_stands_in_its_place(list, from + 1, next, i);
    }
}

/// How many arguments stand between two places of a list.
pub open spec fn arguments_between(list: Seq<SyntaxElement>, from: int, to: int) -> nat
    decreases to - from,
{
    if from < to {
        let rest = arguments_between(list, from + 1, to);
        match list[from] {
            SyntaxElement::Node(argument) => if argument.kind == SyntaxKind::Argument {
                rest + 1
            } else {
                rest
            },
            SyntaxElement::Token(_) => rest,
        }
    } else {
        0
    }
}

} // verus!
