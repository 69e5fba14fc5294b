//! Lowering an item's syntax tree into a module.

use vstd::prelude::*;

use crate::arena;
use crate::hir;
use crate::hir::{
    Argument, AssignSpelling, BinaryOperator, ExprId, Expression, ExpressionKind, Module, Parameter,
};
use crate::literals::{
    binary_operator, field_name_text, find_unary_operator, has_trailing_semicolon, literal_kind,
    operator_token, pipe_shape, significant_range, PipeShape,
};
use crate::syntax::{
    find_expression, find_expression_after, find_node, find_other_node, holds_token, opt_place,
    SyntaxElement, SyntaxKind, SyntaxNode, TextRange,
};
use crate::trees;
use crate::types;

verus! {

/// Whether every expression of a list has a place of its own.
pub open spec fn fits(expressions: Seq<Expression>) -> bool {
    expressions.len() <= 0x1_0000_0000
}

/// Whether every expression is built from expressions that stand before it.
pub open spec fn sound(expressions: Seq<Expression>) -> bool {
    forall|i: int|
        #![trigger expressions[i]]
        0 <= i < expressions.len() ==> expressions[i].kind.built_below(i)
}

/// Whether a list has grown and stayed sound.
pub open spec fn grown(before: Seq<Expression>, after: Seq<Expression>) -> bool {
    before.len() <= after.len() && (fits(after) && sound(before) ==> sound(after))
}

struct Lowering {
    expressions: Vec<Expression>,
}

fn child_at(node: &SyntaxNode, place: Option<usize>) -> (r: Option<&SyntaxNode>)
    requires
        place matches Some(i) ==> i < node.children@.len(),
    ensures
        (match r {
            Some(child) => Some(*child),
            None => None,
        }) == arena::node_at(node.children@, opt_place(place)),
{
    match place {
        Some(i) => match &node.children[i] {
            SyntaxElement::Node(child) => Some(child),
            SyntaxElement::Token(_) => None,
        },
        None => None,
    }
}

fn spelled_at(node: &SyntaxNode, place: Option<usize>) -> (r: Option<String>)
    requires
        place matches Some(i) ==> i < node.children@.len(),
    ensures
        types::opt_text(r) == arena::name_at(node.children@, opt_place(place)),
{
    match child_at(node, place) {
        Some(child) => field_name_text(child),
        None => None,
    }
}

fn names_local(node: &SyntaxNode, place: Option<usize>) -> (r: bool)
    requires
        place matches Some(i) ==> i < node.children@.len(),
    ensures
        r == arena::is_local(node.children@, opt_place(place)),
{
    match child_at(node, place) {
        Some(child) => if child.kind == SyntaxKind::Name {
            match child.name_text() {
                Some(name) => crate::text::same_text(name.as_str(), "local"),
                None => false,
            }
        } else {
            false
        },
        None => false,
    }
}

fn sole_body(arguments: &Vec<Argument>) -> (r: Option<ExprId>)
    ensures
        r == arena::local_body(arena::arguments_view(arguments@)),
{
    if arguments.len() == 1 && arguments[0].name.is_none() {
        arguments[0].value
    } else {
        None
    }
}

fn find_taggable(elements: &Vec<SyntaxElement>) -> (r: Option<usize>)
    ensures
        opt_place(r) == arena::first_taggable(elements@, 0),
        r matches Some(i) ==> i < elements@.len(),
{
    let mut i: usize = 0;
    while i < elements.len()
        invariant
            i <= elements@.len(),
            arena::first_taggable(elements@, i as int) == arena::first_taggable(elements@, 0),
        decreases elements.len() - i,
    {
        if let SyntaxElement::Node(node) = &elements[i] {
            if node.kind == SyntaxKind::Name || node.kind == SyntaxKind::Literal {
                return Some(i);
            }
        }
        i += 1;
    }
    None
}

fn find_tag(elements: &Vec<SyntaxElement>) -> (r: Option<usize>)
    ensures
        opt_place(r) == arena::tag_place(elements@),
        r matches Some(i) ==> i < elements@.len(),
{
    if holds_token(elements, SyntaxKind::Eq) {
        find_taggable(elements)
    } else {
        None
    }
}

fn find_value(elements: &Vec<SyntaxElement>, named: bool) -> (r: Option<usize>)
    ensures
        opt_place(r) == arena::value_place(elements@, named),
        r matches Some(i) ==> i < elements@.len(),
{
    let first = find_expression(elements, 0);
    if named {
        find_expression_after(elements, first)
    } else {
        first
    }
}

fn assignment(kind: SyntaxKind) -> (r: Option<(AssignSpelling, bool)>)
    ensures
        r == arena::assignment_of(kind),
{
    match kind {
        SyntaxKind::LessMinus => Some((AssignSpelling::Local, false)),
        SyntaxKind::Eq => Some((AssignSpelling::Equals, false)),
        SyntaxKind::Less2Minus => Some((AssignSpelling::Super, false)),
        SyntaxKind::MinusGreater => Some((AssignSpelling::Local, true)),
        SyntaxKind::MinusGreater2 => Some((AssignSpelling::Super, true)),
        _ => None,
    }
}

fn piped_call_shape(node: &SyntaxNode, place: Option<usize>) -> (r: Option<PipeShape>)
    requires
        place matches Some(i) ==> i < node.children@.len(),
    ensures
        r == arena::piped_shape(node.children@, opt_place(place)),
{
    match child_at(node, place) {
        Some(child) => if child.kind == SyntaxKind::CallExpr {
            pipe_shape(child)
        } else {
            None
        },
        None => None,
    }
}

impl Lowering {
    spec fn view(&self) -> arena::ArenaV {
        arena::expressions_view(self.expressions@)
    }

    fn allocate(&mut self, kind: ExpressionKind, range: TextRange) -> (r: ExprId)
        ensures
            (final(self)@, r) == arena::allocated(old(self)@, kind@, range),
            final(self).expressions@.len() == old(self).expressions@.len() + 1,
            (fits(final(self).expressions@) ==> kind.built_below(
                old(self).expressions@.len() as int,
            )) ==> grown(old(self).expressions@, final(self).expressions@),
            fits(final(self).expressions@) ==> r.0 == old(self).expressions@.len(),
    {
        let count: usize = self.expressions.len();
        let id = ExprId(count as u32);
        let ghost before = self@;
        let ghost one = arena::ExpressionV { kind: kind@, range };
        self.expressions.push(Expression { kind, range });
        assert(self@ =~= before.push(one));
        id
    }

    fn missing(&mut self, range: TextRange) -> (r: ExprId)
        ensures
            (final(self)@, r) == arena::missing(old(self)@, range),
            grown(old(self).expressions@, final(self).expressions@),
            fits(final(self).expressions@) ==> r.0 < final(self).expressions@.len(),
    {
        self.allocate(ExpressionKind::Missing, range)
    }

    fn lower_at(&mut self, node: &SyntaxNode, place: Option<usize>, fallback: TextRange) -> (r:
        ExprId)
        ensures
            (final(self)@, r) == arena::lower_at(
                *node,
                opt_place(place),
                fallback,
                old(self)@,
            ),
            grown(old(self).expressions@, final(self).expressions@),
            fits(final(self).expressions@) ==> r.0 < final(self).expressions@.len(),
        decreases node, 0int, 0int,
    {
        match place {
            Some(i) => if i < node.children.len() {
                match &node.children[i] {
                    SyntaxElement::Node(child) => self.lower_expression(child),
                    SyntaxElement::Token(_) => self.missing(fallback),
                }
            } else {
                self.missing(fallback)
            },
            None => self.missing(fallback),
        }
    }

    fn lower_opt(&mut self, node: &SyntaxNode, place: Option<usize>) -> (r: Option<ExprId>)
        ensures
            (final(self)@, r) == arena::lower_opt(*node, opt_place(place), old(self)@),
            grown(old(self).expressions@, final(self).expressions@),
            fits(final(self).expressions@) ==> hir::opt_below(
                r,
                final(self).expressions@.len() as int,
            ),
        decreases node, 0int, 0int,
    {
        match place {
            Some(i) => if i < node.children.len() {
                match &node.children[i] {
                    SyntaxElement::Node(child) => Some(self.lower_expression(child)),
                    SyntaxElement::Token(_) => None,
                }
            } else {
                None
            },
            None => None,
        }
    }

    fn lower_expression(&mut self, node: &SyntaxNode) -> (r: ExprId)
        ensures
            (final(self)@, r) == arena::lower(*node, old(self)@),
            grown(old(self).expressions@, final(self).expressions@),
            fits(final(self).expressions@) ==> r.0 < final(self).expressions@.len(),
        decreases node, 3int, 0int,
    {
        let range = significant_range(node);
        let first = find_expression(&node.children, 0);
        let second = find_expression_after(&node.children, first);
        let third = find_expression_after(&node.children, second);
        match node.kind {
            SyntaxKind::Name => {
                let name = match node.name_text() {
                    Some(name) => name,
                    None => String::new(),
                };
                self.allocate(ExpressionKind::NameRef(name), range)
            },
            SyntaxKind::Literal => self.allocate(
                ExpressionKind::Literal(literal_kind(node)),
                range,
            ),
            SyntaxKind::ParenExpr => {
                let inner = self.lower_at(node, first, range);
                self.allocate(ExpressionKind::Paren(inner), range)
            },
            SyntaxKind::BraceExpr => {
                let statements = self.lower_statements(node);
                let trailing_semicolon = has_trailing_semicolon(&node.children);
                self.allocate(ExpressionKind::Block { statements, trailing_semicolon }, range)
            },
            SyntaxKind::UnaryExpr => {
                let operand = self.lower_at(node, first, range);
                match find_unary_operator(&node.children) {
                    Some(operator) => self.allocate(
                        ExpressionKind::Unary { operator, operand },
                        range,
                    ),
                    None => self.missing(range),
                }
            },
            SyntaxKind::BinaryExpr => self.lower_binary(node, range),
            SyntaxKind::CallExpr => {
                let arguments = self.lower_arguments(node, None);
                if let Some(body) = sole_body(&arguments) {
                    if names_local(node, first) {
                        return self.allocate(ExpressionKind::Local { body }, range);
                    }
                }
                let callee = self.lower_at(node, first, range);
                self.allocate(ExpressionKind::Call { callee, arguments }, range)
            },
            SyntaxKind::SubsetExpr => self.lower_index(node, false, range),
            SyntaxKind::Subset2Expr => self.lower_index(node, true, range),
            SyntaxKind::DollarExpr => self.lower_field(node, false, range),
            SyntaxKind::AtExpr => self.lower_field(node, true, range),
            SyntaxKind::NamespaceExpr => {
                let internal = holds_token(&node.children, SyntaxKind::Colon3);
                let package = spelled_at(node, first);
                let name = spelled_at(node, second);
                self.allocate(ExpressionKind::Namespace { internal, package, name }, range)
            },
            SyntaxKind::FunctionDef => {
                let parameters = self.lower_formals(node);
                let body = self.lower_at(node, first, range);
                self.allocate(ExpressionKind::Function { parameters, body }, range)
            },
            SyntaxKind::IfExpr => {
                let condition = self.lower_at(node, first, range);
                let then_branch = self.lower_at(node, second, range);
                let else_branch = match third {
                    Some(_) => Some(self.lower_at(node, third, range)),
                    None => None,
                };
                self.allocate(ExpressionKind::If { condition, then_branch, else_branch }, range)
            },
            SyntaxKind::ForExpr => {
                let (variable, variable_range) = match child_at(node, first) {
                    Some(child) => if child.kind == SyntaxKind::Name {
                        (child.name_text(), Some(child.range))
                    } else {
                        (None, None)
                    },
                    None => (None, None),
                };
                let sequence = self.lower_at(node, second, range);
                let body = self.lower_at(node, third, range);
                self.allocate(
                    ExpressionKind::For { variable, variable_range, sequence, body },
                    range,
                )
            },
            SyntaxKind::WhileExpr => {
                let condition = self.lower_at(node, first, range);
                let body = self.lower_at(node, second, range);
                self.allocate(ExpressionKind::While { condition, body }, range)
            },
            SyntaxKind::RepeatExpr => {
                let body = self.lower_at(node, first, range);
                self.allocate(ExpressionKind::Repeat { body }, range)
            },
            SyntaxKind::BreakExpr => self.allocate(ExpressionKind::Break, range),
            SyntaxKind::NextExpr => self.allocate(ExpressionKind::Next, range),
            _ => self.missing(range),
        }
    }

    fn lower_statements(&mut self, node: &SyntaxNode) -> (r: Vec<ExprId>)
        ensures
            (final(self)@, r@) == arena::lower_statements(*node, 0, old(self)@, Seq::empty()),
            grown(old(self).expressions@, final(self).expressions@),
            fits(final(self).expressions@) ==> hir::all_below(
                r@,
                final(self).expressions@.len() as int,
            ),
        decreases node, 1int, 0int,
    {
        let mut done: Vec<ExprId> = Vec::new();
        let mut i: usize = 0;
        while i < node.children.len()
            invariant
                i <= node.children@.len(),
                grown(old(self).expressions@, self.expressions@),
                fits(self.expressions@) ==> hir::all_below(
                    done@,
                    self.expressions@.len() as int,
                ),
                arena::lower_statements(*node, i as int, self@, done@)
                    == arena::lower_statements(*node, 0, old(self)@, Seq::empty()),
            decreases node.children.len() - i,
        {
            if let SyntaxElement::Node(child) = &node.children[i] {
                if child.kind.expression() {
                    assert(decreases_to!(*node => *child));
                    let id = self.lower_expression(child);
                    done.push(id);
                }
            }
            i += 1;
        }
        done
    }

    fn lower_index(&mut self, node: &SyntaxNode, double: bool, range: TextRange) -> (r: ExprId)
        ensures
            (final(self)@, r) == arena::lower_index(*node, double, range, old(self)@),
            grown(old(self).expressions@, final(self).expressions@),
            fits(final(self).expressions@) ==> r.0 < final(self).expressions@.len(),
        decreases node, 2int, 0int,
    {
        let first = find_expression(&node.children, 0);
        let target = self.lower_at(node, first, range);
        let arguments = self.lower_arguments(node, None);
        self.allocate(ExpressionKind::Index { double, target, arguments }, range)
    }

    fn lower_field(&mut self, node: &SyntaxNode, at: bool, range: TextRange) -> (r: ExprId)
        ensures
            (final(self)@, r) == arena::lower_field(*node, at, range, old(self)@),
            grown(old(self).expressions@, final(self).expressions@),
            fits(final(self).expressions@) ==> r.0 < final(self).expressions@.len(),
        decreases node, 2int, 0int,
    {
        let first = find_expression(&node.children, 0);
        let second = find_expression_after(&node.children, first);
        let target = self.lower_at(node, first, range);
        let name = spelled_at(node, second);
        let name_range = match child_at(node, second) {
            Some(child) => if name.is_some() {
                Some(child.range)
            } else {
                None
            },
            None => None,
        };
        self.allocate(ExpressionKind::Field { at, target, name, name_range }, range)
    }

    fn lower_binary(&mut self, node: &SyntaxNode, range: TextRange) -> (r: ExprId)
        ensures
            (final(self)@, r) == arena::lower_binary(*node, range, old(self)@),
            grown(old(self).expressions@, final(self).expressions@),
            fits(final(self).expressions@) ==> r.0 < final(self).expressions@.len(),
        decreases node, 2int, 0int,
    {
        let first = find_expression(&node.children, 0);
        let second = find_expression_after(&node.children, first);
        let token = match operator_token(node) {
            Some(token) => token,
            None => {
                return self.missing(range);
            },
        };
        if token.kind == SyntaxKind::PipeGreater {
            if let Some(shape) = piped_call_shape(node, second) {
                return self.lower_pipe(node, first, second, shape, range);
            }
        }
        if let Some((spelling, rightward)) = assignment(token.kind) {
            let left = self.lower_at(node, first, range);
            let right = self.lower_at(node, second, range);
            let (target, value) = if rightward {
                (right, left)
            } else {
                (left, right)
            };
            return self.allocate(ExpressionKind::Assign { spelling, target, value }, range);
        }
        if token.kind == SyntaxKind::ColonEq {
            let callee = self.allocate(ExpressionKind::NameRef(":=".to_string()), token.range);
            let left = self.lower_at(node, first, range);
            let right = self.lower_at(node, second, range);
            let mut arguments: Vec<Argument> = Vec::new();
            arguments.push(Argument { name: None, name_range: None, value: Some(left) });
            arguments.push(Argument { name: None, name_range: None, value: Some(right) });
            assert(arena::arguments_view(arguments@) =~= seq![
                arena::unnamed(left),
                arena::unnamed(right),
            ]);
            return self.allocate(ExpressionKind::Call { callee, arguments }, range);
        }
        let operator = match binary_operator(token) {
            Some(operator) => operator,
            None => {
                return self.missing(range);
            },
        };
        let lhs = self.lower_at(node, first, range);
        let rhs = self.lower_at(node, second, range);
        let special_name = if operator == BinaryOperator::Special {
            Some(token.text.clone())
        } else {
            None
        };
        self.allocate(ExpressionKind::Binary { operator, special_name, lhs, rhs }, range)
    }

    fn lower_pipe(
        &mut self,
        node: &SyntaxNode,
        left: Option<usize>,
        right: Option<usize>,
        shape: PipeShape,
        range: TextRange,
    ) -> (r: ExprId)
        ensures
            (final(self)@, r) == arena::lower_pipe(
                *node,
                opt_place(left),
                opt_place(right),
                shape,
                range,
                old(self)@,
            ),
            grown(old(self).expressions@, final(self).expressions@),
            fits(final(self).expressions@) ==> r.0 < final(self).expressions@.len(),
        decreases node, 1int, 0int,
    {
        let piped = self.lower_at(node, left, range);
        match right {
            Some(i) => if i < node.children.len() {
                match &node.children[i] {
                    SyntaxElement::Node(call) => self.lower_piped_call(call, piped, shape, range),
                    SyntaxElement::Token(_) => self.missing(range),
                }
            } else {
                self.missing(range)
            },
            None => self.missing(range),
        }
    }

    fn lower_piped_call(
        &mut self,
        call: &SyntaxNode,
        piped: ExprId,
        shape: PipeShape,
        range: TextRange,
    ) -> (r: ExprId)
        requires
            fits(old(self).expressions@) ==> piped.0 < old(self).expressions@.len(),
        ensures
            (final(self)@, r) == arena::lower_piped_call(
                *call,
                piped,
                shape,
                range,
                old(self)@,
            ),
            grown(old(self).expressions@, final(self).expressions@),
            fits(final(self).expressions@) ==> r.0 < final(self).expressions@.len(),
        decreases call, 3int, 0int,
    {
        let place = find_other_node(&call.children, SyntaxKind::ArgumentList);
        let callee = self.lower_at(call, place, range);
        match shape {
            PipeShape::FirstArgument => {
                let mut given = self.lower_arguments(call, None);
                let ghost rest = arena::arguments_view(given@);
                let ghost own = given@;
                let mut arguments: Vec<Argument> = Vec::new();
                arguments.push(Argument { name: None, name_range: None, value: Some(piped) });
                arguments.append(&mut given);
                assert(arena::arguments_view(arguments@) =~= seq![arena::unnamed(piped)] + rest);
                assert forall|i: int| 0 <= i < arguments@.len() && fits(self.expressions@) implies
                    hir::opt_below(
                    (#[trigger] arguments@[i]).value,
                    self.expressions@.len() as int,
                ) by {
                    if i > 0 {
                        assert(arguments@[i] == own[i - 1]);
                    }
                }
                self.allocate(ExpressionKind::Call { callee, arguments }, range)
            },
            PipeShape::NamedPlaceholder(place) => {
                let arguments = self.lower_arguments(call, Some((place, piped)));
                self.allocate(ExpressionKind::Call { callee, arguments }, range)
            },
        }
    }

    fn lower_arguments(&mut self, node: &SyntaxNode, substitute: Option<(usize, ExprId)>) -> (r: Vec<
        Argument,
    >)
        requires
            substitute matches Some((_, value)) ==> fits(old(self).expressions@) ==> value.0 < old(
                self,
            ).expressions@.len(),
        ensures
            (final(self)@, arena::arguments_view(r@)) == arena::lower_arguments(
                *node,
                substitute,
                old(self)@,
            ),
            grown(old(self).expressions@, final(self).expressions@),
            fits(final(self).expressions@) ==> hir::values_below(
                r@,
                final(self).expressions@.len() as int,
            ),
        decreases node, 1int, 0int,
    {
        match find_node(&node.children, SyntaxKind::ArgumentList, 0) {
            Some(i) => {
                if let SyntaxElement::Node(list) = &node.children[i] {
                    return self.lower_listed(list, substitute);
                }
            },
            None => {},
        }
        let none: Vec<Argument> = Vec::new();
        assert(arena::arguments_view(none@) =~= Seq::empty());
        none
    }

    fn lower_listed(&mut self, list: &SyntaxNode, substitute: Option<(usize, ExprId)>) -> (r: Vec<
        Argument,
    >)
        requires
            substitute matches Some((_, value)) ==> fits(old(self).expressions@) ==> value.0 < old(
                self,
            ).expressions@.len(),
        ensures
            (final(self)@, arena::arguments_view(r@)) == arena::lower_listed(
                *list,
                substitute,
                0,
                old(self)@,
                Seq::empty(),
            ),
            grown(old(self).expressions@, final(self).expressions@),
            fits(final(self).expressions@) ==> hir::values_below(
                r@,
                final(self).expressions@.len() as int,
            ),
        decreases list, 1int, 0int,
    {
        let mut done: Vec<Argument> = Vec::new();
        assert(arena::arguments_view(done@) =~= Seq::empty());
        let mut i: usize = 0;
        while i < list.children.len()
            invariant
                i <= list.children@.len(),
                substitute matches Some((_, value)) ==> fits(old(self).expressions@) ==> value.0
                    < old(self).expressions@.len(),
                grown(old(self).expressions@, self.expressions@),
                fits(self.expressions@) ==> hir::values_below(
                    done@,
                    self.expressions@.len() as int,
                ),
                arena::lower_listed(
                    *list,
                    substitute,
                    i as int,
                    self@,
                    arena::arguments_view(done@),
                ) == arena::lower_listed(*list, substitute, 0, old(self)@, Seq::empty()),
            decreases list.children.len() - i,
        {
            if let SyntaxElement::Node(argument) = &list.children[i] {
                if argument.kind == SyntaxKind::Argument {
                    let given = match substitute {
                        Some((place, value)) => if place == done.len() {
                            Some(value)
                        } else {
                            None
                        },
                        None => None,
                    };
                    assert(decreases_to!(*list => *argument));
                    let lowered = self.lower_argument(argument, given);
                    let ghost before = arena::arguments_view(done@);
                    let ghost one = lowered@;
                    done.push(lowered);
                    assert(arena::arguments_view(done@) =~= before.push(one));
                }
            }
            i += 1;
        }
        done
    }

    fn lower_argument(&mut self, argument: &SyntaxNode, given: Option<ExprId>) -> (r: Argument)
        requires
            given matches Some(value) ==> fits(old(self).expressions@) ==> value.0 < old(
                self,
            ).expressions@.len(),
        ensures
            (final(self)@, r@) == arena::lower_argument(*argument, given, old(self)@),
            grown(old(self).expressions@, final(self).expressions@),
            fits(final(self).expressions@) ==> hir::opt_below(
                r.value,
                final(self).expressions@.len() as int,
            ),
        decreases argument, 1int, 0int,
    {
        let tag = find_tag(&argument.children);
        let name = spelled_at(argument, tag);
        let name_range = match child_at(argument, tag) {
            Some(child) => Some(child.range),
            None => None,
        };
        let value = match given {
            Some(value) => Some(value),
            None => {
                let place = find_value(&argument.children, name.is_some());
                self.lower_opt(argument, place)
            },
        };
        Argument { name, name_range, value }
    }

    fn lower_formals(&mut self, node: &SyntaxNode) -> (r: Vec<Parameter>)
        ensures
            (final(self)@, arena::formals_view(r@)) == arena::lower_formals(*node, old(self)@),
            grown(old(self).expressions@, final(self).expressions@),
            fits(final(self).expressions@) ==> hir::defaults_below(
                r@,
                final(self).expressions@.len() as int,
            ),
        decreases node, 1int, 0int,
    {
        match find_node(&node.children, SyntaxKind::ParameterList, 0) {
            Some(i) => {
                if let SyntaxElement::Node(list) = &node.children[i] {
                    return self.lower_parameters(list);
                }
            },
            None => {},
        }
        let none: Vec<Parameter> = Vec::new();
        assert(arena::formals_view(none@) =~= Seq::empty());
        none
    }

    fn lower_parameters(&mut self, list: &SyntaxNode) -> (r: Vec<Parameter>)
        ensures
            (final(self)@, arena::formals_view(r@)) == arena::lower_parameters(
                *list,
                0,
                old(self)@,
                Seq::empty(),
            ),
            grown(old(self).expressions@, final(self).expressions@),
            fits(final(self).expressions@) ==> hir::defaults_below(
                r@,
                final(self).expressions@.len() as int,
            ),
        decreases list, 1int, 0int,
    {
        let mut done: Vec<Parameter> = Vec::new();
        assert(arena::formals_view(done@) =~= Seq::empty());
        let mut i: usize = 0;
        while i < list.children.len()
            invariant
                i <= list.children@.len(),
                grown(old(self).expressions@, self.expressions@),
                fits(self.expressions@) ==> hir::defaults_below(
                    done@,
                    self.expressions@.len() as int,
                ),
                arena::lower_parameters(
                    *list,
                    i as int,
                    self@,
                    arena::formals_view(done@),
                ) == arena::lower_parameters(*list, 0, old(self)@, Seq::empty()),
            decreases list.children.len() - i,
        {
            if let SyntaxElement::Node(parameter) = &list.children[i] {
                if parameter.kind == SyntaxKind::Parameter {
                    let name = match parameter.name_text() {
                        Some(name) => name,
                        None => String::new(),
                    };
                    let range = match parameter.first_token() {
                        Some(token) => token.range,
                        None => parameter.range,
                    };
                    let place = find_expression(&parameter.children, 0);
                    assert(decreases_to!(*list => *parameter));
                    let default = self.lower_opt(parameter, place);
                    let formal = Parameter { name, default, range };
                    let ghost before = arena::formals_view(done@);
                    let ghost one = formal@;
                    done.push(formal);
                    assert(arena::formals_view(done@) =~= before.push(one));
                }
            }
            i += 1;
        }
        done
    }
}

/// Lowers one item's tree into a module. Where every expression has a place of
/// its own, each is built from expressions that stand before it, none belongs
/// to two, and the last one is the root.
pub fn lower_item(root: &SyntaxNode) -> (r: Module)
    ensures
        r@ == arena::lowered(*root),
        fits(r.expressions@) ==> r.wf(),
        fits(r.expressions@) ==> trees::is_tree(r),
{
    let mut lowering = Lowering { expressions: Vec::new() };
    assert(lowering@ =~= Seq::empty());
    let id = lowering.lower_expression(root);
    let module = Module { expressions: lowering.expressions, root: Some(id) };
    proof {
        if fits(module.expressions@) {
            trees::a_lowered_module_is_a_tree(*root, module);
        }
    }
    module
}

} // verus!
