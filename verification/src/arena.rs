//! What lowering makes of a syntax tree.

use vstd::prelude::*;

use crate::hir::{
    Argument, AssignSpelling, BinaryOperator, ExprId, Expression, ExpressionKind, Module, Parameter,
    UnaryOperator,
};
use crate::literals;
use crate::literals::{LiteralV, PipeShape};
use crate::syntax;
use crate::syntax::{SyntaxElement, SyntaxKind, SyntaxNode, TextRange};
use crate::types;

verus! {

/// The model of an argument.
pub struct ArgumentV {
    pub name: Option<Seq<char>>,
    pub name_range: Option<TextRange>,
    pub value: Option<ExprId>,
}

/// The model of a formal.
pub struct FormalV {
    pub name: Seq<char>,
    pub default: Option<ExprId>,
    pub range: TextRange,
}

/// The model of an expression's kind.
pub enum KindV {
    Missing,
    Literal(LiteralV),
    NameRef(Seq<char>),
    Assign { spelling: AssignSpelling, target: ExprId, value: ExprId },
    Unary { operator: UnaryOperator, operand: ExprId },
    Binary {
        operator: BinaryOperator,
        special_name: Option<Seq<char>>,
        lhs: ExprId,
        rhs: ExprId,
    },
    Call { callee: ExprId, arguments: Seq<ArgumentV> },
    Index { double: bool, target: ExprId, arguments: Seq<ArgumentV> },
    Field {
        at: bool,
        target: ExprId,
        name: Option<Seq<char>>,
        name_range: Option<TextRange>,
    },
    Namespace { internal: bool, package: Option<Seq<char>>, name: Option<Seq<char>> },
    Function { parameters: Seq<FormalV>, body: ExprId },
    If { condition: ExprId, then_branch: ExprId, else_branch: Option<ExprId> },
    For {
        variable: Option<Seq<char>>,
        variable_range: Option<TextRange>,
        sequence: ExprId,
        body: ExprId,
    },
    While { condition: ExprId, body: ExprId },
    Repeat { body: ExprId },
    Local { body: ExprId },
    Block { statements: Seq<ExprId>, trailing_semicolon: bool },
    Paren(ExprId),
    Break,
    Next,
}

/// The model of an expression.
pub struct ExpressionV {
    pub kind: KindV,
    pub range: TextRange,
}

/// The model of a module.
pub struct ModuleV {
    pub expressions: Seq<ExpressionV>,
    pub root: Option<ExprId>,
}

/// The expressions lowered so far.
pub type ArenaV = Seq<ExpressionV>;

impl Argument {
    pub open spec fn view(&self) -> ArgumentV {
        ArgumentV {
            name: types::opt_text(self.name),
            name_range: self.name_range,
            value: self.value,
        }
    }
}

impl Parameter {
    pub open spec fn view(&self) -> FormalV {
        FormalV { name: self.name@, default: self.default, range: self.range }
    }
}

pub open spec fn arguments_view(arguments: Seq<Argument>) -> Seq<ArgumentV> {
    Seq::new(arguments.len(), |i: int| arguments[i]@)
}

pub open spec fn formals_view(parameters: Seq<Parameter>) -> Seq<FormalV> {
    Seq::new(parameters.len(), |i: int| parameters[i]@)
}

impl ExpressionKind {
    pub open spec fn view(&self) -> KindV {
        match self {
            ExpressionKind::Missing => KindV::Missing,
            ExpressionKind::Literal(literal) => KindV::Literal(literal@),
            ExpressionKind::NameRef(name) => KindV::NameRef(name@),
            ExpressionKind::Assign { spelling, target, value } => KindV::Assign {
                spelling: *spelling,
                target: *target,
                value: *value,
            },
            ExpressionKind::Unary { operator, operand } => KindV::Unary {
                operator: *operator,
                operand: *operand,
            },
            ExpressionKind::Binary { operator, special_name, lhs, rhs } => KindV::Binary {
                operator: *operator,
                special_name: types::opt_text(*special_name),
                lhs: *lhs,
                rhs: *rhs,
            },
            ExpressionKind::Call { callee, arguments } => KindV::Call {
                callee: *callee,
                arguments: arguments_view(arguments@),
            },
            ExpressionKind::Index { double, target, arguments } => KindV::Index {
                double: *double,
                target: *target,
                arguments: arguments_view(arguments@),
            },
            ExpressionKind::Field { at, target, name, name_range } => KindV::Field {
                at: *at,
                target: *target,
                name: types::opt_text(*name),
                name_range: *name_range,
            },
            ExpressionKind::Namespace { internal, package, name } => KindV::Namespace {
                internal: *internal,
                package: types::opt_text(*package),
                name: types::opt_text(*name),
            },
            ExpressionKind::Function { parameters, body } => KindV::Function {
                parameters: formals_view(parameters@),
                body: *body,
            },
            ExpressionKind::If { condition, then_branch, else_branch } => KindV::If {
                condition: *condition,
                then_branch: *then_branch,
                else_branch: *else_branch,
            },
            ExpressionKind::For { variable, variable_range, sequence, body } => KindV::For {
                variable: types::opt_text(*variable),
                variable_range: *variable_range,
                sequence: *sequence,
                body: *body,
            },
            ExpressionKind::While { condition, body } => KindV::While {
                condition: *condition,
                body: *body,
            },
            ExpressionKind::Repeat { body } => KindV::Repeat { body: *body },
            ExpressionKind::Local { body } => KindV::Local { body: *body },
            ExpressionKind::Block { statements, trailing_semicolon } => KindV::Block {
                statements: statements@,
                trailing_semicolon: *trailing_semicolon,
            },
            ExpressionKind::Paren(inner) => KindV::Paren(*inner),
            ExpressionKind::Break => KindV::Break,
            ExpressionKind::Next => KindV::Next,
        }
    }
}

impl Expression {
    pub open spec fn view(&self) -> ExpressionV {
        ExpressionV { kind: self.kind@, range: self.range }
    }
}

pub open spec fn expressions_view(expressions: Seq<Expression>) -> ArenaV {
    Seq::new(expressions.len(), |i: int| expressions[i]@)
}

impl Module {
    pub open spec fn view(&self) -> ModuleV {
        ModuleV { expressions: expressions_view(self.expressions@), root: self.root }
    }
}

/// The arena with one more expression, and that expression.
pub open spec fn allocated(arena: ArenaV, kind: KindV, range: TextRange) -> (ArenaV, ExprId) {
    (arena.push(ExpressionV { kind, range }), ExprId(arena.len() as u32))
}

pub open spec fn missing(arena: ArenaV, range: TextRange) -> (ArenaV, ExprId) {
    allocated(arena, KindV::Missing, range)
}

/// The node at a place.
pub open spec fn node_at(elements: Seq<SyntaxElement>, place: Option<int>) -> Option<SyntaxNode> {
    match place {
        Some(i) => match elements[i] {
            SyntaxElement::Node(node) => Some(node),
            SyntaxElement::Token(_) => None,
        },
        None => None,
    }
}

/// The name the node at a place spells.
pub open spec fn name_at(elements: Seq<SyntaxElement>, place: Option<int>) -> Option<Seq<char>> {
    match node_at(elements, place) {
        Some(node) => literals::spelled_name(node),
        None => None,
    }
}

/// Whether the node at a place is the name `local`.
pub open spec fn is_local(elements: Seq<SyntaxElement>, place: Option<int>) -> bool {
    match node_at(elements, place) {
        Some(node) => node.kind == SyntaxKind::Name && node.name() == Some("local"@),
        None => false,
    }
}

/// The body of `local(body)`: the only argument, without a name.
pub open spec fn local_body(arguments: Seq<ArgumentV>) -> Option<ExprId> {
    if arguments.len() == 1 && arguments[0].name is None {
        arguments[0].value
    } else {
        None
    }
}

/// The tag of an argument: its first name or literal, where it has an `=`.
pub open spec fn tag_place(elements: Seq<SyntaxElement>) -> Option<int> {
    if syntax::has_token(elements, SyntaxKind::Eq) {
        first_taggable(elements, 0)
    } else {
        None
    }
}

pub open spec fn first_taggable(elements: Seq<SyntaxElement>, from: int) -> Option<int>
    decreases elements.len() - from,
{
    if 0 <= from < elements.len() {
        if syntax::is_node_of(elements[from], SyntaxKind::Name) || syntax::is_node_of(
            elements[from],
            SyntaxKind::Literal,
        ) {
            Some(from)
        } else {
            first_taggable(elements, from + 1)
        }
    } else {
        None
    }
}

/// The value of an argument: its first expression, or the one after the tag.
pub open spec fn value_place(elements: Seq<SyntaxElement>, named: bool) -> Option<int> {
    let first = syntax::next_expression(elements, 0);
    if named {
        syntax::expression_after(elements, first)
    } else {
        first
    }
}

/// The spelling an assignment operator stands for, and whether it points to the
/// right.
pub open spec fn assignment_of(kind: SyntaxKind) -> Option<(AssignSpelling, bool)> {
    match kind {
        SyntaxKind::LessMinus => Some((AssignSpelling::Local, false)),
        SyntaxKind::Eq => Some((AssignSpelling::Equals, false)),
        SyntaxKind::Less2Minus => Some((AssignSpelling::Super, false)),
        SyntaxKind::MinusGreater => Some((AssignSpelling::Local, true)),
        SyntaxKind::MinusGreater2 => Some((AssignSpelling::Super, true)),
        _ => None,
    }
}

pub open spec fn unnamed(value: ExprId) -> ArgumentV {
    ArgumentV { name: None, name_range: None, value: Some(value) }
}

/// Lowers a node.
pub open spec fn lower(node: SyntaxNode, arena: ArenaV) -> (ArenaV, ExprId)
    decreases node, 3int, 0int,
{
    let range = literals::code_range(node);
    let c = node.children@;
    let first = syntax::next_expression(c, 0);
    let second = syntax::expression_after(c, first);
    let third = syntax::expression_after(c, second);
    match node.kind {
        SyntaxKind::Name => allocated(
            arena,
            KindV::NameRef(
                match node.name() {
                    Some(name) => name,
                    None => Seq::empty(),
                },
            ),
            range,
        ),
        SyntaxKind::Literal => allocated(
            arena,
            KindV::Literal(literals::literal_of(node)),
            range,
        ),
        SyntaxKind::ParenExpr => {
            let (next, inner) = lower_at(node, first, range, arena);
            allocated(next, KindV::Paren(inner), range)
        },
        SyntaxKind::BraceExpr => {
            let (next, statements) = lower_statements(node, 0, arena, Seq::empty());
            allocated(
                next,
                KindV::Block {
                    statements,
                    trailing_semicolon: literals::ends_in_semicolon(c, c.len()),
                },
                range,
            )
        },
        SyntaxKind::UnaryExpr => {
            let (next, operand) = lower_at(node, first, range, arena);
            match literals::unary_in(c, 0) {
                Some(operator) => allocated(next, KindV::Unary { operator, operand }, range),
                None => missing(next, range),
            }
        },
        SyntaxKind::BinaryExpr => lower_binary(node, range, arena),
        SyntaxKind::CallExpr => {
            let (next, arguments) = lower_arguments(node, None, arena);
            match local_body(arguments) {
                Some(body) if is_local(c, first) => allocated(next, KindV::Local { body }, range),
                _ => {
                    let (after, callee) = lower_at(node, first, range, next);
                    allocated(after, KindV::Call { callee, arguments }, range)
                },
            }
        },
        SyntaxKind::SubsetExpr => lower_index(node, false, range, arena),
        SyntaxKind::Subset2Expr => lower_index(node, true, range, arena),
        SyntaxKind::DollarExpr => lower_field(node, false, range, arena),
        SyntaxKind::AtExpr => lower_field(node, true, range, arena),
        SyntaxKind::NamespaceExpr => allocated(
            arena,
            KindV::Namespace {
                internal: syntax::has_token(c, SyntaxKind::Colon3),
                package: name_at(c, first),
                name: name_at(c, second),
            },
            range,
        ),
        SyntaxKind::FunctionDef => {
            let (next, parameters) = lower_formals(node, arena);
            let (after, body) = lower_at(node, first, range, next);
            allocated(after, KindV::Function { parameters, body }, range)
        },
        SyntaxKind::IfExpr => {
            let (tested, condition) = lower_at(node, first, range, arena);
            let (taken, then_branch) = lower_at(node, second, range, tested);
            match third {
                Some(_) => {
                    let (other, else_branch) = lower_at(node, third, range, taken);
                    allocated(
                        other,
                        KindV::If { condition, then_branch, else_branch: Some(else_branch) },
                        range,
                    )
                },
                None => allocated(
                    taken,
                    KindV::If { condition, then_branch, else_branch: None },
                    range,
                ),
            }
        },
        SyntaxKind::ForExpr => {
            let (ready, sequence) = lower_at(node, second, range, arena);
            let (done, body) = lower_at(node, third, range, ready);
            allocated(
                done,
                KindV::For {
                    variable: loop_variable(c, first).0,
                    variable_range: loop_variable(c, first).1,
                    sequence,
                    body,
                },
                range,
            )
        },
        SyntaxKind::WhileExpr => {
            let (tested, condition) = lower_at(node, first, range, arena);
            let (done, body) = lower_at(node, second, range, tested);
            allocated(done, KindV::While { condition, body }, range)
        },
        SyntaxKind::RepeatExpr => {
            let (done, body) = lower_at(node, first, range, arena);
            allocated(done, KindV::Repeat { body }, range)
        },
        SyntaxKind::BreakExpr => allocated(arena, KindV::Break, range),
        SyntaxKind::NextExpr => allocated(arena, KindV::Next, range),
        _ => missing(arena, range),
    }
}

/// The variable of a loop and its range.
pub open spec fn loop_variable(elements: Seq<SyntaxElement>, place: Option<int>) -> (
    Option<Seq<char>>,
    Option<TextRange>,
) {
    match node_at(elements, place) {
        Some(node) => if node.kind == SyntaxKind::Name {
            (node.name(), Some(node.range))
        } else {
            (None, None)
        },
        None => (None, None),
    }
}

/// Lowers the child at a place; without one the expression is missing.
pub open spec fn lower_at(
    node: SyntaxNode,
    place: Option<int>,
    fallback: TextRange,
    arena: ArenaV,
) -> (ArenaV, ExprId)
    decreases node, 0int, 0int,
{
    match place {
        Some(i) => if 0 <= i < node.children@.len() {
            match node.children@[i] {
                SyntaxElement::Node(child) => lower(child, arena),
                SyntaxElement::Token(_) => missing(arena, fallback),
            }
        } else {
            missing(arena, fallback)
        },
        None => missing(arena, fallback),
    }
}

/// Lowers the child at a place, if there is one.
pub open spec fn lower_opt(node: SyntaxNode, place: Option<int>, arena: ArenaV) -> (
    ArenaV,
    Option<ExprId>,
)
    decreases node, 0int, 0int,
{
    match place {
        Some(i) => if 0 <= i < node.children@.len() {
            match node.children@[i] {
                SyntaxElement::Node(child) => {
                    let (next, id) = lower(child, arena);
                    (next, Some(id))
                },
                SyntaxElement::Token(_) => (arena, None),
            }
        } else {
            (arena, None)
        },
        None => (arena, None),
    }
}

/// Lowers the expressions among a node's children from one on.
pub open spec fn lower_statements(
    node: SyntaxNode,
    from: int,
    arena: ArenaV,
    done: Seq<ExprId>,
) -> (ArenaV, Seq<ExprId>)
    decreases node, 1int, node.children@.len() - from,
{
    if 0 <= from < node.children@.len() {
        match node.children@[from] {
            SyntaxElement::Node(child) => if child.kind.is_expression() {
                let (next, id) = lower(child, arena);
                lower_statements(node, from + 1, next, done.push(id))
            } else {
                lower_statements(node, from + 1, arena, done)
            },
            SyntaxElement::Token(_) => lower_statements(node, from + 1, arena, done),
        }
    } else {
        (arena, done)
    }
}

pub open spec fn lower_index(node: SyntaxNode, double: bool, range: TextRange, arena: ArenaV) -> (
    ArenaV,
    ExprId,
)
    decreases node, 2int, 0int,
{
    let (next, target) = lower_at(
        node,
        syntax::next_expression(node.children@, 0),
        range,
        arena,
    );
    let (after, arguments) = lower_arguments(node, None, next);
    allocated(after, KindV::Index { double, target, arguments }, range)
}

pub open spec fn lower_field(node: SyntaxNode, at: bool, range: TextRange, arena: ArenaV) -> (
    ArenaV,
    ExprId,
)
    decreases node, 2int, 0int,
{
    let c = node.children@;
    let first = syntax::next_expression(c, 0);
    let second = syntax::expression_after(c, first);
    let (next, target) = lower_at(node, first, range, arena);
    let name = name_at(c, second);
    allocated(
        next,
        KindV::Field {
            at,
            target,
            name,
            name_range: match (node_at(c, second), name) {
                (Some(child), Some(_)) => Some(child.range),
                _ => None,
            },
        },
        range,
    )
}

/// Lowers a binary expression. Assignments keep target and value whichever way
/// they point; `:=` is a call of the function of that name; a pipe into a call
/// is that call.
pub open spec fn lower_binary(node: SyntaxNode, range: TextRange, arena: ArenaV) -> (ArenaV, ExprId)
    decreases node, 2int, 0int,
{
    let c = node.children@;
    let first = syntax::next_expression(c, 0);
    let second = syntax::expression_after(c, first);
    match literals::operator_of(node) {
        None => missing(arena, range),
        Some(token) => if token.kind == SyntaxKind::PipeGreater && piped_shape(c, second) is Some {
            lower_pipe(node, first, second, piped_shape(c, second)->0, range, arena)
        } else {
            match assignment_of(token.kind) {
                Some((spelling, rightward)) => {
                    let (next, left) = lower_at(node, first, range, arena);
                    let (after, right) = lower_at(node, second, range, next);
                    allocated(
                        after,
                        KindV::Assign {
                            spelling,
                            target: if rightward {
                                right
                            } else {
                                left
                            },
                            value: if rightward {
                                left
                            } else {
                                right
                            },
                        },
                        range,
                    )
                },
                None => if token.kind == SyntaxKind::ColonEq {
                    let (start, callee) = allocated(
                        arena,
                        KindV::NameRef(":="@),
                        token.range,
                    );
                    let (next, left) = lower_at(node, first, range, start);
                    let (after, right) = lower_at(node, second, range, next);
                    allocated(
                        after,
                        KindV::Call { callee, arguments: seq![unnamed(left), unnamed(right)] },
                        range,
                    )
                } else {
                    match literals::binary_of(token) {
                        None => missing(arena, range),
                        Some(operator) => {
                            let (next, lhs) = lower_at(node, first, range, arena);
                            let (after, rhs) = lower_at(node, second, range, next);
                            allocated(
                                after,
                                KindV::Binary {
                                    operator,
                                    special_name: if operator == BinaryOperator::Special {
                                        Some(token.text@)
                                    } else {
                                        None
                                    },
                                    lhs,
                                    rhs,
                                },
                                range,
                            )
                        },
                    }
                },
            }
        },
    }
}

/// How the call at a place takes a piped value.
pub open spec fn piped_shape(elements: Seq<SyntaxElement>, place: Option<int>) -> Option<PipeShape> {
    match node_at(elements, place) {
        Some(node) => if node.kind == SyntaxKind::CallExpr {
            literals::shape_of(node)
        } else {
            None
        },
        None => None,
    }
}

/// Lowers a pipe into a call: the piped value first, then the callee and the
/// arguments.
pub open spec fn lower_pipe(
    node: SyntaxNode,
    left: Option<int>,
    right: Option<int>,
    shape: PipeShape,
    range: TextRange,
    arena: ArenaV,
) -> (ArenaV, ExprId)
    decreases node, 1int, 0int,
{
    let (start, piped) = lower_at(node, left, range, arena);
    match right {
        Some(i) => if 0 <= i < node.children@.len() {
            match node.children@[i] {
                SyntaxElement::Node(call) => lower_piped_call(call, piped, shape, range, start),
                SyntaxElement::Token(_) => missing(start, range),
            }
        } else {
            missing(start, range)
        },
        None => missing(start, range),
    }
}

pub open spec fn lower_piped_call(
    call: SyntaxNode,
    piped: ExprId,
    shape: PipeShape,
    range: TextRange,
    arena: ArenaV,
) -> (ArenaV, ExprId)
    decreases call, 3int, 0int,
{
    let (next, callee) = lower_at(
        call,
        syntax::next_other_node(call.children@, SyntaxKind::ArgumentList, 0),
        range,
        arena,
    );
    let (after, given) = lower_arguments(
        call,
        match shape {
            PipeShape::FirstArgument => None,
            PipeShape::NamedPlaceholder(place) => Some((place, piped)),
        },
        next,
    );
    let arguments = match shape {
        PipeShape::FirstArgument => seq![unnamed(piped)] + given,
        PipeShape::NamedPlaceholder(_) => given,
    };
    allocated(after, KindV::Call { callee, arguments }, range)
}

/// Lowers the arguments of a call or index. The argument at the substitute's
/// place takes that value instead of its own.
pub open spec fn lower_arguments(
    node: SyntaxNode,
    substitute: Option<(usize, ExprId)>,
    arena: ArenaV,
) -> (ArenaV, Seq<ArgumentV>)
    decreases node, 1int, 0int,
{
    match syntax::next_node(node.children@, SyntaxKind::ArgumentList, 0) {
        Some(i) => if 0 <= i < node.children@.len() {
            match node.children@[i] {
                SyntaxElement::Node(list) => lower_listed(
                    list,
                    substitute,
                    0,
                    arena,
                    Seq::empty(),
                ),
                SyntaxElement::Token(_) => (arena, Seq::empty()),
            }
        } else {
            (arena, Seq::empty())
        },
        None => (arena, Seq::empty()),
    }
}

pub open spec fn lower_listed(
    list: SyntaxNode,
    substitute: Option<(usize, ExprId)>,
    from: int,
    arena: ArenaV,
    done: Seq<ArgumentV>,
) -> (ArenaV, Seq<ArgumentV>)
    decreases list, 1int, list.children@.len() - from,
{
    if 0 <= from < list.children@.len() {
        match list.children@[from] {
            SyntaxElement::Node(argument) => if argument.kind == SyntaxKind::Argument {
                let given = match substitute {
                    Some((place, value)) => if place == done.len() {
                        Some(value)
                    } else {
                        None
                    },
                    None => None,
                };
                let (next, lowered) = lower_argument(argument, given, arena);
                lower_listed(list, substitute, from + 1, next, done.push(lowered))
            } else {
                lower_listed(list, substitute, from + 1, arena, done)
            },
            SyntaxElement::Token(_) => lower_listed(list, substitute, from + 1, arena, done),
        }
    } else {
        (arena, done)
    }
}

pub open spec fn lower_argument(argument: SyntaxNode, given: Option<ExprId>, arena: ArenaV) -> (
    ArenaV,
    ArgumentV,
)
    decreases argument, 1int, 0int,
{
    let c = argument.children@;
    let tag = tag_place(c);
    let name = name_at(c, tag);
    let name_range = match node_at(c, tag) {
        Some(node) => Some(node.range),
        None => None,
    };
    match given {
        Some(value) => (arena, ArgumentV { name, name_range, value: Some(value) }),
        None => {
            let (next, value) = lower_opt(argument, value_place(c, name is Some), arena);
            (next, ArgumentV { name, name_range, value })
        },
    }
}

/// Lowers the formals of a function definition.
pub open spec fn lower_formals(node: SyntaxNode, arena: ArenaV) -> (ArenaV, Seq<FormalV>)
    decreases node, 1int, 0int,
{
    match syntax::next_node(node.children@, SyntaxKind::ParameterList, 0) {
        Some(i) => if 0 <= i < node.children@.len() {
            match node.children@[i] {
                SyntaxElement::Node(list) => lower_parameters(list, 0, arena, Seq::empty()),
                SyntaxElement::Token(_) => (arena, Seq::empty()),
            }
        } else {
            (arena, Seq::empty())
        },
        None => (arena, Seq::empty()),
    }
}

pub open spec fn lower_parameters(
    list: SyntaxNode,
    from: int,
    arena: ArenaV,
    done: Seq<FormalV>,
) -> (ArenaV, Seq<FormalV>)
    decreases list, 1int, list.children@.len() - from,
{
    if 0 <= from < list.children@.len() {
        match list.children@[from] {
            SyntaxElement::Node(parameter) => if parameter.kind == SyntaxKind::Parameter {
                let (next, default) = lower_opt(
                    parameter,
                    syntax::next_expression(parameter.children@, 0),
                    arena,
                );
                lower_parameters(
                    list,
                    from + 1,
                    next,
                    done.push(
                        FormalV {
                            name: match parameter.name() {
                                Some(name) => name,
                                None => Seq::empty(),
                            },
                            default,
                            range: match parameter.opening() {
                                Some(token) => token.range,
                                None => parameter.range,
                            },
                        },
                    ),
                )
            } else {
                lower_parameters(list, from + 1, arena, done)
            },
            SyntaxElement::Token(_) => lower_parameters(list, from + 1, arena, done),
        }
    } else {
        (arena, done)
    }
}

/// The module of an item's tree.
pub open spec fn lowered(root: SyntaxNode) -> ModuleV {
    let (expressions, id) = lower(root, Seq::empty());
    ModuleV { expressions, root: Some(id) }
}

} // verus!
