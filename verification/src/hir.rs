//! Per-item HIR: the desugared expression tree that naming and inference walk.
//!
//! An item is an arena of expressions in which every expression stands after the
//! ones it is built from, so a walk from the root always ends.

use vstd::prelude::*;

use crate::syntax::TextRange;

verus! {

/// The place of an expression in its module.
#[derive(Debug, Clone, Copy, PartialEq, Eq, PartialOrd, Ord, Hash, Structural)]
pub struct ExprId(pub u32);

/// One item's lowered body: an expression arena and its root.
#[derive(Debug, PartialEq, Eq)]
pub struct Module {
    pub expressions: Vec<Expression>,
    pub root: Option<ExprId>,
}

/// One expression and where it stands.
#[derive(Debug, PartialEq, Eq)]
pub struct Expression {
    pub kind: ExpressionKind,
    /// Item-relative source range.
    pub range: TextRange,
}

/// How an assignment is spelled.
#[derive(Debug, Clone, Copy, PartialEq, Eq, Hash, Structural)]
pub enum AssignSpelling {
    /// `<-` and `->`.
    Local,
    /// `=`
    Equals,
    /// `<<-` and `->>`.
    Super,
}

/// A unary operator.
#[derive(Debug, Clone, Copy, PartialEq, Eq, Hash, Structural)]
pub enum UnaryOperator {
    Minus,
    Plus,
    Not,
    Tilde,
    Help,
}

/// A binary operator.
#[derive(Debug, Clone, Copy, PartialEq, Eq, Hash, Structural)]
pub enum BinaryOperator {
    Add,
    Subtract,
    Multiply,
    Divide,
    Power,
    Modulo,
    IntegerDivide,
    /// Any other `%...%` operator.
    Special,
    Sequence,
    Less,
    Greater,
    LessEq,
    GreaterEq,
    Equal,
    NotEqual,
    And,
    And2,
    Or,
    Or2,
    Pipe,
    Tilde,
    Help,
}

/// What a literal denotes.
#[derive(Debug, PartialEq, Eq)]
pub enum LiteralKind {
    /// Numeric literals keep their source text: the checker needs the value for
    /// literal index positions and the literal-as-integer courtesy.
    Integer(String),
    Double(String),
    Complex,
    String(String),
    Logical(bool),
    Null,
    /// `NA` and its typed variants.
    Na(NaAtom),
    Inf,
    NaN,
}

/// The atomic mode of a missing value.
#[derive(Debug, Clone, Copy, PartialEq, Eq, Hash, Structural)]
pub enum NaAtom {
    Logical,
    Integer,
    Double,
    Complex,
    Character,
}

/// An argument of a call or an index.
#[derive(Debug, PartialEq, Eq)]
pub struct Argument {
    pub name: Option<String>,
    /// The name token's range, when the argument is tagged.
    pub name_range: Option<TextRange>,
    /// `None` is a positional hole or an empty tagged value.
    pub value: Option<ExprId>,
}

/// A formal of a function definition.
#[derive(Debug, PartialEq, Eq)]
pub struct Parameter {
    pub name: String,
    pub default: Option<ExprId>,
    /// The name's range: the binding site.
    pub range: TextRange,
}

/// What an expression is.
#[derive(Debug, PartialEq, Eq)]
pub enum ExpressionKind {
    /// A hole from a broken region.
    Missing,
    Literal(LiteralKind),
    NameRef(String),
    Assign { spelling: AssignSpelling, target: ExprId, value: ExprId },
    Unary { operator: UnaryOperator, operand: ExprId },
    Binary {
        operator: BinaryOperator,
        /// A `%...%` operator's spelling, for `Special` only.
        special_name: Option<String>,
        lhs: ExprId,
        rhs: ExprId,
    },
    Call { callee: ExprId, arguments: Vec<Argument> },
    /// `x[...]` and `x[[...]]`.
    Index { double: bool, target: ExprId, arguments: Vec<Argument> },
    /// `x$name` and `x@name`.
    Field { at: bool, target: ExprId, name: Option<String>, name_range: Option<TextRange> },
    /// `pkg::name` and `pkg:::name`.
    Namespace { internal: bool, package: Option<String>, name: Option<String> },
    Function { parameters: Vec<Parameter>, body: ExprId },
    If { condition: ExprId, then_branch: ExprId, else_branch: Option<ExprId> },
    For {
        variable: Option<String>,
        variable_range: Option<TextRange>,
        sequence: ExprId,
        body: ExprId,
    },
    While { condition: ExprId, body: ExprId },
    Repeat { body: ExprId },
    /// `local(expr)`: the body evaluates immediately in a fresh environment.
    Local { body: ExprId },
    Block {
        statements: Vec<ExprId>,
        /// The last expression ends in `;`, so the block's value is `NULL`.
        trailing_semicolon: bool,
    },
    Paren(ExprId),
    Break,
    Next,
}

/// The values a list of arguments gives, in order.
pub open spec fn argument_values(arguments: Seq<Argument>) -> Seq<ExprId>
    decreases arguments.len(),
{
    if arguments.len() == 0 {
        Seq::empty()
    } else {
        match arguments.last().value {
            Some(value) => argument_values(arguments.drop_last()).push(value),
            None => argument_values(arguments.drop_last()),
        }
    }
}

/// The defaults a list of parameters gives, in order.
pub open spec fn parameter_defaults(parameters: Seq<Parameter>) -> Seq<ExprId>
    decreases parameters.len(),
{
    if parameters.len() == 0 {
        Seq::empty()
    } else {
        match parameters.last().default {
            Some(default) => parameter_defaults(parameters.drop_last()).push(default),
            None => parameter_defaults(parameters.drop_last()),
        }
    }
}

impl ExpressionKind {
    /// The expressions an expression is directly built from, in source order.
    pub open spec fn children(self) -> Seq<ExprId> {
        match self {
            ExpressionKind::Missing => Seq::empty(),
            ExpressionKind::Literal(_) => Seq::empty(),
            ExpressionKind::NameRef(_) => Seq::empty(),
            ExpressionKind::Namespace { .. } => Seq::empty(),
            ExpressionKind::Break => Seq::empty(),
            ExpressionKind::Next => Seq::empty(),
            ExpressionKind::Assign { target, value, .. } => seq![target, value],
            ExpressionKind::Unary { operand, .. } => seq![operand],
            ExpressionKind::Binary { lhs, rhs, .. } => seq![lhs, rhs],
            ExpressionKind::Call { callee, arguments } => seq![callee] + argument_values(
                arguments@,
            ),
            ExpressionKind::Index { target, arguments, .. } => seq![target] + argument_values(
                arguments@,
            ),
            ExpressionKind::Field { target, .. } => seq![target],
            ExpressionKind::Function { parameters, body } => parameter_defaults(
                parameters@,
            ).push(body),
            ExpressionKind::If { condition, then_branch, else_branch } => match else_branch {
                Some(else_branch) => seq![condition, then_branch, else_branch],
                None => seq![condition, then_branch],
            },
            ExpressionKind::For { sequence, body, .. } => seq![sequence, body],
            ExpressionKind::While { condition, body } => seq![condition, body],
            ExpressionKind::Repeat { body } => seq![body],
            ExpressionKind::Local { body } => seq![body],
            ExpressionKind::Block { statements, .. } => statements@,
            ExpressionKind::Paren(inner) => seq![inner],
        }
    }

    /// The direct child expression ids, in source order.
    pub fn child_ids(&self) -> (r: Vec<ExprId>)
        ensures
            r@ == self.children(),
    {
        let mut ids: Vec<ExprId> = Vec::new();
        match self {
            ExpressionKind::Missing | ExpressionKind::Literal(_) | ExpressionKind::NameRef(_)
            | ExpressionKind::Namespace { .. } | ExpressionKind::Break | ExpressionKind::Next => {},
            ExpressionKind::Assign { target, value, .. } => {
                ids.push(*target);
                ids.push(*value);
            },
            ExpressionKind::Unary { operand, .. } => {
                ids.push(*operand);
            },
            ExpressionKind::Binary { lhs, rhs, .. } => {
                ids.push(*lhs);
                ids.push(*rhs);
            },
            ExpressionKind::Call { callee, arguments } => {
                ids.push(*callee);
                push_values(&mut ids, arguments);
            },
            ExpressionKind::Index { target, arguments, .. } => {
                ids.push(*target);
                push_values(&mut ids, arguments);
            },
            ExpressionKind::Field { target, .. } => {
                ids.push(*target);
            },
            ExpressionKind::Function { parameters, body } => {
                push_defaults(&mut ids, parameters);
                ids.push(*body);
            },
            ExpressionKind::If { condition, then_branch, else_branch } => {
                ids.push(*condition);
                ids.push(*then_branch);
                if let Some(else_branch) = else_branch {
                    ids.push(*else_branch);
                }
            },
            ExpressionKind::For { sequence, body, .. } => {
                ids.push(*sequence);
                ids.push(*body);
            },
            ExpressionKind::While { condition, body } => {
                ids.push(*condition);
                ids.push(*body);
            },
            ExpressionKind::Repeat { body } => {
                ids.push(*body);
            },
            ExpressionKind::Local { body } => {
                ids.push(*body);
            },
            ExpressionKind::Block { statements, .. } => {
                let mut i: usize = 0;
                while i < statements.len()
                    invariant
                        i <= statements.len(),
                        ids@ =~= statements@.subrange(0, i as int),
                    decreases statements.len() - i,
                {
                    ids.push(statements[i]);
                    i += 1;
                }
            },
            ExpressionKind::Paren(inner) => {
                ids.push(*inner);
            },
        }
        assert(ids@ =~= self.children());
        ids
    }
}

fn push_values(ids: &mut Vec<ExprId>, arguments: &Vec<Argument>)
    ensures
        final(ids)@ == old(ids)@ + argument_values(arguments@),
{
    let ghost start = ids@;
    let mut i: usize = 0;
    assert(arguments@.subrange(0, 0) =~= Seq::empty());
    assert(start + argument_values(arguments@.subrange(0, 0)) =~= start);
    while i < arguments.len()
        invariant
            i <= arguments.len(),
            ids@ == start + argument_values(arguments@.subrange(0, i as int)),
        decreases arguments.len() - i,
    {
        assert(arguments@.subrange(0, i + 1).drop_last() =~= arguments@.subrange(0, i as int));
        let ghost before = argument_values(arguments@.subrange(0, i as int));
        if let Some(value) = arguments[i].value {
            ids.push(value);
            assert(start + before.push(value) =~= (start + before).push(value));
        }
        i += 1;
    }
    assert(arguments@.subrange(0, arguments@.len() as int) =~= arguments@);
}

fn push_defaults(ids: &mut Vec<ExprId>, parameters: &Vec<Parameter>)
    ensures
        final(ids)@ == old(ids)@ + parameter_defaults(parameters@),
{
    let ghost start = ids@;
    let mut i: usize = 0;
    assert(parameters@.subrange(0, 0) =~= Seq::empty());
    assert(start + parameter_defaults(parameters@.subrange(0, 0)) =~= start);
    while i < parameters.len()
        invariant
            i <= parameters.len(),
            ids@ == start + parameter_defaults(parameters@.subrange(0, i as int)),
        decreases parameters.len() - i,
    {
        assert(parameters@.subrange(0, i + 1).drop_last() =~= parameters@.subrange(0, i as int));
        let ghost before = parameter_defaults(parameters@.subrange(0, i as int));
        if let Some(default) = parameters[i].default {
            ids.push(default);
            assert(start + before.push(default) =~= (start + before).push(default));
        }
        i += 1;
    }
    assert(parameters@.subrange(0, parameters@.len() as int) =~= parameters@);
}

impl Module {
    pub open spec fn holds(&self, id: ExprId) -> bool {
        id.0 < self.expressions@.len()
    }

    /// Every expression is built from expressions that stand before it, and the
    /// root is one of them.
    pub open spec fn wf(&self) -> bool {
        &&& forall|i: int|
            #![trigger self.expressions@[i]]
            0 <= i < self.expressions@.len() ==> self.expressions@[i].kind.built_below(i)
        &&& match self.root {
            Some(root) => self.holds(root),
            None => true,
        }
    }

    pub open spec fn kind_of(&self, id: ExprId) -> ExpressionKind {
        self.expressions@[id.0 as int].kind
    }

    pub open spec fn range_of(&self, id: ExprId) -> TextRange {
        self.expressions@[id.0 as int].range
    }

    /// The name an expression refers to, where it is a bare name.
    pub open spec fn name_of(&self, id: ExprId) -> Option<Seq<char>> {
        match self.kind_of(id) {
            ExpressionKind::NameRef(name) => Some(name@),
            _ => None,
        }
    }

    pub fn expression(&self, id: ExprId) -> (r: &Expression)
        requires
            self.holds(id),
        ensures
            *r == self.expressions@[id.0 as int],
    {
        &self.expressions[id.0 as usize]
    }

    /// The kind of an expression.
    pub fn kind(&self, id: ExprId) -> (r: &ExpressionKind)
        requires
            self.holds(id),
        ensures
            *r == self.kind_of(id),
    {
        &self.expressions[id.0 as usize].kind
    }

    /// The range of an expression.
    pub fn range(&self, id: ExprId) -> (r: TextRange)
        requires
            self.holds(id),
        ensures
            r == self.range_of(id),
    {
        self.expressions[id.0 as usize].range
    }

    /// Whether an expression is the given bare name.
    pub fn is_name(&self, id: ExprId, name: &str) -> (r: bool)
        requires
            self.holds(id),
        ensures
            r == (self.name_of(id) == Some(name@)),
    {
        match self.kind(id) {
            ExpressionKind::NameRef(own) => crate::text::same_text(own.as_str(), name),
            _ => false,
        }
    }
}

/// Whether an optional expression stands before a place.
pub open spec fn opt_below(id: Option<ExprId>, bound: int) -> bool {
    match id {
        Some(id) => id.0 < bound,
        None => true,
    }
}

/// Whether every value of an argument list stands before a place.
pub open spec fn values_below(arguments: Seq<Argument>, bound: int) -> bool {
    forall|i: int|
        #![trigger arguments[i]]
        0 <= i < arguments.len() ==> opt_below(arguments[i].value, bound)
}

/// Whether every default of a parameter list stands before a place.
pub open spec fn defaults_below(parameters: Seq<Parameter>, bound: int) -> bool {
    forall|i: int|
        #![trigger parameters[i]]
        0 <= i < parameters.len() ==> opt_below(parameters[i].default, bound)
}

/// Whether every expression of a list stands before a place.
pub open spec fn all_below(ids: Seq<ExprId>, bound: int) -> bool {
    forall|i: int| #![trigger ids[i]] 0 <= i < ids.len() ==> ids[i].0 < bound
}

impl ExpressionKind {
    /// Whether an expression is built from expressions that stand before a
    /// place.
    pub open spec fn built_below(self, bound: int) -> bool {
        match self {
            ExpressionKind::Assign { target, value, .. } => target.0 < bound && value.0 < bound,
            ExpressionKind::Unary { operand, .. } => operand.0 < bound,
            ExpressionKind::Binary { lhs, rhs, .. } => lhs.0 < bound && rhs.0 < bound,
            ExpressionKind::Call { callee, arguments } => callee.0 < bound && values_below(
                arguments@,
                bound,
            ),
            ExpressionKind::Index { target, arguments, .. } => target.0 < bound && values_below(
                arguments@,
                bound,
            ),
            ExpressionKind::Field { target, .. } => target.0 < bound,
            ExpressionKind::Function { parameters, body } => body.0 < bound && defaults_below(
                parameters@,
                bound,
            ),
            ExpressionKind::If { condition, then_branch, else_branch } => condition.0 < bound
                && then_branch.0 < bound && opt_below(else_branch, bound),
            ExpressionKind::For { sequence, body, .. } => sequence.0 < bound && body.0 < bound,
            ExpressionKind::While { condition, body } => condition.0 < bound && body.0 < bound,
            ExpressionKind::Repeat { body } => body.0 < bound,
            ExpressionKind::Local { body } => body.0 < bound,
            ExpressionKind::Block { statements, .. } => all_below(statements@, bound),
            ExpressionKind::Paren(inner) => inner.0 < bound,
            _ => true,
        }
    }
}

proof fn values_are_below(arguments: Seq<Argument>, bound: int)
    requires
        values_below(arguments, bound),
    ensures
        all_below(argument_values(arguments), bound),
    decreases arguments.len(),
{
    if arguments.len() > 0 {
        assert(arguments.last() == arguments[arguments.len() - 1]);
        assert forall|i: int| 0 <= i < arguments.drop_last().len() implies opt_below(
            (#[trigger] arguments.drop_last()[i]).value,
            bound,
        ) by {
            assert(arguments.drop_last()[i] == arguments[i]);
        }
        values_are_below(arguments.drop_last(), bound);
    }
}

proof fn defaults_are_below(parameters: Seq<Parameter>, bound: int)
    requires
        defaults_below(parameters, bound),
    ensures
        all_below(parameter_defaults(parameters), bound),
    decreases parameters.len(),
{
    if parameters.len() > 0 {
        assert(parameters.last() == parameters[parameters.len() - 1]);
        assert forall|i: int| 0 <= i < parameters.drop_last().len() implies opt_below(
            (#[trigger] parameters.drop_last()[i]).default,
            bound,
        ) by {
            assert(parameters.drop_last()[i] == parameters[i]);
        }
        defaults_are_below(parameters.drop_last(), bound);
    }
}

/// The children of an expression stand before it.
pub proof fn children_are_below(kind: ExpressionKind, bound: int)
    requires
        kind.built_below(bound),
    ensures
        all_below(kind.children(), bound),
{
    match kind {
        ExpressionKind::Call { callee, arguments } => {
            values_are_below(arguments@, bound);
        },
        ExpressionKind::Index { target, arguments, .. } => {
            values_are_below(arguments@, bound);
        },
        ExpressionKind::Function { parameters, body } => {
            defaults_are_below(parameters@, bound);
        },
        _ => {},
    }
}

} // verus!
