//! How types classify as operands, guards and call arguments.

use vstd::prelude::*;

use crate::findings::{TypeError, TypeErrorKind, TypeErrorKindV, TypeErrorV};
use crate::hir;
use crate::hir::{Argument, BinaryOperator, ExprId, ExpressionKind, Module};
use crate::infer::InferenceTable;
use crate::checking;
use crate::table;
use crate::table::TableV;
use crate::text::same_text;
use crate::type_ops::{clone_types, scalar};
use crate::types;
use crate::types::{Atomic, Constraint, Ty, TyKind, TyV};
use crate::walk;

verus! {

broadcast use crate::types::group_type_views;

/// Whether an operand is a single value or a vector.
#[derive(Debug, Clone, Copy, PartialEq, Eq, Structural)]
pub enum OperandShape {
    Scalar,
    Vector,
}

/// The values that compare with each other.
#[derive(Debug, Clone, Copy, PartialEq, Eq, Structural)]
pub enum ComparisonFamily {
    /// Logical, integer and double compare freely.
    Numeric,
    Character,
}

/// How an index selects from a vector.
#[derive(Debug, Clone, Copy, PartialEq, Eq, Structural)]
pub enum VectorIndexShape {
    ScalarLike,
    VectorLike,
}

/// What a guard tests.
#[derive(Debug, Clone, Copy, PartialEq, Eq, Structural)]
pub enum GuardKind {
    Null,
    Family(GuardFamily),
}

/// The family of values a guard tests for.
#[derive(Debug, Clone, Copy, PartialEq, Eq, Structural)]
pub enum GuardFamily {
    Character,
    Logical,
    Integer,
    Double,
    Numeric,
    Function,
    List,
}

/// The guard a predicate name tests.
pub open spec fn guard_of(name: Seq<char>) -> Option<GuardKind> {
    if name == "is.null"@ {
        Some(GuardKind::Null)
    } else if name == "is.character"@ {
        Some(GuardKind::Family(GuardFamily::Character))
    } else if name == "is.logical"@ {
        Some(GuardKind::Family(GuardFamily::Logical))
    } else if name == "is.integer"@ {
        Some(GuardKind::Family(GuardFamily::Integer))
    } else if name == "is.double"@ {
        Some(GuardKind::Family(GuardFamily::Double))
    } else if name == "is.numeric"@ {
        Some(GuardKind::Family(GuardFamily::Numeric))
    } else if name == "is.function"@ {
        Some(GuardKind::Family(GuardFamily::Function))
    } else if name == "is.list"@ {
        Some(GuardKind::Family(GuardFamily::List))
    } else {
        None
    }
}

/// What a call of the given name tests.
pub fn guard_kind(name: &str) -> (r: Option<GuardKind>)
    ensures
        r == guard_of(name@),
{
    if same_text(name, "is.null") {
        Some(GuardKind::Null)
    } else if same_text(name, "is.character") {
        Some(GuardKind::Family(GuardFamily::Character))
    } else if same_text(name, "is.logical") {
        Some(GuardKind::Family(GuardFamily::Logical))
    } else if same_text(name, "is.integer") {
        Some(GuardKind::Family(GuardFamily::Integer))
    } else if same_text(name, "is.double") {
        Some(GuardKind::Family(GuardFamily::Double))
    } else if same_text(name, "is.numeric") {
        Some(GuardKind::Family(GuardFamily::Numeric))
    } else if same_text(name, "is.function") {
        Some(GuardKind::Family(GuardFamily::Function))
    } else if same_text(name, "is.list") {
        Some(GuardKind::Family(GuardFamily::List))
    } else {
        None
    }
}

/// Whether an atomic mode belongs to a guard family.
pub open spec fn in_family(atomic: Atomic, family: GuardFamily) -> bool {
    match family {
        GuardFamily::Character => atomic == Atomic::Character,
        GuardFamily::Logical => atomic == Atomic::Logical,
        GuardFamily::Integer => atomic == Atomic::Integer,
        GuardFamily::Double => atomic == Atomic::Double,
        GuardFamily::Numeric => atomic == Atomic::Integer || atomic == Atomic::Double,
        GuardFamily::Function => false,
        GuardFamily::List => false,
    }
}

pub fn atomic_in_family(atomic: Atomic, family: GuardFamily) -> (r: bool)
    ensures
        r == in_family(atomic, family),
{
    match family {
        GuardFamily::Character => atomic == Atomic::Character,
        GuardFamily::Logical => atomic == Atomic::Logical,
        GuardFamily::Integer => atomic == Atomic::Integer,
        GuardFamily::Double => atomic == Atomic::Double,
        GuardFamily::Numeric => atomic == Atomic::Integer || atomic == Atomic::Double,
        GuardFamily::Function | GuardFamily::List => false,
    }
}

/// The atomic mode of a scalar, or of a vector's scalar elements.
pub open spec fn element_atomic(ty: TyV) -> Option<Atomic> {
    match ty {
        TyV::Scalar(atomic) => Some(atomic),
        TyV::Vector(element) => scalar_atomic(*element),
        TyV::NamedVector(element) => scalar_atomic(*element),
        _ => None,
    }
}

pub open spec fn scalar_atomic(ty: TyV) -> Option<Atomic> {
    match ty {
        TyV::Scalar(atomic) => Some(atomic),
        _ => None,
    }
}

/// The statically known element mode of a `c(...)` operand.
pub fn combine_operand_atomic(ty: &Ty) -> (r: Option<Atomic>)
    ensures
        r == element_atomic(ty@),
{
    match ty.kind() {
        TyKind::Scalar(atomic) => Some(*atomic),
        TyKind::Vector(element) | TyKind::NamedVector(element) => match element.kind() {
            TyKind::Scalar(atomic) => Some(*atomic),
            _ => None,
        },
        _ => None,
    }
}

/// Whether a member belongs to a guard family, where that can be decided.
pub open spec fn membership(member: TyV, family: GuardFamily) -> Option<bool> {
    match member {
        TyV::Null => Some(false),
        TyV::Scalar(_) | TyV::Vector(_) | TyV::NamedVector(_) => match element_atomic(member) {
            Some(atomic) => Some(in_family(atomic, family)),
            None => None,
        },
        TyV::List(_) | TyV::NamedList(_) | TyV::Tuple(_) | TyV::Record(_) => Some(
            family == GuardFamily::List,
        ),
        TyV::Function(_) => Some(family == GuardFamily::Function),
        _ => None,
    }
}

pub fn family_membership(member: &Ty, family: GuardFamily) -> (r: Option<bool>)
    ensures
        r == membership(member@, family),
{
    match member.kind() {
        TyKind::Null => Some(false),
        TyKind::Scalar(_) | TyKind::Vector(_) | TyKind::NamedVector(_) => {
            match combine_operand_atomic(member) {
                Some(atomic) => Some(atomic_in_family(atomic, family)),
                None => None,
            }
        },
        TyKind::List(_) | TyKind::NamedList(_) | TyKind::Tuple(_) | TyKind::Record(_) => Some(
            family == GuardFamily::List,
        ),
        TyKind::Function(_) => Some(family == GuardFamily::Function),
        _ => None,
    }
}

/// Whether a member passes a guard, where that can be decided.
pub open spec fn decided(kind: GuardKind, member: TyV) -> Option<bool> {
    match kind {
        GuardKind::Null => match member {
            TyV::Null => Some(true),
            TyV::Var(_) | TyV::Rigid(_) | TyV::Named(_, _) => None,
            _ => Some(false),
        },
        GuardKind::Family(family) => membership(member, family),
    }
}

pub fn decide(kind: GuardKind, member: &Ty) -> (r: Option<bool>)
    ensures
        r == decided(kind, member@),
{
    match kind {
        GuardKind::Null => match member.kind() {
            TyKind::Null => Some(true),
            TyKind::Var(_) | TyKind::Rigid(_) | TyKind::Named(_, _) => None,
            _ => Some(false),
        },
        GuardKind::Family(family) => family_membership(member, family),
    }
}

/// The members that an edge keeps: those the guard does not decide the other
/// way.
pub open spec fn kept_members(members: Seq<TyV>, kind: GuardKind, edge: bool, upto: nat) -> Seq<TyV>
    decreases upto,
{
    if upto == 0 {
        Seq::empty()
    } else {
        let before = kept_members(members, kind, edge, (upto - 1) as nat);
        if decided(kind, members[upto - 1]) == Some(!edge) {
            before
        } else {
            before.push(members[upto - 1])
        }
    }
}

/// The refined type on an edge: nothing where the edge keeps every member or
/// none.
pub open spec fn edge_type(members: Seq<TyV>, kind: GuardKind, edge: bool) -> Option<TyV> {
    let kept = kept_members(members, kind, edge, members.len());
    if kept.len() == 0 || kept.len() == members.len() {
        None
    } else {
        Some(TyV::union_of(kept))
    }
}

/// A non-union type narrows as its own one-member union.
pub fn guard_members(resolved: &Ty) -> (r: Vec<Ty>)
    ensures
        types::tys(r@) == types::members_of(resolved@),
{
    match resolved.kind() {
        TyKind::Union(members) => clone_types(members),
        _ => {
            let mut members: Vec<Ty> = Vec::new();
            members.push(resolved.clone());
            assert(types::tys(members@) =~= seq![resolved@]);
            members
        },
    }
}

pub fn refined(members: &Vec<Ty>, kind: GuardKind, edge: bool) -> (r: Option<Ty>)
    ensures
        types::opt_ty(r) == edge_type(types::tys(members@), kind, edge),
{
    let mut kept: Vec<Ty> = Vec::new();
    let mut i: usize = 0;
    assert(types::tys(kept@) =~= Seq::empty());
    while i < members.len()
        invariant
            i <= members.len(),
            types::tys(kept@) == kept_members(types::tys(members@), kind, edge, i as nat),
        decreases members.len() - i,
    {
        let dropped = match decide(kind, &members[i]) {
            Some(passes) => passes != edge,
            None => false,
        };
        if !dropped {
            kept.push(members[i].clone());
        }
        i += 1;
    }
    if kept.len() == 0 || kept.len() == members.len() {
        None
    } else {
        Some(crate::type_ops::union_of(&kept))
    }
}

/// An operator's spelling, from which its method names are built.
pub open spec fn spelling_of(operator: BinaryOperator) -> Option<Seq<char>> {
    match operator {
        BinaryOperator::Add => Some("+"@),
        BinaryOperator::Subtract => Some("-"@),
        BinaryOperator::Multiply => Some("*"@),
        BinaryOperator::Divide => Some("/"@),
        BinaryOperator::Power => Some("^"@),
        BinaryOperator::Modulo => Some("%%"@),
        BinaryOperator::IntegerDivide => Some("%/%"@),
        BinaryOperator::Less => Some("<"@),
        BinaryOperator::Greater => Some(">"@),
        BinaryOperator::LessEq => Some("<="@),
        BinaryOperator::GreaterEq => Some(">="@),
        BinaryOperator::Equal => Some("=="@),
        BinaryOperator::NotEqual => Some("!="@),
        _ => None,
    }
}

/// How an operator is spelled in a method name.
pub fn operator_spelling(operator: BinaryOperator) -> (r: Option<&'static str>)
    ensures
        (match r {
            Some(text) => Some(text@),
            None => None,
        }) == spelling_of(operator),
{
    match operator {
        BinaryOperator::Add => Some("+"),
        BinaryOperator::Subtract => Some("-"),
        BinaryOperator::Multiply => Some("*"),
        BinaryOperator::Divide => Some("/"),
        BinaryOperator::Power => Some("^"),
        BinaryOperator::Modulo => Some("%%"),
        BinaryOperator::IntegerDivide => Some("%/%"),
        BinaryOperator::Less => Some("<"),
        BinaryOperator::Greater => Some(">"),
        BinaryOperator::LessEq => Some("<="),
        BinaryOperator::GreaterEq => Some(">="),
        BinaryOperator::Equal => Some("=="),
        BinaryOperator::NotEqual => Some("!="),
        _ => None,
    }
}

/// The operators grouped as arithmetic, in order.
pub open spec fn arithmetic_operators() -> Seq<BinaryOperator> {
    seq![
        BinaryOperator::Add,
        BinaryOperator::Subtract,
        BinaryOperator::Multiply,
        BinaryOperator::Divide,
        BinaryOperator::Power,
        BinaryOperator::Modulo,
        BinaryOperator::IntegerDivide,
    ]
}

pub open spec fn is_comparison(operator: BinaryOperator) -> bool {
    match operator {
        BinaryOperator::Less => true,
        BinaryOperator::Greater => true,
        BinaryOperator::LessEq => true,
        BinaryOperator::GreaterEq => true,
        BinaryOperator::Equal => true,
        BinaryOperator::NotEqual => true,
        _ => false,
    }
}

pub open spec fn is_arithmetic(operator: BinaryOperator) -> bool {
    match operator {
        BinaryOperator::Add => true,
        BinaryOperator::Subtract => true,
        BinaryOperator::Multiply => true,
        BinaryOperator::Divide => true,
        BinaryOperator::Power => true,
        BinaryOperator::Modulo => true,
        BinaryOperator::IntegerDivide => true,
        _ => false,
    }
}

/// The method group of an operator.
pub open spec fn group_of(operator: BinaryOperator) -> Option<Seq<char>> {
    if is_arithmetic(operator) {
        Some("Arith"@)
    } else if is_comparison(operator) {
        Some("Compare"@)
    } else {
        None
    }
}

pub fn arithmetic(operator: BinaryOperator) -> (r: bool)
    ensures
        r == is_arithmetic(operator),
{
    matches!(
        operator,
        BinaryOperator::Add | BinaryOperator::Subtract | BinaryOperator::Multiply
            | BinaryOperator::Divide | BinaryOperator::Power | BinaryOperator::Modulo
            | BinaryOperator::IntegerDivide
    )
}

pub fn comparison(operator: BinaryOperator) -> (r: bool)
    ensures
        r == is_comparison(operator),
{
    matches!(
        operator,
        BinaryOperator::Less | BinaryOperator::Greater | BinaryOperator::LessEq
            | BinaryOperator::GreaterEq | BinaryOperator::Equal | BinaryOperator::NotEqual
    )
}

/// The method group of an operator.
pub fn operator_group(operator: BinaryOperator) -> (r: Option<&'static str>)
    ensures
        (match r {
            Some(text) => Some(text@),
            None => None,
        }) == group_of(operator),
{
    if arithmetic(operator) {
        Some("Arith")
    } else if comparison(operator) {
        Some("Compare")
    } else {
        None
    }
}

/// The method-name prefixes that make a class arithmetic: each operator's own,
/// then the group's, then `Ops`.
pub open spec fn method_prefixes() -> Seq<Seq<char>> {
    seq![
        "+."@,
        "-."@,
        "*."@,
        "/."@,
        "^."@,
        "%%."@,
        "%/%."@,
        "Arith."@,
        "Ops."@,
    ]
}

/// The method names that make a class arithmetic, in the order in which operator
/// methods are tried.
pub fn arithmetic_method_prefixes() -> (r: Vec<String>)
    ensures
        types::texts(r@) == method_prefixes(),
{
    let mut prefixes: Vec<String> = Vec::new();
    prefixes.push("+.".to_string());
    prefixes.push("-.".to_string());
    prefixes.push("*.".to_string());
    prefixes.push("/.".to_string());
    prefixes.push("^.".to_string());
    prefixes.push("%%.".to_string());
    prefixes.push("%/%.".to_string());
    prefixes.push("Arith.".to_string());
    prefixes.push("Ops.".to_string());
    assert(types::texts(prefixes@) =~= method_prefixes());
    prefixes
}

/// Every arithmetic operator has a method prefix that is its spelling and a dot,
/// so a class that declares any of them is arithmetic.
pub proof fn every_arithmetic_operator_has_a_prefix(operator: BinaryOperator)
    requires
        is_arithmetic(operator),
    ensures
        spelling_of(operator) is Some,
        method_prefixes().contains(spelling_of(operator)->0.push('.')),
        arithmetic_operators().contains(operator),
        group_of(operator) == Some("Arith"@),
{
    reveal_strlit("+");
    reveal_strlit("-");
    reveal_strlit("*");
    reveal_strlit("/");
    reveal_strlit("^");
    reveal_strlit("%%");
    reveal_strlit("%/%");
    reveal_strlit("+.");
    reveal_strlit("-.");
    reveal_strlit("*.");
    reveal_strlit("/.");
    reveal_strlit("^.");
    reveal_strlit("%%.");
    reveal_strlit("%/%.");
    let own = spelling_of(operator)->0.push('.');
    let all = arithmetic_operators();
    match operator {
        BinaryOperator::Add => {
            assert(method_prefixes()[0] =~= own);
            assert(all[0] == operator);
        },
        BinaryOperator::Subtract => {
            assert(method_prefixes()[1] =~= own);
            assert(all[1] == operator);
        },
        BinaryOperator::Multiply => {
            assert(method_prefixes()[2] =~= own);
            assert(all[2] == operator);
        },
        BinaryOperator::Divide => {
            assert(method_prefixes()[3] =~= own);
            assert(all[3] == operator);
        },
        BinaryOperator::Power => {
            assert(method_prefixes()[4] =~= own);
            assert(all[4] == operator);
        },
        BinaryOperator::Modulo => {
            assert(method_prefixes()[5] =~= own);
            assert(all[5] == operator);
        },
        _ => {
            assert(method_prefixes()[6] =~= own);
            assert(all[6] == operator);
        },
    }
}

/// The mode an atomic computes in: a logical operand is promoted to integer.
pub open spec fn arithmetic_atomic(atomic: Atomic) -> Option<Atomic> {
    match atomic {
        Atomic::Logical => Some(Atomic::Integer),
        Atomic::Integer => Some(Atomic::Integer),
        Atomic::Double => Some(Atomic::Double),
        _ => None,
    }
}

/// A shape and a mode.
pub type PartV = (OperandShape, Atomic);

pub open spec fn shape_of(ty: TyV) -> OperandShape {
    if ty is Scalar {
        OperandShape::Scalar
    } else {
        OperandShape::Vector
    }
}

/// An arithmetic operand's shape and the mode it computes in.
pub open spec fn numeric_part(ty: TyV) -> Option<PartV> {
    match element_atomic(ty) {
        Some(atomic) => match arithmetic_atomic(atomic) {
            Some(own) => Some((shape_of(ty), own)),
            None => None,
        },
        None => None,
    }
}

pub fn numeric_operand_parts(ty: &Ty) -> (r: Option<(OperandShape, Atomic)>)
    ensures
        r == numeric_part(ty@),
{
    let atomic = match combine_operand_atomic(ty) {
        Some(Atomic::Logical) => Atomic::Integer,
        Some(Atomic::Integer) => Atomic::Integer,
        Some(Atomic::Double) => Atomic::Double,
        _ => {
            return None;
        },
    };
    let shape = match ty.kind() {
        TyKind::Scalar(_) => OperandShape::Scalar,
        _ => OperandShape::Vector,
    };
    Some((shape, atomic))
}

/// The parts of every type of a list, where each has one.
pub open spec fn numeric_parts(types: Seq<TyV>, upto: nat) -> Option<Seq<PartV>>
    decreases upto,
{
    if upto == 0 {
        Some(Seq::empty())
    } else {
        match (numeric_parts(types, (upto - 1) as nat), numeric_part(types[upto - 1])) {
            (Some(before), Some(part)) => Some(before.push(part)),
            _ => None,
        }
    }
}

/// How an operand of an arithmetic operator classifies.
pub enum NumericV {
    /// Concrete shapes: one, or one for each member of a union.
    Concrete(Seq<PartV>),
    /// A variable, or a binder that promises numbers.
    Flexible(TyV),
    /// A vector whose element is such a variable or binder, or is untracked.
    FlexibleVector(Option<TyV>),
    AnyUnknown,
    Invalid,
}

pub open spec fn is_flexible(t: TableV, ty: TyV) -> bool {
    match ty {
        TyV::Var(_) => true,
        TyV::Rigid(name) => checking::promises_number(table::binder_constraint(t.binders, name)),
        _ => false,
    }
}

/// How an operand of an arithmetic operator classifies once resolved. A union is
/// numeric where every member is.
pub open spec fn numeric_operand(t: TableV, resolved: TyV) -> NumericV {
    match numeric_part(resolved) {
        Some(part) => NumericV::Concrete(seq![part]),
        None => match resolved {
            TyV::Union(members) => match numeric_parts(members, members.len()) {
                Some(parts) => NumericV::Concrete(parts),
                None => NumericV::Invalid,
            },
            TyV::Var(_) | TyV::Rigid(_) => if is_flexible(t, resolved) {
                NumericV::Flexible(resolved)
            } else {
                NumericV::Invalid
            },
            TyV::Vector(element) => flexible_vector(t, *element),
            TyV::NamedVector(element) => flexible_vector(t, *element),
            TyV::Any | TyV::Unknown => NumericV::AnyUnknown,
            _ => NumericV::Invalid,
        },
    }
}

pub open spec fn flexible_vector(t: TableV, element: TyV) -> NumericV {
    if is_flexible(t, element) {
        NumericV::FlexibleVector(Some(element))
    } else if element is Any || element is Unknown {
        NumericV::FlexibleVector(None)
    } else {
        NumericV::Invalid
    }
}

/// How an operand of an arithmetic operator classifies.
#[derive(Debug)]
pub enum NumericOperand {
    Concrete(Vec<(OperandShape, Atomic)>),
    Flexible(Ty),
    FlexibleVector(Option<Ty>),
    AnyUnknown,
    Invalid,
}

impl NumericOperand {
    pub open spec fn view(&self) -> NumericV {
        match self {
            NumericOperand::Concrete(parts) => NumericV::Concrete(parts@),
            NumericOperand::Flexible(ty) => NumericV::Flexible(ty@),
            NumericOperand::FlexibleVector(element) => NumericV::FlexibleVector(
                types::opt_ty(*element),
            ),
            NumericOperand::AnyUnknown => NumericV::AnyUnknown,
            NumericOperand::Invalid => NumericV::Invalid,
        }
    }
}

fn flexible(t: &InferenceTable, ty: &Ty) -> (r: bool)
    ensures
        r == is_flexible(t@, ty@),
{
    match ty.kind() {
        TyKind::Var(_) => true,
        TyKind::Rigid(name) => match t.rigid_constraint(name) {
            Some(constraint) => constraint == Constraint::Numeric || constraint
                == Constraint::ScalarNumeric,
            None => false,
        },
        _ => false,
    }
}

pub fn classify_numeric_operand(t: &InferenceTable, resolved: &Ty) -> (r: NumericOperand)
    ensures
        r@ == numeric_operand(t@, resolved@),
{
    if let Some(part) = numeric_operand_parts(resolved) {
        let mut parts: Vec<(OperandShape, Atomic)> = Vec::new();
        parts.push(part);
        assert(parts@ =~= seq![part]);
        return NumericOperand::Concrete(parts);
    }
    match resolved.kind() {
        TyKind::Union(members) => {
            let mut parts: Vec<(OperandShape, Atomic)> = Vec::new();
            let mut i: usize = 0;
            while i < members.len()
                invariant
                    i <= members.len(),
                    resolved@ == TyV::Union(types::tys(members@)),
                    numeric_parts(types::tys(members@), i as nat) == Some(parts@),
                decreases members.len() - i,
            {
                match numeric_operand_parts(&members[i]) {
                    Some(part) => {
                        parts.push(part);
                    },
                    None => {
                        proof {
                            assert(numeric_parts(types::tys(members@), (i + 1) as nat) is None);
                            no_parts_after(types::tys(members@), (i + 1) as nat, members@.len());
                        }
                        return NumericOperand::Invalid;
                    },
                }
                i += 1;
            }
            NumericOperand::Concrete(parts)
        },
        TyKind::Var(_) | TyKind::Rigid(_) => {
            if flexible(t, resolved) {
                NumericOperand::Flexible(resolved.clone())
            } else {
                NumericOperand::Invalid
            }
        },
        TyKind::Vector(element) | TyKind::NamedVector(element) => {
            if flexible(t, element) {
                NumericOperand::FlexibleVector(Some(element.clone()))
            } else if crate::unify::is_tolerated(element) {
                NumericOperand::FlexibleVector(None)
            } else {
                NumericOperand::Invalid
            }
        },
        TyKind::Any | TyKind::Unknown => NumericOperand::AnyUnknown,
        _ => NumericOperand::Invalid,
    }
}

/// Where one member has no part, no longer list of members has parts.
proof fn no_parts_after(members: Seq<TyV>, i: nat, j: nat)
    requires
        numeric_parts(members, i) is None,
        i <= j,
    ensures
        numeric_parts(members, j) is None,
    decreases j,
{
    if i < j {
        no_parts_after(members, i, (j - 1) as nat);
    }
}

/// A shape and a comparison family.
pub type ComparedV = (OperandShape, ComparisonFamily);

pub open spec fn compared_part(ty: TyV) -> Option<ComparedV> {
    match element_atomic(ty) {
        Some(atomic) => match atomic {
            Atomic::Logical => Some((shape_of(ty), ComparisonFamily::Numeric)),
            Atomic::Integer => Some((shape_of(ty), ComparisonFamily::Numeric)),
            Atomic::Double => Some((shape_of(ty), ComparisonFamily::Numeric)),
            Atomic::Character => Some((shape_of(ty), ComparisonFamily::Character)),
            _ => None,
        },
        None => None,
    }
}

pub fn comparison_operand_parts(ty: &Ty) -> (r: Option<(OperandShape, ComparisonFamily)>)
    ensures
        r == compared_part(ty@),
{
    let family = match combine_operand_atomic(ty) {
        Some(Atomic::Logical) | Some(Atomic::Integer) | Some(Atomic::Double) => {
            ComparisonFamily::Numeric
        },
        Some(Atomic::Character) => ComparisonFamily::Character,
        _ => {
            return None;
        },
    };
    let shape = match ty.kind() {
        TyKind::Scalar(_) => OperandShape::Scalar,
        _ => OperandShape::Vector,
    };
    Some((shape, family))
}

pub open spec fn compared_parts(types: Seq<TyV>, upto: nat) -> Option<Seq<ComparedV>>
    decreases upto,
{
    if upto == 0 {
        Some(Seq::empty())
    } else {
        match (compared_parts(types, (upto - 1) as nat), compared_part(types[upto - 1])) {
            (Some(before), Some(part)) => Some(before.push(part)),
            _ => None,
        }
    }
}

/// The shapes and families of an operand: one, or one for each member of a
/// union, where each can be compared.
pub open spec fn compared_list(ty: TyV) -> Option<Seq<ComparedV>> {
    compared_parts(types::members_of(ty), types::members_of(ty).len())
}

proof fn no_compared_after(members: Seq<TyV>, i: nat, j: nat)
    requires
        compared_parts(members, i) is None,
        i <= j,
    ensures
        compared_parts(members, j) is None,
    decreases j,
{
    if i < j {
        no_compared_after(members, i, (j - 1) as nat);
    }
}

pub open spec fn opt_compared(parts: Option<Vec<(OperandShape, ComparisonFamily)>>) -> Option<
    Seq<ComparedV>,
> {
    match parts {
        Some(parts) => Some(parts@),
        None => None,
    }
}

pub fn comparison_operand_parts_list(ty: &Ty) -> (r: Option<Vec<(OperandShape, ComparisonFamily)>>)
    ensures
        opt_compared(r) == compared_list(ty@),
{
    let members = guard_members(ty);
    let mut parts: Vec<(OperandShape, ComparisonFamily)> = Vec::new();
    let mut i: usize = 0;
    while i < members.len()
        invariant
            i <= members.len(),
            types::tys(members@) == types::members_of(ty@),
            compared_parts(types::tys(members@), i as nat) == Some(parts@),
        decreases members.len() - i,
    {
        match comparison_operand_parts(&members[i]) {
            Some(part) => {
                parts.push(part);
            },
            None => {
                proof {
                    no_compared_after(types::tys(members@), (i + 1) as nat, members@.len());
                }
                return None;
            },
        }
        i += 1;
    }
    Some(parts)
}

/// A comparison operand whose family is not yet known: a bare variable or
/// binder, or a vector whose element is open or untracked. The second part is
/// what can be constrained.
pub open spec fn compared_flexible(ty: TyV) -> Option<(OperandShape, Option<TyV>)> {
    match ty {
        TyV::Var(_) | TyV::Rigid(_) => Some((OperandShape::Scalar, Some(ty))),
        TyV::Vector(element) => flexible_element(*element),
        TyV::NamedVector(element) => flexible_element(*element),
        _ => None,
    }
}

pub open spec fn flexible_element(element: TyV) -> Option<(OperandShape, Option<TyV>)> {
    match element {
        TyV::Var(_) | TyV::Rigid(_) => Some((OperandShape::Vector, Some(element))),
        TyV::Any | TyV::Unknown => Some((OperandShape::Vector, None)),
        _ => None,
    }
}

pub open spec fn opt_flexible(flexible: Option<(OperandShape, Option<Ty>)>) -> Option<
    (OperandShape, Option<TyV>),
> {
    match flexible {
        Some((shape, ty)) => Some((shape, types::opt_ty(ty))),
        None => None,
    }
}

pub fn flexible_comparison_operand(ty: &Ty) -> (r: Option<(OperandShape, Option<Ty>)>)
    ensures
        opt_flexible(r) == compared_flexible(ty@),
{
    match ty.kind() {
        TyKind::Var(_) | TyKind::Rigid(_) => Some((OperandShape::Scalar, Some(ty.clone()))),
        TyKind::Vector(element) | TyKind::NamedVector(element) => match element.kind() {
            TyKind::Var(_) | TyKind::Rigid(_) => Some(
                (OperandShape::Vector, Some(element.clone())),
            ),
            TyKind::Any | TyKind::Unknown => Some((OperandShape::Vector, None)),
            _ => None,
        },
        _ => None,
    }
}

/// A mode in a shape.
pub open spec fn shaped_type(shape: OperandShape, atomic: Atomic) -> TyV {
    match shape {
        OperandShape::Scalar => TyV::Scalar(atomic),
        OperandShape::Vector => TyV::Vector(Box::new(TyV::Scalar(atomic))),
    }
}

/// An atomic mode in a shape.
pub fn shaped(shape: OperandShape, atomic: Atomic) -> (r: Ty)
    ensures
        r@ == shaped_type(shape, atomic),
{
    let element = scalar(atomic);
    match shape {
        OperandShape::Scalar => element,
        OperandShape::Vector => Ty::new(TyKind::Vector(element)),
    }
}

pub open spec fn wider(a: OperandShape, b: OperandShape) -> OperandShape {
    if a == OperandShape::Vector || b == OperandShape::Vector {
        OperandShape::Vector
    } else {
        OperandShape::Scalar
    }
}

pub fn wider_shape(a: OperandShape, b: OperandShape) -> (r: OperandShape)
    ensures
        r == wider(a, b),
{
    if a == OperandShape::Vector || b == OperandShape::Vector {
        OperandShape::Vector
    } else {
        OperandShape::Scalar
    }
}

/// The result of one pair of numeric operands: two integers stay integer unless
/// the operator always gives doubles.
pub open spec fn numeric_result(a: PartV, b: PartV, always_double: bool) -> TyV {
    shaped_type(
        wider(a.0, b.0),
        if !always_double && a.1 == Atomic::Integer && b.1 == Atomic::Integer {
            Atomic::Integer
        } else {
            Atomic::Double
        },
    )
}

/// The results of one part against the first `upto` others.
pub open spec fn numeric_row(a: PartV, others: Seq<PartV>, always_double: bool, upto: nat) -> Seq<
    TyV,
>
    decreases upto,
{
    if upto == 0 {
        Seq::empty()
    } else {
        numeric_row(a, others, always_double, (upto - 1) as nat).push(
            numeric_result(a, others[upto - 1], always_double),
        )
    }
}

/// The results of every pair of parts.
pub open spec fn numeric_results(
    left: Seq<PartV>,
    right: Seq<PartV>,
    always_double: bool,
    upto: nat,
) -> Seq<TyV>
    decreases upto,
{
    if upto == 0 {
        Seq::empty()
    } else {
        numeric_results(left, right, always_double, (upto - 1) as nat) + numeric_row(
            left[upto - 1],
            right,
            always_double,
            right.len(),
        )
    }
}

pub fn member_wise_numeric_results(
    left: &Vec<(OperandShape, Atomic)>,
    right: &Vec<(OperandShape, Atomic)>,
    always_double: bool,
) -> (r: Vec<Ty>)
    ensures
        types::tys(r@) == numeric_results(left@, right@, always_double, left@.len()),
{
    let mut results: Vec<Ty> = Vec::new();
    assert(types::tys(results@) =~= Seq::empty());
    let mut i: usize = 0;
    while i < left.len()
        invariant
            i <= left.len(),
            types::tys(results@) == numeric_results(left@, right@, always_double, i as nat),
        decreases left.len() - i,
    {
        let ghost before = types::tys(results@);
        let mut j: usize = 0;
        assert(before + numeric_row(left@[i as int], right@, always_double, 0) =~= before);
        while j < right.len()
            invariant
                i < left.len(),
                j <= right.len(),
                types::tys(results@) == before + numeric_row(
                    left@[i as int],
                    right@,
                    always_double,
                    j as nat,
                ),
            decreases right.len() - j,
        {
            let shape = wider_shape(left[i].0, right[j].0);
            let atomic = if always_double {
                Atomic::Double
            } else if left[i].1 == Atomic::Integer && right[j].1 == Atomic::Integer {
                Atomic::Integer
            } else {
                Atomic::Double
            };
            let ghost row = numeric_row(left@[i as int], right@, always_double, j as nat);
            results.push(shaped(shape, atomic));
            assert(types::tys(results@) =~= before + row.push(
                numeric_result(left@[i as int], right@[j as int], always_double),
            ));
            j += 1;
        }
        i += 1;
    }
    results
}

/// The rank of a mode in the coercion hierarchy of `c(...)`.
pub open spec fn combine_rank(atomic: Atomic) -> Option<u8> {
    match atomic {
        Atomic::Logical => Some(0u8),
        Atomic::Integer => Some(1u8),
        Atomic::Double => Some(2u8),
        Atomic::Complex => Some(3u8),
        Atomic::Character => Some(4u8),
        Atomic::Raw => None,
    }
}

/// What two modes combine to: the higher of the two; `raw` combines only with
/// itself.
pub open spec fn combined(left: Atomic, right: Atomic) -> Option<Atomic> {
    if left == right {
        Some(left)
    } else {
        match (combine_rank(left), combine_rank(right)) {
            (Some(a), Some(b)) => Some(
                if a < b {
                    right
                } else {
                    left
                },
            ),
            _ => None,
        }
    }
}

fn rank_of(atomic: Atomic) -> (r: Option<u8>)
    ensures
        r == combine_rank(atomic),
{
    match atomic {
        Atomic::Logical => Some(0),
        Atomic::Integer => Some(1),
        Atomic::Double => Some(2),
        Atomic::Complex => Some(3),
        Atomic::Character => Some(4),
        Atomic::Raw => None,
    }
}

/// The mode that two modes combine to.
pub fn promote_combine_atomic(left: Atomic, right: Atomic) -> (r: Option<Atomic>)
    ensures
        r == combined(left, right),
{
    if left == right {
        return Some(left);
    }
    match (rank_of(left), rank_of(right)) {
        (Some(a), Some(b)) => {
            if a < b {
                Some(right)
            } else {
                Some(left)
            }
        },
        _ => None,
    }
}

/// Combining is commutative and associative wherever it is defined, so the
/// element mode of `c(...)` does not depend on the order of its arguments.
pub proof fn combining_is_order_independent(a: Atomic, b: Atomic, c: Atomic)
    ensures
        combined(a, b) == combined(b, a),
        combined(a, a) == Some(a),
        combined(a, b) is Some && combined(b, c) is Some && combined(a, c) is Some ==> combined(
            combined(a, b)->0,
            c,
        ) == combined(a, combined(b, c)->0),
{
}

/// A failing union member reports the whole union.
pub open spec fn widened(error: TypeErrorV, union: TyV) -> TypeErrorV {
    TypeErrorV {
        range: error.range,
        kind: match error.kind {
            TypeErrorKindV::NotAList { .. } => TypeErrorKindV::NotAList { found: union },
            TypeErrorKindV::UnsupportedSubset { .. } => TypeErrorKindV::UnsupportedSubset {
                found: union,
            },
            TypeErrorKindV::DollarOnAtomicVector { .. } => TypeErrorKindV::DollarOnAtomicVector {
                found: union,
            },
            TypeErrorKindV::PositionDoesNotExist { position, .. } => {
                TypeErrorKindV::PositionDoesNotExist { position, container: union }
            },
            TypeErrorKindV::FieldDoesNotExist { suggestion, field, .. } => {
                TypeErrorKindV::FieldDoesNotExist { suggestion, field, container: union }
            },
            other => other,
        },
    }
}

pub fn widen_error_container(error: TypeError, union: &Ty) -> (r: TypeError)
    ensures
        r@ == widened(error@, union@),
{
    let range = error.range;
    let kind = match error.kind {
        TypeErrorKind::NotAList { .. } => TypeErrorKind::NotAList { found: union.clone() },
        TypeErrorKind::UnsupportedSubset { .. } => TypeErrorKind::UnsupportedSubset {
            found: union.clone(),
        },
        TypeErrorKind::DollarOnAtomicVector { .. } => TypeErrorKind::DollarOnAtomicVector {
            found: union.clone(),
        },
        TypeErrorKind::PositionDoesNotExist { position, .. } => {
            TypeErrorKind::PositionDoesNotExist { position, container: union.clone() }
        },
        TypeErrorKind::FieldDoesNotExist { suggestion, field, .. } => {
            TypeErrorKind::FieldDoesNotExist { suggestion, field, container: union.clone() }
        },
        other => other,
    };
    TypeError { range, kind }
}

/// The field names the first `upto` types carry.
pub open spec fn carried_names(members: Seq<TyV>, upto: nat) -> Seq<Seq<char>>
    decreases upto,
{
    if upto == 0 {
        Seq::empty()
    } else {
        let before = carried_names(members, (upto - 1) as nat);
        match members[upto - 1] {
            TyV::Record(fields) => before + table::field_names(fields),
            _ => before,
        }
    }
}

/// Every field name any member of a union carries.
pub open spec fn union_names(subject: TyV) -> Seq<Seq<char>> {
    carried_names(types::members_of(subject), types::members_of(subject).len())
}

pub fn union_field_names(subject: &Ty) -> (r: Vec<String>)
    ensures
        types::texts(r@) == union_names(subject@),
{
    let members = guard_members(subject);
    let mut names: Vec<String> = Vec::new();
    assert(types::texts(names@) =~= Seq::empty());
    let mut i: usize = 0;
    while i < members.len()
        invariant
            i <= members.len(),
            types::tys(members@) == types::members_of(subject@),
            types::texts(names@) == carried_names(types::tys(members@), i as nat),
        decreases members.len() - i,
    {
        if let TyKind::Record(fields) = members[i].kind() {
            let ghost before = types::texts(names@);
            let own = crate::explain::field_names(fields);
            let mut j: usize = 0;
            assert(before + types::texts(own@).subrange(0, 0) =~= before);
            while j < own.len()
                invariant
                    j <= own.len(),
                    types::texts(names@) == before + types::texts(own@).subrange(0, j as int),
                decreases own.len() - j,
            {
                names.push(own[j].clone());
                assert(types::texts(names@) =~= before + types::texts(own@).subrange(0, j + 1));
                j += 1;
            }
            assert(types::texts(own@).subrange(0, own@.len() as int) =~= types::texts(own@));
        }
        i += 1;
    }
    names
}

/// Whether a subject is the `data.table` nominal.
pub open spec fn is_table(subject: TyV) -> bool {
    match subject {
        TyV::Named(name, _) => name == "data.table"@,
        _ => false,
    }
}

/// Whether a type is a data.table.
pub fn is_data_table(subject: &Ty) -> (r: bool)
    ensures
        r == is_table(subject@),
{
    match subject.kind() {
        TyKind::Named(name, _) => same_text(name.text(), "data.table"),
        _ => false,
    }
}

/// The second argument without a name, from a place on.
pub open spec fn second_unnamed(arguments: Seq<Argument>) -> Option<int> {
    match walk::argument_unnamed(arguments, 0) {
        Some(i) => walk::argument_unnamed(arguments, i + 1),
        None => None,
    }
}

/// The `j` argument of a data.table query.
pub open spec fn table_j(arguments: Seq<Argument>) -> Option<int> {
    match walk::argument_named(arguments, "j"@, 0) {
        Some(i) => Some(i),
        None => second_unnamed(arguments),
    }
}

pub open spec fn is_grouped(arguments: Seq<Argument>) -> bool {
    walk::argument_named(arguments, "by"@, 0) is Some || walk::argument_named(
        arguments,
        "keyby"@,
        0,
    ) is Some
}

/// Whether the result of a data.table query keeps the subject's class, by the
/// syntax of the bracket alone: without `j`, where the query is grouped, or
/// where `j` assigns or selects columns.
pub open spec fn keeps_class(m: Module, arguments: Seq<Argument>) -> bool {
    match table_j(arguments) {
        Some(i) => match arguments[i].value {
            Some(value) => is_grouped(arguments) || match m.kind_of(value) {
                ExpressionKind::Call { callee, .. } => m.name_of(callee) == Some(":="@)
                    || m.name_of(callee) == Some("."@) || m.name_of(callee) == Some("list"@),
                _ => false,
            },
            None => true,
        },
        None => true,
    }
}

/// The first argument with a name.
pub fn find_named(arguments: &Vec<Argument>, name: &str) -> (r: Option<usize>)
    ensures
        match r {
            Some(i) => i < arguments@.len() && walk::argument_named(arguments@, name@, 0) == Some(
                i as int,
            ),
            None => walk::argument_named(arguments@, name@, 0) is None,
        },
{
    let mut i: usize = 0;
    while i < arguments.len()
        invariant
            i <= arguments.len(),
            walk::argument_named(arguments@, name@, 0) == walk::argument_named(
                arguments@,
                name@,
                i as int,
            ),
        decreases arguments.len() - i,
    {
        if let Some(own) = &arguments[i].name {
            if same_text(own.as_str(), name) {
                return Some(i);
            }
        }
        i += 1;
    }
    None
}

/// The first argument without a name from a place on.
pub fn find_unnamed(arguments: &Vec<Argument>, from: usize) -> (r: Option<usize>)
    ensures
        match r {
            Some(i) => i < arguments.len() && walk::argument_unnamed(arguments@, from as int)
                == Some(i as int),
            None => walk::argument_unnamed(arguments@, from as int) is None,
        },
{
    let mut i: usize = from;
    while i < arguments.len()
        invariant
            walk::argument_unnamed(arguments@, from as int) == walk::argument_unnamed(
                arguments@,
                i as int,
            ),
        decreases arguments.len() - i,
    {
        if arguments[i].name.is_none() {
            return Some(i);
        }
        i += 1;
    }
    None
}

pub fn data_table_keeps_class(module: &Module, arguments: &Vec<Argument>) -> (r: bool)
    requires
        module.wf(),
        hir::values_below(arguments@, module.expressions@.len() as int),
    ensures
        r == keeps_class(*module, arguments@),
{
    let j: Option<usize> = match find_named(arguments, "j") {
        Some(i) => Some(i),
        None => match find_unnamed(arguments, 0) {
            Some(i) => find_unnamed(arguments, i + 1),
            None => None,
        },
    };
    let value = match j {
        Some(i) => {
            assert(hir::opt_below(arguments@[i as int].value, module.expressions@.len() as int));
            match arguments[i].value {
                Some(value) => value,
                None => {
                    return true;
                },
            }
        },
        None => {
            return true;
        },
    };
    if find_named(arguments, "by").is_some() || find_named(arguments, "keyby").is_some() {
        return true;
    }
    match module.kind(value) {
        ExpressionKind::Call { callee, .. } => {
            assert(module.kind_of(value).built_below(value.0 as int));
            module.is_name(*callee, ":=") || module.is_name(*callee, ".") || module.is_name(
                *callee,
                "list",
            )
        },
        _ => false,
    }
}

/// Whether a condition is coerced rather than refused: numbers are, where every
/// member of a union is one.
pub open spec fn coerces(ty: TyV) -> bool
    decreases ty,
{
    match ty {
        TyV::Scalar(atomic) => atomic == Atomic::Logical || atomic == Atomic::Integer || atomic
            == Atomic::Double,
        TyV::Union(members) => forall|i: int|
            0 <= i < members.len() ==> coerces(#[trigger] members[i]),
        _ => false,
    }
}

pub fn condition_coerces(ty: &Ty) -> (r: bool)
    ensures
        r == coerces(ty@),
    decreases ty@,
{
    match ty.kind() {
        TyKind::Scalar(atomic) => *atomic == Atomic::Logical || *atomic == Atomic::Integer
            || *atomic == Atomic::Double,
        TyKind::Union(members) => {
            let mut i: usize = 0;
            while i < members.len()
                invariant
                    i <= members.len(),
                    ty@ == TyV::Union(types::tys(members@)),
                    forall|j: int| 0 <= j < i ==> coerces(#[trigger] types::tys(members@)[j]),
                decreases members.len() - i,
            {
                proof {
                    types::child_decreases(ty@, i as int);
                }
                if !condition_coerces(&members[i]) {
                    assert(!coerces(types::tys(members@)[i as int]));
                    return false;
                }
                i += 1;
            }
            true
        },
        _ => false,
    }
}

/// The formal names a body tests with `missing(name)`, outside nested functions.
pub open spec fn missing_tested(m: Module, id: ExprId) -> Set<Seq<char>>
    decreases id.0, 1int, 0int,
{
    match m.kind_of(id) {
        ExpressionKind::Function { .. } => Set::empty(),
        _ => {
            let below = missing_tested_in(m, id, m.kind_of(id).children(), 0);
            match tests_missing(m, id) {
                Some(name) => below.insert(name),
                None => below,
            }
        },
    }
}

/// The name a call `missing(name)` tests.
pub open spec fn tests_missing(m: Module, id: ExprId) -> Option<Seq<char>> {
    match m.kind_of(id) {
        ExpressionKind::Call { callee, arguments } => if m.name_of(callee) == Some("missing"@)
            && arguments@.len() == 1 && arguments@[0].name is None {
            match arguments@[0].value {
                Some(value) => m.name_of(value),
                None => None,
            }
        } else {
            None
        },
        _ => None,
    }
}

pub open spec fn missing_tested_in(m: Module, bound: ExprId, ids: Seq<ExprId>, from: int) -> Set<
    Seq<char>,
>
    decreases bound.0, 0int, ids.len() - from,
{
    if 0 <= from < ids.len() {
        let own = if ids[from].0 < bound.0 {
            missing_tested(m, ids[from])
        } else {
            Set::empty()
        };
        own.union(missing_tested_in(m, bound, ids, from + 1))
    } else {
        Set::empty()
    }
}

/// Whether a body tests a formal with `missing(name)`, outside nested functions.
pub fn tests_formal(module: &Module, id: ExprId, name: &str) -> (r: bool)
    requires
        module.wf(),
        module.holds(id),
    ensures
        r == missing_tested(*module, id).contains(name@),
    decreases id.0, 1int,
{
    let kind = module.kind(id);
    assert(kind.built_below(id.0 as int));
    if let ExpressionKind::Function { .. } = kind {
        return false;
    }
    if let ExpressionKind::Call { callee, arguments } = kind {
        if module.is_name(*callee, "missing") && arguments.len() == 1
            && arguments[0].name.is_none() {
            assert(hir::opt_below(arguments@[0].value, id.0 as int));
            if let Some(value) = arguments[0].value {
                if module.is_name(value, name) {
                    return true;
                }
            }
        }
    }
    let ids = kind.child_ids();
    proof {
        hir::children_are_below(*kind, id.0 as int);
    }
    any_tests_formal(module, id, &ids, name)
}

fn any_tests_formal(module: &Module, bound: ExprId, ids: &Vec<ExprId>, name: &str) -> (r: bool)
    requires
        module.wf(),
        module.holds(bound),
        hir::all_below(ids@, bound.0 as int),
    ensures
        r == missing_tested_in(*module, bound, ids@, 0).contains(name@),
    decreases bound.0, 0int,
{
    let mut i: usize = 0;
    while i < ids.len()
        invariant
            i <= ids.len(),
            module.wf(),
            module.holds(bound),
            hir::all_below(ids@, bound.0 as int),
            missing_tested_in(*module, bound, ids@, 0).contains(name@) == missing_tested_in(
                *module,
                bound,
                ids@,
                i as int,
            ).contains(name@),
        decreases ids.len() - i,
    {
        assert(ids@[i as int].0 < bound.0);
        if tests_formal(module, ids[i], name) {
            return true;
        }
        i += 1;
    }
    false
}

/// Every expression whose value can become a function's result, following a
/// block to its tail and a branch into both arms.
pub open spec fn tail_expressions(m: Module, id: ExprId) -> Seq<ExprId>
    decreases id.0,
{
    match m.kind_of(id) {
        ExpressionKind::Block { statements, trailing_semicolon } => if !trailing_semicolon
            && statements@.len() > 0 && statements@.last().0 < id.0 {
            tail_expressions(m, statements@.last())
        } else {
            seq![id]
        },
        ExpressionKind::If { then_branch, else_branch, .. } => match else_branch {
            Some(else_branch) => if then_branch.0 < id.0 && else_branch.0 < id.0 {
                tail_expressions(m, then_branch) + tail_expressions(m, else_branch)
            } else {
                seq![id]
            },
            None => seq![id],
        },
        _ => seq![id],
    }
}

pub fn collect_tail_expressions(module: &Module, id: ExprId, into: &mut Vec<ExprId>)
    requires
        module.wf(),
        module.holds(id),
    ensures
        final(into)@ == old(into)@ + tail_expressions(*module, id),
    decreases id.0,
{
    let ghost before = into@;
    let kind = module.kind(id);
    assert(kind.built_below(id.0 as int));
    match kind {
        ExpressionKind::Block { statements, trailing_semicolon } => {
            if !*trailing_semicolon && statements.len() > 0 {
                let tail = statements[statements.len() - 1];
                assert(statements@[statements@.len() - 1].0 < id.0);
                collect_tail_expressions(module, tail, into);
            } else {
                into.push(id);
                assert(into@ =~= before + seq![id]);
            }
        },
        ExpressionKind::If { then_branch, else_branch, .. } => match else_branch {
            Some(else_branch) => {
                collect_tail_expressions(module, *then_branch, into);
                collect_tail_expressions(module, *else_branch, into);
                assert(into@ =~= before + (tail_expressions(*module, *then_branch)
                    + tail_expressions(*module, *else_branch)));
            },
            None => {
                into.push(id);
                assert(into@ =~= before + seq![id]);
            },
        },
        _ => {
            into.push(id);
            assert(into@ =~= before + seq![id]);
        },
    }
}

/// Whether an expression is a whole-number double literal.
pub open spec fn whole_double(m: Module, id: ExprId) -> bool {
    match m.kind_of(id) {
        ExpressionKind::Literal(hir::LiteralKind::Double(text)) => crate::numbers::is_whole_double(
            text@,
        ),
        _ => false,
    }
}

pub fn is_whole_double(module: &Module, id: ExprId) -> (r: bool)
    requires
        module.holds(id),
    ensures
        r == whole_double(*module, id),
{
    match module.kind(id) {
        ExpressionKind::Literal(hir::LiteralKind::Double(text)) => {
            crate::numbers::is_whole_number_double(text.as_str())
        },
        _ => false,
    }
}

/// The type of a literal.
pub open spec fn literal_type(literal: hir::LiteralKind) -> TyV {
    match literal {
        hir::LiteralKind::Integer(_) => TyV::Scalar(Atomic::Integer),
        hir::LiteralKind::Double(_) => TyV::Scalar(Atomic::Double),
        hir::LiteralKind::Complex => TyV::Scalar(Atomic::Complex),
        hir::LiteralKind::String(_) => TyV::Scalar(Atomic::Character),
        hir::LiteralKind::Logical(_) => TyV::Scalar(Atomic::Logical),
        hir::LiteralKind::Null => TyV::Null,
        hir::LiteralKind::Na(atom) => TyV::Scalar(
            match atom {
                hir::NaAtom::Logical => Atomic::Logical,
                hir::NaAtom::Integer => Atomic::Integer,
                hir::NaAtom::Double => Atomic::Double,
                hir::NaAtom::Complex => Atomic::Complex,
                hir::NaAtom::Character => Atomic::Character,
            },
        ),
        hir::LiteralKind::Inf => TyV::Scalar(Atomic::Double),
        hir::LiteralKind::NaN => TyV::Scalar(Atomic::Double),
    }
}

/// The type of a literal.
pub fn literal_ty(literal: &hir::LiteralKind) -> (r: Ty)
    ensures
        r@ == literal_type(*literal),
{
    match literal {
        hir::LiteralKind::Integer(_) => scalar(Atomic::Integer),
        hir::LiteralKind::Double(_) => scalar(Atomic::Double),
        hir::LiteralKind::Complex => scalar(Atomic::Complex),
        hir::LiteralKind::String(_) => scalar(Atomic::Character),
        hir::LiteralKind::Logical(_) => scalar(Atomic::Logical),
        hir::LiteralKind::Null => crate::type_ops::null(),
        hir::LiteralKind::Na(atom) => match atom {
            hir::NaAtom::Logical => scalar(Atomic::Logical),
            hir::NaAtom::Integer => scalar(Atomic::Integer),
            hir::NaAtom::Double => scalar(Atomic::Double),
            hir::NaAtom::Complex => scalar(Atomic::Complex),
            hir::NaAtom::Character => scalar(Atomic::Character),
        },
        hir::LiteralKind::Inf | hir::LiteralKind::NaN => scalar(Atomic::Double),
    }
}

/// What one iteration over a value binds; where it cannot be iterated, the type
/// to blame.
pub open spec fn iterated(resolved: TyV) -> Result<TyV, TyV>
    decreases resolved, 1int, 0int,
{
    match resolved {
        TyV::Union(members) => match iterated_members(members, 0, Seq::empty()) {
            Some(elements) => Ok(TyV::union_of(elements)),
            None => Err(resolved),
        },
        TyV::Scalar(atomic) => Ok(TyV::Scalar(atomic)),
        TyV::Vector(element) => Ok(*element),
        TyV::NamedVector(element) => Ok(*element),
        TyV::List(element) => Ok(*element),
        TyV::NamedList(element) => Ok(*element),
        TyV::Tuple(items) => Ok(TyV::union_of(items)),
        TyV::Record(fields) => Ok(TyV::union_of(table::field_types(fields))),
        TyV::Null => Ok(TyV::Null),
        TyV::Any => Ok(TyV::Any),
        TyV::Named(_, _) => Ok(TyV::Any),
        TyV::Unknown => Ok(TyV::Unknown),
        TyV::Var(_) => Ok(TyV::Unknown),
        TyV::Rigid(_) => Ok(TyV::Unknown),
        TyV::Function(_) => Err(resolved),
    }
}

pub open spec fn iterated_members(members: Seq<TyV>, from: int, done: Seq<TyV>) -> Option<Seq<TyV>>
    decreases members, 0int, members.len() - from,
{
    if 0 <= from < members.len() {
        match iterated(members[from]) {
            Ok(element) => iterated_members(members, from + 1, done.push(element)),
            Err(_) => None,
        }
    } else {
        Some(done)
    }
}

pub open spec fn outcome_types(outcome: Result<Ty, Ty>) -> Result<TyV, TyV> {
    match outcome {
        Ok(ty) => Ok(ty@),
        Err(ty) => Err(ty@),
    }
}

pub fn iteration_element(resolved: &Ty) -> (r: Result<Ty, Ty>)
    ensures
        outcome_types(r) == iterated(resolved@),
    decreases resolved@,
{
    match resolved.kind() {
        TyKind::Union(members) => {
            let mut elements: Vec<Ty> = Vec::new();
            let mut i: usize = 0;
            assert(types::tys(elements@) =~= Seq::empty());
            while i < members.len()
                invariant
                    i <= members.len(),
                    resolved@ == TyV::Union(types::tys(members@)),
                    iterated_members(types::tys(members@), i as int, types::tys(elements@))
                        == iterated_members(types::tys(members@), 0, Seq::empty()),
                decreases members.len() - i,
            {
                proof {
                    types::child_decreases(resolved@, i as int);
                }
                match iteration_element(&members[i]) {
                    Ok(element) => {
                        elements.push(element);
                    },
                    Err(_) => {
                        return Err(resolved.clone());
                    },
                }
                i += 1;
            }
            Ok(crate::type_ops::union_of(&elements))
        },
        TyKind::Scalar(atomic) => Ok(scalar(*atomic)),
        TyKind::Vector(element) | TyKind::NamedVector(element) | TyKind::List(element)
        | TyKind::NamedList(element) => Ok(element.clone()),
        TyKind::Tuple(items) => Ok(crate::type_ops::union_of(items)),
        TyKind::Record(fields) => {
            let elements = crate::unify::field_types(fields);
            Ok(crate::type_ops::union_of(&elements))
        },
        TyKind::Null => Ok(crate::type_ops::null()),
        TyKind::Any | TyKind::Named(_, _) => Ok(crate::type_ops::any()),
        TyKind::Unknown | TyKind::Var(_) | TyKind::Rigid(_) => Ok(crate::type_ops::unknown()),
        TyKind::Function(_) => Err(resolved.clone()),
    }
}

/// The element type of a list-shaped type.
pub open spec fn list_element(ty: TyV) -> Option<TyV> {
    match ty {
        TyV::List(element) => Some(*element),
        TyV::NamedList(element) => Some(*element),
        TyV::Tuple(items) => Some(TyV::union_of(items)),
        TyV::Record(fields) => Some(TyV::union_of(table::field_types(fields))),
        _ => None,
    }
}

pub fn list_element_type(ty: &Ty) -> (r: Option<Ty>)
    ensures
        types::opt_ty(r) == list_element(ty@),
{
    match ty.kind() {
        TyKind::List(element) | TyKind::NamedList(element) => Some(element.clone()),
        TyKind::Tuple(items) => Some(crate::type_ops::union_of(items)),
        TyKind::Record(fields) => {
            let elements = crate::unify::field_types(fields);
            Some(crate::type_ops::union_of(&elements))
        },
        _ => None,
    }
}

} // verus!
