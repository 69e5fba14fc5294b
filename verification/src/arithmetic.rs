//! Operators over operands that are inferred: arithmetic, comparison, negation,
//! and the operator methods of classes.

use vstd::prelude::*;

use crate::blame::blame_range;
use crate::calls;
use crate::calls::{CallArgument, CallArgumentV};
use crate::checker::Checker;
use crate::checking;
use crate::checking::{CheckV, ItemV};
use crate::findings::{OperandExpectation, TypeErrorKind, TypeErrorKindV};
use crate::globals::GlobalEnv;
use crate::hir::{BinaryOperator, ExprId, Module};
use crate::operands;
use crate::operands::{
    classify_numeric_operand, comparison_operand_parts_list, flexible_comparison_operand,
    is_whole_double, member_wise_numeric_results, operator_group, operator_spelling, shaped,
    wider_shape, ComparedV, ComparisonFamily, NumericOperand, NumericV, OperandShape, PartV,
};
use crate::overloads::{Call, CallV};
use crate::schemes;
use crate::schemes::{SchemeV, TypeScheme};
use crate::syntax::TextRange;
use crate::table;
use crate::table::TableV;
use crate::text::{chars_of, string_of};
use crate::type_ops::{scalar, union_of, unknown};
use crate::types;
use crate::types::{Atomic, Constraint, Ty, TyKind, TyV};
use crate::unify::is_tolerated;

verus! {

broadcast use crate::types::group_type_views;

/// A vector of a mode.
pub open spec fn vector_of(atomic: Atomic) -> TyV {
    TyV::Vector(Box::new(TyV::Scalar(atomic)))
}

/// The types of a list of shapes and modes.
pub open spec fn part_types(parts: Seq<PartV>, upto: nat) -> Seq<TyV>
    decreases upto,
{
    if upto == 0 {
        Seq::empty()
    } else {
        part_types(parts, (upto - 1) as nat).push(
            operands::shaped_type(parts[upto - 1].0, parts[upto - 1].1),
        )
    }
}

/// The element that a flexible vector has.
pub open spec fn flexible_element(operand: NumericV) -> Option<TyV> {
    match operand {
        NumericV::FlexibleVector(element) => element,
        _ => None,
    }
}

pub open spec fn concrete_parts(operand: NumericV) -> Option<Seq<PartV>> {
    match operand {
        NumericV::Concrete(parts) => Some(parts),
        _ => None,
    }
}

/// The parts of the first operand that is concrete.
pub open spec fn either_parts(left: NumericV, right: NumericV) -> Option<Seq<PartV>> {
    match concrete_parts(left) {
        Some(parts) => Some(parts),
        None => concrete_parts(right),
    }
}

/// Whether a concrete partner makes a vector of doubles: a union, or a double.
pub open spec fn forces_double(parts: Option<Seq<PartV>>) -> bool {
    match parts {
        Some(parts) => parts.len() > 1 || exists|i: int|
            0 <= i < parts.len() && (#[trigger] parts[i]).1 == Atomic::Double,
        None => false,
    }
}

/// Whether a numeric operand is a logical one's coercion away from a condition.
pub open spec fn is_coercible(ty: TyV) -> bool {
    ty == TyV::Scalar(Atomic::Logical) || ty == TyV::Scalar(Atomic::Integer) || ty == TyV::Scalar(
        Atomic::Double,
    )
}

/// Whether `!` goes through a vector's element.
pub open spec fn inverts_element(element: TyV) -> bool {
    is_coercible(element) || element is Var || element is Any || element is Unknown
}

pub open spec fn families_differ(left: Seq<ComparedV>, right: Seq<ComparedV>) -> bool {
    exists|i: int, j: int|
        0 <= i < left.len() && 0 <= j < right.len() && (#[trigger] left[i]).1 != (
        #[trigger] right[j]).1
}

pub open spec fn all_numeric(parts: Option<Seq<ComparedV>>) -> bool {
    match parts {
        Some(parts) => forall|i: int|
            0 <= i < parts.len() ==> (#[trigger] parts[i]).1 == ComparisonFamily::Numeric,
        None => false,
    }
}

/// The shapes an operand of a comparison can take.
pub open spec fn compared_shapes(
    parts: Option<Seq<ComparedV>>,
    flexible: Option<(OperandShape, Option<TyV>)>,
) -> Seq<OperandShape> {
    match (parts, flexible) {
        (Some(parts), _) => Seq::new(parts.len(), |i: int| parts[i].0),
        (None, Some((shape, _))) => seq![shape],
        (None, None) => seq![OperandShape::Scalar],
    }
}

pub open spec fn logical_row(shape: OperandShape, others: Seq<OperandShape>, upto: nat) -> Seq<TyV>
    decreases upto,
{
    if upto == 0 {
        Seq::empty()
    } else {
        logical_row(shape, others, (upto - 1) as nat).push(
            operands::shaped_type(operands::wider(shape, others[upto - 1]), Atomic::Logical),
        )
    }
}

/// The results of comparing every pair of shapes.
pub open spec fn logical_results(
    left: Seq<OperandShape>,
    right: Seq<OperandShape>,
    upto: nat,
) -> Seq<TyV>
    decreases upto,
{
    if upto == 0 {
        Seq::empty()
    } else {
        logical_results(left, right, (upto - 1) as nat) + logical_row(
            left[upto - 1],
            right,
            right.len(),
        )
    }
}

/// A positional argument.
pub open spec fn positional_argument(m: Module, value: ExprId, ty: TyV) -> CallArgumentV {
    CallArgumentV {
        name: None,
        name_range: None,
        ty: Some(ty),
        range: checking::blame_range(m, value),
        value: Some(value),
        whole_double: operands::whole_double(m, value),
        forwards_dots: false,
    }
}

/// The call an operator makes.
pub open spec fn operator_call(
    m: Module,
    range: TextRange,
    lhs: ExprId,
    rhs: ExprId,
    left: TyV,
    right: TyV,
) -> CallV {
    CallV {
        module: m,
        range,
        callee_range: range,
        arguments: seq![positional_argument(m, lhs, left), positional_argument(m, rhs, right)],
    }
}

/// The name of a class's method.
pub open spec fn method_name(generic: Seq<char>, class: Seq<char>) -> Seq<char> {
    generic.push('.') + class
}

/// The class of a nominal.
pub open spec fn class_of(t: TableV, ty: TyV) -> Option<Seq<char>> {
    match t.shallow(ty) {
        TyV::Named(name, _) => Some(name),
        _ => None,
    }
}

impl ItemV {
    /// The candidates a method name declares.
    pub open spec fn method_candidates(self, method: Seq<char>) -> Seq<SchemeV> {
        match self.candidates(method, false) {
            Some(candidates) => candidates,
            None => match self.scheme(method, false) {
                Some(scheme) => seq![scheme],
                None => Seq::empty(),
            },
        }
    }

    /// The candidates a class declares for an operator: the operator's own
    /// method, then the group's, then `Ops`.
    pub open spec fn class_candidates(
        self,
        spelling: Seq<char>,
        group: Seq<char>,
        class: Option<Seq<char>>,
    ) -> Seq<SchemeV> {
        match class {
            Some(class) => self.method_candidates(method_name(spelling, class))
                + self.method_candidates(method_name(group, class)) + self.method_candidates(
                method_name("Ops"@, class),
            ),
            None => Seq::empty(),
        }
    }

    /// The candidates of both operands' classes, the left one's first.
    pub open spec fn operator_candidates(
        self,
        t: TableV,
        operator: BinaryOperator,
        left: TyV,
        right: TyV,
    ) -> Seq<SchemeV> {
        match (operands::spelling_of(operator), operands::group_of(operator)) {
            (Some(spelling), Some(group)) => self.class_candidates(
                spelling,
                group,
                class_of(t, left),
            ) + self.class_candidates(spelling, group, class_of(t, right)),
            _ => Seq::empty(),
        }
    }
}

impl CheckV {
    pub open spec fn invalid_operand(
        self,
        range: TextRange,
        expected: OperandExpectation,
        found: TyV,
    ) -> (CheckV, TyV) {
        (self.fail(range, TypeErrorKindV::InvalidOperand { expected, found }), TyV::Unknown)
    }

    pub open spec fn constrain_opt(self, m: Module, range: TextRange, ty: Option<TyV>) -> CheckV {
        match ty {
            Some(ty) => self.constrain_numeric(m, range, ty),
            None => self,
        }
    }

    /// Unary minus gives the numeric mode and the shape of a concrete operand, a
    /// union member by member: a logical becomes an integer, and a vector loses its
    /// names. Any other numeric operand keeps its type.
    pub open spec fn negated(self, m: Module, range: TextRange, resolved: TyV) -> (CheckV, TyV) {
        match operands::numeric_operand(self.table, resolved) {
            NumericV::Concrete(parts) => (self, TyV::union_of(part_types(parts, parts.len()))),
            NumericV::Flexible(ty) => (self.constrain_numeric(m, range, ty), ty),
            NumericV::FlexibleVector(element) => (self.constrain_opt(m, range, element), resolved),
            NumericV::AnyUnknown => (self, TyV::Unknown),
            NumericV::Invalid => self.invalid_operand(range, OperandExpectation::Numeric, resolved),
        }
    }

    /// `!` gives a logical.
    pub open spec fn inverted(self, m: Module, range: TextRange, resolved: TyV) -> (CheckV, TyV) {
        match resolved {
            TyV::Any | TyV::Unknown => (self, TyV::Unknown),
            TyV::Var(_) | TyV::Rigid(_) => (
                self.unify_or_report(m, range, TyV::Scalar(Atomic::Logical), resolved),
                TyV::Scalar(Atomic::Logical),
            ),
            TyV::Scalar(_) => if is_coercible(resolved) {
                (self, TyV::Scalar(Atomic::Logical))
            } else {
                self.invalid_operand(range, OperandExpectation::Logical, resolved)
            },
            TyV::Vector(element) => self.inverted_vector(range, *element, resolved),
            TyV::NamedVector(element) => self.inverted_vector(range, *element, resolved),
            _ => self.invalid_operand(range, OperandExpectation::Logical, resolved),
        }
    }

    pub open spec fn inverted_vector(self, range: TextRange, element: TyV, resolved: TyV) -> (
        CheckV,
        TyV,
    ) {
        if inverts_element(element) {
            (self, vector_of(Atomic::Logical))
        } else {
            self.invalid_operand(range, OperandExpectation::Logical, resolved)
        }
    }

    /// The representative of the flexible operands, which are tied together.
    pub open spec fn tie_flexible(
        self,
        m: Module,
        range: TextRange,
        left: NumericV,
        right: NumericV,
    ) -> (CheckV, Result<Option<TyV>, ()>) {
        match (left, right) {
            (NumericV::Flexible(a), NumericV::Flexible(b)) => {
                let (table, outcome) = self.table.unify(a, b);
                match outcome {
                    Ok(()) => (self.with_table(table), Ok(Some(a))),
                    Err(error) => (
                        self.with_table(table).report_unify(m, range, error),
                        Err(()),
                    ),
                }
            },
            (NumericV::Flexible(a), _) => (self, Ok(Some(a))),
            (_, NumericV::Flexible(b)) => (self, Ok(Some(b))),
            _ => (self, Ok(None)),
        }
    }

    /// Arithmetic with a vector whose element is not concrete: the shape is
    /// known, the mode is not.
    pub open spec fn flexible_vector_result(
        self,
        m: Module,
        range: TextRange,
        left: NumericV,
        right: NumericV,
        always_double: bool,
    ) -> (CheckV, TyV) {
        if always_double || forces_double(either_parts(left, right)) {
            (self, vector_of(Atomic::Double))
        } else {
            match (left, right) {
                (NumericV::FlexibleVector(Some(a)), NumericV::FlexibleVector(Some(b))) => {
                    let (table, outcome) = self.table.unify(a, b);
                    match outcome {
                        Ok(()) => (self.with_table(table), TyV::Vector(Box::new(a))),
                        Err(error) => (
                            self.with_table(table).report_unify(m, range, error),
                            TyV::Unknown,
                        ),
                    }
                },
                (NumericV::FlexibleVector(None), _) | (_, NumericV::FlexibleVector(None)) => (
                    self,
                    TyV::Vector(Box::new(TyV::Unknown)),
                ),
                (NumericV::FlexibleVector(Some(a)), _) => (self, TyV::Vector(Box::new(a))),
                (_, NumericV::FlexibleVector(Some(b))) => (self, TyV::Vector(Box::new(b))),
                _ => (self, TyV::Vector(Box::new(TyV::Unknown))),
            }
        }
    }

    /// Arithmetic of a flexible operand with a concrete one, or with another
    /// flexible one.
    pub open spec fn flexible_result(
        self,
        m: Module,
        range: TextRange,
        flexible: TyV,
        parts: Option<Seq<PartV>>,
        always_double: bool,
    ) -> (CheckV, TyV) {
        let double = TyV::Scalar(Atomic::Double);
        match parts {
            Some(parts) => if parts.len() > 1 {
                (
                    self.unify_or_report(m, range, flexible, double),
                    TyV::union_of(
                        operands::numeric_results(
                            seq![(OperandShape::Scalar, Atomic::Double)],
                            parts,
                            always_double,
                            1,
                        ),
                    ),
                )
            } else if parts.len() == 1 && (always_double || parts[0].1 == Atomic::Double) {
                (self, operands::shaped_type(parts[0].0, Atomic::Double))
            } else if parts.len() == 1 && parts[0].0 == OperandShape::Vector {
                (self.unify_or_report(m, range, flexible, double), vector_of(Atomic::Double))
            } else if always_double {
                (self, double)
            } else {
                (self, flexible)
            },
            None => if always_double {
                (self, double)
            } else {
                (self, flexible)
            },
        }
    }

    /// Arithmetic of two operands of the given structural types.
    pub open spec fn arithmetic(
        self,
        m: Module,
        range: TextRange,
        ranges: (TextRange, TextRange),
        left_ty: TyV,
        right_ty: TyV,
        always_double: bool,
    ) -> (CheckV, TyV) {
        let left = operands::numeric_operand(self.table, left_ty);
        let right = operands::numeric_operand(self.table, right_ty);
        if left is Invalid {
            self.invalid_operand(ranges.0, OperandExpectation::Numeric, left_ty)
        } else if right is Invalid {
            self.invalid_operand(ranges.1, OperandExpectation::Numeric, right_ty)
        } else if left is AnyUnknown || right is AnyUnknown {
            (self, TyV::Unknown)
        } else {
            let (tied, flexible) = self.tie_flexible(m, range, left, right);
            match flexible {
                Err(()) => (tied, TyV::Unknown),
                Ok(flexible) => {
                    let ready = tied.constrain_opt(m, range, flexible).constrain_opt(
                        m,
                        range,
                        flexible_element(left),
                    ).constrain_opt(m, range, flexible_element(right));
                    ready.arithmetic_result(m, range, left, right, flexible, always_double)
                },
            }
        }
    }

    pub open spec fn arithmetic_result(
        self,
        m: Module,
        range: TextRange,
        left: NumericV,
        right: NumericV,
        flexible: Option<TyV>,
        always_double: bool,
    ) -> (CheckV, TyV) {
        if left is FlexibleVector || right is FlexibleVector {
            self.flexible_vector_result(m, range, left, right, always_double)
        } else {
            match (left, right) {
                (NumericV::Concrete(a), NumericV::Concrete(b)) => (
                    self,
                    TyV::union_of(operands::numeric_results(a, b, always_double, a.len())),
                ),
                _ => match flexible {
                    Some(flexible) => self.flexible_result(
                        m,
                        range,
                        flexible,
                        either_parts(left, right),
                        always_double,
                    ),
                    None => (self, TyV::Unknown),
                },
            }
        }
    }

    /// Comparison of two operands of the given structural types.
    pub open spec fn compared(
        self,
        m: Module,
        ranges: (TextRange, TextRange),
        left: TyV,
        right: TyV,
    ) -> (CheckV, TyV) {
        let left_parts = operands::compared_list(left);
        let right_parts = operands::compared_list(right);
        let left_flexible = operands::compared_flexible(left);
        let right_flexible = operands::compared_flexible(right);
        if left is Any || left is Unknown || right is Any || right is Unknown {
            (self, TyV::Unknown)
        } else if left_parts is None && left_flexible is None {
            self.invalid_operand(ranges.0, OperandExpectation::Comparable, left)
        } else if right_parts is None && right_flexible is None {
            self.invalid_operand(ranges.1, OperandExpectation::Comparable, right)
        } else if left_parts is Some && right_parts is Some && families_differ(
            left_parts->0,
            right_parts->0,
        ) {
            (
                self.fail(
                    ranges.1,
                    TypeErrorKindV::Mismatch { expected: left, found: right },
                ),
                TyV::Unknown,
            )
        } else {
            let first = self.constrain_compared(m, ranges.0, left_flexible, right_parts);
            let second = first.constrain_compared(m, ranges.1, right_flexible, left_parts);
            let left_shapes = compared_shapes(left_parts, left_flexible);
            let right_shapes = compared_shapes(right_parts, right_flexible);
            (
                second,
                TyV::union_of(logical_results(left_shapes, right_shapes, left_shapes.len())),
            )
        }
    }

    /// A flexible operand compared with numbers must be numeric.
    pub open spec fn constrain_compared(
        self,
        m: Module,
        range: TextRange,
        flexible: Option<(OperandShape, Option<TyV>)>,
        others: Option<Seq<ComparedV>>,
    ) -> CheckV {
        match flexible {
            Some((_, ty)) => if all_numeric(others) {
                self.constrain_opt(m, range, ty)
            } else {
                self
            },
            None => self,
        }
    }

    /// One end of a sequence, of the given structural type: the mode the sequence
    /// has after it, or none where it has failed.
    pub open spec fn colon_end(
        self,
        m: Module,
        range: TextRange,
        whole: bool,
        resolved: TyV,
        atomic: Atomic,
    ) -> (CheckV, Option<Atomic>) {
        let refused = self.fail(
            range,
            TypeErrorKindV::InvalidOperand {
                expected: OperandExpectation::ScalarNumeric,
                found: resolved,
            },
        );
        match resolved {
            TyV::Scalar(own) => if own == Atomic::Integer || (own == Atomic::Double && whole) {
                (self, Some(atomic))
            } else if own == Atomic::Double {
                (self, Some(Atomic::Double))
            } else {
                (refused, None)
            },
            TyV::Any | TyV::Unknown => (self, None),
            TyV::Var(var) => {
                let (table, outcome) = self.table.constrain(var, Constraint::ScalarNumeric);
                match outcome {
                    Ok(()) => (self.with_table(table), Some(Atomic::Double)),
                    Err(error) => (self.with_table(table).report_unify(m, range, error), None),
                }
            },
            TyV::Rigid(name) => if table::binder_constraint(self.table.binders, name) == Some(
                Constraint::ScalarNumeric,
            ) {
                (self, Some(Atomic::Double))
            } else {
                (refused, None)
            },
            _ => (refused, None),
        }
    }

    /// An operator on a class that declares it: the result of the first candidate
    /// that fits. `None` where no operand's class declares anything.
    pub open spec fn operator_method(
        self,
        item: ItemV,
        operator: BinaryOperator,
        call: CallV,
        left: TyV,
        right: TyV,
    ) -> Option<(CheckV, TyV)> {
        let candidates = item.operator_candidates(self.table, operator, left, right);
        match operands::spelling_of(operator) {
            Some(spelling) => if candidates.len() == 0 {
                None
            } else {
                match self.table.first_fit(call, candidates, 0) {
                    Some((table, function)) => Some((self.with_table(table), function.ret)),
                    None => Some(
                        (
                            self.fail(
                                call.range,
                                TypeErrorKindV::UnsupportedOperandPair {
                                    operator: spelling,
                                    left,
                                    right,
                                },
                            ),
                            TyV::Unknown,
                        ),
                    ),
                }
            },
            None => None,
        }
    }

    /// An operator over inferred operands.
    pub open spec fn operated(
        self,
        item: ItemV,
        range: TextRange,
        operator: BinaryOperator,
        lhs: ExprId,
        rhs: ExprId,
        left: TyV,
        right: TyV,
    ) -> (CheckV, TyV) {
        let m = item.module;
        let ranges = (checking::blame_range(m, lhs), checking::blame_range(m, rhs));
        match self.operator_method(
            item,
            operator,
            operator_call(m, range, lhs, rhs, left, right),
            left,
            right,
        ) {
            Some(outcome) => outcome,
            None => if operands::is_comparison(operator) {
                self.compared(
                    m,
                    ranges,
                    self.table.structural(left),
                    self.table.structural(right),
                )
            } else {
                self.arithmetic(
                    m,
                    range,
                    ranges,
                    self.table.structural(left),
                    self.table.structural(right),
                    operator == BinaryOperator::Divide || operator == BinaryOperator::Power,
                )
            },
        }
    }
}

fn vector(atomic: Atomic) -> (r: Ty)
    ensures
        r@ == vector_of(atomic),
{
    Ty::new(TyKind::Vector(scalar(atomic)))
}

fn types_of_parts(parts: &Vec<(OperandShape, Atomic)>) -> (r: Vec<Ty>)
    ensures
        types::tys(r@) == part_types(parts@, parts@.len()),
{
    let mut out: Vec<Ty> = Vec::new();
    let mut i: usize = 0;
    assert(types::tys(out@) =~= Seq::empty());
    while i < parts.len()
        invariant
            i <= parts.len(),
            types::tys(out@) == part_types(parts@, i as nat),
        decreases parts.len() - i,
    {
        out.push(shaped(parts[i].0, parts[i].1));
        i += 1;
    }
    out
}

fn coercible(ty: &Ty) -> (r: bool)
    ensures
        r == is_coercible(ty@),
{
    match ty.kind() {
        TyKind::Scalar(Atomic::Logical) | TyKind::Scalar(Atomic::Integer)
        | TyKind::Scalar(Atomic::Double) => true,
        _ => false,
    }
}

fn parts_force_double(parts: &Vec<(OperandShape, Atomic)>) -> (r: bool)
    ensures
        r == forces_double(Some(parts@)),
{
    if parts.len() > 1 {
        return true;
    }
    let mut i: usize = 0;
    while i < parts.len()
        invariant
            i <= parts.len(),
            parts.len() <= 1,
            forall|j: int| 0 <= j < i ==> (#[trigger] parts@[j]).1 != Atomic::Double,
        decreases parts.len() - i,
    {
        if parts[i].1 == Atomic::Double {
            return true;
        }
        i += 1;
    }
    false
}

fn any_family_differs(
    left: &Vec<(OperandShape, ComparisonFamily)>,
    right: &Vec<(OperandShape, ComparisonFamily)>,
) -> (r: bool)
    ensures
        r == families_differ(left@, right@),
{
    let mut i: usize = 0;
    while i < left.len()
        invariant
            i <= left.len(),
            forall|k: int, j: int|
                0 <= k < i && 0 <= j < right@.len() ==> (#[trigger] left@[k]).1 == (
                #[trigger] right@[j]).1,
        decreases left.len() - i,
    {
        let mut j: usize = 0;
        while j < right.len()
            invariant
                i < left.len(),
                j <= right.len(),
                forall|k: int| 0 <= k < j ==> left@[i as int].1 == (#[trigger] right@[k]).1,
            decreases right.len() - j,
        {
            if left[i].1 != right[j].1 {
                assert(left@[i as int].1 != right@[j as int].1);
                return true;
            }
            j += 1;
        }
        i += 1;
    }
    false
}

fn parts_are_numeric(parts: &Option<Vec<(OperandShape, ComparisonFamily)>>) -> (r: bool)
    ensures
        r == all_numeric(operands::opt_compared(*parts)),
{
    match parts {
        Some(list) => {
            let mut i: usize = 0;
            while i < list.len()
                invariant
                    i <= list.len(),
                    *parts == Some(*list),
                    forall|j: int|
                        0 <= j < i ==> (#[trigger] list@[j]).1 == ComparisonFamily::Numeric,
                decreases list.len() - i,
            {
                if list[i].1 != ComparisonFamily::Numeric {
                    assert(list@[i as int].1 != ComparisonFamily::Numeric);
                    return false;
                }
                i += 1;
            }
            true
        },
        None => false,
    }
}

fn shapes(
    parts: &Option<Vec<(OperandShape, ComparisonFamily)>>,
    flexible: &Option<(OperandShape, Option<Ty>)>,
) -> (r: Vec<OperandShape>)
    ensures
        r@ == compared_shapes(operands::opt_compared(*parts), operands::opt_flexible(*flexible)),
{
    let mut out: Vec<OperandShape> = Vec::new();
    match parts {
        Some(parts) => {
            let mut i: usize = 0;
            while i < parts.len()
                invariant
                    i <= parts.len(),
                    out@ =~= Seq::new(i as nat, |k: int| parts@[k].0),
                decreases parts.len() - i,
            {
                out.push(parts[i].0);
                i += 1;
            }
        },
        None => match flexible {
            Some((shape, _)) => {
                out.push(*shape);
            },
            None => {
                out.push(OperandShape::Scalar);
            },
        },
    }
    assert(out@ =~= compared_shapes(
        operands::opt_compared(*parts),
        operands::opt_flexible(*flexible),
    ));
    out
}

fn logical_types(left: &Vec<OperandShape>, right: &Vec<OperandShape>) -> (r: Vec<Ty>)
    ensures
        types::tys(r@) == logical_results(left@, right@, left@.len()),
{
    let mut results: Vec<Ty> = Vec::new();
    let mut i: usize = 0;
    assert(types::tys(results@) =~= Seq::empty());
    while i < left.len()
        invariant
            i <= left.len(),
            types::tys(results@) == logical_results(left@, right@, i as nat),
        decreases left.len() - i,
    {
        let ghost before = types::tys(results@);
        let mut j: usize = 0;
        assert(before + logical_row(left@[i as int], right@, 0) =~= before);
        while j < right.len()
            invariant
                i < left.len(),
                j <= right.len(),
                types::tys(results@) == before + logical_row(left@[i as int], right@, j as nat),
            decreases right.len() - j,
        {
            let ghost row = logical_row(left@[i as int], right@, j as nat);
            results.push(shaped(wider_shape(left[i], right[j]), Atomic::Logical));
            assert(types::tys(results@) =~= before + row.push(
                operands::shaped_type(
                    operands::wider(left@[i as int], right@[j as int]),
                    Atomic::Logical,
                ),
            ));
            j += 1;
        }
        i += 1;
    }
    results
}

/// The name of a class's method.
pub fn method_text(generic: &str, class: &str) -> (r: String)
    ensures
        r@ == method_name(generic@, class@),
{
    let mut text = chars_of(generic);
    text.push('.');
    let mut rest = chars_of(class);
    text.append(&mut rest);
    assert(text@ =~= method_name(generic@, class@));
    string_of(&text)
}

/// A positional argument.
pub fn operand_argument(module: &Module, value: ExprId, ty: Ty) -> (r: CallArgument)
    requires
        module.wf(),
        module.holds(value),
    ensures
        r@ == positional_argument(*module, value, ty@),
{
    CallArgument {
        name: None,
        name_range: None,
        ty: Some(ty),
        range: blame_range(module, value),
        value: Some(value),
        whole_double: is_whole_double(module, value),
        forwards_dots: false,
    }
}

/// The arguments of the call an operator makes.
pub fn operator_arguments(module: &Module, lhs: ExprId, rhs: ExprId, left: &Ty, right: &Ty) -> (r:
    Vec<CallArgument>)
    requires
        module.wf(),
        module.holds(lhs),
        module.holds(rhs),
    ensures
        calls::arguments_view(r@) == seq![
            positional_argument(*module, lhs, left@),
            positional_argument(*module, rhs, right@),
        ],
        calls::values_held(*module, calls::arguments_view(r@)),
{
    let mut arguments: Vec<CallArgument> = Vec::new();
    arguments.push(operand_argument(module, lhs, left.clone()));
    arguments.push(operand_argument(module, rhs, right.clone()));
    assert(calls::arguments_view(arguments@) =~= seq![
        positional_argument(*module, lhs, left@),
        positional_argument(*module, rhs, right@),
    ]);
    arguments
}

impl<'a, G: GlobalEnv> Checker<'a, G> {
    fn invalid_operand(&mut self, range: TextRange, expected: OperandExpectation, found: &Ty) -> (r:
        Ty)
        requires
            old(self).wf(),
        ensures
            final(self).follows(old(self)),
            (final(self)@, r@) == old(self)@.invalid_operand(range, expected, found@),
    {
        self.fail(range, TypeErrorKind::InvalidOperand { expected, found: found.clone() });
        unknown()
    }

    fn constrain_opt(&mut self, range: TextRange, ty: &Option<Ty>)
        requires
            old(self).wf(),
        ensures
            final(self).follows(old(self)),
            final(self)@ == old(self)@.constrain_opt(
                old(self).item().module,
                range,
                types::opt_ty(*ty),
            ),
    {
        if let Some(ty) = ty {
            self.constrain_numeric_flexible(range, ty);
        }
    }

    /// Unary minus on an operand of a structural type.
    pub fn negate(&mut self, range: TextRange, resolved: &Ty) -> (r: Ty)
        requires
            old(self).wf(),
        ensures
            final(self).follows(old(self)),
            (final(self)@, r@) == old(self)@.negated(old(self).item().module, range, resolved@),
    {
        match classify_numeric_operand(self.table(), resolved) {
            NumericOperand::Concrete(parts) => union_of(&types_of_parts(&parts)),
            NumericOperand::Flexible(ty) => {
                self.constrain_numeric_flexible(range, &ty);
                ty
            },
            NumericOperand::FlexibleVector(element) => {
                self.constrain_opt(range, &element);
                resolved.clone()
            },
            NumericOperand::AnyUnknown => unknown(),
            NumericOperand::Invalid => self.invalid_operand(
                range,
                OperandExpectation::Numeric,
                resolved,
            ),
        }
    }

    /// `!` on an operand of a structural type.
    pub fn invert(&mut self, range: TextRange, resolved: &Ty) -> (r: Ty)
        requires
            old(self).wf(),
        ensures
            final(self).follows(old(self)),
            (final(self)@, r@) == old(self)@.inverted(old(self).item().module, range, resolved@),
    {
        match resolved.kind() {
            TyKind::Any | TyKind::Unknown => unknown(),
            TyKind::Var(_) | TyKind::Rigid(_) => {
                self.unify_or_report(range, &scalar(Atomic::Logical), resolved);
                scalar(Atomic::Logical)
            },
            TyKind::Scalar(_) => {
                if coercible(resolved) {
                    scalar(Atomic::Logical)
                } else {
                    self.invalid_operand(range, OperandExpectation::Logical, resolved)
                }
            },
            TyKind::Vector(element) | TyKind::NamedVector(element) => {
                let inverts = coercible(element) || match element.kind() {
                    TyKind::Var(_) | TyKind::Any | TyKind::Unknown => true,
                    _ => false,
                };
                if inverts {
                    vector(Atomic::Logical)
                } else {
                    self.invalid_operand(range, OperandExpectation::Logical, resolved)
                }
            },
            _ => self.invalid_operand(range, OperandExpectation::Logical, resolved),
        }
    }

    fn tie_flexible(&mut self, range: TextRange, left: &NumericOperand, right: &NumericOperand) -> (r:
        Result<Option<Ty>, ()>)
        requires
            old(self).wf(),
        ensures
            final(self).follows(old(self)),
            final(self)@ == old(self)@.tie_flexible(
                old(self).item().module,
                range,
                left@,
                right@,
            ).0,
            (match r {
                Ok(ty) => Ok(types::opt_ty(ty)),
                Err(()) => Err(()),
            }) == old(self)@.tie_flexible(old(self).item().module, range, left@, right@).1,
    {
        match (left, right) {
            (NumericOperand::Flexible(a), NumericOperand::Flexible(b)) => {
                match self.unify(a, b) {
                    Ok(()) => Ok(Some(a.clone())),
                    Err(error) => {
                        self.report_unify(range, error);
                        Err(())
                    },
                }
            },
            (NumericOperand::Flexible(a), _) => Ok(Some(a.clone())),
            (_, NumericOperand::Flexible(b)) => Ok(Some(b.clone())),
            _ => Ok(None),
        }
    }

    fn flexible_vector_result(
        &mut self,
        range: TextRange,
        left: &NumericOperand,
        right: &NumericOperand,
        always_double: bool,
    ) -> (r: Ty)
        requires
            old(self).wf(),
        ensures
            final(self).follows(old(self)),
            (final(self)@, r@) == old(self)@.flexible_vector_result(
                old(self).item().module,
                range,
                left@,
                right@,
                always_double,
            ),
    {
        let forces = match (left, right) {
            (NumericOperand::Concrete(parts), _) => parts_force_double(parts),
            (_, NumericOperand::Concrete(parts)) => parts_force_double(parts),
            _ => false,
        };
        if always_double || forces {
            return vector(Atomic::Double);
        }
        match (left, right) {
            (
                NumericOperand::FlexibleVector(Some(a)),
                NumericOperand::FlexibleVector(Some(b)),
            ) => match self.unify(a, b) {
                Ok(()) => Ty::new(TyKind::Vector(a.clone())),
                Err(error) => {
                    self.report_unify(range, error);
                    unknown()
                },
            },
            (NumericOperand::FlexibleVector(None), _)
            | (_, NumericOperand::FlexibleVector(None)) => Ty::new(TyKind::Vector(unknown())),
            (NumericOperand::FlexibleVector(Some(a)), _) => Ty::new(TyKind::Vector(a.clone())),
            (_, NumericOperand::FlexibleVector(Some(b))) => Ty::new(TyKind::Vector(b.clone())),
            _ => Ty::new(TyKind::Vector(unknown())),
        }
    }

    fn flexible_result(
        &mut self,
        range: TextRange,
        flexible: &Ty,
        parts: Option<&Vec<(OperandShape, Atomic)>>,
        always_double: bool,
    ) -> (r: Ty)
        requires
            old(self).wf(),
        ensures
            final(self).follows(old(self)),
            (final(self)@, r@) == old(self)@.flexible_result(
                old(self).item().module,
                range,
                flexible@,
                match parts {
                    Some(parts) => Some(parts@),
                    None => None,
                },
                always_double,
            ),
    {
        let double = scalar(Atomic::Double);
        if let Some(parts) = parts {
            if parts.len() > 1 {
                self.unify_or_report(range, flexible, &double);
                let mut one: Vec<(OperandShape, Atomic)> = Vec::new();
                one.push((OperandShape::Scalar, Atomic::Double));
                assert(one@ =~= seq![(OperandShape::Scalar, Atomic::Double)]);
                return union_of(&member_wise_numeric_results(&one, parts, always_double));
            }
            if parts.len() == 1 {
                if always_double || parts[0].1 == Atomic::Double {
                    return shaped(parts[0].0, Atomic::Double);
                }
                if parts[0].0 == OperandShape::Vector {
                    self.unify_or_report(range, flexible, &double);
                    return vector(Atomic::Double);
                }
            }
        }
        if always_double {
            double
        } else {
            flexible.clone()
        }
    }

    fn arithmetic_result(
        &mut self,
        range: TextRange,
        left: &NumericOperand,
        right: &NumericOperand,
        flexible: &Option<Ty>,
        always_double: bool,
    ) -> (r: Ty)
        requires
            old(self).wf(),
        ensures
            final(self).follows(old(self)),
            (final(self)@, r@) == old(self)@.arithmetic_result(
                old(self).item().module,
                range,
                left@,
                right@,
                types::opt_ty(*flexible),
                always_double,
            ),
    {
        match (left, right) {
            (NumericOperand::FlexibleVector(_), _) | (_, NumericOperand::FlexibleVector(_)) => {
                return self.flexible_vector_result(range, left, right, always_double);
            },
            (NumericOperand::Concrete(a), NumericOperand::Concrete(b)) => {
                return union_of(&member_wise_numeric_results(a, b, always_double));
            },
            _ => {},
        }
        match flexible {
            Some(flexible) => match (left, right) {
                (NumericOperand::Concrete(parts), _) => self.flexible_result(
                    range,
                    flexible,
                    Some(parts),
                    always_double,
                ),
                (_, NumericOperand::Concrete(parts)) => self.flexible_result(
                    range,
                    flexible,
                    Some(parts),
                    always_double,
                ),
                _ => self.flexible_result(range, flexible, None, always_double),
            },
            None => unknown(),
        }
    }

    fn infer_binary_numeric(
        &mut self,
        range: TextRange,
        ranges: (TextRange, TextRange),
        left_ty: &Ty,
        right_ty: &Ty,
        always_double: bool,
    ) -> (r: Ty)
        requires
            old(self).wf(),
        ensures
            final(self).follows(old(self)),
            (final(self)@, r@) == old(self)@.arithmetic(
                old(self).item().module,
                range,
                ranges,
                left_ty@,
                right_ty@,
                always_double,
            ),
    {
        let left = classify_numeric_operand(self.table(), left_ty);
        let right = classify_numeric_operand(self.table(), right_ty);
        if let NumericOperand::Invalid = left {
            return self.invalid_operand(ranges.0, OperandExpectation::Numeric, left_ty);
        }
        if let NumericOperand::Invalid = right {
            return self.invalid_operand(ranges.1, OperandExpectation::Numeric, right_ty);
        }
        if let NumericOperand::AnyUnknown = left {
            return unknown();
        }
        if let NumericOperand::AnyUnknown = right {
            return unknown();
        }
        let flexible = match self.tie_flexible(range, &left, &right) {
            Ok(flexible) => flexible,
            Err(()) => {
                return unknown();
            },
        };
        self.constrain_opt(range, &flexible);
        if let NumericOperand::FlexibleVector(element) = &left {
            self.constrain_opt(range, element);
        }
        if let NumericOperand::FlexibleVector(element) = &right {
            self.constrain_opt(range, element);
        }
        self.arithmetic_result(range, &left, &right, &flexible, always_double)
    }

    fn constrain_compared(
        &mut self,
        range: TextRange,
        flexible: &Option<(OperandShape, Option<Ty>)>,
        others: &Option<Vec<(OperandShape, ComparisonFamily)>>,
    )
        requires
            old(self).wf(),
        ensures
            final(self).follows(old(self)),
            final(self)@ == old(self)@.constrain_compared(
                old(self).item().module,
                range,
                operands::opt_flexible(*flexible),
                operands::opt_compared(*others),
            ),
    {
        if let Some((_, ty)) = flexible {
            if parts_are_numeric(others) {
                self.constrain_opt(range, ty);
            }
        }
    }

    fn infer_compare(&mut self, ranges: (TextRange, TextRange), left: &Ty, right: &Ty) -> (r: Ty)
        requires
            old(self).wf(),
        ensures
            final(self).follows(old(self)),
            (final(self)@, r@) == old(self)@.compared(
                old(self).item().module,
                ranges,
                left@,
                right@,
            ),
    {
        if is_tolerated(left) || is_tolerated(right) {
            return unknown();
        }
        let left_parts = comparison_operand_parts_list(left);
        let right_parts = comparison_operand_parts_list(right);
        let left_flexible = flexible_comparison_operand(left);
        let right_flexible = flexible_comparison_operand(right);
        if left_parts.is_none() && left_flexible.is_none() {
            return self.invalid_operand(ranges.0, OperandExpectation::Comparable, left);
        }
        if right_parts.is_none() && right_flexible.is_none() {
            return self.invalid_operand(ranges.1, OperandExpectation::Comparable, right);
        }
        let differ = match (&left_parts, &right_parts) {
            (Some(a), Some(b)) => any_family_differs(a, b),
            _ => false,
        };
        if differ {
            self.fail(
                ranges.1,
                TypeErrorKind::Mismatch { expected: left.clone(), found: right.clone() },
            );
            return unknown();
        }
        self.constrain_compared(ranges.0, &left_flexible, &right_parts);
        self.constrain_compared(ranges.1, &right_flexible, &left_parts);
        let left_shapes = shapes(&left_parts, &left_flexible);
        let right_shapes = shapes(&right_parts, &right_flexible);
        union_of(&logical_types(&left_shapes, &right_shapes))
    }

    /// One end of a sequence, of the given structural type.
    pub fn colon_end(&mut self, range: TextRange, whole: bool, resolved: &Ty, atomic: Atomic) -> (r:
        Option<Atomic>)
        requires
            old(self).wf(),
        ensures
            final(self).follows(old(self)),
            (final(self)@, r) == old(self)@.colon_end(
                old(self).item().module,
                range,
                whole,
                resolved@,
                atomic,
            ),
    {
        match resolved.kind() {
            TyKind::Scalar(Atomic::Integer) => {
                return Some(atomic);
            },
            TyKind::Scalar(Atomic::Double) => {
                return if whole {
                    Some(atomic)
                } else {
                    Some(Atomic::Double)
                };
            },
            TyKind::Any | TyKind::Unknown => {
                return None;
            },
            TyKind::Var(var) => {
                return match self.constrain(*var, Constraint::ScalarNumeric) {
                    Ok(()) => Some(Atomic::Double),
                    Err(error) => {
                        self.report_unify(range, error);
                        None
                    },
                };
            },
            TyKind::Rigid(name) => {
                if let Some(Constraint::ScalarNumeric) = self.table().rigid_constraint(name) {
                    return Some(Atomic::Double);
                }
            },
            _ => {},
        }
        let _ = self.invalid_operand(range, OperandExpectation::ScalarNumeric, resolved);
        None
    }

    /// The candidates a method name declares, after others.
    fn push_candidates(&self, method: &String, candidates: &mut Vec<TypeScheme>)
        ensures
            schemes::schemes_view(final(candidates)@) == schemes::schemes_view(
                old(candidates)@,
            ) + self.item().method_candidates(method@),
    {
        let ghost before = schemes::schemes_view(candidates@);
        match self.global_candidates(method.as_str(), false) {
            Some(list) => {
                let mut all = list;
                candidates.append(&mut all);
            },
            None => {
                if let Some(scheme) = self.global_scheme(method.as_str(), false) {
                    candidates.push(scheme);
                }
            },
        }
        assert(schemes::schemes_view(candidates@) =~= before + self.item().method_candidates(
            method@,
        ));
    }

    fn push_class_candidates(
        &self,
        spelling: &str,
        group: &str,
        ty: &Ty,
        candidates: &mut Vec<TypeScheme>,
    )
        requires
            self.wf(),
        ensures
            schemes::schemes_view(final(candidates)@) == schemes::schemes_view(
                old(candidates)@,
            ) + self.item().class_candidates(spelling@, group@, class_of(self@.table, ty@)),
    {
        let ghost before = schemes::schemes_view(candidates@);
        let resolved = self.shallow_resolve(ty);
        if let TyKind::Named(name, _) = resolved.kind() {
            let own = method_text(spelling, name.text());
            let grouped = method_text(group, name.text());
            let every = method_text("Ops", name.text());
            self.push_candidates(&own, candidates);
            self.push_candidates(&grouped, candidates);
            self.push_candidates(&every, candidates);
        }
        assert(schemes::schemes_view(candidates@) =~= before + self.item().class_candidates(
            spelling@,
            group@,
            class_of(self@.table, ty@),
        ));
    }

    fn operator_candidates(&self, operator: BinaryOperator, left: &Ty, right: &Ty) -> (r: Vec<
        TypeScheme,
    >)
        requires
            self.wf(),
        ensures
            schemes::schemes_view(r@) == self.item().operator_candidates(
                self@.table,
                operator,
                left@,
                right@,
            ),
    {
        let mut candidates: Vec<TypeScheme> = Vec::new();
        assert(schemes::schemes_view(candidates@) =~= Seq::empty());
        if let (Some(spelling), Some(group)) = (operator_spelling(operator), operator_group(operator)) {
            self.push_class_candidates(spelling, group, left, &mut candidates);
            self.push_class_candidates(spelling, group, right, &mut candidates);
        }
        assert(schemes::schemes_view(candidates@) =~= self.item().operator_candidates(
            self@.table,
            operator,
            left@,
            right@,
        ));
        candidates
    }

    fn operator_method_result(
        &mut self,
        operator: BinaryOperator,
        call: Call,
        left: &Ty,
        right: &Ty,
    ) -> (r: Option<Ty>)
        requires
            old(self).wf(),
            call.wf(),
        ensures
            final(self).follows(old(self)),
            match old(self)@.operator_method(old(self).item(), operator, call@, left@, right@) {
                Some((after, ty)) => final(self)@ == after && types::opt_ty(r) == Some(ty),
                None => final(self)@ == old(self)@ && r is None,
            },
    {
        let spelling = match operator_spelling(operator) {
            Some(spelling) => spelling,
            None => {
                return None;
            },
        };
        let candidates = self.operator_candidates(operator, left, right);
        if candidates.len() == 0 {
            return None;
        }
        match self.first_fit(call, &candidates) {
            Some(function) => Some(function.ret.clone()),
            None => {
                self.fail(
                    call.range,
                    TypeErrorKind::UnsupportedOperandPair {
                        operator: spelling.to_string(),
                        left: left.clone(),
                        right: right.clone(),
                    },
                );
                Some(unknown())
            },
        }
    }

    /// An operator over inferred operands.
    pub fn operate(
        &mut self,
        range: TextRange,
        operator: BinaryOperator,
        lhs: ExprId,
        rhs: ExprId,
        left: &Ty,
        right: &Ty,
    ) -> (r: Ty)
        requires
            old(self).wf(),
            old(self).holds(lhs),
            old(self).holds(rhs),
        ensures
            final(self).follows(old(self)),
            (final(self)@, r@) == old(self)@.operated(
                old(self).item(),
                range,
                operator,
                lhs,
                rhs,
                left@,
                right@,
            ),
    {
        let module = self.module();
        let ranges = (blame_range(module, lhs), blame_range(module, rhs));
        let arguments = operator_arguments(module, lhs, rhs, left, right);
        let call = Call { module, range, callee_range: range, arguments: &arguments };
        assert(call@ == operator_call(*module, range, lhs, rhs, left@, right@));
        if let Some(ty) = self.operator_method_result(operator, call, left, right) {
            return ty;
        }
        let left_ty = self.structural(left);
        let right_ty = self.structural(right);
        if operands::comparison(operator) {
            self.infer_compare(ranges, &left_ty, &right_ty)
        } else {
            let always_double = operator == BinaryOperator::Divide || operator
                == BinaryOperator::Power;
            self.infer_binary_numeric(range, ranges, &left_ty, &right_ty, always_double)
        }
    }
}

} // verus!
