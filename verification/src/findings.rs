//! What a check reports: structured findings, and the places where a type could
//! not be determined.

use vstd::prelude::*;

use crate::explain::{FunctionMismatch, RecordMismatch};
use crate::hir::ExprId;
use crate::syntax::TextRange;
use crate::table::{FunctionMismatchV, RecordMismatchV};
use crate::text::same_string;
use crate::types;
use crate::types::{Constraint, Ty, TyV};

verus! {

broadcast use crate::types::texts_push;

/// A structured type finding.
#[derive(Debug, PartialEq, Eq)]
pub struct TypeError {
    pub range: TextRange,
    pub kind: TypeErrorKind,
}

/// What is wrong.
#[derive(Debug, PartialEq, Eq)]
pub enum TypeErrorKind {
    Mismatch { expected: Ty, found: Ty },
    /// Two record types that differ in one field.
    RecordShape { mismatch: Box<RecordMismatch> },
    NotAFunction { found: Ty },
    /// A read of a formal without a default where `missing(name)` held.
    MissingFormalRead { name: String },
    /// The call's argument count cannot fill the function's formals.
    ArityMismatch { expected: usize, found: usize },
    /// A named argument that matches no formal, or repeats one.
    NamedArgumentMismatch {
        argument: String,
        duplicate: bool,
        suggestion: Option<String>,
        expected_parameters: Vec<String>,
    },
    /// A callee that may be `NULL`.
    MaybeNullCallee { found: Ty },
    /// `@if-unknown` on a value whose type is known.
    KnownTypeUnderIfUnknown { found: Ty },
    /// An annotation requires a parameter that the function gives a default.
    AnnotationRequiredButDefaulted { name: String },
    /// An annotation declares a parameter the definition has no formal for.
    AnnotationParameterMismatch { name: String },
    /// A `NULL` default on a parameter whose declared type does not admit it.
    NullDefaultNotAdmitted { name: String, declared: Ty },
    /// A type alias whose expansion re-enters itself.
    AliasCycle { name: String },
    /// A constraint rejected the value.
    ConstraintViolation { constraint: Constraint, found: Ty },
    /// A function value that does not fit an expected function type in one
    /// position of its signature.
    CallbackShape { mismatch: Box<FunctionMismatch> },
    /// No candidate of an overloaded name accepted the arguments.
    NoMatchingOverload { name: String, candidates: usize, first: Option<Box<TypeError>> },
    /// `[[` on a value without elements.
    NotAList { found: Ty },
    BadVectorIndex { index: Ty },
    /// `[` on a value the slice rules do not cover.
    UnsupportedSubset { found: Ty },
    /// Several, no, or named indexes.
    UnsupportedIndexShape { index_count: usize },
    /// A literal position outside a fixed-shape container, counted from one.
    PositionDoesNotExist { position: usize, container: Ty },
    /// A literal field name that a fixed-shape container does not have.
    FieldDoesNotExist { suggestion: Option<String>, field: String, container: Ty },
    /// `$` on an atomic vector.
    DollarOnAtomicVector { found: Ty },
    /// An operand outside the operator's family.
    InvalidOperand { expected: OperandExpectation, found: Ty },
    /// Operands of a class that declares the operator, but not for this pair.
    UnsupportedOperandPair { operator: String, left: Ty, right: Ty },
    /// A `for` sequence that cannot be iterated.
    NotIterable { found: Ty },
    /// A variable that stands inside the type it would be bound to.
    InfiniteType { variable: Ty, container: Ty },
}

/// What an operator position accepts.
#[derive(Debug, Clone, Copy, PartialEq, Eq, Hash, Structural)]
pub enum OperandExpectation {
    Numeric,
    ScalarNumeric,
    Logical,
    Comparable,
}

/// The model of a finding.
pub struct TypeErrorV {
    pub range: TextRange,
    pub kind: TypeErrorKindV,
}

/// The model of what is wrong.
pub enum TypeErrorKindV {
    Mismatch { expected: TyV, found: TyV },
    RecordShape { mismatch: RecordMismatchV },
    NotAFunction { found: TyV },
    MissingFormalRead { name: Seq<char> },
    ArityMismatch { expected: usize, found: usize },
    NamedArgumentMismatch {
        argument: Seq<char>,
        duplicate: bool,
        suggestion: Option<Seq<char>>,
        expected_parameters: Seq<Seq<char>>,
    },
    MaybeNullCallee { found: TyV },
    KnownTypeUnderIfUnknown { found: TyV },
    AnnotationRequiredButDefaulted { name: Seq<char> },
    AnnotationParameterMismatch { name: Seq<char> },
    NullDefaultNotAdmitted { name: Seq<char>, declared: TyV },
    AliasCycle { name: Seq<char> },
    ConstraintViolation { constraint: Constraint, found: TyV },
    CallbackShape { mismatch: FunctionMismatchV },
    NoMatchingOverload { name: Seq<char>, candidates: usize, first: Option<Box<TypeErrorV>> },
    NotAList { found: TyV },
    BadVectorIndex { index: TyV },
    UnsupportedSubset { found: TyV },
    UnsupportedIndexShape { index_count: usize },
    PositionDoesNotExist { position: usize, container: TyV },
    FieldDoesNotExist { suggestion: Option<Seq<char>>, field: Seq<char>, container: TyV },
    DollarOnAtomicVector { found: TyV },
    InvalidOperand { expected: OperandExpectation, found: TyV },
    UnsupportedOperandPair { operator: Seq<char>, left: TyV, right: TyV },
    NotIterable { found: TyV },
    InfiniteType { variable: TyV, container: TyV },
}

impl TypeError {
    pub open spec fn view(&self) -> TypeErrorV
        decreases self,
    {
        TypeErrorV { range: self.range, kind: self.kind.view() }
    }
}

impl TypeErrorKind {
    pub open spec fn view(&self) -> TypeErrorKindV
        decreases self,
    {
        match self {
            TypeErrorKind::Mismatch { expected, found } => TypeErrorKindV::Mismatch {
                expected: expected@,
                found: found@,
            },
            TypeErrorKind::RecordShape { mismatch } => TypeErrorKindV::RecordShape {
                mismatch: mismatch@,
            },
            TypeErrorKind::NotAFunction { found } => TypeErrorKindV::NotAFunction { found: found@ },
            TypeErrorKind::MissingFormalRead { name } => TypeErrorKindV::MissingFormalRead {
                name: name@,
            },
            TypeErrorKind::ArityMismatch { expected, found } => TypeErrorKindV::ArityMismatch {
                expected: *expected,
                found: *found,
            },
            TypeErrorKind::NamedArgumentMismatch {
                argument,
                duplicate,
                suggestion,
                expected_parameters,
            } => TypeErrorKindV::NamedArgumentMismatch {
                argument: argument@,
                duplicate: *duplicate,
                suggestion: types::opt_text(*suggestion),
                expected_parameters: types::texts(expected_parameters@),
            },
            TypeErrorKind::MaybeNullCallee { found } => TypeErrorKindV::MaybeNullCallee {
                found: found@,
            },
            TypeErrorKind::KnownTypeUnderIfUnknown { found } => {
                TypeErrorKindV::KnownTypeUnderIfUnknown { found: found@ }
            },
            TypeErrorKind::AnnotationRequiredButDefaulted { name } => {
                TypeErrorKindV::AnnotationRequiredButDefaulted { name: name@ }
            },
            TypeErrorKind::AnnotationParameterMismatch { name } => {
                TypeErrorKindV::AnnotationParameterMismatch { name: name@ }
            },
            TypeErrorKind::NullDefaultNotAdmitted { name, declared } => {
                TypeErrorKindV::NullDefaultNotAdmitted { name: name@, declared: declared@ }
            },
            TypeErrorKind::AliasCycle { name } => TypeErrorKindV::AliasCycle { name: name@ },
            TypeErrorKind::ConstraintViolation { constraint, found } => {
                TypeErrorKindV::ConstraintViolation { constraint: *constraint, found: found@ }
            },
            TypeErrorKind::CallbackShape { mismatch } => TypeErrorKindV::CallbackShape {
                mismatch: mismatch@,
            },
            TypeErrorKind::NoMatchingOverload { name, candidates, first } => {
                TypeErrorKindV::NoMatchingOverload {
                    name: name@,
                    candidates: *candidates,
                    first: match first {
                        Some(first) => Some(Box::new(first.view())),
                        None => None,
                    },
                }
            },
            TypeErrorKind::NotAList { found } => TypeErrorKindV::NotAList { found: found@ },
            TypeErrorKind::BadVectorIndex { index } => TypeErrorKindV::BadVectorIndex {
                index: index@,
            },
            TypeErrorKind::UnsupportedSubset { found } => TypeErrorKindV::UnsupportedSubset {
                found: found@,
            },
            TypeErrorKind::UnsupportedIndexShape { index_count } => {
                TypeErrorKindV::UnsupportedIndexShape { index_count: *index_count }
            },
            TypeErrorKind::PositionDoesNotExist { position, container } => {
                TypeErrorKindV::PositionDoesNotExist { position: *position, container: container@ }
            },
            TypeErrorKind::FieldDoesNotExist { suggestion, field, container } => {
                TypeErrorKindV::FieldDoesNotExist {
                    suggestion: types::opt_text(*suggestion),
                    field: field@,
                    container: container@,
                }
            },
            TypeErrorKind::DollarOnAtomicVector { found } => TypeErrorKindV::DollarOnAtomicVector {
                found: found@,
            },
            TypeErrorKind::InvalidOperand { expected, found } => TypeErrorKindV::InvalidOperand {
                expected: *expected,
                found: found@,
            },
            TypeErrorKind::UnsupportedOperandPair { operator, left, right } => {
                TypeErrorKindV::UnsupportedOperandPair {
                    operator: operator@,
                    left: left@,
                    right: right@,
                }
            },
            TypeErrorKind::NotIterable { found } => TypeErrorKindV::NotIterable { found: found@ },
            TypeErrorKind::InfiniteType { variable, container } => TypeErrorKindV::InfiniteType {
                variable: variable@,
                container: container@,
            },
        }
    }
}

/// The models of a list of findings.
pub open spec fn errors_view(errors: Seq<TypeError>) -> Seq<TypeErrorV> {
    Seq::new(errors.len(), |i: int| errors[i]@)
}

fn clone_opt_text(text: &Option<String>) -> (r: Option<String>)
    ensures
        types::opt_text(r) == types::opt_text(*text),
{
    match text {
        Some(text) => Some(text.clone()),
        None => None,
    }
}

fn same_opt_text(a: &Option<String>, b: &Option<String>) -> (r: bool)
    ensures
        r == (types::opt_text(*a) == types::opt_text(*b)),
{
    match (a, b) {
        (Some(a), Some(b)) => same_string(a, b),
        (None, None) => true,
        _ => false,
    }
}

pub fn clone_texts(texts: &Vec<String>) -> (r: Vec<String>)
    ensures
        types::texts(r@) == types::texts(texts@),
{
    let mut out: Vec<String> = Vec::new();
    let mut i: usize = 0;
    while i < texts.len()
        invariant
            i <= texts.len(),
            types::texts(out@) =~= types::texts(texts@).subrange(0, i as int),
        decreases texts.len() - i,
    {
        out.push(texts[i].clone());
        i += 1;
    }
    assert(types::texts(out@) =~= types::texts(texts@));
    out
}

fn same_texts(a: &Vec<String>, b: &Vec<String>) -> (r: bool)
    ensures
        r == (types::texts(a@) == types::texts(b@)),
{
    if a.len() != b.len() {
        assert(types::texts(a@).len() != types::texts(b@).len());
        return false;
    }
    let mut i: usize = 0;
    while i < a.len()
        invariant
            i <= a.len(),
            a@.len() == b@.len(),
            forall|j: int| 0 <= j < i ==> #[trigger] a@[j]@ == b@[j]@,
        decreases a.len() - i,
    {
        if !same_string(&a[i], &b[i]) {
            assert(types::texts(a@)[i as int] != types::texts(b@)[i as int]);
            return false;
        }
        i += 1;
    }
    assert(types::texts(a@) =~= types::texts(b@));
    true
}

fn clone_function_mismatch(mismatch: &FunctionMismatch) -> (r: FunctionMismatch)
    ensures
        r@ == mismatch@,
{
    match mismatch {
        FunctionMismatch::Parameter { name, passed, accepts, constraint } => {
            FunctionMismatch::Parameter {
                name: clone_opt_text(name),
                passed: passed.clone(),
                accepts: accepts.clone(),
                constraint: *constraint,
            }
        },
        FunctionMismatch::Return { required, produces, constraint } => FunctionMismatch::Return {
            required: required.clone(),
            produces: produces.clone(),
            constraint: *constraint,
        },
    }
}

fn same_constraint(a: Option<Constraint>, b: Option<Constraint>) -> (r: bool)
    ensures
        r == (a == b),
{
    match (a, b) {
        (Some(a), Some(b)) => a == b,
        (None, None) => true,
        _ => false,
    }
}

fn same_function_mismatch(a: &FunctionMismatch, b: &FunctionMismatch) -> (r: bool)
    ensures
        r == (a@ == b@),
{
    match (a, b) {
        (
            FunctionMismatch::Parameter { name: n, passed: p, accepts: x, constraint: c },
            FunctionMismatch::Parameter { name: m, passed: q, accepts: y, constraint: d },
        ) => same_opt_text(n, m) && p.same(q) && x.same(y) && same_constraint(*c, *d),
        (
            FunctionMismatch::Return { required: p, produces: x, constraint: c },
            FunctionMismatch::Return { required: q, produces: y, constraint: d },
        ) => p.same(q) && x.same(y) && same_constraint(*c, *d),
        _ => false,
    }
}

fn clone_record_mismatch(mismatch: &RecordMismatch) -> (r: RecordMismatch)
    ensures
        r@ == mismatch@,
{
    match mismatch {
        RecordMismatch::Field { path, expected, found } => RecordMismatch::Field {
            path: clone_texts(path),
            expected: expected.clone(),
            found: found.clone(),
        },
        RecordMismatch::Missing { path, near } => RecordMismatch::Missing {
            path: clone_texts(path),
            near: clone_opt_text(near),
        },
        RecordMismatch::Unexpected { path, near } => RecordMismatch::Unexpected {
            path: clone_texts(path),
            near: clone_opt_text(near),
        },
    }
}

fn same_record_mismatch(a: &RecordMismatch, b: &RecordMismatch) -> (r: bool)
    ensures
        r == (a@ == b@),
{
    match (a, b) {
        (
            RecordMismatch::Field { path: p, expected: x, found: f },
            RecordMismatch::Field { path: q, expected: y, found: g },
        ) => same_texts(p, q) && x.same(y) && f.same(g),
        (
            RecordMismatch::Missing { path: p, near: n },
            RecordMismatch::Missing { path: q, near: m },
        ) => same_texts(p, q) && same_opt_text(n, m),
        (
            RecordMismatch::Unexpected { path: p, near: n },
            RecordMismatch::Unexpected { path: q, near: m },
        ) => same_texts(p, q) && same_opt_text(n, m),
        _ => false,
    }
}

impl Clone for TypeError {
    fn clone(&self) -> (r: Self)
        ensures
            r@ == self@,
        decreases self,
    {
        TypeError { range: self.range, kind: clone_kind(&self.kind) }
    }
}

fn clone_kind(kind: &TypeErrorKind) -> (r: TypeErrorKind)
    ensures
        r@ == kind@,
    decreases kind,
{
    match kind {
        TypeErrorKind::Mismatch { expected, found } => TypeErrorKind::Mismatch {
            expected: expected.clone(),
            found: found.clone(),
        },
        TypeErrorKind::RecordShape { mismatch } => TypeErrorKind::RecordShape {
            mismatch: Box::new(clone_record_mismatch(mismatch)),
        },
        TypeErrorKind::NotAFunction { found } => TypeErrorKind::NotAFunction {
            found: found.clone(),
        },
        TypeErrorKind::MissingFormalRead { name } => TypeErrorKind::MissingFormalRead {
            name: name.clone(),
        },
        TypeErrorKind::ArityMismatch { expected, found } => TypeErrorKind::ArityMismatch {
            expected: *expected,
            found: *found,
        },
        TypeErrorKind::NamedArgumentMismatch {
            argument,
            duplicate,
            suggestion,
            expected_parameters,
        } => TypeErrorKind::NamedArgumentMismatch {
            argument: argument.clone(),
            duplicate: *duplicate,
            suggestion: clone_opt_text(suggestion),
            expected_parameters: clone_texts(expected_parameters),
        },
        TypeErrorKind::MaybeNullCallee { found } => TypeErrorKind::MaybeNullCallee {
            found: found.clone(),
        },
        TypeErrorKind::KnownTypeUnderIfUnknown { found } => {
            TypeErrorKind::KnownTypeUnderIfUnknown { found: found.clone() }
        },
        TypeErrorKind::AnnotationRequiredButDefaulted { name } => {
            TypeErrorKind::AnnotationRequiredButDefaulted { name: name.clone() }
        },
        TypeErrorKind::AnnotationParameterMismatch { name } => {
            TypeErrorKind::AnnotationParameterMismatch { name: name.clone() }
        },
        TypeErrorKind::NullDefaultNotAdmitted { name, declared } => {
            TypeErrorKind::NullDefaultNotAdmitted {
                name: name.clone(),
                declared: declared.clone(),
            }
        },
        TypeErrorKind::AliasCycle { name } => TypeErrorKind::AliasCycle { name: name.clone() },
        TypeErrorKind::ConstraintViolation { constraint, found } => {
            TypeErrorKind::ConstraintViolation { constraint: *constraint, found: found.clone() }
        },
        TypeErrorKind::CallbackShape { mismatch } => TypeErrorKind::CallbackShape {
            mismatch: Box::new(clone_function_mismatch(mismatch)),
        },
        TypeErrorKind::NoMatchingOverload { name, candidates, first } => {
            TypeErrorKind::NoMatchingOverload {
                name: name.clone(),
                candidates: *candidates,
                first: match first {
                    Some(first) => Some(
                        Box::new(
                            TypeError { range: first.range, kind: clone_kind(&first.kind) },
                        ),
                    ),
                    None => None,
                },
            }
        },
        TypeErrorKind::NotAList { found } => TypeErrorKind::NotAList { found: found.clone() },
        TypeErrorKind::BadVectorIndex { index } => TypeErrorKind::BadVectorIndex {
            index: index.clone(),
        },
        TypeErrorKind::UnsupportedSubset { found } => TypeErrorKind::UnsupportedSubset {
            found: found.clone(),
        },
        TypeErrorKind::UnsupportedIndexShape { index_count } => {
            TypeErrorKind::UnsupportedIndexShape { index_count: *index_count }
        },
        TypeErrorKind::PositionDoesNotExist { position, container } => {
            TypeErrorKind::PositionDoesNotExist {
                position: *position,
                container: container.clone(),
            }
        },
        TypeErrorKind::FieldDoesNotExist { suggestion, field, container } => {
            TypeErrorKind::FieldDoesNotExist {
                suggestion: clone_opt_text(suggestion),
                field: field.clone(),
                container: container.clone(),
            }
        },
        TypeErrorKind::DollarOnAtomicVector { found } => TypeErrorKind::DollarOnAtomicVector {
            found: found.clone(),
        },
        TypeErrorKind::InvalidOperand { expected, found } => TypeErrorKind::InvalidOperand {
            expected: *expected,
            found: found.clone(),
        },
        TypeErrorKind::UnsupportedOperandPair { operator, left, right } => {
            TypeErrorKind::UnsupportedOperandPair {
                operator: operator.clone(),
                left: left.clone(),
                right: right.clone(),
            }
        },
        TypeErrorKind::NotIterable { found } => TypeErrorKind::NotIterable {
            found: found.clone(),
        },
        TypeErrorKind::InfiniteType { variable, container } => TypeErrorKind::InfiniteType {
            variable: variable.clone(),
            container: container.clone(),
        },
    }
}

impl TypeError {
    /// Whether two findings are the same.
    pub fn same(&self, other: &TypeError) -> (r: bool)
        ensures
            r == (self@ == other@),
        decreases self,
    {
        self.range == other.range && same_kind(&self.kind, &other.kind)
    }
}

fn same_kind(a: &TypeErrorKind, b: &TypeErrorKind) -> (r: bool)
    ensures
        r == (a@ == b@),
    decreases a,
{
    match (a, b) {
        (
            TypeErrorKind::Mismatch { expected: x, found: f },
            TypeErrorKind::Mismatch { expected: y, found: g },
        ) => x.same(y) && f.same(g),
        (
            TypeErrorKind::RecordShape { mismatch: x },
            TypeErrorKind::RecordShape { mismatch: y },
        ) => same_record_mismatch(x, y),
        (
            TypeErrorKind::NotAFunction { found: f },
            TypeErrorKind::NotAFunction { found: g },
        ) => f.same(g),
        (
            TypeErrorKind::MissingFormalRead { name: n },
            TypeErrorKind::MissingFormalRead { name: m },
        ) => same_string(n, m),
        (
            TypeErrorKind::ArityMismatch { expected: x, found: f },
            TypeErrorKind::ArityMismatch { expected: y, found: g },
        ) => *x == *y && *f == *g,
        (
            TypeErrorKind::NamedArgumentMismatch {
                argument: a1,
                duplicate: d1,
                suggestion: s1,
                expected_parameters: p1,
            },
            TypeErrorKind::NamedArgumentMismatch {
                argument: a2,
                duplicate: d2,
                suggestion: s2,
                expected_parameters: p2,
            },
        ) => same_string(a1, a2) && *d1 == *d2 && same_opt_text(s1, s2) && same_texts(p1, p2),
        (
            TypeErrorKind::MaybeNullCallee { found: f },
            TypeErrorKind::MaybeNullCallee { found: g },
        ) => f.same(g),
        (
            TypeErrorKind::KnownTypeUnderIfUnknown { found: f },
            TypeErrorKind::KnownTypeUnderIfUnknown { found: g },
        ) => f.same(g),
        (
            TypeErrorKind::AnnotationRequiredButDefaulted { name: n },
            TypeErrorKind::AnnotationRequiredButDefaulted { name: m },
        ) => same_string(n, m),
        (
            TypeErrorKind::AnnotationParameterMismatch { name: n },
            TypeErrorKind::AnnotationParameterMismatch { name: m },
        ) => same_string(n, m),
        (
            TypeErrorKind::NullDefaultNotAdmitted { name: n, declared: f },
            TypeErrorKind::NullDefaultNotAdmitted { name: m, declared: g },
        ) => same_string(n, m) && f.same(g),
        (TypeErrorKind::AliasCycle { name: n }, TypeErrorKind::AliasCycle { name: m }) => {
            same_string(n, m)
        },
        (
            TypeErrorKind::ConstraintViolation { constraint: c, found: f },
            TypeErrorKind::ConstraintViolation { constraint: d, found: g },
        ) => *c == *d && f.same(g),
        (
            TypeErrorKind::CallbackShape { mismatch: x },
            TypeErrorKind::CallbackShape { mismatch: y },
        ) => same_function_mismatch(x, y),
        (
            TypeErrorKind::NoMatchingOverload { name: n, candidates: c, first: f },
            TypeErrorKind::NoMatchingOverload { name: m, candidates: d, first: g },
        ) => same_string(n, m) && *c == *d && match (f, g) {
            (Some(f), Some(g)) => f.range == g.range && same_kind(&f.kind, &g.kind),
            (None, None) => true,
            _ => false,
        },
        (TypeErrorKind::NotAList { found: f }, TypeErrorKind::NotAList { found: g }) => f.same(g),
        (
            TypeErrorKind::BadVectorIndex { index: f },
            TypeErrorKind::BadVectorIndex { index: g },
        ) => f.same(g),
        (
            TypeErrorKind::UnsupportedSubset { found: f },
            TypeErrorKind::UnsupportedSubset { found: g },
        ) => f.same(g),
        (
            TypeErrorKind::UnsupportedIndexShape { index_count: x },
            TypeErrorKind::UnsupportedIndexShape { index_count: y },
        ) => *x == *y,
        (
            TypeErrorKind::PositionDoesNotExist { position: x, container: f },
            TypeErrorKind::PositionDoesNotExist { position: y, container: g },
        ) => *x == *y && f.same(g),
        (
            TypeErrorKind::FieldDoesNotExist { suggestion: s1, field: n, container: f },
            TypeErrorKind::FieldDoesNotExist { suggestion: s2, field: m, container: g },
        ) => same_opt_text(s1, s2) && same_string(n, m) && f.same(g),
        (
            TypeErrorKind::DollarOnAtomicVector { found: f },
            TypeErrorKind::DollarOnAtomicVector { found: g },
        ) => f.same(g),
        (
            TypeErrorKind::InvalidOperand { expected: x, found: f },
            TypeErrorKind::InvalidOperand { expected: y, found: g },
        ) => *x == *y && f.same(g),
        (
            TypeErrorKind::UnsupportedOperandPair { operator: n, left: x, right: f },
            TypeErrorKind::UnsupportedOperandPair { operator: m, left: y, right: g },
        ) => same_string(n, m) && x.same(y) && f.same(g),
        (TypeErrorKind::NotIterable { found: f }, TypeErrorKind::NotIterable { found: g }) => {
            f.same(g)
        },
        (
            TypeErrorKind::InfiniteType { variable: x, container: f },
            TypeErrorKind::InfiniteType { variable: y, container: g },
        ) => x.same(y) && f.same(g),
        _ => false,
    }
}

/// Whether one range comes before another, by start and then by end.
pub open spec fn range_before(a: TextRange, b: TextRange) -> bool {
    a.start < b.start || (a.start == b.start && a.end < b.end)
}

/// A list with a finding put before the first that it comes before.
pub open spec fn inserted(sorted: Seq<TypeErrorV>, error: TypeErrorV) -> Seq<TypeErrorV>
    decreases sorted.len(),
{
    if sorted.len() == 0 || !range_before(error.range, sorted.last().range) {
        sorted.push(error)
    } else {
        inserted(sorted.drop_last(), error).push(sorted.last())
    }
}

/// Findings in the order of their ranges; findings of one range keep their
/// order.
pub open spec fn by_range(errors: Seq<TypeErrorV>) -> Seq<TypeErrorV>
    decreases errors.len(),
{
    if errors.len() == 0 {
        Seq::empty()
    } else {
        inserted(by_range(errors.drop_last()), errors.last())
    }
}

/// Findings without those that repeat an earlier one.
pub open spec fn without_repeats(errors: Seq<TypeErrorV>) -> Seq<TypeErrorV>
    decreases errors.len(),
{
    if errors.len() == 0 {
        Seq::empty()
    } else {
        let before = without_repeats(errors.drop_last());
        if before.contains(errors.last()) {
            before
        } else {
            before.push(errors.last())
        }
    }
}

proof fn insertion_keeps_order(sorted: Seq<TypeErrorV>, error: TypeErrorV)
    requires
        forall|i: int, j: int|
            0 <= i < j < sorted.len() ==> !range_before(
                #[trigger] sorted[j].range,
                #[trigger] sorted[i].range,
            ),
    ensures
        inserted(sorted, error).len() == sorted.len() + 1,
        inserted(sorted, error).to_multiset() == sorted.push(error).to_multiset(),
        forall|i: int, j: int|
            0 <= i < j < inserted(sorted, error).len() ==> !range_before(
                #[trigger] inserted(sorted, error)[j].range,
                #[trigger] inserted(sorted, error)[i].range,
            ),
    decreases sorted.len(),
{
    broadcast use vstd::seq_lib::group_to_multiset_ensures;

    if sorted.len() == 0 || !range_before(error.range, sorted.last().range) {
    } else {
        let shorter = sorted.drop_last();
        insertion_keeps_order(shorter, error);
        let whole = inserted(shorter, error).push(sorted.last());
        assert(shorter.push(sorted.last()) =~= sorted);
        assert(whole.to_multiset() =~= sorted.push(error).to_multiset());
        assert forall|i: int| 0 <= i < shorter.len() + 1 implies !range_before(
            sorted.last().range,
            #[trigger] inserted(shorter, error)[i].range,
        ) by {
            let x = inserted(shorter, error)[i];
            assert(inserted(shorter, error).to_multiset().count(x) > 0);
            assert(shorter.push(error).to_multiset().count(x) > 0);
            assert(shorter.push(error).contains(x));
            let k = choose|k: int| 0 <= k < shorter.push(error).len() && shorter.push(error)[k] == x;
            if k < shorter.len() {
                assert(sorted[k] == x);
            }
        }
    }
}

/// Sorting a report loses no finding and invents none, and leaves the findings
/// in the order of their ranges.
pub proof fn report_is_sorted(errors: Seq<TypeErrorV>)
    ensures
        by_range(errors).to_multiset() == errors.to_multiset(),
        forall|i: int, j: int|
            0 <= i < j < by_range(errors).len() ==> !range_before(
                #[trigger] by_range(errors)[j].range,
                #[trigger] by_range(errors)[i].range,
            ),
    decreases errors.len(),
{
    broadcast use vstd::seq_lib::group_to_multiset_ensures;

    if errors.len() > 0 {
        report_is_sorted(errors.drop_last());
        insertion_keeps_order(by_range(errors.drop_last()), errors.last());
        assert(errors.drop_last().push(errors.last()) =~= errors);
    }
}

/// Every finding stands in a report once, and the report keeps the order of the
/// findings' ranges.
pub proof fn a_report_repeats_nothing(errors: Seq<TypeErrorV>)
    requires
        forall|i: int, j: int|
            0 <= i < j < errors.len() ==> !range_before(
                #[trigger] errors[j].range,
                #[trigger] errors[i].range,
            ),
    ensures
        without_repeats(errors).no_duplicates(),
        forall|error: TypeErrorV|
            errors.contains(error) <==> #[trigger] without_repeats(errors).contains(error),
        forall|i: int, j: int|
            0 <= i < j < without_repeats(errors).len() ==> !range_before(
                #[trigger] without_repeats(errors)[j].range,
                #[trigger] without_repeats(errors)[i].range,
            ),
    decreases errors.len(),
{
    let kept = without_repeats(errors);
    if errors.len() > 0 {
        let shorter = errors.drop_last();
        let before = without_repeats(shorter);
        a_report_repeats_nothing(shorter);
        assert forall|error: TypeErrorV|
            errors.contains(error) <==> #[trigger] kept.contains(error) by {
            if errors.contains(error) {
                let k = choose|k: int| 0 <= k < errors.len() && errors[k] == error;
                if k < shorter.len() {
                    assert(shorter[k] == error);
                    assert(before.contains(error));
                    let m = choose|m: int| 0 <= m < before.len() && before[m] == error;
                    assert(kept[m] == error);
                } else if !before.contains(error) {
                    assert(kept[before.len() as int] == error);
                }
            }
            if kept.contains(error) {
                let k = choose|k: int| 0 <= k < kept.len() && kept[k] == error;
                if k < before.len() {
                    assert(before[k] == error);
                    assert(before.contains(error));
                    assert(shorter.contains(error));
                    let m = choose|m: int| 0 <= m < shorter.len() && shorter[m] == error;
                    assert(errors[m] == error);
                } else {
                    assert(errors[errors.len() - 1] == error);
                }
            }
        }
        assert forall|i: int, j: int| 0 <= i < j < kept.len() implies !range_before(
            #[trigger] kept[j].range,
            #[trigger] kept[i].range,
        ) by {
            assert(kept[i] == before[i]);
            if j < before.len() {
                assert(kept[j] == before[j]);
            } else {
                assert(before.contains(before[i]));
                assert(shorter.contains(before[i]));
                let m = choose|m: int| 0 <= m < shorter.len() && shorter[m] == before[i];
                assert(errors[m] == before[i]);
                assert(kept[j] == errors[errors.len() - 1]);
            }
        }
        assert forall|i: int, j: int|
            0 <= i < kept.len() && 0 <= j < kept.len() && i != j implies kept[i] != kept[j] by {
            if i < before.len() && j < before.len() {
                assert(before[i] == kept[i] && before[j] == kept[j]);
            } else if i < before.len() {
                assert(before.contains(before[i]));
            } else {
                assert(before.contains(before[j]));
            }
        }
    }
}

/// Whether a report holds a finding.
fn holds_finding(errors: &Vec<TypeError>, error: &TypeError) -> (r: bool)
    ensures
        r == errors_view(errors@).contains(error@),
{
    let ghost all = errors_view(errors@);
    let mut i: usize = 0;
    while i < errors.len()
        invariant
            i <= errors.len(),
            all == errors_view(errors@),
            forall|j: int| 0 <= j < i ==> all[j] != error@,
        decreases errors.len() - i,
    {
        assert(all[i as int] == errors@[i as int]@);
        if errors[i].same(error) {
            return true;
        }
        i += 1;
    }
    false
}

/// Orders a report by range and drops findings that repeat an earlier one.
pub fn sort_report(errors: &Vec<TypeError>) -> (r: Vec<TypeError>)
    ensures
        errors_view(r@) == without_repeats(by_range(errors_view(errors@))),
{
    let ghost all = errors_view(errors@);
    let mut sorted: Vec<TypeError> = Vec::new();
    let mut i: usize = 0;
    assert(errors_view(sorted@) =~= by_range(all.subrange(0, 0)));
    while i < errors.len()
        invariant
            i <= errors.len(),
            all == errors_view(errors@),
            errors_view(sorted@) == by_range(all.subrange(0, i as int)),
        decreases errors.len() - i,
    {
        assert(all.subrange(0, i + 1).drop_last() =~= all.subrange(0, i as int));
        insert_by_range(&mut sorted, errors[i].clone());
        i += 1;
    }
    assert(all.subrange(0, all.len() as int) =~= all);
    let ghost model = errors_view(sorted@);
    let mut out: Vec<TypeError> = Vec::new();
    let mut k: usize = 0;
    assert(errors_view(out@) =~= without_repeats(model.subrange(0, 0)));
    while k < sorted.len()
        invariant
            k <= sorted.len(),
            model == errors_view(sorted@),
            errors_view(out@) == without_repeats(model.subrange(0, k as int)),
        decreases sorted.len() - k,
    {
        assert(model.subrange(0, k + 1).drop_last() =~= model.subrange(0, k as int));
        assert(model[k as int] == sorted@[k as int]@);
        if !holds_finding(&out, &sorted[k]) {
            let ghost before = errors_view(out@);
            out.push(sorted[k].clone());
            assert(errors_view(out@) =~= before.push(model[k as int]));
        }
        k += 1;
    }
    assert(model.subrange(0, model.len() as int) =~= model);
    out
}

fn insert_by_range(sorted: &mut Vec<TypeError>, error: TypeError)
    ensures
        errors_view(final(sorted)@) == inserted(errors_view(old(sorted)@), error@),
    decreases old(sorted)@.len(),
{
    let ghost before = errors_view(sorted@);
    let belongs_last = sorted.len() == 0 || !(error.range.start < sorted[sorted.len()
        - 1].range.start || (error.range.start == sorted[sorted.len() - 1].range.start
        && error.range.end < sorted[sorted.len() - 1].range.end));
    if belongs_last {
        sorted.push(error);
        assert(errors_view(sorted@) =~= before.push(error@));
    } else {
        let last = sorted.pop();
        if let Some(last) = last {
            assert(errors_view(sorted@) =~= before.drop_last());
            insert_by_range(sorted, error);
            let ghost middle = errors_view(sorted@);
            sorted.push(last);
            assert(errors_view(sorted@) =~= middle.push(last@));
        }
    }
}

/// A place where a type could not be determined.
#[derive(Debug, PartialEq, Eq)]
pub struct StrictOrigin {
    /// The originating expression.
    pub expression: ExprId,
    pub range: TextRange,
    pub kind: StrictOriginKind,
}

/// Why a type could not be determined.
#[derive(Debug, PartialEq, Eq)]
pub enum StrictOriginKind {
    /// A valid construct that is not modelled.
    UnsupportedConstruct,
    /// A reference that resolved to a binding with no known type.
    UndeterminedReference(String),
    /// A variable widened at the loop fixed-point cap.
    LoopWidened(String),
    /// A recursive definition whose own cycle leaves its type open.
    RecursiveUnknown(String),
}

/// The model of why a type could not be determined.
pub enum OriginKindV {
    UnsupportedConstruct,
    UndeterminedReference(Seq<char>),
    LoopWidened(Seq<char>),
    RecursiveUnknown(Seq<char>),
}

/// The model of an origin.
pub struct OriginV {
    pub expression: ExprId,
    pub range: TextRange,
    pub kind: OriginKindV,
}

impl StrictOriginKind {
    pub open spec fn view(&self) -> OriginKindV {
        match self {
            StrictOriginKind::UnsupportedConstruct => OriginKindV::UnsupportedConstruct,
            StrictOriginKind::UndeterminedReference(name) => OriginKindV::UndeterminedReference(
                name@,
            ),
            StrictOriginKind::LoopWidened(name) => OriginKindV::LoopWidened(name@),
            StrictOriginKind::RecursiveUnknown(name) => OriginKindV::RecursiveUnknown(name@),
        }
    }

    fn same(&self, other: &StrictOriginKind) -> (r: bool)
        ensures
            r == (self@ == other@),
    {
        match (self, other) {
            (StrictOriginKind::UnsupportedConstruct, StrictOriginKind::UnsupportedConstruct) => {
                true
            },
            (
                StrictOriginKind::UndeterminedReference(a),
                StrictOriginKind::UndeterminedReference(b),
            ) => same_string(a, b),
            (StrictOriginKind::LoopWidened(a), StrictOriginKind::LoopWidened(b)) => same_string(
                a,
                b,
            ),
            (StrictOriginKind::RecursiveUnknown(a), StrictOriginKind::RecursiveUnknown(b)) => {
                same_string(a, b)
            },
            _ => false,
        }
    }
}

impl StrictOrigin {
    pub open spec fn view(&self) -> OriginV {
        OriginV { expression: self.expression, range: self.range, kind: self.kind@ }
    }

    pub fn same(&self, other: &StrictOrigin) -> (r: bool)
        ensures
            r == (self@ == other@),
    {
        self.expression == other.expression && self.range == other.range && self.kind.same(
            &other.kind,
        )
    }
}

/// The models of a list of origins.
pub open spec fn origins_view(origins: Seq<StrictOrigin>) -> Seq<OriginV> {
    Seq::new(origins.len(), |i: int| origins[i]@)
}

} // verus!
