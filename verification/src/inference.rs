//! What inference makes of each expression: the state after it, and its type.

use vstd::prelude::*;

use crate::access;
use crate::access::{AccessV, KeyV};
use crate::arithmetic;
use crate::building;
use crate::building::CombineV;
use crate::calls::CallArgumentV;
use crate::checking;
use crate::checking::{CheckV, ItemV};
use crate::declared;
use crate::declared::PairedV;
use crate::environment::{SlotV, WritesV};
use crate::findings::{OriginKindV, TypeErrorKindV};
use crate::hir::{
    Argument, AssignSpelling, BinaryOperator, ExprId, ExpressionKind, Module, Parameter,
    UnaryOperator,
};
use crate::numbers;
use crate::operands;
use crate::overloads;
use crate::overloads::CallV;
use crate::reads::GuardV;
use crate::replacing;
use crate::schemes::SchemeV;
use crate::syntax::TextRange;
use crate::types;
use crate::types::{Atomic, Constraint, FieldV, FunctionV, ParameterV, RestV, TyV};
use crate::walk;

verus! {

/// How often a loop body is checked before its slots widen.
pub const LOOP_PASS_CAP: usize = 3;

/// Writes without those to one slot.
pub open spec fn without_slot(writes: WritesV, slot: Option<u32>, upto: nat) -> WritesV
    decreases upto,
{
    if upto == 0 {
        Seq::empty()
    } else {
        let before = without_slot(writes, slot, (upto - 1) as nat);
        if slot == Some(writes[upto - 1].0) {
            before
        } else {
            before.push(writes[upto - 1])
        }
    }
}

/// An argument as a call sees it.
pub open spec fn call_argument(
    m: Module,
    range: TextRange,
    argument: Argument,
    ty: Option<TyV>,
) -> CallArgumentV {
    CallArgumentV {
        name: types::opt_text(argument.name),
        name_range: argument.name_range,
        ty,
        range: match argument.value {
            Some(value) => checking::blame_range(m, value),
            None => range,
        },
        value: argument.value,
        whole_double: match argument.value {
            Some(value) => operands::whole_double(m, value),
            None => false,
        },
        forwards_dots: argument.name is None && match argument.value {
            Some(value) => m.name_of(value) == Some("..."@),
            None => false,
        },
    }
}

pub open spec fn all_named(arguments: Seq<Argument>) -> bool {
    forall|i: int| 0 <= i < arguments.len() ==> (#[trigger] arguments[i]).name is Some
}

pub open spec fn all_unnamed(arguments: Seq<Argument>) -> bool {
    forall|i: int| 0 <= i < arguments.len() ==> (#[trigger] arguments[i]).name is None
}

/// The value that `structure(...)` returns with attributes attached, where the
/// attributes do not change its shape.
pub open spec fn structured_value(arguments: Seq<Argument>) -> Option<ExprId> {
    if walk::argument_named(arguments, "dim"@, 0) is Some || walk::argument_named(
        arguments,
        ".Dim"@,
        0,
    ) is Some {
        None
    } else {
        match walk::argument_named(arguments, ".Data"@, 0) {
            Some(i) => arguments[i].value,
            None => match walk::argument_unnamed(arguments, 0) {
                Some(i) => arguments[i].value,
                None => None,
            },
        }
    }
}

/// Whether a branch of a `switch` has no name.
pub open spec fn has_default_branch(arguments: Seq<Argument>) -> bool {
    walk::argument_unnamed(arguments, 1) is Some
}

/// The key of an `[[` access.
pub open spec fn key_of(m: Module, value: ExprId) -> KeyV {
    KeyV {
        position: numbers::literal_position(m.kind_of(value)),
        name: replacing::string_at(m, Some(value)),
    }
}

impl ItemV {
    /// The overload set a callee resolves through: a name that no slot shadows,
    /// or a qualified one, with more than one candidate.
    pub open spec fn overload_set(self, callee: ExprId) -> Option<(Seq<char>, Seq<SchemeV>)> {
        let name = match self.module.kind_of(callee) {
            ExpressionKind::NameRef(name) => if self.slot_of(callee) is Some {
                None
            } else {
                Some(name@)
            },
            ExpressionKind::Namespace { internal, package, name } => self.corpus.validated(
                internal,
                types::opt_text(package),
                types::opt_text(name),
            ),
            _ => None,
        };
        match name {
            Some(name) => match self.candidates(
                name,
                self.naming.deferred_non_locals.contains(callee.0),
            ) {
                Some(candidates) => if candidates.len() < 2 {
                    None
                } else {
                    Some((name, candidates))
                },
                None => None,
            },
            None => None,
        }
    }

    /// The scheme of an operator that the stub corpus declares and the project
    /// does not.
    pub open spec fn declared_operator(self, name: Option<Seq<char>>) -> Option<SchemeV> {
        match name {
            Some(name) => if !self.corpus.schemes.contains(name) || self.defined_in_project(
                name,
                false,
            ) {
                None
            } else {
                self.scheme(name, false)
            },
            None => None,
        }
    }
}

impl CheckV {
    /// The reads under an expression are column references.
    pub open spec fn mask_reads(self, m: Module, id: ExprId) -> CheckV
        decreases id.0, 1int, 0int,
    {
        (match m.kind_of(id) {
            ExpressionKind::NameRef(_) => CheckV {
                masked_reads: self.masked_reads.insert(id.0),
                ..self
            },
            _ => self,
        }).mask_all(m, id, m.kind_of(id).children(), 0)
    }

    pub open spec fn mask_all(self, m: Module, bound: ExprId, ids: Seq<ExprId>, from: int) -> CheckV
        decreases bound.0, 0int, ids.len() - from,
    {
        if 0 <= from < ids.len() {
            (if ids[from].0 < bound.0 {
                self.mask_reads(m, ids[from])
            } else {
                self
            }).mask_all(m, bound, ids, from + 1)
        } else {
            self
        }
    }

    /// The outcome of an access.
    pub open spec fn accessed(self, m: Module, id: ExprId, access: AccessV) -> (CheckV, TyV) {
        let next = if access.0 {
            self.unsupported(m, id)
        } else {
            self
        };
        match access.1 {
            Ok(ty) => (next, ty),
            Err(error) => (next.report(error), TyV::Unknown),
        }
    }

    /// Slots that still change when a loop is given up on become unknown.
    pub open spec fn widen(self, item: ItemV, id: ExprId, slots: Seq<u32>, from: int) -> CheckV
        decreases slots.len() - from,
    {
        if 0 <= from < slots.len() {
            let next = self.set_slot(slots[from], SlotV::Mono(TyV::Unknown));
            (match item.binding(slots[from]) {
                Some(binding) => next.origin(
                    item.module,
                    id,
                    OriginKindV::LoopWidened(binding.name),
                ),
                None => next,
            }).widen(item, id, slots, from + 1)
        } else {
            self
        }
    }

    /// Where the arms of a branch meet: a diverging arm contributes neither its
    /// value nor its state.
    pub open spec fn meet(
        self,
        diverge: (bool, bool),
        writes: WritesV,
        mark: nat,
        then_ty: TyV,
        else_ty: TyV,
    ) -> (CheckV, TyV) {
        match diverge {
            (true, false) => (self, else_ty),
            (false, true) => (self.rolled_back(mark).adopt_writes(writes, 0), then_ty),
            (false, false) => self.join_writes(writes, 0, Seq::empty()).0.join_branch_values(
                then_ty,
                else_ty,
            ),
            (true, true) => self.rolled_back(mark).join_branch_values(then_ty, else_ty),
        }
    }

    /// Joins the writes of the first branches into the state.
    pub open spec fn join_branches(self, branches: Seq<WritesV>, from: int, to: int) -> CheckV
        decreases to - from,
    {
        if from < to {
            self.join_writes(branches[from], 0, Seq::empty()).0.join_branches(
                branches,
                from + 1,
                to,
            )
        } else {
            self
        }
    }

    /// Takes the writes of the last branch as the state and joins the others in.
    pub open spec fn meet_branches(self, branches: Seq<WritesV>) -> CheckV {
        if branches.len() == 0 {
            self
        } else {
            self.adopt_writes(branches.last(), 0).join_branches(branches, 0, branches.len() - 1)
        }
    }

    /// The slot of a formal, holding its type.
    pub open spec fn bind_formal(self, item: ItemV, parameter: Parameter, ty: TyV) -> CheckV {
        match checking::slot_at(item.naming.bindings, parameter.range, 0) {
            Some(slot) => {
                let next = self.set_slot(slot, SlotV::Mono(ty));
                if parameter.default is None {
                    CheckV { no_default_formals: next.no_default_formals.insert(slot), ..next }
                } else {
                    next
                }
            },
            None => self,
        }
    }

    /// An expression that stands before another.
    pub open spec fn below(self, item: ItemV, bound: ExprId, id: ExprId) -> (CheckV, TyV)
        decreases bound.0, 0int, 0int,
    {
        if id.0 < bound.0 {
            self.infer(item, id)
        } else {
            (self, TyV::Unknown)
        }
    }

    /// The type of an expression.
    pub open spec fn infer(self, item: ItemV, id: ExprId) -> (CheckV, TyV)
        decreases id.0, 8int, 0int,
    {
        match item.module.kind_of(id) {
            ExpressionKind::Assign { spelling, target, value } => {
                let (next, ty) = self.infer_assign(item, id, spelling, target, value);
                (next.record(id, ty), checking::recordable(ty))
            },
            ExpressionKind::Function { .. } => match self.declared_function(id) {
                Some(scheme) => {
                    let (next, ty) = self.check_against(item, id, scheme);
                    (next.record(id, ty), checking::recordable(ty))
                },
                None => self.annotated(item, id),
            },
            _ => self.annotated(item, id),
        }
    }

    /// An expression under its annotation.
    pub open spec fn annotated(self, item: ItemV, id: ExprId) -> (CheckV, TyV)
        decreases id.0, 7int, 1int,
    {
        let (next, ty) = self.infer_kind(item, id);
        let (after, given) = next.apply_annotation(item.module, id, id, ty);
        (after.record(id, given), checking::recordable(given))
    }

    /// An expression by its kind.
    pub open spec fn infer_kind(self, item: ItemV, id: ExprId) -> (CheckV, TyV)
        decreases id.0, 7int, 0int,
    {
        let range = item.module.range_of(id);
        match item.module.kind_of(id) {
            ExpressionKind::Literal(literal) => (self, operands::literal_type(literal)),
            ExpressionKind::NameRef(_) => self.read(item, id),
            ExpressionKind::Unary { operator, operand } => self.infer_unary(
                item,
                id,
                operator,
                operand,
            ),
            ExpressionKind::Binary { operator, special_name, lhs, rhs } => self.infer_binary(
                item,
                id,
                operator,
                types::opt_text(special_name),
                lhs,
                rhs,
            ),
            ExpressionKind::Call { callee, arguments } => self.infer_call(
                item,
                id,
                callee,
                arguments@,
            ),
            ExpressionKind::Index { double, target, arguments } => self.infer_index(
                item,
                id,
                double,
                target,
                arguments@,
            ),
            ExpressionKind::Field { at, target, name, name_range } => self.infer_field(
                item,
                id,
                at,
                target,
                types::opt_text(name),
                match name_range {
                    Some(own) => own,
                    None => range,
                },
            ),
            ExpressionKind::Namespace { internal, package, name } => self.read_qualified(
                item,
                id,
                internal,
                types::opt_text(package),
                types::opt_text(name),
            ),
            ExpressionKind::Function { parameters, body } => self.infer_function(
                item,
                id,
                parameters@,
                body,
            ),
            ExpressionKind::If { condition, then_branch, else_branch } => self.infer_if(
                item,
                id,
                condition,
                then_branch,
                else_branch,
            ),
            ExpressionKind::For { variable_range, sequence, body, .. } => self.infer_for(
                item,
                id,
                variable_range,
                sequence,
                body,
            ),
            ExpressionKind::While { condition, body } => (
                self.check_loop(item, id, Some(condition), body, false, None, 0),
                TyV::Null,
            ),
            ExpressionKind::Repeat { body } => (
                self.check_loop(item, id, None, body, true, None, 0),
                TyV::Null,
            ),
            ExpressionKind::Local { body } => self.infer_local(item, id, body),
            ExpressionKind::Block { statements, trailing_semicolon } => {
                let (next, ty) = self.infer_all(item, id, statements@, 0, TyV::Null);
                if trailing_semicolon {
                    (next, TyV::Null)
                } else {
                    (next, ty)
                }
            },
            ExpressionKind::Paren(inner) => self.below(item, id, inner),
            _ => (self, TyV::Unknown),
        }
    }

    /// Statements in order; the type of the last.
    pub open spec fn infer_all(
        self,
        item: ItemV,
        bound: ExprId,
        ids: Seq<ExprId>,
        from: int,
        last: TyV,
    ) -> (CheckV, TyV)
        decreases bound.0, 1int, ids.len() - from,
    {
        if 0 <= from < ids.len() {
            let (next, ty) = self.below(item, bound, ids[from]);
            next.infer_all(item, bound, ids, from + 1, ty)
        } else {
            (self, last)
        }
    }

    /// The values of the arguments from one on.
    pub open spec fn infer_values(
        self,
        item: ItemV,
        bound: ExprId,
        arguments: Seq<Argument>,
        from: int,
        done: Seq<TyV>,
    ) -> (CheckV, Seq<TyV>)
        decreases bound.0, 1int, arguments.len() - from,
    {
        if 0 <= from < arguments.len() {
            match arguments[from].value {
                Some(value) => {
                    let (next, ty) = self.below(item, bound, value);
                    next.infer_values(item, bound, arguments, from + 1, done.push(ty))
                },
                None => self.infer_values(item, bound, arguments, from + 1, done),
            }
        } else {
            (self, done)
        }
    }

    /// The arguments of a call, inferred.
    pub open spec fn infer_arguments(
        self,
        item: ItemV,
        bound: ExprId,
        range: TextRange,
        arguments: Seq<Argument>,
        from: int,
        done: Seq<CallArgumentV>,
    ) -> (CheckV, Seq<CallArgumentV>)
        decreases bound.0, 1int, arguments.len() - from,
    {
        if 0 <= from < arguments.len() {
            let (next, ty) = match arguments[from].value {
                Some(value) => {
                    let (next, ty) = self.below(item, bound, value);
                    (next, Some(ty))
                },
                None => (self, None),
            };
            next.infer_arguments(
                item,
                bound,
                range,
                arguments,
                from + 1,
                done.push(call_argument(item.module, range, arguments[from], ty)),
            )
        } else {
            (self, done)
        }
    }

    /// An operand, and its structural type.
    pub open spec fn infer_structural(self, item: ItemV, bound: ExprId, id: ExprId) -> (CheckV, TyV)
        decreases bound.0, 0int, 1int,
    {
        let (next, ty) = self.below(item, bound, id);
        (next, next.table.structural(ty))
    }

    /// A condition: what does not coerce must be a logical.
    pub open spec fn expect_logical(self, item: ItemV, bound: ExprId, condition: ExprId) -> CheckV
        decreases bound.0, 0int, 2int,
    {
        let (next, resolved) = self.infer_structural(item, bound, condition);
        if operands::coerces(resolved) {
            next
        } else {
            next.unify_or_report(
                item.module,
                checking::blame_range(item.module, condition),
                TyV::Scalar(Atomic::Logical),
                resolved,
            )
        }
    }

    // ---- assignment ----

    /// An assignment; the type of the value.
    pub open spec fn infer_assign(
        self,
        item: ItemV,
        id: ExprId,
        spelling: AssignSpelling,
        target: ExprId,
        value: ExprId,
    ) -> (CheckV, TyV)
        decreases id.0, 6int, 0int,
    {
        let (next, ty) = self.assigned_value(item, id, value);
        (
            match item.module.kind_of(target) {
                ExpressionKind::NameRef(_) => next.write_name(item, spelling, target, ty),
                _ => next.write_replacement(item, id, target, value, ty),
            },
            ty,
        )
    }

    /// The value of an assignment, under the assignment's annotation.
    pub open spec fn assigned_value(self, item: ItemV, id: ExprId, value: ExprId) -> (CheckV, TyV)
        decreases id.0, 5int, 0int,
    {
        match self.declared_function(id) {
            Some(scheme) => if item.module.kind_of(value) is Function {
                let (next, ty) = self.against_below(item, id, value, scheme);
                (next.record(value, ty), checking::recordable(ty))
            } else {
                self.plain_value(item, id, value)
            },
            None => self.plain_value(item, id, value),
        }
    }

    pub open spec fn plain_value(self, item: ItemV, id: ExprId, value: ExprId) -> (CheckV, TyV)
        decreases id.0, 4int, 0int,
    {
        let (next, ty) = self.below(item, id, value);
        next.apply_annotation(item.module, id, value, ty)
    }

    /// A replacement: reads the base, applies the write, and writes it back.
    pub open spec fn write_replacement(
        self,
        item: ItemV,
        bound: ExprId,
        target: ExprId,
        value: ExprId,
        ty: TyV,
    ) -> CheckV
        decreases bound.0, 4int, 0int,
    {
        let base = walk::replacement_base(item.module, target);
        let read = self.spine_below(item, bound, target, base);
        match base {
            None => read.unsupported(item.module, target),
            Some(base) => {
                let (next, before) = read.below(item, bound, base);
                let (after, written) = next.replaced(
                    item.module,
                    target,
                    base,
                    value,
                    next.table.resolve(before),
                    next.table.resolve(ty),
                );
                match item.slot_of(base) {
                    Some(slot) => after.set_slot(slot, SlotV::Mono(written)),
                    None => after,
                }
            },
        }
    }

    pub open spec fn spine_below(
        self,
        item: ItemV,
        bound: ExprId,
        target: ExprId,
        base: Option<ExprId>,
    ) -> CheckV
        decreases bound.0, 0int, 0int,
    {
        if target.0 < bound.0 {
            self.infer_spine(item, target, base)
        } else {
            self
        }
    }

    /// The parts of a replacement target that are reads: indexes and surplus
    /// arguments. The callee of a replacement call and the base are none.
    pub open spec fn infer_spine(self, item: ItemV, id: ExprId, base: Option<ExprId>) -> CheckV
        decreases id.0, 9int, 0int,
    {
        if base == Some(id) {
            self
        } else {
            match item.module.kind_of(id) {
                ExpressionKind::Index { target, arguments, .. } => self.spine_below(
                    item,
                    id,
                    target,
                    base,
                ).infer_values(item, id, arguments@, 0, Seq::empty()).0,
                ExpressionKind::Field { target, .. } => self.spine_below(item, id, target, base),
                ExpressionKind::Call { arguments, .. } => (if arguments@.len() > 0 {
                    match arguments@[0].value {
                        Some(value) => self.spine_below(item, id, value, base),
                        None => self,
                    }
                } else {
                    self
                }).infer_values(item, id, arguments@, 1, Seq::empty()).0,
                _ => self.infer(item, id).0,
            }
        }
    }

    // ---- operators ----

    pub open spec fn infer_unary(
        self,
        item: ItemV,
        id: ExprId,
        operator: UnaryOperator,
        operand: ExprId,
    ) -> (CheckV, TyV)
        decreases id.0, 6int, 0int,
    {
        let range = checking::blame_range(item.module, operand);
        match operator {
            UnaryOperator::Minus => {
                let (next, resolved) = self.infer_structural(item, id, operand);
                next.negated(item.module, range, resolved)
            },
            UnaryOperator::Not => {
                let (next, resolved) = self.infer_structural(item, id, operand);
                next.inverted(item.module, range, resolved)
            },
            _ => (
                self.below(item, id, operand).0.unsupported(item.module, id),
                TyV::Unknown,
            ),
        }
    }

    pub open spec fn infer_binary(
        self,
        item: ItemV,
        id: ExprId,
        operator: BinaryOperator,
        name: Option<Seq<char>>,
        lhs: ExprId,
        rhs: ExprId,
    ) -> (CheckV, TyV)
        decreases id.0, 6int, 0int,
    {
        let range = item.module.range_of(id);
        if operator == BinaryOperator::Special {
            let (next, outcome) = self.infer_special(item, id, name, lhs, rhs);
            match outcome {
                Some(ty) => (next.record(id, ty), checking::recordable(ty)),
                None => next.infer_opaque(item, id, lhs, rhs),
            }
        } else if operands::is_arithmetic(operator) || operands::is_comparison(operator) {
            let (first, left) = self.below(item, id, lhs);
            let (second, right) = first.below(item, id, rhs);
            second.operated(item, range, operator, lhs, rhs, left, right)
        } else if operator == BinaryOperator::Sequence {
            self.infer_colon(item, id, lhs, rhs)
        } else if operator == BinaryOperator::And2 || operator == BinaryOperator::Or2 {
            (
                self.expect_logical(item, id, lhs).expect_logical(item, id, rhs),
                TyV::Scalar(Atomic::Logical),
            )
        } else {
            self.infer_opaque(item, id, lhs, rhs)
        }
    }

    /// An operator that is not modelled: its operands are inferred, and nothing
    /// inside it is judged.
    pub open spec fn infer_opaque(self, item: ItemV, id: ExprId, lhs: ExprId, rhs: ExprId) -> (
        CheckV,
        TyV,
    )
        decreases id.0, 5int, 0int,
    {
        let next = self.below(item, id, lhs).0.below(item, id, rhs).0;
        (
            next.cut(self.errors.len(), self.origins.len()).unsupported(item.module, id),
            TyV::Unknown,
        )
    }

    /// An operator that the stub corpus declares is the call it stands for.
    pub open spec fn infer_special(
        self,
        item: ItemV,
        id: ExprId,
        name: Option<Seq<char>>,
        lhs: ExprId,
        rhs: ExprId,
    ) -> (CheckV, Option<TyV>)
        decreases id.0, 5int, 0int,
    {
        match item.declared_operator(name) {
            Some(scheme) => {
                let (ready, ty) = self.instantiate(scheme);
                match ready.table.shallow(ty) {
                    TyV::Function(function) => {
                        let (first, left) = ready.below(item, id, lhs);
                        let (second, right) = first.below(item, id, rhs);
                        let (after, found) = second.match_arguments(
                            arithmetic::operator_call(
                                item.module,
                                item.module.range_of(id),
                                lhs,
                                rhs,
                                left,
                                right,
                            ),
                            *function,
                        );
                        (after.report_all(found), Some(function.ret))
                    },
                    _ => (ready, None),
                }
            },
            None => (self, None),
        }
    }

    /// A sequence `a:b`: of integers, unless an end may be a double.
    pub open spec fn infer_colon(self, item: ItemV, id: ExprId, lhs: ExprId, rhs: ExprId) -> (
        CheckV,
        TyV,
    )
        decreases id.0, 5int, 0int,
    {
        let (first, atomic) = self.infer_end(item, id, lhs, Atomic::Integer);
        match atomic {
            None => (first, TyV::Unknown),
            Some(atomic) => {
                let (second, result) = first.infer_end(item, id, rhs, atomic);
                match result {
                    None => (second, TyV::Unknown),
                    Some(result) => (second, arithmetic::vector_of(result)),
                }
            },
        }
    }

    pub open spec fn infer_end(self, item: ItemV, bound: ExprId, operand: ExprId, atomic: Atomic) -> (
        CheckV,
        Option<Atomic>,
    )
        decreases bound.0, 4int, 0int,
    {
        let (next, resolved) = self.infer_structural(item, bound, operand);
        next.colon_end(
            item.module,
            checking::blame_range(item.module, operand),
            operands::whole_double(item.module, operand),
            resolved,
            atomic,
        )
    }

    // ---- access ----

    pub open spec fn infer_index(
        self,
        item: ItemV,
        id: ExprId,
        double: bool,
        target: ExprId,
        arguments: Seq<Argument>,
    ) -> (CheckV, TyV)
        decreases id.0, 6int, 0int,
    {
        let (first, target_ty) = self.below(item, id, target);
        let (next, indexes) = first.infer_values(item, id, arguments, 0, Seq::empty());
        next.indexed(item, id, double, next.table.structural(target_ty), arguments, indexes)
    }

    /// An index on a subject of a structural type.
    pub open spec fn indexed(
        self,
        item: ItemV,
        id: ExprId,
        double: bool,
        subject: TyV,
        arguments: Seq<Argument>,
        indexes: Seq<TyV>,
    ) -> (CheckV, TyV) {
        let m = item.module;
        let range = m.range_of(id);
        let refused = (self.unsupported(m, id), TyV::Unknown);
        if !double && operands::is_table(subject) {
            let masked = self.mask_arguments(m, arguments, 0);
            if operands::keeps_class(m, arguments) {
                (masked, subject)
            } else {
                (masked.unsupported(m, id), TyV::Unknown)
            }
        } else if item.naming.masked_subsets.contains(id.0) || subject is Unknown {
            (self, TyV::Unknown)
        } else if subject is Any {
            (self, TyV::Any)
        } else if subject is Named || subject is Var || subject is Rigid {
            refused
        } else if indexes.len() != 1 {
            (
                self.fail(
                    range,
                    TypeErrorKindV::UnsupportedIndexShape { index_count: indexes.len() as usize },
                ),
                TyV::Unknown,
            )
        } else if arguments.len() != 1 {
            refused
        } else if arguments[0].name is Some {
            (
                self.fail(range, TypeErrorKindV::UnsupportedIndexShape { index_count: 1 }),
                TyV::Unknown,
            )
        } else {
            match arguments[0].value {
                Some(value) => self.accessed(
                    m,
                    id,
                    if double {
                        access::extracted(
                            subject,
                            key_of(m, value),
                            range,
                            checking::blame_range(m, value),
                        )
                    } else {
                        access::subset(subject, Some(self.table.resolve(indexes[0])), range)
                    },
                ),
                None => (self, TyV::Unknown),
            }
        }
    }

    pub open spec fn mask_arguments(self, m: Module, arguments: Seq<Argument>, from: int) -> CheckV
        decreases arguments.len() - from,
    {
        if 0 <= from < arguments.len() {
            (match arguments[from].value {
                Some(value) => self.mask_reads(m, value),
                None => self,
            }).mask_arguments(m, arguments, from + 1)
        } else {
            self
        }
    }

    pub open spec fn infer_field(
        self,
        item: ItemV,
        id: ExprId,
        at: bool,
        target: ExprId,
        name: Option<Seq<char>>,
        name_range: TextRange,
    ) -> (CheckV, TyV)
        decreases id.0, 6int, 0int,
    {
        let m = item.module;
        let (next, target_ty) = self.below(item, id, target);
        if at {
            (next.unsupported(m, id), TyV::Unknown)
        } else {
            match name {
                Some(name) => next.accessed(
                    m,
                    id,
                    access::dollar(
                        next.table.structural(target_ty),
                        name,
                        m.range_of(id),
                        name_range,
                    ),
                ),
                None => (next, TyV::Unknown),
            }
        }
    }

    // ---- branches and loops ----

    pub open spec fn infer_if(
        self,
        item: ItemV,
        id: ExprId,
        condition: ExprId,
        then_branch: ExprId,
        else_branch: Option<ExprId>,
    ) -> (CheckV, TyV)
        decreases id.0, 6int, 0int,
    {
        let m = item.module;
        let tested = self.expect_logical(item, id, condition);
        let (ready, guard) = tested.guard_below(item, id, condition);
        let mark = ready.env.mark();
        let (taken, then_ty) = ready.on_true_edge(guard).below(item, id, then_branch);
        let writes = taken.env.writes_since(mark);
        let back = taken.rolled_back(mark);
        let false_mark = back.env.mark();
        let other = back.on_false_edge(guard);
        match else_branch {
            Some(else_branch) => {
                let (last, else_ty) = other.below(item, id, else_branch);
                last.meet(
                    (walk::diverges(m, then_branch), walk::diverges(m, else_branch)),
                    writes,
                    false_mark,
                    then_ty,
                    else_ty,
                )
            },
            None => other.meet(
                (walk::diverges(m, then_branch), false),
                writes,
                false_mark,
                then_ty,
                TyV::Null,
            ),
        }
    }

    pub open spec fn guard_below(self, item: ItemV, bound: ExprId, condition: ExprId) -> (
        CheckV,
        Option<GuardV>,
    )
        decreases bound.0, 0int, 0int,
    {
        if condition.0 < bound.0 {
            self.recognize_guard(item, condition)
        } else {
            (self, None)
        }
    }

    /// A condition that tests a plain variable with a guard predicate. `!` swaps
    /// the edges. A name the item does not bind is tested through a slot of its
    /// own, unless the read is deferred.
    pub open spec fn recognize_guard(self, item: ItemV, condition: ExprId) -> (CheckV, Option<GuardV>)
        decreases condition.0, 6int, 0int,
    {
        let m = item.module;
        match m.kind_of(condition) {
            ExpressionKind::Unary { operator, operand } => if operator == UnaryOperator::Not {
                let (next, guard) = self.guard_below(item, condition, operand);
                match guard {
                    Some(guard) => (next, Some(guard.negated())),
                    None => (next, None),
                }
            } else {
                (self, None)
            },
            ExpressionKind::Paren(inner) => self.guard_below(item, condition, inner),
            ExpressionKind::Call { callee, arguments } => match (
                m.name_of(callee),
                tested_name(m, arguments@),
            ) {
                (Some(name), Some(value)) => if item.slot_of(callee) is Some {
                    (self, None)
                } else {
                    match item.slot_of(value) {
                        Some(slot) => self.guard_on(name, slot),
                        None => if item.naming.deferred_non_locals.contains(value.0) {
                            (self, None)
                        } else {
                            let (read, observed) = self.below(item, condition, value);
                            let (next, slot) = read.guard_slot(item, value, observed);
                            match slot {
                                Some(slot) => next.guard_on(name, slot),
                                None => (next, None),
                            }
                        },
                    }
                },
                _ => (self, None),
            },
            _ => (self, None),
        }
    }

    pub open spec fn infer_for(
        self,
        item: ItemV,
        id: ExprId,
        variable_range: Option<TextRange>,
        sequence: ExprId,
        body: ExprId,
    ) -> (CheckV, TyV)
        decreases id.0, 6int, 0int,
    {
        let (next, resolved) = self.infer_structural(item, id, sequence);
        let (ready, element) = match operands::iterated(resolved) {
            Ok(element) => (next, element),
            Err(found) => (
                next.fail(
                    checking::blame_range(item.module, sequence),
                    TypeErrorKindV::NotIterable { found },
                ),
                TyV::Unknown,
            ),
        };
        let slot = match variable_range {
            Some(range) => checking::slot_at(item.naming.bindings, range, 0),
            None => None,
        };
        (
            ready.check_loop(
                item,
                id,
                None,
                body,
                false,
                match slot {
                    Some(slot) => Some((slot, element)),
                    None => None,
                },
                0,
            ),
            TyV::Null,
        )
    }

    /// One pass over a loop body: the state with the body's writes joined in, the
    /// writes, and the slots they changed.
    pub open spec fn loop_pass(
        self,
        item: ItemV,
        id: ExprId,
        condition: Option<ExprId>,
        body: ExprId,
        variable: Option<(u32, TyV)>,
    ) -> (CheckV, WritesV, Seq<u32>)
        decreases id.0, 4int, 0int,
    {
        let mark = self.env.mark();
        let entered = match variable {
            Some((slot, element)) => self.set_slot(slot, SlotV::Mono(element)),
            None => self,
        };
        let tested = match condition {
            Some(condition) => entered.expect_logical(item, id, condition),
            None => entered,
        };
        let (done, _) = tested.below(item, id, body);
        let all = done.env.writes_since(mark);
        let writes = without_slot(
            all,
            match variable {
                Some((slot, _)) => Some(slot),
                None => None,
            },
            all.len(),
        );
        let back = done.rolled_back(mark);
        let ready = back.establish(back.pre_materialized, 0);
        let (joined, changed) = ready.join_writes(writes, 0, Seq::empty());
        (joined, writes, changed)
    }

    /// A loop body to a fixed point. A pass under a state that was not yet stable
    /// reports nothing; what still changes at the cap widens. A loop that runs at
    /// least once leaves its exit state.
    pub open spec fn check_loop(
        self,
        item: ItemV,
        id: ExprId,
        condition: Option<ExprId>,
        body: ExprId,
        runs: bool,
        variable: Option<(u32, TyV)>,
        passes: nat,
    ) -> CheckV
        decreases id.0, 5int, LOOP_PASS_CAP - passes,
    {
        let (next, writes, changed) = self.loop_pass(item, id, condition, body, variable);
        if changed.len() == 0 {
            if runs {
                next.adopt_writes(writes, 0)
            } else {
                next
            }
        } else if passes + 1 >= LOOP_PASS_CAP {
            next.widen(item, id, changed, 0)
        } else {
            next.cut(self.errors.len(), self.origins.len()).check_loop(
                item,
                id,
                condition,
                body,
                runs,
                variable,
                passes + 1,
            )
        }
    }

    /// `local(expr)`: its bindings vanish, and only `<<-` writes survive.
    pub open spec fn infer_local(self, item: ItemV, id: ExprId, body: ExprId) -> (CheckV, TyV)
        decreases id.0, 6int, 0int,
    {
        let (next, ty) = self.below(item, id, body);
        let back = next.rolled_back(self.env.mark());
        (back.reapply(back.pending, self.pending.len() as int), ty)
    }

    // ---- functions ----

    /// The formals of a definition from one on, as an inferred signature.
    pub open spec fn infer_formals(
        self,
        item: ItemV,
        id: ExprId,
        parameters: Seq<Parameter>,
        body: ExprId,
        from: int,
        named: Seq<ParameterV>,
        variadic: Option<RestV>,
    ) -> (CheckV, Seq<ParameterV>, Option<RestV>)
        decreases id.0, 1int, parameters.len() - from,
    {
        if 0 <= from < parameters.len() {
            let parameter = parameters[from];
            if parameter.name@ == "..."@ {
                self.infer_formals(
                    item,
                    id,
                    parameters,
                    body,
                    from + 1,
                    named,
                    Some(RestV { element: TyV::Any, preceding_named: named.len() as usize }),
                )
            } else {
                let (fresh, ty) = self.fresh(Constraint::Unconstrained);
                let bound = fresh.bind_formal(item, parameter, ty);
                let (next, default) = match parameter.default {
                    Some(default) => {
                        let (next, default_ty) = bound.below(item, id, default);
                        (next, Some(default_ty))
                    },
                    None => (bound, None),
                };
                next.infer_formals(
                    item,
                    id,
                    parameters,
                    body,
                    from + 1,
                    named.push(
                        ParameterV {
                            name: parameter.name@,
                            ty,
                            optional: declared::is_optional(item.module, body, parameter),
                            default,
                        },
                    ),
                    variadic,
                )
            }
        } else {
            (self, named, variadic)
        }
    }

    /// A body, once more where a closure read a captured slot before its writes
    /// were complete. The first run then leaves only the completed joins.
    pub open spec fn infer_body(self, item: ItemV, bound: ExprId, body: ExprId, pending: nat) -> (
        CheckV,
        TyV,
    )
        decreases bound.0, 1int, 0int,
    {
        let (first, ty) = CheckV { repass: false, ..self }.below(item, bound, body);
        if first.repass {
            let table = first.table.rolled_back(self.table.snapshot());
            let clean = first.rolled_back(self.env.mark()).with_table(table).cut(
                self.errors.len(),
                self.origins.len(),
            ).truncate_pending(pending).clear_frame();
            let (second, again) = CheckV { repass: false, ..clean }.below(item, bound, body);
            (CheckV { repass: self.repass, ..second }, again)
        } else {
            (CheckV { repass: self.repass, ..first }, ty)
        }
    }

    /// A function without a declared signature.
    pub open spec fn infer_function(
        self,
        item: ItemV,
        id: ExprId,
        parameters: Seq<Parameter>,
        body: ExprId,
    ) -> (CheckV, TyV)
        decreases id.0, 6int, 0int,
    {
        let pending = self.pending.len();
        let mark = self.env.mark();
        let (ready, named, variadic) = self.deeper().infer_formals(
            item,
            id,
            parameters,
            body,
            0,
            Seq::empty(),
            None,
        );
        let (done, trailing) = ready.push_frame().infer_body(item, id, body, pending);
        let (left, early) = done.pop_frame();
        let ret = declared::returned_type(left.table, early, trailing);
        (
            left.leave_function(mark, pending, self.table.level),
            TyV::Function(
                Box::new(FunctionV { positional: Seq::empty(), named, variadic, ret }),
            ),
        )
    }

    /// The state after a function: its bindings vanish, and only `<<-` writes
    /// survive.
    pub open spec fn leave_function(self, mark: nat, pending: nat, level: u32) -> CheckV {
        let back = self.rolled_back(mark);
        back.reapply(back.pending, pending as int).at_level(level)
    }

    pub open spec fn against_below(
        self,
        item: ItemV,
        bound: ExprId,
        id: ExprId,
        scheme: SchemeV,
    ) -> (CheckV, TyV)
        decreases bound.0, 0int, 0int,
    {
        if id.0 < bound.0 {
            self.check_against(item, id, scheme)
        } else {
            (self, TyV::Unknown)
        }
    }

    /// A function definition against a declared scheme, whose binders are rigid
    /// in it.
    pub open spec fn check_against(self, item: ItemV, id: ExprId, scheme: SchemeV) -> (CheckV, TyV)
        decreases id.0, 6int, 0int,
    {
        let ready = self.declare(scheme.binders, 0);
        match (scheme.body, item.module.kind_of(id)) {
            (TyV::Function(declared), ExpressionKind::Function { parameters, body }) => {
                ready.check_declared(item, id, *declared, parameters@, body)
            },
            _ => (ready, scheme.body),
        }
    }

    /// The formals of a definition from one on, paired with the declared types.
    pub open spec fn pair_formals(
        self,
        item: ItemV,
        id: ExprId,
        declared: FunctionV,
        parameters: Seq<Parameter>,
        body: ExprId,
        from: int,
        paired: PairedV,
    ) -> (CheckV, PairedV)
        decreases id.0, 1int, parameters.len() - from,
    {
        if 0 <= from < parameters.len() {
            let parameter = parameters[from];
            if parameter.name@ == "..."@ {
                let (next, own) = self.fresh(Constraint::Unconstrained);
                next.pair_formals(
                    item,
                    id,
                    declared,
                    parameters,
                    body,
                    from + 1,
                    paired.with_rest(declared, own),
                )
            } else {
                let (claimed, claims) = paired.claim(declared, parameter.name@);
                let (typed, ty) = match claimed {
                    Some(ty) => (self, ty),
                    None => self.fresh(Constraint::Unconstrained),
                };
                let (next, default) = match parameter.default {
                    Some(default) => {
                        let (next, default_ty) = typed.below(item, id, default);
                        (next, Some(default_ty))
                    },
                    None => (typed, None),
                };
                next.pair_formals(
                    item,
                    id,
                    declared,
                    parameters,
                    body,
                    from + 1,
                    claims.with_formal(
                        ParameterV {
                            name: parameter.name@,
                            ty,
                            optional: declared::is_optional(item.module, body, parameter),
                            default,
                        },
                        claimed is Some,
                    ),
                )
            }
        } else {
            (self, paired)
        }
    }

    /// The formals from one on bound to their types, with each default checked
    /// against the type it was declared for.
    pub open spec fn bind_formals(
        self,
        item: ItemV,
        id: ExprId,
        parameters: Seq<Parameter>,
        formal_types: Seq<(TyV, bool)>,
        from: int,
    ) -> CheckV
        decreases id.0, 1int, parameters.len() - from,
    {
        if 0 <= from < parameters.len() && from < formal_types.len() {
            let parameter = parameters[from];
            let (ty, is_declared) = formal_types[from];
            let bound = self.bind_formal(item, parameter, ty);
            (match parameter.default {
                Some(default) => {
                    let (next, default_ty) = bound.below(item, id, default);
                    if is_declared {
                        next.check_default(item.module, parameter.name@, ty, default, default_ty)
                    } else {
                        next
                    }
                },
                None => bound,
            }).bind_formals(item, id, parameters, formal_types, from + 1)
        } else {
            self
        }
    }

    /// A function definition under its declared signature; the signature its
    /// callers see has the definition's formals.
    pub open spec fn check_declared(
        self,
        item: ItemV,
        id: ExprId,
        declared: FunctionV,
        parameters: Seq<Parameter>,
        body: ExprId,
    ) -> (CheckV, TyV)
        decreases id.0, 5int, 0int,
    {
        let m = item.module;
        let (ready, paired) = self.deeper().pair_formals(
            item,
            id,
            declared,
            parameters,
            body,
            0,
            PairedV::start(declared),
        );
        let shaped = ready.report_shape(m, body, m.range_of(id), declared, parameters, paired);
        let (done, ret) = shaped.declared_body(
            item,
            id,
            declared.ret,
            parameters,
            body,
            paired.types,
            self.table.level,
        );
        (done, TyV::Function(Box::new(paired.signature(ret))))
    }

    /// The body of a definition under the types of its formals, and what it
    /// returns.
    pub open spec fn declared_body(
        self,
        item: ItemV,
        id: ExprId,
        ret: TyV,
        parameters: Seq<Parameter>,
        body: ExprId,
        formal_types: Seq<(TyV, bool)>,
        level: u32,
    ) -> (CheckV, TyV)
        decreases id.0, 4int, 0int,
    {
        let pending = self.pending.len();
        let mark = self.env.mark();
        let bound = self.bind_formals(item, id, parameters, formal_types, 0);
        let (done, trailing) = bound.push_frame().infer_body(item, id, body, pending);
        let (left, early) = done.pop_frame();
        let (settled, returned) = left.settle_return(item.module, ret, body, early, trailing);
        (settled.leave_function(mark, pending, level), returned)
    }

    // ---- calls ----

    /// A call: the shape-building names first, then a callee with overloads, then
    /// any other callee.
    pub open spec fn infer_call(
        self,
        item: ItemV,
        id: ExprId,
        callee: ExprId,
        arguments: Seq<Argument>,
    ) -> (CheckV, TyV)
        decreases id.0, 6int, 0int,
    {
        let name = item.module.name_of(callee);
        if name == Some("c"@) {
            self.infer_combine(item, id, arguments)
        } else if name == Some("list"@) {
            self.infer_list(item, id, arguments)
        } else if name == Some("switch"@) {
            self.infer_switch(item, id, arguments)
        } else if name == Some("return"@) {
            self.infer_return(item, id, arguments)
        } else if name == Some("structure"@) && structured_value(arguments) is Some {
            self.infer_structure(item, id, arguments, structured_value(arguments)->0)
        } else {
            match item.overload_set(callee) {
                Some((name, candidates)) => self.overloaded_call(
                    item,
                    id,
                    callee,
                    arguments,
                    name,
                    candidates,
                ),
                None => self.ordinary_call(item, id, callee, arguments),
            }
        }
    }

    /// A call through the callee's type. A callee of type `Any` cannot be
    /// checked: nothing inside the call is judged.
    pub open spec fn ordinary_call(
        self,
        item: ItemV,
        id: ExprId,
        callee: ExprId,
        arguments: Seq<Argument>,
    ) -> (CheckV, TyV)
        decreases id.0, 5int, 0int,
    {
        let m = item.module;
        let range = m.range_of(id);
        let (ready, callee_ty) = self.below(item, id, callee);
        let (next, given) = ready.infer_arguments(item, id, range, arguments, 0, Seq::empty());
        if ready.table.shallow(callee_ty) is Any {
            (
                next.cut(ready.errors.len(), ready.origins.len()).unsupported(m, id),
                TyV::Unknown,
            )
        } else {
            next.dispatch_call(
                CallV {
                    module: m,
                    range,
                    callee_range: checking::blame_range(m, callee),
                    arguments: given,
                },
                callee_ty,
            )
        }
    }

    /// A call through an overload set.
    pub open spec fn overloaded_call(
        self,
        item: ItemV,
        id: ExprId,
        callee: ExprId,
        arguments: Seq<Argument>,
        name: Seq<char>,
        candidates: Seq<SchemeV>,
    ) -> (CheckV, TyV)
        decreases id.0, 5int, 0int,
    {
        let m = item.module;
        let range = m.range_of(id);
        let (next, given) = self.infer_arguments(item, id, range, arguments, 0, Seq::empty());
        next.select_overload(
            item,
            id,
            callee,
            CallV {
                module: m,
                range,
                callee_range: checking::blame_range(m, callee),
                arguments: given,
            },
            name,
            candidates,
        )
    }

    /// The chosen candidate's result, or why no candidate fits. A result of type
    /// `Any` is a place where nothing is known.
    pub open spec fn select_overload(
        self,
        item: ItemV,
        id: ExprId,
        callee: ExprId,
        call: CallV,
        name: Seq<char>,
        candidates: Seq<SchemeV>,
    ) -> (CheckV, TyV) {
        let (choice, errors) = self.table.choose_candidate(call, candidates);
        let refused = self.report(
            overloads::no_match(name, errors, candidates.len(), call),
        ).note(callee, TyV::Unknown);
        let failed = (
            CheckV { selected: refused.selected.remove(callee.0), ..refused },
            TyV::Unknown,
        );
        match choice {
            Some((index, strict)) => match self.table.probe_candidate(
                call,
                candidates[index],
                strict,
            ) {
                Ok((table, function)) => {
                    let noted = self.with_table(table).note(
                        callee,
                        TyV::Function(Box::new(function)),
                    );
                    let chosen = CheckV {
                        selected: noted.selected.insert(callee.0, index as usize),
                        ..noted
                    };
                    (
                        if table.shallow(function.ret) is Any {
                            chosen.unsupported(item.module, id)
                        } else {
                            chosen
                        },
                        function.ret,
                    )
                },
                Err(_) => failed,
            },
            None => failed,
        }
    }

    /// `return(x)` adds to the frame's returns and yields nothing where it
    /// stands.
    pub open spec fn infer_return(self, item: ItemV, id: ExprId, arguments: Seq<Argument>) -> (
        CheckV,
        TyV,
    )
        decreases id.0, 5int, 0int,
    {
        let m = item.module;
        let value = if arguments.len() > 0 {
            arguments[0].value
        } else {
            None
        };
        let (first, ty) = match value {
            Some(value) => self.below(item, id, value),
            None => (self, TyV::Null),
        };
        let next = first.infer_values(item, id, arguments, 1, Seq::empty()).0;
        (
            next.push_return(
                next.table.resolve(ty),
                match value {
                    Some(value) => checking::blame_range(m, value),
                    None => m.range_of(id),
                },
            ),
            TyV::Null,
        )
    }

    /// `structure(value, ...)` has the type of its value.
    pub open spec fn infer_structure(
        self,
        item: ItemV,
        id: ExprId,
        arguments: Seq<Argument>,
        value: ExprId,
    ) -> (CheckV, TyV)
        decreases id.0, 5int, 0int,
    {
        let (first, ty) = self.below(item, id, value);
        let next = first.infer_others(item, id, arguments, value, 0);
        (next.record(id, ty), checking::recordable(ty))
    }

    pub open spec fn infer_others(
        self,
        item: ItemV,
        bound: ExprId,
        arguments: Seq<Argument>,
        value: ExprId,
        from: int,
    ) -> CheckV
        decreases bound.0, 1int, arguments.len() - from,
    {
        if 0 <= from < arguments.len() {
            (match arguments[from].value {
                Some(other) => if other == value {
                    self
                } else {
                    self.below(item, bound, other).0
                },
                None => self,
            }).infer_others(item, bound, arguments, value, from + 1)
        } else {
            self
        }
    }

    /// The resolved types of arguments from one on; a hole is unknown.
    pub open spec fn infer_items(
        self,
        item: ItemV,
        bound: ExprId,
        arguments: Seq<Argument>,
        from: int,
        done: Seq<TyV>,
    ) -> (CheckV, Seq<TyV>)
        decreases bound.0, 1int, arguments.len() - from,
    {
        if 0 <= from < arguments.len() {
            match arguments[from].value {
                Some(value) => {
                    let (next, ty) = self.below(item, bound, value);
                    next.infer_items(
                        item,
                        bound,
                        arguments,
                        from + 1,
                        done.push(next.table.resolve(ty)),
                    )
                },
                None => self.infer_items(
                    item,
                    bound,
                    arguments,
                    from + 1,
                    done.push(TyV::Unknown),
                ),
            }
        } else {
            (self, done)
        }
    }

    /// The resolved types of the arguments that have a value.
    pub open spec fn infer_elements(
        self,
        item: ItemV,
        bound: ExprId,
        arguments: Seq<Argument>,
        from: int,
        done: Seq<TyV>,
    ) -> (CheckV, Seq<TyV>)
        decreases bound.0, 1int, arguments.len() - from,
    {
        if 0 <= from < arguments.len() {
            match arguments[from].value {
                Some(value) => {
                    let (next, ty) = self.below(item, bound, value);
                    next.infer_elements(
                        item,
                        bound,
                        arguments,
                        from + 1,
                        done.push(next.table.resolve(ty)),
                    )
                },
                None => self.infer_elements(item, bound, arguments, from + 1, done),
            }
        } else {
            (self, done)
        }
    }

    /// `list(...)`: a tuple where nothing is named, a record where everything is,
    /// and otherwise a list.
    pub open spec fn infer_list(self, item: ItemV, id: ExprId, arguments: Seq<Argument>) -> (
        CheckV,
        TyV,
    )
        decreases id.0, 5int, 0int,
    {
        if all_unnamed(arguments) {
            let (next, items) = self.infer_items(item, id, arguments, 0, Seq::empty());
            (next, TyV::Tuple(items))
        } else if all_named(arguments) {
            let (next, items) = self.infer_items(item, id, arguments, 0, Seq::empty());
            (next, TyV::Record(record_fields(arguments, items)))
        } else {
            let (next, items) = self.infer_elements(item, id, arguments, 0, Seq::empty());
            (next, TyV::List(Box::new(TyV::union_of(items))))
        }
    }

    /// The branches of a `switch` from one on: each runs from the same state.
    pub open spec fn infer_branches(
        self,
        item: ItemV,
        id: ExprId,
        arguments: Seq<Argument>,
        from: int,
        mark: nat,
        members: Seq<TyV>,
        branches: Seq<WritesV>,
    ) -> (CheckV, Seq<TyV>, Seq<WritesV>)
        decreases id.0, 1int, arguments.len() - from,
    {
        if 0 <= from < arguments.len() {
            match arguments[from].value {
                Some(value) => {
                    let (next, ty) = self.below(item, id, value);
                    next.rolled_back(mark).infer_branches(
                        item,
                        id,
                        arguments,
                        from + 1,
                        mark,
                        members.push(next.table.resolve(ty)),
                        if walk::diverges(item.module, value) {
                            branches
                        } else {
                            branches.push(next.env.writes_since(mark))
                        },
                    )
                },
                None => self.infer_branches(
                    item,
                    id,
                    arguments,
                    from + 1,
                    mark,
                    members,
                    branches,
                ),
            }
        } else {
            (self, members, branches)
        }
    }

    /// `switch(...)`: the union of its branches, and `NULL` without a default.
    pub open spec fn infer_switch(self, item: ItemV, id: ExprId, arguments: Seq<Argument>) -> (
        CheckV,
        TyV,
    )
        decreases id.0, 5int, 0int,
    {
        if arguments.len() == 0 {
            (
                self.fail(
                    item.module.range_of(id),
                    TypeErrorKindV::ArityMismatch { expected: 1, found: 0 },
                ),
                TyV::Unknown,
            )
        } else {
            let ready = match arguments[0].value {
                Some(value) => self.below(item, id, value).0,
                None => self,
            };
            let (next, members, branches) = ready.infer_branches(
                item,
                id,
                arguments,
                1,
                ready.env.mark(),
                Seq::empty(),
                Seq::empty(),
            );
            (
                next.meet_branches(branches),
                TyV::union_of(
                    if has_default_branch(arguments) {
                        members
                    } else {
                        members.push(TyV::Null)
                    },
                ),
            )
        }
    }

    /// The structural types of the arguments that have a value.
    pub open spec fn infer_shapes(
        self,
        item: ItemV,
        bound: ExprId,
        arguments: Seq<Argument>,
        from: int,
        done: Seq<TyV>,
    ) -> (CheckV, Seq<TyV>)
        decreases bound.0, 1int, arguments.len() - from,
    {
        if 0 <= from < arguments.len() {
            match arguments[from].value {
                Some(value) => {
                    let (next, ty) = self.infer_structural(item, bound, value);
                    next.infer_shapes(item, bound, arguments, from + 1, done.push(ty))
                },
                None => self.infer_shapes(item, bound, arguments, from + 1, done),
            }
        } else {
            (self, done)
        }
    }

    /// The arguments of `c(...)` from one on, gathered.
    pub open spec fn gather(
        self,
        item: ItemV,
        id: ExprId,
        arguments: Seq<Argument>,
        from: int,
        gathered: CombineV,
    ) -> (CheckV, CombineV)
        decreases id.0, 1int, arguments.len() - from,
    {
        if 0 <= from < arguments.len() {
            match arguments[from].value {
                Some(value) => {
                    let (next, resolved) = self.infer_structural(item, id, value);
                    let (after, more) = next.combine_argument(
                        item.module,
                        id,
                        checking::blame_range(item.module, value),
                        arguments[from].name is Some,
                        resolved,
                        gathered,
                    );
                    after.gather(item, id, arguments, from + 1, more)
                },
                None => self.gather(item, id, arguments, from + 1, gathered),
            }
        } else {
            (self, gathered)
        }
    }

    /// `c(...)`: a list where an argument is one, a class that declares the
    /// method, and otherwise a vector of the highest mode.
    pub open spec fn infer_combine(self, item: ItemV, id: ExprId, arguments: Seq<Argument>) -> (
        CheckV,
        TyV,
    )
        decreases id.0, 5int, 0int,
    {
        if arguments.len() == 0 {
            (self, TyV::Null)
        } else {
            let (next, shapes) = self.infer_shapes(item, id, arguments, 0, Seq::empty());
            if building::any_list(shapes) {
                (
                    next,
                    TyV::List(Box::new(TyV::union_of(building::listed_elements(shapes)))),
                )
            } else {
                match item.combined_class(shapes) {
                    Some(class) => (next, class),
                    None => {
                        let (after, gathered) = next.gather(
                            item,
                            id,
                            arguments,
                            0,
                            CombineV::start(),
                        );
                        (after, gathered.result())
                    },
                }
            }
        }
    }
}

/// The plain name that a one-argument call is applied to.
pub open spec fn tested_name(m: Module, arguments: Seq<Argument>) -> Option<ExprId> {
    if replacing::has_sole_index(arguments) {
        match arguments[0].value {
            Some(value) => if m.kind_of(value) is NameRef {
                Some(value)
            } else {
                None
            },
            None => None,
        }
    } else {
        None
    }
}

/// The fields of a record that named arguments build.
pub open spec fn record_fields(arguments: Seq<Argument>, items: Seq<TyV>) -> Seq<FieldV> {
    Seq::new(
        arguments.len(),
        |i: int|
            FieldV {
                name: match arguments[i].name {
                    Some(name) => name@,
                    None => Seq::empty(),
                },
                ty: items[i],
                optional: false,
            },
    )
}

} // verus!
