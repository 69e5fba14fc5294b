//! Inference over expressions.

use vstd::prelude::*;

use crate::access::dollar_result;
use crate::arithmetic;
use crate::arithmetic::operator_arguments;
use crate::blame::blame_range;
use crate::building::{combined_list, Combine};
use crate::calls;
use crate::calls::CallArgument;
use crate::checker::Checker;
use crate::declared;
use crate::declared::{join_early_returns, may_be_omitted, Paired};
use crate::environment;
use crate::environment::EnvEntry;
use crate::findings::TypeErrorKind;
use crate::globals::GlobalEnv;
use crate::hir;
use crate::hir::{
    Argument, AssignSpelling, BinaryOperator, ExprId, ExpressionKind, Parameter, UnaryOperator,
};
use crate::inference::LOOP_PASS_CAP;
use crate::infer;
use crate::naming::{diverges, replacement_base};
use crate::operands;
use crate::operands::{condition_coerces, find_unnamed, iteration_element, literal_ty};
use crate::overloads::Call;
use crate::parts;
use crate::parts::{
    built_fields, drop_slot, every_named, given_argument, guarded_name, none_named,
    structure_value,
};
use crate::reads;
use crate::reads::Guard;
use crate::schemes;
use crate::schemes::TypeScheme;
use crate::syntax::TextRange;
use crate::type_ops::{any, null, scalar, union_of, unknown};
use crate::types;
use crate::types::{
    Atomic, Constraint, FunctionType, Name, RestParameter, Ty, TyKind, TyV,
};

verus! {

broadcast use crate::types::group_type_views;

impl<'a, G: GlobalEnv> Checker<'a, G> {
    /// An expression that stands before another.
    fn infer_below(&mut self, bound: ExprId, id: ExprId) -> (r: Ty)
        requires
            old(self).wf(),
            old(self).holds(bound),
        ensures
            final(self).follows(old(self)),
            (final(self)@, r@) == old(self)@.below(old(self).item(), bound, id),
        decreases bound.0, 0int, 0int,
    {
        if id.0 < bound.0 {
            self.infer(id)
        } else {
            unknown()
        }
    }

    /// Infers the type of an expression.
    pub fn infer(&mut self, id: ExprId) -> (r: Ty)
        requires
            old(self).wf(),
            old(self).holds(id),
        ensures
            final(self).follows(old(self)),
            (final(self)@, r@) == old(self)@.infer(old(self).item(), id),
        decreases id.0, 8int, 0int,
    {
        match self.module().kind(id) {
            ExpressionKind::Assign { spelling, target, value } => {
                let ty = self.infer_assign(id, *spelling, *target, *value);
                self.record(id, ty)
            },
            ExpressionKind::Function { .. } => match self.declared_function_annotation(id) {
                Some(scheme) => {
                    let ty = self.check_function_against(id, scheme);
                    self.record(id, ty)
                },
                None => self.infer_annotated(id),
            },
            _ => self.infer_annotated(id),
        }
    }

    fn infer_annotated(&mut self, id: ExprId) -> (r: Ty)
        requires
            old(self).wf(),
            old(self).holds(id),
        ensures
            final(self).follows(old(self)),
            (final(self)@, r@) == old(self)@.annotated(old(self).item(), id),
        decreases id.0, 7int, 1int,
    {
        let ty = self.infer_kind(id);
        let given = self.apply_expression_annotation(id, id, ty);
        self.record(id, given)
    }

    fn infer_kind(&mut self, id: ExprId) -> (r: Ty)
        requires
            old(self).wf(),
            old(self).holds(id),
        ensures
            final(self).follows(old(self)),
            (final(self)@, r@) == old(self)@.infer_kind(old(self).item(), id),
        decreases id.0, 7int, 0int,
    {
        let module = self.module();
        let kind = module.kind(id);
        assert(kind.built_below(id.0 as int));
        match kind {
            ExpressionKind::Literal(literal) => literal_ty(literal),
            ExpressionKind::NameRef(_) => self.infer_read(id),
            ExpressionKind::Unary { operator, operand } => self.infer_unary(
                id,
                *operator,
                *operand,
            ),
            ExpressionKind::Binary { operator, special_name, lhs, rhs } => self.infer_binary(
                id,
                *operator,
                special_name,
                *lhs,
                *rhs,
            ),
            ExpressionKind::Call { callee, arguments } => self.infer_call(id, *callee, arguments),
            ExpressionKind::Index { double, target, arguments } => self.infer_index(
                id,
                *double,
                *target,
                arguments,
            ),
            ExpressionKind::Field { at, target, name, name_range } => {
                let range = match name_range {
                    Some(own) => *own,
                    None => module.range(id),
                };
                self.infer_field(id, *at, *target, name, range)
            },
            ExpressionKind::Namespace { internal, package, name } => self.infer_namespace(
                id,
                *internal,
                package,
                name,
            ),
            ExpressionKind::Function { parameters, body } => self.infer_function(
                id,
                parameters,
                *body,
            ),
            ExpressionKind::If { condition, then_branch, else_branch } => self.infer_if(
                id,
                *condition,
                *then_branch,
                *else_branch,
            ),
            ExpressionKind::For { variable_range, sequence, body, .. } => self.infer_for(
                id,
                *variable_range,
                *sequence,
                *body,
            ),
            ExpressionKind::While { condition, body } => {
                self.check_loop(id, Some(*condition), *body, false, None);
                null()
            },
            ExpressionKind::Repeat { body } => {
                self.check_loop(id, None, *body, true, None);
                null()
            },
            ExpressionKind::Local { body } => self.infer_local(id, *body),
            ExpressionKind::Block { statements, trailing_semicolon } => {
                let ty = self.infer_statements(id, statements);
                if *trailing_semicolon {
                    null()
                } else {
                    ty
                }
            },
            ExpressionKind::Paren(inner) => self.infer_below(id, *inner),
            ExpressionKind::Missing | ExpressionKind::Break | ExpressionKind::Next => unknown(),
            ExpressionKind::Assign { .. } => unknown(),
        }
    }

    fn infer_statements(&mut self, bound: ExprId, ids: &Vec<ExprId>) -> (r: Ty)
        requires
            old(self).wf(),
            old(self).holds(bound),
        ensures
            final(self).follows(old(self)),
            (final(self)@, r@) == old(self)@.infer_all(
                old(self).item(),
                bound,
                ids@,
                0,
                TyV::Null,
            ),
        decreases bound.0, 1int, 0int,
    {
        let ghost item = self.item();
        let mut last = null();
        let mut i: usize = 0;
        while i < ids.len()
            invariant
                i <= ids.len(),
                self.follows(old(self)),
                item == old(self).item(),
                old(self).holds(bound),
                self@.infer_all(item, bound, ids@, i as int, last@) == old(self)@.infer_all(
                    item,
                    bound,
                    ids@,
                    0,
                    TyV::Null,
                ),
            decreases ids.len() - i,
        {
            last = self.infer_below(bound, ids[i]);
            i += 1;
        }
        last
    }

    fn infer_values(&mut self, bound: ExprId, arguments: &Vec<Argument>, from: usize) -> (r: Vec<
        Ty,
    >)
        requires
            old(self).wf(),
            old(self).holds(bound),
        ensures
            final(self).follows(old(self)),
            (final(self)@, types::tys(r@)) == old(self)@.infer_values(
                old(self).item(),
                bound,
                arguments@,
                from as int,
                Seq::empty(),
            ),
        decreases bound.0, 1int, 0int,
    {
        let ghost item = self.item();
        let ghost start = from as int;
        let mut done: Vec<Ty> = Vec::new();
        assert(types::tys(done@) =~= Seq::empty());
        let mut i: usize = from;
        while i < arguments.len()
            invariant
                self.follows(old(self)),
                item == old(self).item(),
                old(self).holds(bound),
                self@.infer_values(item, bound, arguments@, i as int, types::tys(done@)) == old(
                    self,
                )@.infer_values(item, bound, arguments@, start, Seq::empty()),
            decreases arguments.len() - i,
        {
            if let Some(value) = arguments[i].value {
                let ty = self.infer_below(bound, value);
                done.push(ty);
            }
            i += 1;
        }
        done
    }

    fn infer_call_arguments(
        &mut self,
        bound: ExprId,
        range: TextRange,
        arguments: &Vec<Argument>,
    ) -> (r: Vec<CallArgument>)
        requires
            old(self).wf(),
            old(self).holds(bound),
            hir::values_below(arguments@, bound.0 as int),
        ensures
            final(self).follows(old(self)),
            (final(self)@, calls::arguments_view(r@)) == old(self)@.infer_arguments(
                old(self).item(),
                bound,
                range,
                arguments@,
                0,
                Seq::empty(),
            ),
            calls::values_held(old(self).item().module, calls::arguments_view(r@)),
        decreases bound.0, 1int, 0int,
    {
        let ghost item = self.item();
        let mut done: Vec<CallArgument> = Vec::new();
        assert(calls::arguments_view(done@) =~= Seq::empty());
        let mut i: usize = 0;
        while i < arguments.len()
            invariant
                i <= arguments.len(),
                self.follows(old(self)),
                item == old(self).item(),
                old(self).holds(bound),
                hir::values_below(arguments@, bound.0 as int),
                calls::values_held(item.module, calls::arguments_view(done@)),
                self@.infer_arguments(
                    item,
                    bound,
                    range,
                    arguments@,
                    i as int,
                    calls::arguments_view(done@),
                ) == old(self)@.infer_arguments(
                    item,
                    bound,
                    range,
                    arguments@,
                    0,
                    Seq::empty(),
                ),
            decreases arguments.len() - i,
        {
            let argument = &arguments[i];
            assert(hir::opt_below(arguments@[i as int].value, bound.0 as int));
            let ty = match argument.value {
                Some(value) => Some(self.infer_below(bound, value)),
                None => None,
            };
            let given = given_argument(self.module(), range, argument, ty);
            let ghost before = calls::arguments_view(done@);
            let ghost one = given@;
            done.push(given);
            assert(calls::arguments_view(done@) =~= before.push(one));
            i += 1;
        }
        done
    }

    fn infer_structural(&mut self, bound: ExprId, id: ExprId) -> (r: Ty)
        requires
            old(self).wf(),
            old(self).holds(bound),
        ensures
            final(self).follows(old(self)),
            (final(self)@, r@) == old(self)@.infer_structural(old(self).item(), bound, id),
        decreases bound.0, 0int, 1int,
    {
        let ty = self.infer_below(bound, id);
        self.structural(&ty)
    }

    fn expect_scalar_logical(&mut self, bound: ExprId, condition: ExprId)
        requires
            old(self).wf(),
            old(self).holds(bound),
            condition.0 < bound.0,
        ensures
            final(self).follows(old(self)),
            final(self)@ == old(self)@.expect_logical(old(self).item(), bound, condition),
        decreases bound.0, 0int, 2int,
    {
        let resolved = self.infer_structural(bound, condition);
        if !condition_coerces(&resolved) {
            let range = blame_range(self.module(), condition);
            self.unify_or_report(range, &scalar(Atomic::Logical), &resolved);
        }
    }

    // ---- assignment ----

    fn infer_assign(
        &mut self,
        id: ExprId,
        spelling: AssignSpelling,
        target: ExprId,
        value: ExprId,
    ) -> (r: Ty)
        requires
            old(self).wf(),
            old(self).holds(id),
            old(self).item().module.kind_of(id) == (ExpressionKind::Assign {
                spelling,
                target,
                value,
            }),
        ensures
            final(self).follows(old(self)),
            (final(self)@, r@) == old(self)@.infer_assign(
                old(self).item(),
                id,
                spelling,
                target,
                value,
            ),
        decreases id.0, 6int, 0int,
    {
        let module = self.module();
        assert(module.kind_of(id).built_below(id.0 as int));
        let ty = self.infer_assigned_value(id, value);
        match module.kind(target) {
            ExpressionKind::NameRef(_) => {
                self.write_name(spelling, target, &ty);
            },
            _ => {
                self.write_replacement(id, target, value, &ty);
            },
        }
        ty
    }

    fn infer_assigned_value(&mut self, id: ExprId, value: ExprId) -> (r: Ty)
        requires
            old(self).wf(),
            old(self).holds(id),
            value.0 < id.0,
        ensures
            final(self).follows(old(self)),
            (final(self)@, r@) == old(self)@.assigned_value(old(self).item(), id, value),
        decreases id.0, 5int, 0int,
    {
        match self.declared_function_annotation(id) {
            Some(scheme) => match self.module().kind(value) {
                ExpressionKind::Function { .. } => {
                    let ty = self.check_function_below(id, value, scheme);
                    self.record(value, ty)
                },
                _ => self.infer_plain_value(id, value),
            },
            None => self.infer_plain_value(id, value),
        }
    }

    fn infer_plain_value(&mut self, id: ExprId, value: ExprId) -> (r: Ty)
        requires
            old(self).wf(),
            old(self).holds(id),
            value.0 < id.0,
        ensures
            final(self).follows(old(self)),
            (final(self)@, r@) == old(self)@.plain_value(old(self).item(), id, value),
        decreases id.0, 4int, 0int,
    {
        let ty = self.infer_below(id, value);
        self.apply_expression_annotation(id, value, ty)
    }

    fn write_replacement(&mut self, bound: ExprId, target: ExprId, value: ExprId, ty: &Ty)
        requires
            old(self).wf(),
            old(self).holds(bound),
            target.0 < bound.0,
            value.0 < bound.0,
        ensures
            final(self).follows(old(self)),
            final(self)@ == old(self)@.write_replacement(
                old(self).item(),
                bound,
                target,
                value,
                ty@,
            ),
        decreases bound.0, 4int, 0int,
    {
        let base = replacement_base(self.module(), target);
        self.infer_spine_below(bound, target, base);
        match base {
            None => {
                self.unsupported(target);
            },
            Some(base) => {
                let before = self.infer_below(bound, base);
                let prior = self.resolve(&before);
                let given = self.resolve(ty);
                let written = self.replacement_written_type(target, base, value, &prior, &given);
                if let Some(slot) = self.slot_of(base) {
                    self.set_slot(slot, EnvEntry::Mono(written));
                }
            },
        }
    }

    fn infer_spine_below(&mut self, bound: ExprId, target: ExprId, base: Option<ExprId>)
        requires
            old(self).wf(),
            old(self).holds(bound),
        ensures
            final(self).follows(old(self)),
            final(self)@ == old(self)@.spine_below(old(self).item(), bound, target, base),
        decreases bound.0, 0int, 0int,
    {
        if target.0 < bound.0 {
            self.infer_spine(target, base);
        }
    }

    fn infer_spine(&mut self, id: ExprId, base: Option<ExprId>)
        requires
            old(self).wf(),
            old(self).holds(id),
        ensures
            final(self).follows(old(self)),
            final(self)@ == old(self)@.infer_spine(old(self).item(), id, base),
        decreases id.0, 9int, 0int,
    {
        if let Some(base) = base {
            if base.0 == id.0 {
                return;
            }
        }
        match self.module().kind(id) {
            ExpressionKind::Index { target, arguments, .. } => {
                self.infer_spine_below(id, *target, base);
                self.infer_values(id, arguments, 0);
            },
            ExpressionKind::Field { target, .. } => {
                self.infer_spine_below(id, *target, base);
            },
            ExpressionKind::Call { arguments, .. } => {
                if arguments.len() > 0 {
                    if let Some(value) = arguments[0].value {
                        self.infer_spine_below(id, value, base);
                    }
                }
                self.infer_values(id, arguments, 1);
            },
            _ => {
                self.infer(id);
            },
        }
    }

    // ---- operators ----

    fn infer_unary(&mut self, id: ExprId, operator: UnaryOperator, operand: ExprId) -> (r: Ty)
        requires
            old(self).wf(),
            old(self).holds(id),
            operand.0 < id.0,
        ensures
            final(self).follows(old(self)),
            (final(self)@, r@) == old(self)@.infer_unary(old(self).item(), id, operator, operand),
        decreases id.0, 6int, 0int,
    {
        let range = blame_range(self.module(), operand);
        match operator {
            UnaryOperator::Minus => {
                let resolved = self.infer_structural(id, operand);
                self.negate(range, &resolved)
            },
            UnaryOperator::Not => {
                let resolved = self.infer_structural(id, operand);
                self.invert(range, &resolved)
            },
            _ => {
                self.infer_below(id, operand);
                self.unsupported(id);
                unknown()
            },
        }
    }

    fn infer_binary(
        &mut self,
        id: ExprId,
        operator: BinaryOperator,
        name: &Option<String>,
        lhs: ExprId,
        rhs: ExprId,
    ) -> (r: Ty)
        requires
            old(self).wf(),
            old(self).holds(id),
            lhs.0 < id.0,
            rhs.0 < id.0,
        ensures
            final(self).follows(old(self)),
            (final(self)@, r@) == old(self)@.infer_binary(
                old(self).item(),
                id,
                operator,
                types::opt_text(*name),
                lhs,
                rhs,
            ),
        decreases id.0, 6int, 0int,
    {
        if operator == BinaryOperator::Special {
            return match self.infer_declared_operator(id, name, lhs, rhs) {
                Some(ty) => self.record(id, ty),
                None => self.infer_opaque(id, lhs, rhs),
            };
        }
        if operands::arithmetic(operator) || operands::comparison(operator) {
            let left = self.infer_below(id, lhs);
            let right = self.infer_below(id, rhs);
            let range = self.module().range(id);
            return self.operate(range, operator, lhs, rhs, &left, &right);
        }
        if operator == BinaryOperator::Sequence {
            return self.infer_colon(id, lhs, rhs);
        }
        if operator == BinaryOperator::And2 || operator == BinaryOperator::Or2 {
            self.expect_scalar_logical(id, lhs);
            self.expect_scalar_logical(id, rhs);
            return scalar(Atomic::Logical);
        }
        self.infer_opaque(id, lhs, rhs)
    }

    fn infer_opaque(&mut self, id: ExprId, lhs: ExprId, rhs: ExprId) -> (r: Ty)
        requires
            old(self).wf(),
            old(self).holds(id),
        ensures
            final(self).follows(old(self)),
            (final(self)@, r@) == old(self)@.infer_opaque(old(self).item(), id, lhs, rhs),
        decreases id.0, 5int, 0int,
    {
        let errors = self.error_count();
        let origins = self.origin_count();
        self.infer_below(id, lhs);
        self.infer_below(id, rhs);
        self.cut(errors, origins);
        self.unsupported(id);
        unknown()
    }

    fn infer_declared_operator(
        &mut self,
        id: ExprId,
        name: &Option<String>,
        lhs: ExprId,
        rhs: ExprId,
    ) -> (r: Option<Ty>)
        requires
            old(self).wf(),
            old(self).holds(id),
            lhs.0 < id.0,
            rhs.0 < id.0,
        ensures
            final(self).follows(old(self)),
            (final(self)@, types::opt_ty(r)) == old(self)@.infer_special(
                old(self).item(),
                id,
                types::opt_text(*name),
                lhs,
                rhs,
            ),
        decreases id.0, 5int, 0int,
    {
        let scheme = match self.operator_scheme(name) {
            Some(scheme) => scheme,
            None => {
                return None;
            },
        };
        let ty = self.instantiate(&scheme);
        let resolved = self.shallow_resolve(&ty);
        match resolved.kind() {
            TyKind::Function(function) => {
                let module = self.module();
                let left = self.infer_below(id, lhs);
                let right = self.infer_below(id, rhs);
                let range = module.range(id);
                let arguments = operator_arguments(module, lhs, rhs, &left, &right);
                let call = Call { module, range, callee_range: range, arguments: &arguments };
                assert(call@ == arithmetic::operator_call(
                    *module,
                    range,
                    lhs,
                    rhs,
                    left@,
                    right@,
                ));
                let found = self.match_arguments(call, function);
                self.report_all(found);
                Some(function.ret.clone())
            },
            _ => None,
        }
    }

    fn infer_colon(&mut self, id: ExprId, lhs: ExprId, rhs: ExprId) -> (r: Ty)
        requires
            old(self).wf(),
            old(self).holds(id),
            lhs.0 < id.0,
            rhs.0 < id.0,
        ensures
            final(self).follows(old(self)),
            (final(self)@, r@) == old(self)@.infer_colon(old(self).item(), id, lhs, rhs),
        decreases id.0, 5int, 0int,
    {
        let atomic = match self.infer_end(id, lhs, Atomic::Integer) {
            Some(atomic) => atomic,
            None => {
                return unknown();
            },
        };
        match self.infer_end(id, rhs, atomic) {
            Some(result) => Ty::new(TyKind::Vector(scalar(result))),
            None => unknown(),
        }
    }

    fn infer_end(&mut self, bound: ExprId, operand: ExprId, atomic: Atomic) -> (r: Option<Atomic>)
        requires
            old(self).wf(),
            old(self).holds(bound),
            operand.0 < bound.0,
        ensures
            final(self).follows(old(self)),
            (final(self)@, r) == old(self)@.infer_end(old(self).item(), bound, operand, atomic),
        decreases bound.0, 4int, 0int,
    {
        let resolved = self.infer_structural(bound, operand);
        let module = self.module();
        let range = blame_range(module, operand);
        let whole = operands::is_whole_double(module, operand);
        self.colon_end(range, whole, &resolved, atomic)
    }

    // ---- access ----

    fn infer_index(&mut self, id: ExprId, double: bool, target: ExprId, arguments: &Vec<Argument>) -> (r:
        Ty)
        requires
            old(self).wf(),
            old(self).holds(id),
            hir::values_below(arguments@, id.0 as int),
        ensures
            final(self).follows(old(self)),
            (final(self)@, r@) == old(self)@.infer_index(
                old(self).item(),
                id,
                double,
                target,
                arguments@,
            ),
        decreases id.0, 6int, 0int,
    {
        let target_ty = self.infer_below(id, target);
        let indexes = self.infer_values(id, arguments, 0);
        let subject = self.structural(&target_ty);
        self.index_into(id, double, subject, arguments, &indexes)
    }

    fn infer_field(
        &mut self,
        id: ExprId,
        at: bool,
        target: ExprId,
        name: &Option<String>,
        name_range: TextRange,
    ) -> (r: Ty)
        requires
            old(self).wf(),
            old(self).holds(id),
        ensures
            final(self).follows(old(self)),
            (final(self)@, r@) == old(self)@.infer_field(
                old(self).item(),
                id,
                at,
                target,
                types::opt_text(*name),
                name_range,
            ),
        decreases id.0, 6int, 0int,
    {
        let target_ty = self.infer_below(id, target);
        if at {
            self.unsupported(id);
            return unknown();
        }
        match name {
            Some(name) => {
                let subject = self.structural(&target_ty);
                let range = self.module().range(id);
                let access = dollar_result(&subject, name, range, name_range);
                self.finish_access(id, access)
            },
            None => unknown(),
        }
    }

    // ---- branches and loops ----

    fn infer_if(
        &mut self,
        id: ExprId,
        condition: ExprId,
        then_branch: ExprId,
        else_branch: Option<ExprId>,
    ) -> (r: Ty)
        requires
            old(self).wf(),
            old(self).holds(id),
            condition.0 < id.0,
            then_branch.0 < id.0,
            hir::opt_below(else_branch, id.0 as int),
        ensures
            final(self).follows(old(self)),
            (final(self)@, r@) == old(self)@.infer_if(
                old(self).item(),
                id,
                condition,
                then_branch,
                else_branch,
            ),
        decreases id.0, 6int, 0int,
    {
        let module = self.module();
        self.expect_scalar_logical(id, condition);
        let guard = self.recognize_guard_below(id, condition);
        let mark = self.mark();
        self.enter_true_edge(&guard);
        let then_ty = self.infer_below(id, then_branch);
        let writes = self.writes_since(mark);
        self.rollback(mark);
        let false_mark = self.mark();
        self.enter_false_edge(&guard);
        let then_diverges = diverges(module, then_branch);
        match else_branch {
            Some(else_branch) => {
                let else_ty = self.infer_below(id, else_branch);
                let else_diverges = diverges(module, else_branch);
                self.meet_arms(
                    (then_diverges, else_diverges),
                    &writes,
                    false_mark,
                    then_ty,
                    else_ty,
                )
            },
            None => self.meet_arms(
                (then_diverges, false),
                &writes,
                false_mark,
                then_ty,
                null(),
            ),
        }
    }

    fn recognize_guard_below(&mut self, bound: ExprId, condition: ExprId) -> (r: Option<Guard>)
        requires
            old(self).wf(),
            old(self).holds(bound),
        ensures
            final(self).follows(old(self)),
            (final(self)@, reads::opt_guard(r)) == old(self)@.guard_below(
                old(self).item(),
                bound,
                condition,
            ),
        decreases bound.0, 0int, 0int,
    {
        if condition.0 < bound.0 {
            self.recognize_guard(condition)
        } else {
            None
        }
    }

    fn recognize_guard(&mut self, condition: ExprId) -> (r: Option<Guard>)
        requires
            old(self).wf(),
            old(self).holds(condition),
        ensures
            final(self).follows(old(self)),
            (final(self)@, reads::opt_guard(r)) == old(self)@.recognize_guard(
                old(self).item(),
                condition,
            ),
        decreases condition.0, 6int, 0int,
    {
        let module = self.module();
        let kind = module.kind(condition);
        assert(kind.built_below(condition.0 as int));
        match kind {
            ExpressionKind::Unary { operator, operand } => if *operator == UnaryOperator::Not {
                match self.recognize_guard_below(condition, *operand) {
                    Some(guard) => Some(
                        Guard {
                            missing_on_true: false,
                            slot: guard.slot,
                            true_edge: guard.false_edge,
                            false_edge: guard.true_edge,
                        },
                    ),
                    None => None,
                }
            } else {
                None
            },
            ExpressionKind::Paren(inner) => self.recognize_guard_below(condition, *inner),
            ExpressionKind::Call { callee, arguments } => {
                assert(hir::values_below(arguments@, module.expressions@.len() as int));
                let name = match module.kind(*callee) {
                    ExpressionKind::NameRef(name) => name,
                    _ => {
                        return None;
                    },
                };
                let value = match guarded_name(module, arguments) {
                    Some(value) => value,
                    None => {
                        return None;
                    },
                };
                if self.slot_of(*callee).is_some() {
                    return None;
                }
                match self.slot_of(value) {
                    Some(slot) => self.guard_on(name.as_str(), slot),
                    None => {
                        if self.is_deferred(value) {
                            return None;
                        }
                        let observed = self.infer_below(condition, value);
                        match self.non_local_guard_slot(value, observed) {
                            Some(slot) => self.guard_on(name.as_str(), slot),
                            None => None,
                        }
                    },
                }
            },
            _ => None,
        }
    }

    fn infer_for(
        &mut self,
        id: ExprId,
        variable_range: Option<TextRange>,
        sequence: ExprId,
        body: ExprId,
    ) -> (r: Ty)
        requires
            old(self).wf(),
            old(self).holds(id),
            sequence.0 < id.0,
        ensures
            final(self).follows(old(self)),
            (final(self)@, r@) == old(self)@.infer_for(
                old(self).item(),
                id,
                variable_range,
                sequence,
                body,
            ),
        decreases id.0, 6int, 0int,
    {
        let resolved = self.infer_structural(id, sequence);
        let element = match iteration_element(&resolved) {
            Ok(element) => element,
            Err(found) => {
                let range = blame_range(self.module(), sequence);
                self.fail(range, TypeErrorKind::NotIterable { found });
                unknown()
            },
        };
        let slot = match variable_range {
            Some(range) => self.slot_at(range),
            None => None,
        };
        let variable = match slot {
            Some(slot) => Some((slot, element)),
            None => None,
        };
        self.check_loop(id, None, body, false, variable);
        null()
    }

    fn run_loop_pass(
        &mut self,
        id: ExprId,
        condition: Option<ExprId>,
        body: ExprId,
        variable: &Option<(u32, Ty)>,
    ) -> (r: (Vec<(u32, Option<EnvEntry>)>, Vec<u32>))
        requires
            old(self).wf(),
            old(self).holds(id),
            hir::opt_below(condition, id.0 as int),
        ensures
            final(self).follows(old(self)),
            (final(self)@, environment::writes_view(r.0@), r.1@) == old(self)@.loop_pass(
                old(self).item(),
                id,
                condition,
                body,
                variable_view(*variable),
            ),
        decreases id.0, 4int, 0int,
    {
        let mark = self.mark();
        let mut own: Option<u32> = None;
        if let Some((slot, element)) = variable {
            self.set_slot(*slot, EnvEntry::Mono(element.clone()));
            own = Some(*slot);
        }
        if let Some(condition) = condition {
            self.expect_scalar_logical(id, condition);
        }
        self.infer_below(id, body);
        let all = self.writes_since(mark);
        let writes = drop_slot(all, own);
        self.rollback(mark);
        self.establish();
        let changed = self.join_writes_reporting(&writes);
        (writes, changed)
    }

    fn check_loop(
        &mut self,
        id: ExprId,
        condition: Option<ExprId>,
        body: ExprId,
        runs: bool,
        variable: Option<(u32, Ty)>,
    )
        requires
            old(self).wf(),
            old(self).holds(id),
            hir::opt_below(condition, id.0 as int),
        ensures
            final(self).follows(old(self)),
            final(self)@ == old(self)@.check_loop(
                old(self).item(),
                id,
                condition,
                body,
                runs,
                variable_view(variable),
                0,
            ),
        decreases id.0, 5int, 0int,
    {
        let ghost item = self.item();
        let mut passes: usize = 0;
        loop
            invariant
                passes < LOOP_PASS_CAP,
                self.follows(old(self)),
                item == old(self).item(),
                old(self).holds(id),
                hir::opt_below(condition, id.0 as int),
                self@.check_loop(
                    item,
                    id,
                    condition,
                    body,
                    runs,
                    variable_view(variable),
                    passes as nat,
                ) == old(self)@.check_loop(
                    item,
                    id,
                    condition,
                    body,
                    runs,
                    variable_view(variable),
                    0,
                ),
            decreases LOOP_PASS_CAP - passes,
        {
            let errors = self.error_count();
            let origins = self.origin_count();
            let (writes, changed) = self.run_loop_pass(id, condition, body, &variable);
            if changed.len() == 0 {
                if runs {
                    self.adopt_writes(&writes);
                }
                return;
            }
            if passes + 1 >= LOOP_PASS_CAP {
                self.widen_slots(id, &changed);
                return;
            }
            self.cut(errors, origins);
            passes += 1;
        }
    }

    fn infer_local(&mut self, id: ExprId, body: ExprId) -> (r: Ty)
        requires
            old(self).wf(),
            old(self).holds(id),
        ensures
            final(self).follows(old(self)),
            (final(self)@, r@) == old(self)@.infer_local(old(self).item(), id, body),
        decreases id.0, 6int, 0int,
    {
        let pending = self.pending_count();
        let mark = self.mark();
        let ty = self.infer_below(id, body);
        self.rollback(mark);
        self.reapply_enclosing_writes(pending);
        ty
    }
}

/// The model of a loop variable and what it ranges over.
pub open spec fn variable_view(variable: Option<(u32, Ty)>) -> Option<(u32, TyV)> {
    match variable {
        Some((slot, ty)) => Some((slot, ty@)),
        None => None,
    }
}

impl<'a, G: GlobalEnv> Checker<'a, G> {
    // ---- functions ----

    fn infer_formals(&mut self, id: ExprId, parameters: &Vec<Parameter>, body: ExprId) -> (r: (
        Vec<types::Parameter>,
        Option<RestParameter>,
    ))
        requires
            old(self).wf(),
            old(self).holds(id),
            body.0 < id.0,
        ensures
            final(self).follows(old(self)),
            (final(self)@, types::params_view(r.0@), types::opt_rest(r.1)) == old(
                self,
            )@.infer_formals(old(self).item(), id, parameters@, body, 0, Seq::empty(), None),
        decreases id.0, 1int, 0int,
    {
        let ghost item = self.item();
        let mut named: Vec<types::Parameter> = Vec::new();
        assert(types::params_view(named@) =~= Seq::empty());
        let mut variadic: Option<RestParameter> = None;
        let mut i: usize = 0;
        while i < parameters.len()
            invariant
                i <= parameters.len(),
                self.follows(old(self)),
                item == old(self).item(),
                old(self).holds(id),
                body.0 < id.0,
                self@.infer_formals(
                    item,
                    id,
                    parameters@,
                    body,
                    i as int,
                    types::params_view(named@),
                    types::opt_rest(variadic),
                ) == old(self)@.infer_formals(
                    item,
                    id,
                    parameters@,
                    body,
                    0,
                    Seq::empty(),
                    None,
                ),
            decreases parameters.len() - i,
        {
            let parameter = &parameters[i];
            if crate::text::same_text(parameter.name.as_str(), "...") {
                variadic = Some(RestParameter { element: any(), preceding_named: named.len() });
            } else {
                let ty = self.fresh(Constraint::Unconstrained);
                self.bind_parameter(parameter, &ty);
                let default = match parameter.default {
                    Some(default) => Some(self.infer_below(id, default)),
                    None => None,
                };
                let optional = may_be_omitted(self.module(), body, parameter);
                named.push(
                    types::Parameter {
                        name: Name::new(parameter.name.clone()),
                        ty,
                        optional,
                        default,
                    },
                );
            }
            i += 1;
        }
        (named, variadic)
    }

    /// A body, with the capture joins of its closures discovered first.
    fn infer_body(&mut self, bound: ExprId, body: ExprId, pending: usize) -> (r: Ty)
        requires
            old(self).wf(),
            old(self).holds(bound),
        ensures
            final(self).follows(old(self)),
            (final(self)@, r@) == old(self)@.infer_body(
                old(self).item(),
                bound,
                body,
                pending as nat,
            ),
        decreases bound.0, 1int, 0int,
    {
        let outer = self.repass();
        let mark = self.mark();
        let snapshot = self.snapshot();
        let errors = self.error_count();
        let origins = self.origin_count();
        self.set_repass(false);
        let mut ty = self.infer_below(bound, body);
        if self.repass() {
            self.rollback(mark);
            self.rollback_table(snapshot);
            self.cut(errors, origins);
            self.truncate_pending(pending);
            self.clear_frame();
            self.set_repass(false);
            ty = self.infer_below(bound, body);
        }
        self.set_repass(outer);
        ty
    }

    fn infer_function(&mut self, id: ExprId, parameters: &Vec<Parameter>, body: ExprId) -> (r: Ty)
        requires
            old(self).wf(),
            old(self).holds(id),
            body.0 < id.0,
        ensures
            final(self).follows(old(self)),
            (final(self)@, r@) == old(self)@.infer_function(
                old(self).item(),
                id,
                parameters@,
                body,
            ),
        decreases id.0, 6int, 0int,
    {
        let level = self.level();
        let pending = self.pending_count();
        let mark = self.mark();
        self.deepen();
        let (named, variadic) = self.infer_formals(id, parameters, body);
        self.push_frame();
        let trailing = self.infer_body(id, body, pending);
        let early = self.pop_frame();
        let ret = join_early_returns(self.table(), &early, &trailing);
        self.leave(mark, pending, level);
        let positional: Vec<Ty> = Vec::new();
        assert(types::tys(positional@) =~= Seq::empty());
        Ty::new(TyKind::Function(FunctionType { positional, named, variadic, ret }))
    }

    fn check_function_below(&mut self, bound: ExprId, id: ExprId, scheme: &TypeScheme) -> (r: Ty)
        requires
            old(self).wf(),
            old(self).holds(bound),
        ensures
            final(self).follows(old(self)),
            (final(self)@, r@) == old(self)@.against_below(
                old(self).item(),
                bound,
                id,
                scheme@,
            ),
        decreases bound.0, 0int, 0int,
    {
        if id.0 < bound.0 {
            self.check_function_against(id, scheme)
        } else {
            unknown()
        }
    }

    /// Checks a function definition against a declared scheme.
    pub fn check_function_against(&mut self, id: ExprId, scheme: &TypeScheme) -> (r: Ty)
        requires
            old(self).wf(),
            old(self).holds(id),
        ensures
            final(self).follows(old(self)),
            (final(self)@, r@) == old(self)@.check_against(old(self).item(), id, scheme@),
        decreases id.0, 6int, 0int,
    {
        self.declare(&scheme.binders);
        let kind = self.module().kind(id);
        match (scheme.body.kind(), kind) {
            (TyKind::Function(declared), ExpressionKind::Function { parameters, body }) => {
                assert(kind.built_below(id.0 as int));
                self.check_declared_function(id, declared, parameters, *body)
            },
            _ => scheme.body.clone(),
        }
    }

    fn pair_formals(
        &mut self,
        id: ExprId,
        declared: &FunctionType,
        parameters: &Vec<Parameter>,
        body: ExprId,
    ) -> (r: Paired)
        requires
            old(self).wf(),
            old(self).holds(id),
            body.0 < id.0,
        ensures
            final(self).follows(old(self)),
            (final(self)@, r@) == old(self)@.pair_formals(
                old(self).item(),
                id,
                declared@,
                parameters@,
                body,
                0,
                declared::PairedV::start(declared@),
            ),
            r.suits(declared@),
        decreases id.0, 1int, 0int,
    {
        let ghost item = self.item();
        let mut paired = Paired::start(declared);
        let mut i: usize = 0;
        while i < parameters.len()
            invariant
                i <= parameters.len(),
                self.follows(old(self)),
                item == old(self).item(),
                old(self).holds(id),
                body.0 < id.0,
                paired.suits(declared@),
                self@.pair_formals(item, id, declared@, parameters@, body, i as int, paired@)
                    == old(self)@.pair_formals(
                    item,
                    id,
                    declared@,
                    parameters@,
                    body,
                    0,
                    declared::PairedV::start(declared@),
                ),
            decreases parameters.len() - i,
        {
            let parameter = &parameters[i];
            if crate::text::same_text(parameter.name.as_str(), "...") {
                let own = self.fresh(Constraint::Unconstrained);
                paired.add_rest(declared, own);
            } else {
                let claimed = paired.claim(declared, parameter.name.as_str());
                let is_declared = claimed.is_some();
                let ty = match claimed {
                    Some(ty) => ty,
                    None => self.fresh(Constraint::Unconstrained),
                };
                let default = match parameter.default {
                    Some(default) => Some(self.infer_below(id, default)),
                    None => None,
                };
                let optional = may_be_omitted(self.module(), body, parameter);
                paired.add_formal(
                    types::Parameter {
                        name: Name::new(parameter.name.clone()),
                        ty,
                        optional,
                        default,
                    },
                    is_declared,
                );
            }
            i += 1;
        }
        paired
    }

    fn bind_formals(
        &mut self,
        id: ExprId,
        parameters: &Vec<Parameter>,
        formal_types: &Vec<(Ty, bool)>,
    )
        requires
            old(self).wf(),
            old(self).holds(id),
            hir::defaults_below(parameters@, id.0 as int),
        ensures
            final(self).follows(old(self)),
            final(self)@ == old(self)@.bind_formals(
                old(self).item(),
                id,
                parameters@,
                declared::formal_types_view(formal_types@),
                0,
            ),
        decreases id.0, 1int, 0int,
    {
        let ghost item = self.item();
        let ghost all = declared::formal_types_view(formal_types@);
        let mut i: usize = 0;
        while i < parameters.len() && i < formal_types.len()
            invariant
                self.follows(old(self)),
                item == old(self).item(),
                old(self).holds(id),
                hir::defaults_below(parameters@, id.0 as int),
                all == declared::formal_types_view(formal_types@),
                self@.bind_formals(item, id, parameters@, all, i as int) == old(
                    self,
                )@.bind_formals(item, id, parameters@, all, 0),
            decreases parameters.len() - i,
        {
            let parameter = &parameters[i];
            let ty = &formal_types[i].0;
            let is_declared = formal_types[i].1;
            assert(all[i as int] == (ty@, is_declared));
            assert(hir::opt_below(parameters@[i as int].default, id.0 as int));
            self.bind_parameter(parameter, ty);
            if let Some(default) = parameter.default {
                let default_ty = self.infer_below(id, default);
                if is_declared {
                    self.check_default(&parameter.name, ty, default, &default_ty);
                }
            }
            i += 1;
        }
    }

    #[verifier::rlimit(60)]
    fn check_declared_function(
        &mut self,
        id: ExprId,
        declared: &FunctionType,
        parameters: &Vec<Parameter>,
        body: ExprId,
    ) -> (r: Ty)
        requires
            old(self).wf(),
            old(self).holds(id),
            body.0 < id.0,
            hir::defaults_below(parameters@, id.0 as int),
        ensures
            final(self).follows(old(self)),
            (final(self)@, r@) == old(self)@.check_declared(
                old(self).item(),
                id,
                declared@,
                parameters@,
                body,
            ),
        decreases id.0, 5int, 0int,
    {
        let level = self.level();
        self.deepen();
        let paired = self.pair_formals(id, declared, parameters, body);
        let range = self.module().range(id);
        self.report_shape(body, range, declared, parameters, &paired);
        let ret = self.run_declared_body(id, &declared.ret, parameters, body, &paired.types, level);
        Ty::new(TyKind::Function(paired.signature(&ret)))
    }

    fn run_declared_body(
        &mut self,
        id: ExprId,
        ret: &Ty,
        parameters: &Vec<Parameter>,
        body: ExprId,
        formal_types: &Vec<(Ty, bool)>,
        level: u32,
    ) -> (r: Ty)
        requires
            old(self).wf(),
            old(self).holds(id),
            body.0 < id.0,
            hir::defaults_below(parameters@, id.0 as int),
        ensures
            final(self).follows(old(self)),
            (final(self)@, r@) == old(self)@.declared_body(
                old(self).item(),
                id,
                ret@,
                parameters@,
                body,
                declared::formal_types_view(formal_types@),
                level,
            ),
        decreases id.0, 4int, 0int,
    {
        let pending = self.pending_count();
        let mark = self.mark();
        self.bind_formals(id, parameters, formal_types);
        self.push_frame();
        let trailing = self.infer_body(id, body, pending);
        let early = self.pop_frame();
        let returned = self.settle_return(ret, body, &early, &trailing);
        self.leave(mark, pending, level);
        returned
    }

    // ---- calls ----

    fn infer_call(&mut self, id: ExprId, callee: ExprId, arguments: &Vec<Argument>) -> (r: Ty)
        requires
            old(self).wf(),
            old(self).holds(id),
            callee.0 < id.0,
            hir::values_below(arguments@, id.0 as int),
        ensures
            final(self).follows(old(self)),
            (final(self)@, r@) == old(self)@.infer_call(
                old(self).item(),
                id,
                callee,
                arguments@,
            ),
        decreases id.0, 6int, 0int,
    {
        let module = self.module();
        if module.is_name(callee, "c") {
            return self.infer_combine(id, arguments);
        }
        if module.is_name(callee, "list") {
            return self.infer_list(id, arguments);
        }
        if module.is_name(callee, "switch") {
            return self.infer_switch(id, arguments);
        }
        if module.is_name(callee, "return") {
            return self.infer_return(id, arguments);
        }
        if module.is_name(callee, "structure") {
            if let Some(value) = structure_value(arguments) {
                return self.infer_structure(id, arguments, value);
            }
        }
        match self.overloads_of(callee) {
            Some((name, candidates)) => self.try_overloaded_call(
                id,
                callee,
                arguments,
                &name,
                &candidates,
            ),
            None => self.infer_ordinary_call(id, callee, arguments),
        }
    }

    fn infer_ordinary_call(&mut self, id: ExprId, callee: ExprId, arguments: &Vec<Argument>) -> (r:
        Ty)
        requires
            old(self).wf(),
            old(self).holds(id),
            callee.0 < id.0,
            hir::values_below(arguments@, id.0 as int),
        ensures
            final(self).follows(old(self)),
            (final(self)@, r@) == old(self)@.ordinary_call(
                old(self).item(),
                id,
                callee,
                arguments@,
            ),
        decreases id.0, 5int, 0int,
    {
        let module = self.module();
        let range = module.range(id);
        let callee_ty = self.infer_below(id, callee);
        let errors = self.error_count();
        let origins = self.origin_count();
        let shallow = self.shallow_resolve(&callee_ty);
        let given = self.infer_call_arguments(id, range, arguments);
        if let TyKind::Any = shallow.kind() {
            self.cut(errors, origins);
            self.unsupported(id);
            return unknown();
        }
        let callee_range = blame_range(module, callee);
        let call = Call { module, range, callee_range, arguments: &given };
        self.dispatch_call(call, &callee_ty)
    }

    fn try_overloaded_call(
        &mut self,
        id: ExprId,
        callee: ExprId,
        arguments: &Vec<Argument>,
        name: &String,
        candidates: &Vec<TypeScheme>,
    ) -> (r: Ty)
        requires
            old(self).wf(),
            old(self).holds(id),
            callee.0 < id.0,
            hir::values_below(arguments@, id.0 as int),
        ensures
            final(self).follows(old(self)),
            (final(self)@, r@) == old(self)@.overloaded_call(
                old(self).item(),
                id,
                callee,
                arguments@,
                name@,
                schemes::schemes_view(candidates@),
            ),
        decreases id.0, 5int, 0int,
    {
        let module = self.module();
        let range = module.range(id);
        let given = self.infer_call_arguments(id, range, arguments);
        let callee_range = blame_range(module, callee);
        let call = Call { module, range, callee_range, arguments: &given };
        self.select_candidate(id, callee, call, name, candidates)
    }

    fn infer_return(&mut self, id: ExprId, arguments: &Vec<Argument>) -> (r: Ty)
        requires
            old(self).wf(),
            old(self).holds(id),
            hir::values_below(arguments@, id.0 as int),
        ensures
            final(self).follows(old(self)),
            (final(self)@, r@) == old(self)@.infer_return(old(self).item(), id, arguments@),
        decreases id.0, 5int, 0int,
    {
        let value = if arguments.len() > 0 {
            assert(hir::opt_below(arguments@[0].value, id.0 as int));
            arguments[0].value
        } else {
            None
        };
        let ty = match value {
            Some(value) => self.infer_below(id, value),
            None => null(),
        };
        self.infer_values(id, arguments, 1);
        let range = match value {
            Some(value) => blame_range(self.module(), value),
            None => self.module().range(id),
        };
        let returned = self.resolve(&ty);
        self.push_return(returned, range);
        null()
    }

    fn infer_structure(&mut self, id: ExprId, arguments: &Vec<Argument>, value: ExprId) -> (r: Ty)
        requires
            old(self).wf(),
            old(self).holds(id),
        ensures
            final(self).follows(old(self)),
            (final(self)@, r@) == old(self)@.infer_structure(
                old(self).item(),
                id,
                arguments@,
                value,
            ),
        decreases id.0, 5int, 0int,
    {
        let ty = self.infer_below(id, value);
        self.infer_others(id, arguments, value);
        self.record(id, ty)
    }

    fn infer_others(&mut self, bound: ExprId, arguments: &Vec<Argument>, value: ExprId)
        requires
            old(self).wf(),
            old(self).holds(bound),
        ensures
            final(self).follows(old(self)),
            final(self)@ == old(self)@.infer_others(
                old(self).item(),
                bound,
                arguments@,
                value,
                0,
            ),
        decreases bound.0, 1int, 0int,
    {
        let ghost item = self.item();
        let mut i: usize = 0;
        while i < arguments.len()
            invariant
                i <= arguments.len(),
                self.follows(old(self)),
                item == old(self).item(),
                old(self).holds(bound),
                self@.infer_others(item, bound, arguments@, value, i as int) == old(
                    self,
                )@.infer_others(item, bound, arguments@, value, 0),
            decreases arguments.len() - i,
        {
            if let Some(other) = arguments[i].value {
                if other != value {
                    self.infer_below(bound, other);
                }
            }
            i += 1;
        }
    }

    fn infer_items(&mut self, bound: ExprId, arguments: &Vec<Argument>) -> (r: Vec<Ty>)
        requires
            old(self).wf(),
            old(self).holds(bound),
        ensures
            final(self).follows(old(self)),
            (final(self)@, types::tys(r@)) == old(self)@.infer_items(
                old(self).item(),
                bound,
                arguments@,
                0,
                Seq::empty(),
            ),
            r@.len() == arguments@.len(),
        decreases bound.0, 1int, 0int,
    {
        let ghost item = self.item();
        let mut done: Vec<Ty> = Vec::new();
        assert(types::tys(done@) =~= Seq::empty());
        let mut i: usize = 0;
        while i < arguments.len()
            invariant
                i <= arguments.len(),
                done@.len() == i,
                self.follows(old(self)),
                item == old(self).item(),
                old(self).holds(bound),
                self@.infer_items(item, bound, arguments@, i as int, types::tys(done@)) == old(
                    self,
                )@.infer_items(item, bound, arguments@, 0, Seq::empty()),
            decreases arguments.len() - i,
        {
            match arguments[i].value {
                Some(value) => {
                    let ty = self.infer_below(bound, value);
                    done.push(self.resolve(&ty));
                },
                None => {
                    done.push(unknown());
                },
            }
            i += 1;
        }
        done
    }

    fn infer_elements(&mut self, bound: ExprId, arguments: &Vec<Argument>) -> (r: Vec<Ty>)
        requires
            old(self).wf(),
            old(self).holds(bound),
        ensures
            final(self).follows(old(self)),
            (final(self)@, types::tys(r@)) == old(self)@.infer_elements(
                old(self).item(),
                bound,
                arguments@,
                0,
                Seq::empty(),
            ),
        decreases bound.0, 1int, 0int,
    {
        let ghost item = self.item();
        let mut done: Vec<Ty> = Vec::new();
        assert(types::tys(done@) =~= Seq::empty());
        let mut i: usize = 0;
        while i < arguments.len()
            invariant
                i <= arguments.len(),
                self.follows(old(self)),
                item == old(self).item(),
                old(self).holds(bound),
                self@.infer_elements(item, bound, arguments@, i as int, types::tys(done@)) == old(
                    self,
                )@.infer_elements(item, bound, arguments@, 0, Seq::empty()),
            decreases arguments.len() - i,
        {
            if let Some(value) = arguments[i].value {
                let ty = self.infer_below(bound, value);
                done.push(self.resolve(&ty));
            }
            i += 1;
        }
        done
    }

    fn infer_list(&mut self, id: ExprId, arguments: &Vec<Argument>) -> (r: Ty)
        requires
            old(self).wf(),
            old(self).holds(id),
        ensures
            final(self).follows(old(self)),
            (final(self)@, r@) == old(self)@.infer_list(old(self).item(), id, arguments@),
        decreases id.0, 5int, 0int,
    {
        if none_named(arguments) {
            Ty::new(TyKind::Tuple(self.infer_items(id, arguments)))
        } else if every_named(arguments) {
            let items = self.infer_items(id, arguments);
            Ty::new(TyKind::Record(built_fields(arguments, &items)))
        } else {
            let elements = self.infer_elements(id, arguments);
            Ty::new(TyKind::List(union_of(&elements)))
        }
    }

    fn infer_branches(&mut self, id: ExprId, arguments: &Vec<Argument>, mark: usize) -> (r: (
        Vec<Ty>,
        Vec<Vec<(u32, Option<EnvEntry>)>>,
    ))
        requires
            old(self).wf(),
            old(self).holds(id),
            hir::values_below(arguments@, id.0 as int),
        ensures
            final(self).follows(old(self)),
            (final(self)@, types::tys(r.0@), parts::branches_view(r.1@)) == old(
                self,
            )@.infer_branches(
                old(self).item(),
                id,
                arguments@,
                1,
                mark as nat,
                Seq::empty(),
                Seq::empty(),
            ),
        decreases id.0, 1int, 0int,
    {
        let ghost item = self.item();
        let ghost at = mark as nat;
        let mut members: Vec<Ty> = Vec::new();
        let mut branches: Vec<Vec<(u32, Option<EnvEntry>)>> = Vec::new();
        assert(types::tys(members@) =~= Seq::empty());
        assert(parts::branches_view(branches@) =~= Seq::empty());
        let mut i: usize = 1;
        while i < arguments.len()
            invariant
                self.follows(old(self)),
                item == old(self).item(),
                at == mark as nat,
                old(self).holds(id),
                hir::values_below(arguments@, id.0 as int),
                self@.infer_branches(
                    item,
                    id,
                    arguments@,
                    i as int,
                    at,
                    types::tys(members@),
                    parts::branches_view(branches@),
                ) == old(self)@.infer_branches(
                    item,
                    id,
                    arguments@,
                    1,
                    at,
                    Seq::empty(),
                    Seq::empty(),
                ),
            decreases arguments.len() - i,
        {
            assert(hir::opt_below(arguments@[i as int].value, id.0 as int));
            if let Some(value) = arguments[i].value {
                let ty = self.infer_below(id, value);
                members.push(self.resolve(&ty));
                if !diverges(self.module(), value) {
                    let writes = self.writes_since(mark);
                    let ghost before = parts::branches_view(branches@);
                    let ghost one = environment::writes_view(writes@);
                    branches.push(writes);
                    assert(parts::branches_view(branches@) =~= before.push(one));
                }
                self.rollback(mark);
            }
            i += 1;
        }
        (members, branches)
    }

    fn infer_switch(&mut self, id: ExprId, arguments: &Vec<Argument>) -> (r: Ty)
        requires
            old(self).wf(),
            old(self).holds(id),
            hir::values_below(arguments@, id.0 as int),
        ensures
            final(self).follows(old(self)),
            (final(self)@, r@) == old(self)@.infer_switch(old(self).item(), id, arguments@),
        decreases id.0, 5int, 0int,
    {
        if arguments.len() == 0 {
            let range = self.module().range(id);
            self.fail(range, TypeErrorKind::ArityMismatch { expected: 1, found: 0 });
            return unknown();
        }
        if let Some(value) = arguments[0].value {
            self.infer_below(id, value);
        }
        let mark = self.mark();
        let (mut members, branches) = self.infer_branches(id, arguments, mark);
        self.meet_all(&branches);
        if find_unnamed(arguments, 1).is_none() {
            members.push(null());
        }
        union_of(&members)
    }

    fn infer_shapes(&mut self, bound: ExprId, arguments: &Vec<Argument>) -> (r: Vec<Ty>)
        requires
            old(self).wf(),
            old(self).holds(bound),
        ensures
            final(self).follows(old(self)),
            (final(self)@, types::tys(r@)) == old(self)@.infer_shapes(
                old(self).item(),
                bound,
                arguments@,
                0,
                Seq::empty(),
            ),
        decreases bound.0, 1int, 0int,
    {
        let ghost item = self.item();
        let mut done: Vec<Ty> = Vec::new();
        assert(types::tys(done@) =~= Seq::empty());
        let mut i: usize = 0;
        while i < arguments.len()
            invariant
                i <= arguments.len(),
                self.follows(old(self)),
                item == old(self).item(),
                old(self).holds(bound),
                self@.infer_shapes(item, bound, arguments@, i as int, types::tys(done@)) == old(
                    self,
                )@.infer_shapes(item, bound, arguments@, 0, Seq::empty()),
            decreases arguments.len() - i,
        {
            if let Some(value) = arguments[i].value {
                let ty = self.infer_structural(bound, value);
                done.push(ty);
            }
            i += 1;
        }
        done
    }

    fn gather(&mut self, id: ExprId, arguments: &Vec<Argument>) -> (r: Combine)
        requires
            old(self).wf(),
            old(self).holds(id),
            hir::values_below(arguments@, id.0 as int),
        ensures
            final(self).follows(old(self)),
            (final(self)@, r@) == old(self)@.gather(
                old(self).item(),
                id,
                arguments@,
                0,
                crate::building::CombineV::start(),
            ),
        decreases id.0, 1int, 0int,
    {
        let ghost item = self.item();
        let mut gathered = Combine::start();
        let mut i: usize = 0;
        while i < arguments.len()
            invariant
                i <= arguments.len(),
                self.follows(old(self)),
                item == old(self).item(),
                old(self).holds(id),
                hir::values_below(arguments@, id.0 as int),
                self@.gather(item, id, arguments@, i as int, gathered@) == old(self)@.gather(
                    item,
                    id,
                    arguments@,
                    0,
                    crate::building::CombineV::start(),
                ),
            decreases arguments.len() - i,
        {
            assert(hir::opt_below(arguments@[i as int].value, id.0 as int));
            if let Some(value) = arguments[i].value {
                let resolved = self.infer_structural(id, value);
                let range = blame_range(self.module(), value);
                let named = arguments[i].name.is_some();
                self.combine_argument(id, range, named, &resolved, &mut gathered);
            }
            i += 1;
        }
        gathered
    }

    fn infer_combine(&mut self, id: ExprId, arguments: &Vec<Argument>) -> (r: Ty)
        requires
            old(self).wf(),
            old(self).holds(id),
            hir::values_below(arguments@, id.0 as int),
        ensures
            final(self).follows(old(self)),
            (final(self)@, r@) == old(self)@.infer_combine(old(self).item(), id, arguments@),
        decreases id.0, 5int, 0int,
    {
        if arguments.len() == 0 {
            return null();
        }
        let shapes = self.infer_shapes(id, arguments);
        if let Some(list) = combined_list(&shapes) {
            return list;
        }
        if let Some(class) = self.combine_nominal(&shapes) {
            return class;
        }
        let gathered = self.gather(id, arguments);
        gathered.result()
    }
}

} // verus!
