//! Steps of a check that are made of smaller ones: joining the writes of
//! branches, keeping captured writes, and applying annotations.

use vstd::prelude::*;

use crate::annotations::NamedDefinition;
use crate::blame::blame_range;
use crate::checker::{recordable, Checker};
use crate::checking::CheckV;
use crate::environment;
use crate::environment::EnvEntry;
use crate::findings::TypeErrorKind;
use crate::globals::GlobalEnv;
use crate::hir::ExprId;
use crate::infer::apply_definition;
use crate::schemes::TypeScheme;
use crate::syntax::TextRange;
use crate::table;
use crate::type_ops::{clone_types, erase_vars, union_of_two};
use crate::types;
use crate::types::{Constraint, Name, Ty, TyKind, TyV};

verus! {

broadcast use crate::types::group_type_views;

pub fn is_unknown(ty: &Ty) -> (r: bool)
    ensures
        r == (ty@ is Unknown),
{
    match ty.kind() {
        TyKind::Unknown => true,
        _ => false,
    }
}

impl<'a, G: GlobalEnv> Checker<'a, G> {
    pub fn unify_or_report(&mut self, range: TextRange, expected: &Ty, found: &Ty)
        requires
            old(self).wf(),
        ensures
            final(self).follows(old(self)),
            final(self)@ == old(self)@.unify_or_report(
                old(self).item().module,
                range,
                expected@,
                found@,
            ),
    {
        if let Err(error) = self.unify(expected, found) {
            self.report_unify(range, error);
        }
    }

    /// Demands that a flexible operand be numeric.
    pub fn constrain_numeric_flexible(&mut self, range: TextRange, ty: &Ty)
        requires
            old(self).wf(),
        ensures
            final(self).follows(old(self)),
            final(self)@ == old(self)@.constrain_numeric(old(self).item().module, range, ty@),
    {
        match ty.kind() {
            TyKind::Var(var) => {
                if let Err(error) = self.constrain(*var, Constraint::Numeric) {
                    self.report_unify(range, error);
                }
            },
            TyKind::Rigid(name) => {
                let promises = match self.table().rigid_constraint(name) {
                    Some(constraint) => constraint == Constraint::Numeric || constraint
                        == Constraint::ScalarNumeric,
                    None => false,
                };
                if !promises {
                    self.fail(
                        range,
                        TypeErrorKind::ConstraintViolation {
                            constraint: Constraint::Numeric,
                            found: ty.clone(),
                        },
                    );
                }
            },
            _ => {},
        }
    }

    /// What a slot holds, as a type.
    pub fn entry_monotype(&mut self, entry: &EnvEntry) -> (r: Ty)
        requires
            old(self).wf(),
        ensures
            final(self).follows(old(self)),
            (final(self)@, r@) == old(self)@.entry_monotype(entry@),
    {
        match entry {
            EnvEntry::Mono(ty) | EnvEntry::MissingFormal(ty) => ty.clone(),
            EnvEntry::Scheme(index) => {
                let scheme = self.scheme_at(*index);
                self.instantiate(&scheme)
            },
        }
    }

    fn joined_entry(&mut self, slot: u32, written: &Option<EnvEntry>) -> (r: Option<EnvEntry>)
        requires
            old(self).wf(),
        ensures
            final(self).follows(old(self)),
            (final(self)@, environment::opt_slot(r)) == old(self)@.joined_entry(
                slot,
                environment::opt_slot(*written),
            ),
    {
        let branch = match written {
            Some(EnvEntry::MissingFormal(ty)) => EnvEntry::Mono(ty.clone()),
            Some(entry) => entry.clone(),
            None => {
                return None;
            },
        };
        let current = match self.get(slot) {
            Some(current) => current,
            None => {
                return Some(branch);
            },
        };
        if current.same(&branch) {
            return Some(current);
        }
        if let (EnvEntry::Mono(left), EnvEntry::Mono(right)) = (&current, &branch) {
            return Some(EnvEntry::Mono(self.join_types(left, right)));
        }
        let left = self.entry_monotype(&current);
        let right = self.entry_monotype(&branch);
        let left_resolved = self.resolve(&left);
        let right_resolved = self.resolve(&right);
        Some(EnvEntry::Mono(union_of_two(&left_resolved, &right_resolved)))
    }

    fn join_write(&mut self, slot: u32, written: &Option<EnvEntry>) -> (r: bool)
        requires
            old(self).wf(),
        ensures
            final(self).follows(old(self)),
            (final(self)@, r) == old(self)@.join_write(slot, environment::opt_slot(*written)),
    {
        let current = self.get(slot);
        match self.joined_entry(slot, written) {
            Some(entry) => {
                let changes = match &current {
                    Some(current) => !current.same(&entry),
                    None => true,
                };
                if changes {
                    self.set_slot(slot, entry);
                }
                changes
            },
            None => false,
        }
    }

    /// Joins branch writes into the state; the slots they changed.
    pub fn join_writes_reporting(&mut self, writes: &Vec<(u32, Option<EnvEntry>)>) -> (r: Vec<u32>)
        requires
            old(self).wf(),
        ensures
            final(self).follows(old(self)),
            (final(self)@, r@) == old(self)@.join_writes(
                environment::writes_view(writes@),
                0,
                Seq::empty(),
            ),
    {
        let mut changed: Vec<u32> = Vec::new();
        let mut i: usize = 0;
        assert(changed@ =~= Seq::empty());
        while i < writes.len()
            invariant
                i <= writes.len(),
                self.follows(old(self)),
                self@.join_writes(environment::writes_view(writes@), i as int, changed@) == old(
                    self,
                )@.join_writes(environment::writes_view(writes@), 0, Seq::empty()),
            decreases writes.len() - i,
        {
            assert(environment::writes_view(writes@)[i as int] == (
                writes@[i as int].0,
                environment::opt_slot(writes@[i as int].1),
            ));
            if self.join_write(writes[i].0, &writes[i].1) {
                changed.push(writes[i].0);
            }
            i += 1;
        }
        changed
    }

    /// Takes the writes of a branch as the state itself.
    pub fn adopt_writes(&mut self, writes: &Vec<(u32, Option<EnvEntry>)>)
        requires
            old(self).wf(),
        ensures
            final(self).follows(old(self)),
            final(self)@ == old(self)@.adopt_writes(environment::writes_view(writes@), 0),
    {
        let mut i: usize = 0;
        while i < writes.len()
            invariant
                i <= writes.len(),
                self.follows(old(self)),
                self@.adopt_writes(environment::writes_view(writes@), i as int) == old(
                    self,
                )@.adopt_writes(environment::writes_view(writes@), 0),
            decreases writes.len() - i,
        {
            assert(environment::writes_view(writes@)[i as int] == (
                writes@[i as int].0,
                environment::opt_slot(writes@[i as int].1),
            ));
            if let Some(entry) = &writes[i].1 {
                self.set_slot(writes[i].0, entry.clone());
            }
            i += 1;
        }
    }

    /// Keeps the join of a captured slot's writes.
    pub fn note_captured_write(&mut self, slot: u32, value: &Ty)
        requires
            old(self).wf(),
        ensures
            final(self).follows(old(self)),
            final(self)@ == old(self)@.note_captured_write(
                old(self).item().naming,
                slot,
                value@,
            ),
    {
        if !self.is_captured(slot) {
            return;
        }
        let written = erase_vars(&self.resolve(value));
        let existing = self.capture_join(slot);
        let forward = self.is_forward_captured(slot);
        let joined = match &existing {
            Some(existing) => {
                if existing.same(&written) {
                    existing.clone()
                } else {
                    self.join_types(existing, &written)
                }
            },
            None => written,
        };
        let joined = recordable(joined);
        let changed = match &existing {
            Some(existing) => !existing.same(&joined),
            None => true,
        };
        self.set_capture_join(slot, joined);
        if changed && forward {
            self.set_repass(true);
        }
    }

    /// Joins the type a `<<-` wrote into the entry of its slot.
    pub fn join_enclosing_write(&mut self, slot: u32, written: &Ty)
        requires
            old(self).wf(),
        ensures
            final(self).follows(old(self)),
            final(self)@ == old(self)@.join_enclosing_write(slot, written@),
    {
        let ty = match self.get(slot) {
            Some(EnvEntry::Mono(existing)) => {
                if existing.same(written) {
                    existing
                } else {
                    self.join_types(&existing, written)
                }
            },
            Some(EnvEntry::Scheme(index)) => {
                let scheme = self.scheme_at(index);
                let existing = self.instantiate(&scheme);
                self.join_types(&existing, written)
            },
            Some(EnvEntry::MissingFormal(existing)) => self.join_types(&existing, written),
            None => written.clone(),
        };
        self.set_slot(slot, EnvEntry::Mono(ty));
    }

    /// Joins the pending writes from a mark on into the state again.
    pub fn reapply_enclosing_writes(&mut self, mark: usize)
        requires
            old(self).wf(),
        ensures
            final(self).follows(old(self)),
            final(self)@ == old(self)@.reapply(old(self)@.pending, mark as int),
    {
        let mut i: usize = mark;
        let ghost writes = old(self)@.pending;
        while i < self.pending_count()
            invariant
                mark <= i,
                self.follows(old(self)),
                writes == old(self)@.pending,
                self@.pending == writes,
                self@.reapply(writes, i as int) == old(self)@.reapply(writes, mark as int),
            decreases writes.len() - i,
        {
            let (slot, written) = self.pending_at(i);
            let ghost before = self@;
            self.join_enclosing_write(slot, &written);
            proof {
                joining_keeps_pending(before, slot, written@);
            }
            i += 1;
        }
    }

    /// Establishes what was observed of slots before the item, where they hold
    /// nothing.
    pub fn establish(&mut self)
        requires
            old(self).wf(),
        ensures
            final(self).follows(old(self)),
            final(self)@ == old(self)@.establish(old(self)@.pre_materialized, 0),
    {
        let mut i: usize = 0;
        let ghost observed = old(self)@.pre_materialized;
        while i < self.materialized_count()
            invariant
                self.follows(old(self)),
                observed == old(self)@.pre_materialized,
                self@.pre_materialized == observed,
                self@.establish(observed, i as int) == old(self)@.establish(observed, 0),
            decreases observed.len() - i,
        {
            let (slot, ty) = self.materialized_at(i);
            if self.get(slot).is_none() {
                self.set_slot(slot, EnvEntry::Mono(ty));
            }
            i += 1;
        }
    }

    /// Checks that a value fits a declared type, blaming the value.
    pub fn check_value(&mut self, expected: &Ty, found: &Ty, value: ExprId)
        requires
            old(self).wf(),
            old(self).holds(value),
        ensures
            final(self).follows(old(self)),
            final(self)@ == old(self)@.check_value(
                old(self).item().module,
                expected@,
                found@,
                value,
            ),
    {
        if !self.compatible(found, expected) {
            let range = blame_range(self.module(), value);
            let error = self.type_mismatch(range, expected, found, Some(value));
            self.report(error);
        }
    }

    fn fresh_arguments(&mut self, count: usize) -> (r: Vec<Ty>)
        requires
            old(self).wf(),
        ensures
            final(self).follows(old(self)),
            (final(self)@, types::tys(r@)) == old(self)@.fresh_arguments(
                count as nat,
                Seq::empty(),
            ),
    {
        let mut done: Vec<Ty> = Vec::new();
        assert(types::tys(done@) =~= Seq::empty());
        while done.len() < count
            invariant
                self.follows(old(self)),
                self@.fresh_arguments(count as nat, types::tys(done@)) == old(
                    self,
                )@.fresh_arguments(count as nat, Seq::empty()),
            decreases count - done.len(),
        {
            let ty = self.fresh(Constraint::Unconstrained);
            done.push(ty);
        }
        done
    }

    /// `@new`: introduces a nominal.
    pub fn check_new_nominal(&mut self, name: &Name, given: &Vec<Ty>, value: ExprId, value_ty: &Ty) -> (r:
        TypeScheme)
        requires
            old(self).wf(),
            old(self).holds(value),
        ensures
            final(self).follows(old(self)),
            (final(self)@, r@) == old(self)@.new_nominal(
                old(self).item().module,
                name@,
                types::tys(given@),
                value,
                value_ty@,
            ),
    {
        let definition = match self.definition_of(name) {
            Some(definition) => definition,
            None => {
                return self.generalize(value_ty);
            },
        };
        if definition.alias {
            return self.generalize(value_ty);
        }
        let level = self.level();
        self.deepen();
        let arguments = if given.len() == definition.parameters.len() {
            clone_types(given)
        } else {
            self.fresh_arguments(definition.parameters.len())
        };
        if !is_unknown(&definition.body) {
            let representation = apply_definition(&definition, &arguments);
            let resolved = self.resolve(value_ty);
            self.check_value(&representation, &resolved, value);
        }
        self.set_level(level);
        self.generalize(&Ty::new(TyKind::Named(name.clone(), arguments)))
    }

    fn definition_of(&self, name: &Name) -> (r: Option<NamedDefinition>)
        requires
            self.wf(),
        ensures
            (match r {
                Some(definition) => Some(definition@),
                None => None,
            }) == self@.table.definition(name@),
    {
        match self.table().vocabulary().definition(name) {
            Some(definition) => {
                let mut parameters: Vec<Name> = Vec::new();
                let mut i: usize = 0;
                while i < definition.parameters.len()
                    invariant
                        i <= definition.parameters.len(),
                        types::names(parameters@) =~= types::names(
                            definition.parameters@,
                        ).subrange(0, i as int),
                    decreases definition.parameters.len() - i,
                {
                    parameters.push(definition.parameters[i].clone());
                    i += 1;
                }
                let copy = NamedDefinition {
                    alias: definition.alias,
                    name: definition.name.clone(),
                    parameters,
                    body: definition.body.clone(),
                };
                assert(copy@.parameters =~= definition@.parameters);
                Some(copy)
            },
            None => None,
        }
    }

    /// Applies a statement-level annotation to the value of an expression.
    pub fn apply_expression_annotation(&mut self, annotated: ExprId, value: ExprId, value_ty: Ty) -> (r:
        Ty)
        requires
            old(self).wf(),
            old(self).holds(value),
        ensures
            final(self).follows(old(self)),
            (final(self)@, r@) == old(self)@.apply_annotation(
                old(self).item().module,
                annotated,
                value,
                value_ty@,
            ),
    {
        let annotation = match self.annotation(annotated) {
            Some(annotation) => annotation,
            None => {
                return value_ty;
            },
        };
        if let Some((name, arguments, _)) = &annotation.new_nominal {
            let scheme = self.check_new_nominal(name, arguments, value, &value_ty);
            return self.instantiate(&scheme);
        }
        let declared = match &annotation.declared {
            Some(declared) => declared,
            None => {
                return value_ty;
            },
        };
        if annotation.trusted {
            return declared.body.clone();
        }
        if annotation.if_unknown {
            let resolved = self.resolve(&value_ty);
            if is_unknown(&resolved) {
                return declared.body.clone();
            }
            let range = blame_range(self.module(), value);
            self.fail(range, TypeErrorKind::KnownTypeUnderIfUnknown { found: resolved.clone() });
            return resolved;
        }
        if crate::unify::is_tolerated(&declared.body) {
            return declared.body.clone();
        }
        let resolved = self.resolve(&value_ty);
        self.check_value(&declared.body, &resolved, value);
        declared.body.clone()
    }

    /// The scheme a statement-level annotation declares for a function
    /// expression.
    pub fn declared_function_annotation(&self, annotated: ExprId) -> (r: Option<&'a TypeScheme>)
        ensures
            (match r {
                Some(scheme) => Some(scheme@),
                None => None,
            }) == self@.declared_function(annotated),
            r matches Some(scheme) ==> scheme@.body is Function,
    {
        let annotation: &'a crate::annotations::Annotation = match self.annotation(annotated) {
            Some(annotation) => annotation,
            None => {
                return None;
            },
        };
        if annotation.trusted || annotation.if_unknown || annotation.new_nominal.is_some() {
            return None;
        }
        match &annotation.declared {
            Some(declared) => match declared.body.kind() {
                TyKind::Function(_) => Some(declared),
                _ => None,
            },
            None => None,
        }
    }
}

/// Joining a write touches no pending write.
proof fn joining_keeps_pending(s: CheckV, slot: u32, written: TyV)
    ensures
        s.join_enclosing_write(slot, written).pending == s.pending,
{
}

} // verus!
