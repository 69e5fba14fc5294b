//! Reads of names, writes to them, and the guards that refine them.

use vstd::prelude::*;

use crate::checker::Checker;
use crate::checking;
use crate::checking::{CheckV, ItemV};
use crate::environment::{EnvEntry, SlotV};
use crate::findings::{OriginKindV, StrictOriginKind, TypeErrorKind, TypeErrorKindV};
use crate::globals::{validated_namespace_name, GlobalEnv};
use crate::hir::{AssignSpelling, ExprId};
use crate::infer::Entry;
use crate::operands;
use crate::operands::{guard_members, refined, GuardKind};
use crate::steps::is_unknown;
use crate::table;
use crate::table::EntryV;
use crate::type_ops::{contains_type, null, union_of_two, unknown};
use crate::types;
use crate::types::{Constraint, Ty, TyKind, TyV};
use crate::walk::BindingKind;

verus! {

broadcast use crate::types::group_type_views;

/// A recognized guard: the tested slot, and its refined type on each edge.
pub struct GuardV {
    /// The true edge marks the slot as a formal that is missing.
    pub missing_on_true: bool,
    pub slot: u32,
    pub true_edge: Option<TyV>,
    pub false_edge: Option<TyV>,
}

impl GuardV {
    /// The guard of the negated condition. There is no edge that a missing
    /// formal could swap into.
    pub open spec fn negated(self) -> GuardV {
        GuardV {
            missing_on_true: false,
            slot: self.slot,
            true_edge: self.false_edge,
            false_edge: self.true_edge,
        }
    }
}

impl CheckV {
    /// A read of a slot that no write has reached. A captured slot gives the join
    /// of its writes so far; a top-level slot gives what the name held before the
    /// item.
    pub open spec fn read_unwritten(self, item: ItemV, slot: u32) -> (CheckV, TyV) {
        if item.naming.captured_slots.contains(slot) {
            let next = CheckV { forward_captured: self.forward_captured.insert(slot), ..self };
            match self.capture_join(slot) {
                Some(join) => (next, join),
                None => (next, TyV::Unknown),
            }
        } else {
            match item.binding(slot) {
                Some(binding) => if binding.kind == BindingKind::TopLevel {
                    match item.scheme(binding.name, false) {
                        Some(scheme) => {
                            let (next, ty) = self.instantiate(scheme);
                            if next.table.resolve(ty) is Unknown {
                                (next, TyV::Unknown)
                            } else {
                                let seen = next.set_slot(slot, SlotV::Mono(ty));
                                (
                                    CheckV {
                                        pre_materialized: checking::with_slot_value(
                                            seen.pre_materialized,
                                            slot,
                                            ty,
                                        ),
                                        ..seen
                                    },
                                    ty,
                                )
                            }
                        },
                        None => (self, TyV::Unknown),
                    }
                } else {
                    (self, TyV::Unknown)
                },
                None => (self, TyV::Unknown),
            }
        }
    }

    /// A read of a name the item does not bind: what a guard refined it to, or
    /// what surrounds the item. One that resolves to nothing known, and that the
    /// project does not define, is where the unknown comes from.
    pub open spec fn read_outside(self, item: ItemV, id: ExprId, name: Seq<char>) -> (CheckV, TyV) {
        match self.refined_outside(name) {
            Some(ty) => (self, ty),
            None => {
                let deferred = item.naming.deferred_non_locals.contains(id.0);
                match item.scheme(name, deferred) {
                    Some(scheme) => {
                        let (next, ty) = self.instantiate(scheme);
                        if next.table.resolve(ty) is Unknown && !item.defined_in_project(
                            name,
                            deferred,
                        ) {
                            (
                                next.origin(
                                    item.module,
                                    id,
                                    OriginKindV::UndeterminedReference(name),
                                ),
                                ty,
                            )
                        } else {
                            (next, ty)
                        }
                    },
                    None => (self, TyV::Unknown),
                }
            },
        }
    }

    /// What a guard refined an outside name to.
    pub open spec fn refined_outside(self, name: Seq<char>) -> Option<TyV> {
        match checking::named_slot(self.non_local_slots, name) {
            Some(slot) => match self.env.get(slot) {
                Some(SlotV::Mono(ty)) => Some(ty),
                _ => None,
            },
            None => None,
        }
    }

    /// A read of a name.
    pub open spec fn read(self, item: ItemV, id: ExprId) -> (CheckV, TyV) {
        match item.slot_of(id) {
            None => match item.non_local(id) {
                Some(name) => self.read_outside(item, id, name),
                None => (self, TyV::Unknown),
            },
            Some(slot) => match self.env.get(slot) {
                Some(SlotV::Mono(ty)) => (self, ty),
                Some(SlotV::Scheme(index)) => self.instantiate(self.scheme_at(index)),
                Some(SlotV::MissingFormal(_)) => (
                    self.fail(
                        item.module.range_of(id),
                        TypeErrorKindV::MissingFormalRead {
                            name: match item.binding(slot) {
                                Some(binding) => binding.name,
                                None => Seq::empty(),
                            },
                        },
                    ),
                    TyV::Unknown,
                ),
                None => self.read_unwritten(item, slot),
            },
        }
    }

    /// A qualified read.
    pub open spec fn read_qualified(
        self,
        item: ItemV,
        id: ExprId,
        internal: bool,
        package: Option<Seq<char>>,
        name: Option<Seq<char>>,
    ) -> (CheckV, TyV) {
        let scheme = match item.corpus.validated(internal, package, name) {
            Some(name) => item.scheme(name, false),
            None => None,
        };
        match scheme {
            Some(scheme) => self.instantiate(scheme),
            None => match name {
                Some(name) => (
                    self.origin(item.module, id, OriginKindV::UndeterminedReference(name)),
                    TyV::Unknown,
                ),
                None => (self, TyV::Unknown),
            },
        }
    }

    /// A write to a name. `<<-` joins into an enclosing slot and outlives the
    /// body; a function value generalizes at its binding.
    pub open spec fn write_name(
        self,
        item: ItemV,
        spelling: AssignSpelling,
        target: ExprId,
        value: TyV,
    ) -> CheckV {
        (match item.slot_of(target) {
            Some(slot) => (if spelling == AssignSpelling::Super {
                let written = self.table.resolve(value);
                let joined = self.join_enclosing_write(slot, written);
                CheckV {
                    pending: joined.pending.push((slot, written)),
                    ..joined
                }.note_captured_write(item.naming, slot, value)
            } else if self.table.shallow(value) is Function {
                let (next, index) = self.push_scheme(self.table.generalize(value));
                next.set_slot(slot, SlotV::Scheme(index))
            } else {
                self.set_slot(slot, SlotV::Mono(value))
            }).note_captured_write(item.naming, slot, value),
            None => self,
        }).note(target, value)
    }

    /// The slot that stands for an outside name, holding what the read observed.
    pub open spec fn guard_slot(self, item: ItemV, read: ExprId, observed: TyV) -> (
        CheckV,
        Option<u32>,
    ) {
        match item.non_local(read) {
            None => (self, None),
            Some(name) => {
                let (next, slot) = match checking::named_slot(self.non_local_slots, name) {
                    Some(slot) => (self, slot),
                    None => self.mint_slot(name),
                };
                if next.env.get(slot) is None {
                    (next.set_slot(slot, SlotV::Mono(observed)), Some(slot))
                } else {
                    (next, Some(slot))
                }
            },
        }
    }

    /// Whether a variable is open and unconstrained.
    pub open spec fn is_unconstrained(self, ty: TyV) -> bool {
        match ty {
            TyV::Var(var) => {
                let root = self.table.find(var);
                self.table.holds(root) && match self.table.entries[root.0 as int] {
                    EntryV::Unbound { constraint, .. } => constraint == Constraint::Unconstrained,
                    _ => false,
                }
            },
            _ => false,
        }
    }

    /// The edges of a guard on a slot of the given type. A test for `NULL` shapes
    /// an open variable; a family test refines no untracked type.
    pub open spec fn guard_edges(self, kind: GuardKind, slot: u32, resolved: TyV) -> (
        CheckV,
        Option<GuardV>,
    ) {
        let members = types::members_of(resolved);
        let filtered = GuardV {
            missing_on_true: false,
            slot,
            true_edge: operands::edge_type(members, kind, true),
            false_edge: operands::edge_type(members, kind, false),
        };
        match (kind, resolved) {
            (GuardKind::Null, TyV::Any) | (GuardKind::Null, TyV::Unknown) => (
                self,
                Some(GuardV { true_edge: Some(TyV::Null), false_edge: None, ..filtered }),
            ),
            (GuardKind::Null, TyV::Var(_)) => if self.is_unconstrained(resolved) {
                let (next, fresh) = self.fresh(Constraint::Unconstrained);
                let shaped = TyV::union_of(seq![fresh, TyV::Null]);
                let (table, outcome) = next.table.unify(resolved, shaped);
                (
                    next.with_table(table),
                    if outcome is Ok {
                        Some(
                            GuardV {
                                true_edge: Some(shaped),
                                false_edge: Some(fresh),
                                ..filtered
                            },
                        )
                    } else {
                        None
                    },
                )
            } else {
                (self, None)
            },
            (GuardKind::Null, _) => if members.contains(TyV::Null) {
                (self, Some(filtered))
            } else {
                (self, None)
            },
            (GuardKind::Family(_), TyV::Any) | (GuardKind::Family(_), TyV::Unknown) => (self, None),
            (GuardKind::Family(_), TyV::Var(_)) | (GuardKind::Family(_), TyV::Rigid(_)) => (
                self,
                None,
            ),
            (GuardKind::Family(_), _) => (self, Some(filtered)),
        }
    }

    /// A guard by name on a slot.
    pub open spec fn guard_on(self, name: Seq<char>, slot: u32) -> (CheckV, Option<GuardV>) {
        if name == "missing"@ {
            (
                self,
                if self.no_default_formals.contains(slot) {
                    Some(
                        GuardV {
                            missing_on_true: true,
                            slot,
                            true_edge: None,
                            false_edge: None,
                        },
                    )
                } else {
                    None
                },
            )
        } else {
            match (operands::guard_of(name), self.env.get(slot)) {
                (Some(kind), Some(SlotV::Mono(current))) => self.guard_edges(
                    kind,
                    slot,
                    self.table.resolve(current),
                ),
                _ => (self, None),
            }
        }
    }

    /// The state on the true edge of a guard.
    pub open spec fn on_true_edge(self, guard: Option<GuardV>) -> CheckV {
        match guard {
            Some(guard) => match guard.true_edge {
                Some(ty) => self.set_slot(guard.slot, SlotV::Mono(ty)),
                None => match (guard.missing_on_true, self.env.get(guard.slot)) {
                    (true, Some(SlotV::Mono(current))) => self.set_slot(
                        guard.slot,
                        SlotV::MissingFormal(current),
                    ),
                    _ => self,
                },
            },
            None => self,
        }
    }

    pub open spec fn on_false_edge(self, guard: Option<GuardV>) -> CheckV {
        match guard {
            Some(guard) => match guard.false_edge {
                Some(ty) => self.set_slot(guard.slot, SlotV::Mono(ty)),
                None => self,
            },
            None => self,
        }
    }
}

/// A recognized guard.
pub struct Guard {
    pub missing_on_true: bool,
    pub slot: u32,
    pub true_edge: Option<Ty>,
    pub false_edge: Option<Ty>,
}

impl Guard {
    pub open spec fn view(&self) -> GuardV {
        GuardV {
            missing_on_true: self.missing_on_true,
            slot: self.slot,
            true_edge: types::opt_ty(self.true_edge),
            false_edge: types::opt_ty(self.false_edge),
        }
    }
}

pub open spec fn opt_guard(guard: Option<Guard>) -> Option<GuardV> {
    match guard {
        Some(guard) => Some(guard@),
        None => None,
    }
}

impl<'a, G: GlobalEnv> Checker<'a, G> {
    fn read_unwritten(&mut self, slot: u32) -> (r: Ty)
        requires
            old(self).wf(),
        ensures
            final(self).follows(old(self)),
            (final(self)@, r@) == old(self)@.read_unwritten(old(self).item(), slot),
    {
        if self.is_captured(slot) {
            self.mark_forward_captured(slot);
            return match self.capture_join(slot) {
                Some(join) => join,
                None => unknown(),
            };
        }
        let binding = match self.binding(slot) {
            Some(binding) => binding,
            None => {
                return unknown();
            },
        };
        if binding.kind != BindingKind::TopLevel {
            return unknown();
        }
        match self.global_scheme(binding.name.as_str(), false) {
            Some(scheme) => {
                let ty = self.instantiate(&scheme);
                if is_unknown(&self.resolve(&ty)) {
                    return unknown();
                }
                self.set_slot(slot, EnvEntry::Mono(ty.clone()));
                self.materialize(slot, ty.clone());
                ty
            },
            None => unknown(),
        }
    }

    fn refined_outside(&self, name: &str) -> (r: Option<Ty>)
        ensures
            types::opt_ty(r) == self@.refined_outside(name@),
    {
        match self.named_slot(name) {
            Some(slot) => match self.get(slot) {
                Some(EnvEntry::Mono(ty)) => Some(ty),
                _ => None,
            },
            None => None,
        }
    }

    fn read_outside(&mut self, id: ExprId, name: &String) -> (r: Ty)
        requires
            old(self).wf(),
            old(self).holds(id),
        ensures
            final(self).follows(old(self)),
            (final(self)@, r@) == old(self)@.read_outside(old(self).item(), id, name@),
    {
        if let Some(ty) = self.refined_outside(name.as_str()) {
            return ty;
        }
        let deferred = self.is_deferred(id);
        match self.global_scheme(name.as_str(), deferred) {
            Some(scheme) => {
                let ty = self.instantiate(&scheme);
                if is_unknown(&self.resolve(&ty)) && !self.defined_in_project(
                    name.as_str(),
                    deferred,
                ) {
                    self.origin(id, StrictOriginKind::UndeterminedReference(name.clone()));
                }
                ty
            },
            None => unknown(),
        }
    }

    /// A read of a name.
    pub fn infer_read(&mut self, id: ExprId) -> (r: Ty)
        requires
            old(self).wf(),
            old(self).holds(id),
        ensures
            final(self).follows(old(self)),
            (final(self)@, r@) == old(self)@.read(old(self).item(), id),
    {
        let slot = match self.slot_of(id) {
            Some(slot) => slot,
            None => {
                return match self.non_local(id) {
                    Some(name) => self.read_outside(id, name),
                    None => unknown(),
                };
            },
        };
        match self.get(slot) {
            Some(EnvEntry::Mono(ty)) => ty,
            Some(EnvEntry::Scheme(index)) => {
                let scheme = self.scheme_at(index);
                self.instantiate(&scheme)
            },
            Some(EnvEntry::MissingFormal(_)) => {
                let name = match self.binding(slot) {
                    Some(binding) => binding.name.clone(),
                    None => String::new(),
                };
                let range = self.module().range(id);
                self.fail(range, TypeErrorKind::MissingFormalRead { name });
                unknown()
            },
            None => self.read_unwritten(slot),
        }
    }

    /// A qualified read.
    pub fn infer_namespace(
        &mut self,
        id: ExprId,
        internal: bool,
        package: &Option<String>,
        name: &Option<String>,
    ) -> (r: Ty)
        requires
            old(self).wf(),
            old(self).holds(id),
        ensures
            final(self).follows(old(self)),
            (final(self)@, r@) == old(self)@.read_qualified(
                old(self).item(),
                id,
                internal,
                types::opt_text(*package),
                types::opt_text(*name),
            ),
    {
        let scheme = match validated_namespace_name(self.corpus(), internal, package, name) {
            Some(validated) => self.global_scheme(validated.as_str(), false),
            None => None,
        };
        match scheme {
            Some(scheme) => self.instantiate(&scheme),
            None => {
                if let Some(name) = name {
                    self.origin(id, StrictOriginKind::UndeterminedReference(name.clone()));
                }
                unknown()
            },
        }
    }

    /// A write to a name.
    pub fn write_name(&mut self, spelling: AssignSpelling, target: ExprId, value: &Ty)
        requires
            old(self).wf(),
        ensures
            final(self).follows(old(self)),
            final(self)@ == old(self)@.write_name(old(self).item(), spelling, target, value@),
    {
        if let Some(slot) = self.slot_of(target) {
            if spelling == AssignSpelling::Super {
                let written = self.resolve(value);
                self.join_enclosing_write(slot, &written);
                self.push_pending(slot, written);
                self.note_captured_write(slot, value);
            } else {
                let resolved = self.shallow_resolve(value);
                let is_function = match resolved.kind() {
                    TyKind::Function(_) => true,
                    _ => false,
                };
                if is_function {
                    let scheme = self.generalize(value);
                    let index = self.push_scheme(scheme);
                    self.set_slot(slot, EnvEntry::Scheme(index));
                } else {
                    self.set_slot(slot, EnvEntry::Mono(value.clone()));
                }
            }
            self.note_captured_write(slot, value);
        }
        self.note(target, value.clone());
    }

    /// The slot that stands for an outside name.
    pub fn non_local_guard_slot(&mut self, read: ExprId, observed: Ty) -> (r: Option<u32>)
        requires
            old(self).wf(),
        ensures
            final(self).follows(old(self)),
            (final(self)@, r) == old(self)@.guard_slot(old(self).item(), read, observed@),
    {
        let name = match self.non_local(read) {
            Some(name) => name,
            None => {
                return None;
            },
        };
        let slot = match self.named_slot(name.as_str()) {
            Some(slot) => slot,
            None => self.mint_slot(name),
        };
        if self.get(slot).is_none() {
            self.set_slot(slot, EnvEntry::Mono(observed));
        }
        Some(slot)
    }

    fn is_unconstrained(&self, ty: &Ty) -> (r: bool)
        requires
            self.wf(),
        ensures
            r == self@.is_unconstrained(ty@),
    {
        match ty.kind() {
            TyKind::Var(var) => match self.table().known(*var) {
                Some(Entry::Unbound { constraint, .. }) => *constraint == Constraint::Unconstrained,
                _ => false,
            },
            _ => false,
        }
    }

    fn guard_edges(&mut self, kind: GuardKind, slot: u32, resolved: &Ty) -> (r: Option<Guard>)
        requires
            old(self).wf(),
        ensures
            final(self).follows(old(self)),
            (final(self)@, opt_guard(r)) == old(self)@.guard_edges(kind, slot, resolved@),
    {
        match kind {
            GuardKind::Null => match resolved.kind() {
                TyKind::Any | TyKind::Unknown => {
                    return Some(
                        Guard {
                            missing_on_true: false,
                            slot,
                            true_edge: Some(null()),
                            false_edge: None,
                        },
                    );
                },
                TyKind::Var(_) => {
                    if !self.is_unconstrained(resolved) {
                        return None;
                    }
                    let fresh = self.fresh(Constraint::Unconstrained);
                    let shaped = union_of_two(&fresh, &null());
                    return match self.unify(resolved, &shaped) {
                        Ok(()) => Some(
                            Guard {
                                missing_on_true: false,
                                slot,
                                true_edge: Some(shaped),
                                false_edge: Some(fresh),
                            },
                        ),
                        Err(_) => None,
                    };
                },
                _ => {},
            },
            GuardKind::Family(_) => match resolved.kind() {
                TyKind::Any | TyKind::Unknown | TyKind::Var(_) | TyKind::Rigid(_) => {
                    return None;
                },
                _ => {},
            },
        }
        let members = guard_members(resolved);
        if let GuardKind::Null = kind {
            if !contains_type(&members, &null()) {
                return None;
            }
        }
        Some(
            Guard {
                missing_on_true: false,
                slot,
                true_edge: refined(&members, kind, true),
                false_edge: refined(&members, kind, false),
            },
        )
    }

    /// A guard by name on a slot.
    pub fn guard_on(&mut self, name: &str, slot: u32) -> (r: Option<Guard>)
        requires
            old(self).wf(),
        ensures
            final(self).follows(old(self)),
            (final(self)@, opt_guard(r)) == old(self)@.guard_on(name@, slot),
    {
        if crate::text::same_text(name, "missing") {
            return if self.is_no_default(slot) {
                Some(Guard { missing_on_true: true, slot, true_edge: None, false_edge: None })
            } else {
                None
            };
        }
        let kind = match operands::guard_kind(name) {
            Some(kind) => kind,
            None => {
                return None;
            },
        };
        match self.get(slot) {
            Some(EnvEntry::Mono(current)) => {
                let resolved = self.resolve(&current);
                self.guard_edges(kind, slot, &resolved)
            },
            _ => None,
        }
    }

    /// Enters the true edge of a guard.
    pub fn enter_true_edge(&mut self, guard: &Option<Guard>)
        requires
            old(self).wf(),
        ensures
            final(self).follows(old(self)),
            final(self)@ == old(self)@.on_true_edge(opt_guard(*guard)),
    {
        if let Some(guard) = guard {
            if let Some(ty) = &guard.true_edge {
                self.set_slot(guard.slot, EnvEntry::Mono(ty.clone()));
            } else if guard.missing_on_true {
                if let Some(EnvEntry::Mono(current)) = self.get(guard.slot) {
                    self.set_slot(guard.slot, EnvEntry::MissingFormal(current));
                }
            }
        }
    }

    /// Enters the false edge of a guard.
    pub fn enter_false_edge(&mut self, guard: &Option<Guard>)
        requires
            old(self).wf(),
        ensures
            final(self).follows(old(self)),
            final(self)@ == old(self)@.on_false_edge(opt_guard(*guard)),
    {
        if let Some(guard) = guard {
            if let Some(ty) = &guard.false_edge {
                self.set_slot(guard.slot, EnvEntry::Mono(ty.clone()));
            }
        }
    }
}

} // verus!
