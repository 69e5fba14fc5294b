//! Unification: tying and binding variables until two types agree.
//!
//! It is syntactic and never widens. A union unifies only with an equal union,
//! or member-wise where both are nullable.

use vstd::prelude::*;

use crate::infer;
use crate::infer::{find_is_idempotent, Entry, InferenceTable, UnifyError};
use crate::pairing;
use crate::table;
use crate::table::UnifyStepV;
use crate::type_ops::{clone_types, contains_type};
use crate::types;
use crate::types::{Constraint, FunctionType, InferenceVar, RecordField, Ty, TyKind};

verus! {

broadcast use {
    crate::types::group_type_views,
    crate::pairing::pairs_push,
    crate::table::grown_from_itself,
    crate::table::grown_in_steps,
    crate::table::grown_by_set,
};

/// What unifying two distinct shallow types asks for.
enum UnifyStep {
    Done,
    Tie(InferenceVar, InferenceVar),
    Bind(InferenceVar, Ty),
    Pairs(Vec<(Ty, Ty)>),
    Refuse,
}

impl UnifyStep {
    spec fn view(&self) -> UnifyStepV {
        match self {
            UnifyStep::Done => UnifyStepV::Done,
            UnifyStep::Tie(a, b) => UnifyStepV::Tie(*a, *b),
            UnifyStep::Bind(var, ty) => UnifyStepV::Bind(*var, ty@),
            UnifyStep::Pairs(pairs) => UnifyStepV::Pairs(pairing::pairs_view(pairs@)),
            UnifyStep::Refuse => UnifyStepV::Refuse,
        }
    }
}

/// A list of one pair.
pub fn one_pair(a: &Ty, b: &Ty) -> (r: Vec<(Ty, Ty)>)
    ensures
        pairing::pairs_view(r@) == seq![(a@, b@)],
{
    let mut out: Vec<(Ty, Ty)> = Vec::new();
    out.push((a.clone(), b.clone()));
    assert(pairing::pairs_view(out@) =~= seq![(a@, b@)]);
    out
}

/// Corresponding elements of two lists.
pub fn zip_types(left: &Vec<Ty>, right: &Vec<Ty>) -> (r: Vec<(Ty, Ty)>)
    ensures
        pairing::pairs_view(r@) == table::zipped(types::tys(left@), types::tys(right@)),
{
    let mut out: Vec<(Ty, Ty)> = Vec::new();
    let mut i: usize = 0;
    while i < left.len() && i < right.len()
        invariant
            i <= left.len(),
            i <= right.len(),
            out@.len() == i,
            forall|j: int|
                0 <= j < i ==> (#[trigger] out@[j]).0@ == types::tys(left@)[j] && out@[j].1@
                    == types::tys(right@)[j],
        decreases left.len() - i,
    {
        out.push((left[i].clone(), right[i].clone()));
        i += 1;
    }
    assert(pairing::pairs_view(out@) =~= table::zipped(types::tys(left@), types::tys(right@)));
    out
}

/// The types of a list of fields.
pub fn field_types(fields: &Vec<RecordField>) -> (r: Vec<Ty>)
    ensures
        types::tys(r@) == table::field_types(types::fields_view(fields@)),
{
    let mut out: Vec<Ty> = Vec::new();
    let mut i: usize = 0;
    while i < fields.len()
        invariant
            i <= fields.len(),
            out@.len() == i,
            forall|j: int| 0 <= j < i ==> (#[trigger] out@[j])@ == types::fields_view(fields@)[j].ty,
        decreases fields.len() - i,
    {
        out.push(fields[i].ty.clone());
        i += 1;
    }
    assert(types::tys(out@) =~= table::field_types(types::fields_view(fields@)));
    out
}

/// The types of a signature that take part in unification.
pub fn signature_types(function: &FunctionType) -> (r: Vec<Ty>)
    ensures
        types::tys(r@) == function@.signature_types(),
{
    let mut out: Vec<Ty> = clone_types(&function.positional);
    let mut i: usize = 0;
    while i < function.named.len()
        invariant
            i <= function.named.len(),
            function@.named.len() == function.named@.len(),
            types::tys(out@) =~= function@.positional + table::formal_types(
                function@.named,
            ).subrange(0, i as int),
        decreases function.named.len() - i,
    {
        out.push(function.named[i].ty.clone());
        assert(function@.named[i as int] == function.named[i as int]@);
        i += 1;
    }
    if let Some(rest) = &function.variadic {
        out.push(rest.element.clone());
    }
    out.push(function.ret.clone());
    assert(types::tys(out@) =~= function@.signature_types());
    out
}

fn same_field_shape(left: &Vec<RecordField>, right: &Vec<RecordField>) -> (r: bool)
    ensures
        r == table::same_field_shape(types::fields_view(left@), types::fields_view(right@)),
{
    if left.len() != right.len() {
        return false;
    }
    let mut i: usize = 0;
    while i < left.len()
        invariant
            i <= left.len(),
            left.len() == right.len(),
            forall|j: int|
                #![trigger types::fields_view(left@)[j]]
                0 <= j < i ==> types::fields_view(left@)[j].name == types::fields_view(
                    right@,
                )[j].name && types::fields_view(left@)[j].optional == types::fields_view(
                    right@,
                )[j].optional,
        decreases left.len() - i,
    {
        assert(types::fields_view(left@)[i as int] == left[i as int]@);
        assert(types::fields_view(right@)[i as int] == right[i as int]@);
        if !left[i].name.same(&right[i].name) || left[i].optional != right[i].optional {
            return false;
        }
        i += 1;
    }
    true
}

fn same_signature_shape(left: &FunctionType, right: &FunctionType) -> (r: bool)
    ensures
        r == table::same_signature_shape(left@, right@),
{
    if left.positional.len() != right.positional.len() || left.named.len() != right.named.len()
        || left.variadic.is_some() != right.variadic.is_some() {
        return false;
    }
    let mut i: usize = 0;
    while i < left.named.len()
        invariant
            i <= left.named.len(),
            left.named.len() == right.named.len(),
            left.positional.len() == right.positional.len(),
            left.variadic is Some == right.variadic is Some,
            forall|j: int|
                #![trigger left@.named[j]]
                0 <= j < i ==> left@.named[j].name == right@.named[j].name
                    && left@.named[j].optional == right@.named[j].optional,
        decreases left.named.len() - i,
    {
        assert(left@.named[i as int] == left.named[i as int]@);
        assert(right@.named[i as int] == right.named[i as int]@);
        if !left.named[i].name.same(&right.named[i].name) || left.named[i].optional
            != right.named[i].optional {
            return false;
        }
        i += 1;
    }
    true
}

/// `T | NULL` (exactly two members, one `NULL`) yields `T`.
fn nullable_single_member(members: &Vec<Ty>) -> (r: Option<Ty>)
    ensures
        types::opt_ty(r) == table::nullable_member(types::tys(members@)),
{
    if members.len() != 2 {
        return None;
    }
    if let TyKind::Null = members[0].kind() {
        return Some(members[1].clone());
    }
    if let TyKind::Null = members[1].kind() {
        return Some(members[0].clone());
    }
    None
}

/// Whether every type of the first list stands in the second.
fn all_in(left: &Vec<Ty>, right: &Vec<Ty>) -> (r: bool)
    ensures
        r == table::all_in(types::tys(left@), types::tys(right@)),
{
    let mut i: usize = 0;
    while i < left.len()
        invariant
            i <= left.len(),
            forall|j: int|
                0 <= j < i ==> types::tys(right@).contains(#[trigger] types::tys(left@)[j]),
        decreases left.len() - i,
    {
        assert(types::tys(left@)[i as int] == left[i as int]@);
        if !contains_type(right, &left[i]) {
            return false;
        }
        i += 1;
    }
    true
}

impl InferenceTable {
    /// Unions unify by set equality after resolution, plus the single
    /// `T | NULL` vs `U | NULL` member-wise case.
    fn unify_unions(&self, a: &Ty, b: &Ty) -> (r: UnifyStep)
        requires
            self.wf(),
        ensures
            r@ == table::unify_union_step(self@, a@, b@),
    {
        let left = self.resolve(a);
        let right = self.resolve(b);
        if left.same(&right) {
            return UnifyStep::Done;
        }
        match (left.kind(), right.kind()) {
            (TyKind::Union(left_members), TyKind::Union(right_members)) => {
                match (
                    nullable_single_member(left_members),
                    nullable_single_member(right_members),
                ) {
                    (Some(left_inner), Some(right_inner)) => UnifyStep::Pairs(
                        one_pair(&left_inner, &right_inner),
                    ),
                    _ => {
                        if left_members.len() == right_members.len() && all_in(
                            left_members,
                            right_members,
                        ) {
                            UnifyStep::Done
                        } else {
                            UnifyStep::Refuse
                        }
                    },
                }
            },
            _ => UnifyStep::Pairs(one_pair(&left, &right)),
        }
    }

    fn unify_step(&self, a: &Ty, b: &Ty) -> (r: UnifyStep)
        requires
            self.wf(),
        ensures
            r@ == table::unify_step(self@, a@, b@),
    {
        match (a.kind(), b.kind()) {
            (TyKind::Var(left), TyKind::Var(right)) => {
                return UnifyStep::Tie(*left, *right);
            },
            (TyKind::Var(var), _) => {
                return UnifyStep::Bind(*var, b.clone());
            },
            (_, TyKind::Var(var)) => {
                return UnifyStep::Bind(*var, a.clone());
            },
            _ => {},
        }
        if is_tolerated(a) || is_tolerated(b) {
            return UnifyStep::Done;
        }
        if self.undeclared_nominal(a) || self.undeclared_nominal(b) {
            return UnifyStep::Done;
        }
        match (a.kind(), b.kind()) {
            (TyKind::Vector(left), TyKind::Vector(right)) => UnifyStep::Pairs(
                one_pair(left, right),
            ),
            (TyKind::NamedVector(left), TyKind::NamedVector(right)) => UnifyStep::Pairs(
                one_pair(left, right),
            ),
            (TyKind::List(left), TyKind::List(right)) => UnifyStep::Pairs(one_pair(left, right)),
            (TyKind::NamedList(left), TyKind::NamedList(right)) => UnifyStep::Pairs(
                one_pair(left, right),
            ),
            (TyKind::Tuple(left), TyKind::Tuple(right)) => {
                if left.len() == right.len() {
                    UnifyStep::Pairs(zip_types(left, right))
                } else {
                    UnifyStep::Refuse
                }
            },
            (TyKind::Record(left), TyKind::Record(right)) => {
                if same_field_shape(left, right) {
                    UnifyStep::Pairs(zip_types(&field_types(left), &field_types(right)))
                } else {
                    UnifyStep::Refuse
                }
            },
            (TyKind::Function(left), TyKind::Function(right)) => {
                if same_signature_shape(left, right) {
                    UnifyStep::Pairs(zip_types(&signature_types(left), &signature_types(right)))
                } else {
                    UnifyStep::Refuse
                }
            },
            (TyKind::Named(left, left_arguments), TyKind::Named(right, right_arguments)) => {
                if left.same(right) && left_arguments.len() == right_arguments.len() {
                    UnifyStep::Pairs(zip_types(left_arguments, right_arguments))
                } else {
                    UnifyStep::Refuse
                }
            },
            (TyKind::Union(_), TyKind::Union(_)) => self.unify_unions(a, b),
            _ => UnifyStep::Refuse,
        }
    }

    /// Makes two types agree by tying and binding variables, or says why that
    /// cannot be. Bindings made before a failure stay until the caller rolls back.
    pub fn unify(&mut self, a: &Ty, b: &Ty) -> (r: Result<(), UnifyError>)
        requires
            old(self).wf(),
        ensures
            final(self).wf(),
            (final(self)@, infer::outcome_view(r)) == old(self)@.unify(a@, b@),
            final(self)@.grown_from(old(self)@),
    {
        self.unify_within(a, b, usize::MAX)
    }

    fn unify_within(&mut self, a: &Ty, b: &Ty, budget: usize) -> (r: Result<(), UnifyError>)
        requires
            old(self).wf(),
        ensures
            final(self).wf(),
            (final(self)@, infer::outcome_view(r)) == old(self)@.unify_within(
                a@,
                b@,
                budget as nat,
            ),
            final(self)@.grown_from(old(self)@),
        decreases budget, 1int, 0int,
    {
        let a = self.shallow_resolve(a);
        let b = self.shallow_resolve(b);
        if a.same(&b) {
            return Ok(());
        }
        match self.unify_step(&a, &b) {
            UnifyStep::Done => Ok(()),
            UnifyStep::Tie(left, right) => {
                self.tie(left, right);
                Ok(())
            },
            UnifyStep::Bind(var, ty) => self.bind(var, &ty),
            UnifyStep::Refuse => Err(UnifyError::Mismatch(a, b)),
            UnifyStep::Pairs(pairs) => {
                if budget == 0 {
                    return Err(UnifyError::Mismatch(a, b));
                }
                self.unify_pairs(&pairs, budget - 1)
            },
        }
    }

    fn unify_pairs(&mut self, pairs: &Vec<(Ty, Ty)>, budget: usize) -> (r: Result<(), UnifyError>)
        requires
            old(self).wf(),
        ensures
            final(self).wf(),
            (final(self)@, infer::outcome_view(r)) == old(self)@.unify_pairs(
                pairing::pairs_view(pairs@),
                0,
                budget as nat,
            ),
            final(self)@.grown_from(old(self)@),
        decreases budget, 2int, 0int,
    {
        let ghost all = pairing::pairs_view(pairs@);
        let mut i: usize = 0;
        while i < pairs.len()
            invariant
                i <= pairs.len(),
                all == pairing::pairs_view(pairs@),
                self.wf(),
                self@.grown_from(old(self)@),
                self@.unify_pairs(all, i as int, budget as nat) == old(self)@.unify_pairs(
                    all,
                    0,
                    budget as nat,
                ),
            decreases pairs.len() - i,
        {
            assert(all[i as int] == (pairs[i as int].0@, pairs[i as int].1@));
            let outcome = self.unify_within(&pairs[i].0, &pairs[i].1, budget);
            if outcome.is_err() {
                return outcome;
            }
            i += 1;
        }
        Ok(())
    }

    /// Redirects the younger of two distinct representatives to the older,
    /// joining constraints and keeping the lower level.
    fn tie(&mut self, left: InferenceVar, right: InferenceVar)
        requires
            old(self).wf(),
            left != right,
            old(self)@.find(left) == left,
            old(self)@.find(right) == right,
        ensures
            final(self).wf(),
            final(self)@ == old(self)@.tie(left, right),
            final(self)@.grown_from(old(self)@),
    {
        let (left_level, left_constraint) = match self.known(left) {
            Some(Entry::Unbound { level, constraint }) => (*level, *constraint),
            _ => {
                return;
            },
        };
        let (right_level, right_constraint) = match self.known(right) {
            Some(Entry::Unbound { level, constraint }) => (*level, *constraint),
            _ => {
                return;
            },
        };
        let (winner, loser) = if left.0 <= right.0 {
            (left, right)
        } else {
            (right, left)
        };
        let level: u32 = if left_level <= right_level {
            left_level
        } else {
            right_level
        };
        self.set(
            winner,
            Entry::Unbound { level, constraint: left_constraint.join(right_constraint) },
        );
        self.set(loser, Entry::Redirect(winner));
    }

    /// Adds a demand to a variable: the constraints join where it is unbound,
    /// and its binding is tested where it has one.
    pub fn constrain(&mut self, var: InferenceVar, constraint: Constraint) -> (r: Result<
        (),
        UnifyError,
    >)
        requires
            old(self).wf(),
        ensures
            final(self).wf(),
            (final(self)@, infer::outcome_view(r)) == old(self)@.constrain(var, constraint),
            final(self)@.grown_from(old(self)@),
    {
        let root = self.find(var);
        proof {
            find_is_idempotent(self@, var);
        }
        let (level, existing) = match self.known(root) {
            Some(Entry::Unbound { level, constraint }) => (*level, *constraint),
            Some(Entry::Bound(ty)) => {
                if self.rejects(constraint, ty) {
                    return Err(UnifyError::ConstraintRejected(constraint, ty.clone()));
                }
                return Ok(());
            },
            _ => {
                return Ok(());
            },
        };
        let joined = existing.join(constraint);
        if joined != existing {
            self.set(root, Entry::Unbound { level, constraint: joined });
        }
        Ok(())
    }
}

/// Whether a type is an absent fact or the top type.
pub fn is_tolerated(ty: &Ty) -> (r: bool)
    ensures
        r == (ty@ is Any || ty@ is Unknown),
{
    match ty.kind() {
        TyKind::Any | TyKind::Unknown => true,
        _ => false,
    }
}

} // verus!
