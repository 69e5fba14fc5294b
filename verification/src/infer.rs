//! The inference substrate: a dense union-find table over types.
//!
//! Unification stays syntactic: a union unifies only with an equal union (set
//! equality after resolution), plus the single `T | NULL`-vs-`U | NULL`
//! member-wise case; all directional logic lives in compatibility. Constraints
//! ride on unbound entries and join through the lattice on redirect.
//!
//! Probes snapshot the table and roll back completely: the entries truncate to
//! their snapshot length and older ones revert through an undo log, so a failed
//! probe leaves no trace.

use rustc_hash::{FxHashMap, FxHashSet};
use std::rc::Rc;
use vstd::prelude::*;

use crate::annotations::NamedDefinition;
use crate::fx;
use crate::table;
use crate::table::{EntryV, SnapshotV, TableV, UnifyErrorV, VocabularyV, ALIAS_EXPANSION_LIMIT};
use crate::text::same_text;
use crate::type_ops;
use crate::type_ops::{child_types, substitute_rigid, unknown, with_child_types};
use crate::types;
use crate::types::{Atomic, Constraint, InferenceVar, Name, Ty, TyKind, TyV};

verus! {

broadcast use {
    crate::types::group_type_views,
    crate::table::grown_from_itself,
    crate::table::grown_in_steps,
    crate::table::grown_by_set,
    crate::table::grown_by_fresh,
};

/// What the table knows of one variable.
#[derive(Debug, PartialEq, Eq)]
pub enum Entry {
    Unbound { level: u32, constraint: Constraint },
    Bound(Ty),
    Redirect(InferenceVar),
}

impl Entry {
    pub open spec fn view(&self) -> EntryV {
        match self {
            Entry::Unbound { level, constraint } => EntryV::Unbound {
                level: *level,
                constraint: *constraint,
            },
            Entry::Bound(ty) => EntryV::Bound(ty@),
            Entry::Redirect(var) => EntryV::Redirect(*var),
        }
    }
}

impl Clone for Entry {
    fn clone(&self) -> (r: Self)
        ensures
            r == *self,
    {
        match self {
            Entry::Unbound { level, constraint } => Entry::Unbound {
                level: *level,
                constraint: *constraint,
            },
            Entry::Bound(ty) => Entry::Bound(ty.clone()),
            Entry::Redirect(var) => Entry::Redirect(*var),
        }
    }
}

impl Entry {
    pub fn same(&self, other: &Entry) -> (r: bool)
        ensures
            r == (self@ == other@),
    {
        match (self, other) {
            (
                Entry::Unbound { level: a, constraint: c },
                Entry::Unbound { level: b, constraint: d },
            ) => *a == *b && *c == *d,
            (Entry::Bound(a), Entry::Bound(b)) => a.same(b),
            (Entry::Redirect(a), Entry::Redirect(b)) => *a == *b,
            _ => false,
        }
    }
}

/// Why two types do not unify.
#[derive(Debug, PartialEq, Eq)]
pub enum UnifyError {
    Mismatch(Ty, Ty),
    /// The occurs check refused an infinite type.
    Occurs(InferenceVar, Ty),
    /// A constraint rejected the bound type.
    ConstraintRejected(Constraint, Ty),
}

impl UnifyError {
    pub open spec fn view(&self) -> UnifyErrorV {
        match self {
            UnifyError::Mismatch(a, b) => UnifyErrorV::Mismatch(a@, b@),
            UnifyError::Occurs(var, ty) => UnifyErrorV::Occurs(*var, ty@),
            UnifyError::ConstraintRejected(constraint, ty) => UnifyErrorV::ConstraintRejected(
                *constraint,
                ty@,
            ),
        }
    }
}

/// The model of a unification's outcome.
pub open spec fn outcome_view(outcome: Result<(), UnifyError>) -> Result<(), UnifyErrorV> {
    match outcome {
        Ok(()) => Ok(()),
        Err(error) => Err(error@),
    }
}

/// The declared names a check can see: the project's own `@type` and `@alias`
/// declarations, the nominals the stub corpus declares, and the classes that
/// declare an arithmetic operator method.
#[derive(Debug, PartialEq, Eq)]
pub struct Vocabulary {
    pub definitions: FxHashMap<String, NamedDefinition>,
    pub nominals: Vec<String>,
    pub arithmetic_classes: FxHashSet<String>,
}

/// The models of a list of declarations.
pub open spec fn definitions_view(
    definitions: Seq<NamedDefinition>,
) -> Seq<crate::annotations::DefinitionV> {
    Seq::new(definitions.len(), |i: int| definitions[i]@)
}

impl Vocabulary {
    pub open spec fn view(&self) -> VocabularyV {
        VocabularyV {
            definitions: fx::declarations(self.definitions),
            nominals: types::texts(self.nominals@),
            arithmetic_classes: fx::text_set(self.arithmetic_classes),
        }
    }

    /// A vocabulary that declares nothing.
    pub fn empty() -> (r: Vocabulary)
        ensures
            r@.definitions =~= Map::empty(),
            r@.nominals =~= Seq::empty(),
            r@.arithmetic_classes =~= Set::empty(),
    {
        Vocabulary {
            definitions: fx::no_declarations(),
            nominals: Vec::new(),
            arithmetic_classes: fx::no_texts(),
        }
    }

    /// The declaration a name has.
    pub fn definition(&self, name: &Name) -> (r: Option<&NamedDefinition>)
        ensures
            (match r {
                Some(definition) => Some(definition@),
                None => None,
            }) == table::declared(self@.definitions, name@),
    {
        fx::get_declaration(&self.definitions, name.text())
    }
}

/// Whether a list of strings holds a text.
pub fn contains_text(texts: &Vec<String>, text: &str) -> (r: bool)
    ensures
        r == types::texts(texts@).contains(text@),
{
    let mut i: usize = 0;
    while i < texts.len()
        invariant
            i <= texts.len(),
            forall|j: int| 0 <= j < i ==> types::texts(texts@)[j] != text@,
        decreases texts.len() - i,
    {
        if same_text(texts[i].as_str(), text) {
            assert(types::texts(texts@)[i as int] == text@);
            return true;
        }
        i += 1;
    }
    false
}

/// A point a table can be rolled back to.
#[derive(Debug, Clone, Copy)]
pub struct Snapshot {
    entries: usize,
    undo: usize,
}

impl Snapshot {
    pub closed spec fn view(&self) -> SnapshotV {
        SnapshotV { entries: self.entries as nat, undo: self.undo as nat }
    }
}

/// The dense entry table: the id counter is its length.
#[derive(Debug)]
pub struct InferenceTable {
    entries: Vec<Entry>,
    /// Previous values of entries, latest last.
    undo: Vec<(InferenceVar, Entry)>,
    /// The current generalization level.
    level: u32,
    /// Declared constraints of the rigid binders in scope.
    binders: Vec<(Name, Constraint)>,
    /// The declared names the check can see.
    vocabulary: Rc<Vocabulary>,
}

pub open spec fn entries_view(entries: Seq<Entry>) -> Seq<EntryV> {
    Seq::new(entries.len(), |i: int| entries[i]@)
}

pub open spec fn undo_view(undo: Seq<(InferenceVar, Entry)>) -> Seq<(InferenceVar, EntryV)> {
    Seq::new(undo.len(), |i: int| (undo[i].0, undo[i].1@))
}

/// The model of a list of declared binders.
pub open spec fn binders_view(binders: Seq<(Name, Constraint)>) -> Seq<(Seq<char>, Constraint)> {
    Seq::new(binders.len(), |i: int| (binders[i].0@, binders[i].1))
}

impl InferenceTable {
    pub closed spec fn view(&self) -> TableV {
        TableV {
            entries: entries_view(self.entries@),
            undo: undo_view(self.undo@),
            level: self.level,
            binders: binders_view(self.binders@),
            vocabulary: self.vocabulary@,
        }
    }

    pub open spec fn wf(&self) -> bool {
        self@.wf()
    }

    /// A table without variables, at level zero.
    pub fn new(vocabulary: Rc<Vocabulary>) -> (r: InferenceTable)
        ensures
            r.wf(),
            r@.entries =~= Seq::empty(),
            r@.undo =~= Seq::empty(),
            r@.binders =~= Seq::empty(),
            r@.level == 0,
            r@.vocabulary == vocabulary@,
    {
        InferenceTable {
            entries: Vec::new(),
            undo: Vec::new(),
            level: 0,
            binders: Vec::new(),
            vocabulary,
        }
    }

    /// How many variables the table holds.
    pub fn entry_count(&self) -> (r: usize)
        ensures
            r == self@.entries.len(),
    {
        self.entries.len()
    }

    pub fn level(&self) -> (r: u32)
        ensures
            r == self@.level,
    {
        self.level
    }

    /// Changes the generalization level.
    pub fn set_level(&mut self, level: u32)
        requires
            old(self).wf(),
        ensures
            final(self).wf(),
            final(self)@ == (TableV { level, ..old(self)@ }),
    {
        self.level = level;
    }

    pub fn vocabulary(&self) -> (r: &Vocabulary)
        ensures
            r@ == self@.vocabulary,
    {
        &*self.vocabulary
    }

    /// The declared constraint of a rigid binder in scope.
    pub fn rigid_constraint(&self, name: &Name) -> (r: Option<Constraint>)
        ensures
            r == table::binder_constraint(self@.binders, name@),
    {
        let ghost all = self@.binders;
        let mut i: usize = self.binders.len();
        assert(all.subrange(0, all.len() as int) =~= all);
        while i > 0
            invariant
                i <= self.binders.len(),
                all == binders_view(self.binders@),
                table::binder_constraint(all, name@) == table::binder_constraint(
                    all.subrange(0, i as int),
                    name@,
                ),
            decreases i,
        {
            assert(all.subrange(0, i as int).drop_last() =~= all.subrange(0, i - 1));
            if self.binders[i - 1].0.same(name) {
                return Some(self.binders[i - 1].1);
            }
            i -= 1;
        }
        None
    }

    /// Declares the constraint of a rigid binder.
    pub fn declare_rigid(&mut self, name: &Name, constraint: Constraint)
        requires
            old(self).wf(),
        ensures
            final(self).wf(),
            final(self)@ == (TableV {
                binders: table::with_binder(old(self)@.binders, name@, constraint),
                ..old(self)@
            }),
    {
        let ghost all = self@.binders;
        let mut i: usize = self.binders.len();
        assert(all.subrange(0, all.len() as int) =~= all);
        assert(all.subrange(all.len() as int, all.len() as int) =~= Seq::empty());
        assert(table::with_binder(all, name@, constraint) =~= table::with_binder(
            all.subrange(0, all.len() as int),
            name@,
            constraint,
        ) + all.subrange(all.len() as int, all.len() as int));
        while i > 0
            invariant
                i <= self.binders.len(),
                *self == *old(self),
                self.wf(),
                all == binders_view(self.binders@),
                table::with_binder(all, name@, constraint) == table::with_binder(
                    all.subrange(0, i as int),
                    name@,
                    constraint,
                ) + all.subrange(i as int, all.len() as int),
            decreases i,
        {
            let ghost upto = all.subrange(0, i as int);
            assert(upto.drop_last() =~= all.subrange(0, i - 1));
            if self.binders[i - 1].0.same(name) {
                let entry = (self.binders[i - 1].0.clone(), constraint);
                self.binders.set(i - 1, entry);
                proof {
                    assert(binders_view(self.binders@) =~= table::with_binder(
                        all,
                        name@,
                        constraint,
                    ));
                    assert(self@.entries == old(self)@.entries);
                    assert(self@.undo == old(self)@.undo);
                }
                return;
            }
            proof {
                let rest = table::with_binder(upto.drop_last(), name@, constraint);
                assert(rest.push(upto.last()) + all.subrange(i as int, all.len() as int) =~= rest
                    + all.subrange(i - 1, all.len() as int));
            }
            i -= 1;
        }
        self.binders.insert(0, (name.clone(), constraint));
        proof {
            assert(all.subrange(0, 0) =~= Seq::empty());
            assert(all.subrange(0, all.len() as int) =~= all);
            assert(binders_view(self.binders@) =~= table::with_binder(all, name@, constraint));
        }
    }

    /// The rigid binders in scope with their constraints.
    pub fn rigid_binders(&self) -> (r: &Vec<(Name, Constraint)>)
        ensures
            binders_view(r@) == self@.binders,
    {
        &self.binders
    }

    /// A new unbound variable at the current level.
    pub fn fresh(&mut self, constraint: Constraint) -> (r: InferenceVar)
        requires
            old(self).wf(),
        ensures
            final(self).wf(),
            r == old(self)@.next_var(),
            final(self)@ == old(self)@.with_fresh(constraint),
            final(self)@.grown_from(old(self)@),
    {
        let var = InferenceVar(self.entries.len() as u32);
        self.entries.push(Entry::Unbound { level: self.level, constraint });
        assert(self@.entries =~= old(self)@.with_fresh(constraint).entries);
        assert(self@ == old(self)@.with_fresh(constraint));
        var
    }

    pub fn fresh_ty(&mut self, constraint: Constraint) -> (r: Ty)
        requires
            old(self).wf(),
        ensures
            final(self).wf(),
            r@ == TyV::Var(old(self)@.next_var()),
            final(self)@ == old(self)@.with_fresh(constraint),
            final(self)@.grown_from(old(self)@),
    {
        let var = self.fresh(constraint);
        Ty::new(TyKind::Var(var))
    }

    pub fn snapshot(&self) -> (r: Snapshot)
        ensures
            r@ == self@.snapshot(),
    {
        Snapshot { entries: self.entries.len(), undo: self.undo.len() }
    }

    /// Undoes every change since the snapshot.
    pub fn rollback(&mut self, snapshot: Snapshot)
        requires
            old(self).wf(),
        ensures
            final(self).wf(),
            final(self)@ == old(self)@.rolled_back(snapshot@),
    {
        while self.undo.len() > snapshot.undo
            invariant
                self.wf(),
                self@.rolled_back(snapshot@) == old(self)@.rolled_back(snapshot@),
            decreases self.undo.len(),
        {
            let ghost before = self@;
            let ghost undo = self.undo@;
            assert(self.undo@.len() > 0);
            if let Some((var, previous)) = self.undo.pop() {
                proof {
                    assert(undo.last() == (var, previous));
                    assert(before.undo.last() == (var, previous@));
                    assert(before.undo[before.undo.len() - 1].1.suits(var.0 as int));
                }
                if (var.0 as usize) < snapshot.entries && (var.0 as usize) < self.entries.len() {
                    self.entries.set(var.0 as usize, previous);
                    assert(self@.entries =~= before.entries.update(var.0 as int, previous@));
                } else {
                    assert(self@.entries =~= before.entries);
                }
                proof {
                    assert(self@.undo =~= before.undo.drop_last());
                    assert forall|i: int| 0 <= i < self@.undo.len() implies (
                    #[trigger] self@.undo[i]).1.suits(self@.undo[i].0.0 as int) by {
                        assert(before.undo[i] == self@.undo[i]);
                    }
                    assert forall|i: int| 0 <= i < self@.entries.len() implies (
                    #[trigger] self@.entries[i]).suits(i) by {
                        assert(before.entries[i].suits(i));
                    }
                }
            }
        }
        let ghost before = self@;
        self.entries.truncate(snapshot.entries);
        proof {
            assert(self@.entries =~= before.rolled_back(snapshot@).entries);
            assert forall|i: int| 0 <= i < self@.entries.len() implies (
            #[trigger] self@.entries[i]).suits(i) by {
                assert(before.entries[i].suits(i));
            }
        }
    }

    pub(crate) fn set(&mut self, var: InferenceVar, entry: Entry)
        requires
            old(self).wf(),
            old(self)@.holds(var),
            entry@.suits(var.0 as int),
        ensures
            final(self).wf(),
            final(self)@ == old(self)@.set(var, entry@),
            final(self)@.grown_from(old(self)@),
    {
        let ghost before = self@;
        let previous = self.entries[var.0 as usize].clone();
        self.entries.set(var.0 as usize, entry);
        self.undo.push((var, previous));
        proof {
            assert(self@.entries =~= before.set(var, entry@).entries);
            assert(self@.undo =~= before.set(var, entry@).undo);
            assert(before.entries[var.0 as int].suits(var.0 as int));
            assert forall|i: int| 0 <= i < self@.undo.len() implies (
            #[trigger] self@.undo[i]).1.suits(self@.undo[i].0.0 as int) by {
                if i < before.undo.len() {
                    assert(before.undo[i] == self@.undo[i]);
                }
            }
            assert forall|i: int| 0 <= i < self@.entries.len() implies (
            #[trigger] self@.entries[i]).suits(i) by {
                assert(before.entries[i].suits(i));
            }
        }
    }

    /// The representative variable at the end of a redirect chain.
    pub fn find(&self, var: InferenceVar) -> (r: InferenceVar)
        requires
            self.wf(),
        ensures
            r == self@.find(var),
            self@.holds(var) ==> self@.holds(r),
            self@.holds(r) ==> self@.entries[r.0 as int] !is Redirect,
            r.0 <= var.0,
    {
        let mut current = var;
        loop
            invariant
                self.wf(),
                self@.find(current) == self@.find(var),
                self@.holds(var) ==> self@.holds(current),
                current.0 <= var.0,
            decreases current.0,
        {
            if (current.0 as usize) >= self.entries.len() {
                return current;
            }
            assert(self@.entries[current.0 as int].suits(current.0 as int));
            match &self.entries[current.0 as usize] {
                Entry::Redirect(next) => {
                    current = *next;
                },
                _ => {
                    return current;
                },
            }
        }
    }

    /// What the table knows of a variable, through its redirects.
    pub fn entry(&self, var: InferenceVar) -> (r: &Entry)
        requires
            self.wf(),
            self@.holds(var),
        ensures
            r@ == self@.entries[self@.find(var).0 as int],
            r@ !is Redirect,
    {
        let root = self.find(var);
        &self.entries[root.0 as usize]
    }

    /// What the table knows of a variable, where it holds it.
    pub fn known(&self, var: InferenceVar) -> (r: Option<&Entry>)
        requires
            self.wf(),
        ensures
            match r {
                Some(entry) => self@.holds(self@.find(var)) && entry@
                    == self@.entries[self@.find(var).0 as int],
                None => !self@.holds(self@.find(var)),
            },
    {
        let root = self.find(var);
        if (root.0 as usize) < self.entries.len() {
            Some(&self.entries[root.0 as usize])
        } else {
            None
        }
    }

    /// Whether the type applies a name that nothing declares, or a declared one
    /// to the wrong number of arguments. Both carry their own diagnostic, so the
    /// relations tolerate the type.
    pub fn undeclared_nominal(&self, ty: &Ty) -> (r: bool)
        ensures
            r == self@.undeclared(ty@),
    {
        match ty.kind() {
            TyKind::Named(name, arguments) => match self.vocabulary.definition(name) {
                Some(definition) => definition.parameters.len() != arguments.len(),
                None => !contains_text(&self.vocabulary.nominals, name.text()),
            },
            _ => false,
        }
    }

    /// Follows a variable to its binding, without walking into structure.
    pub fn shallow_resolve(&self, ty: &Ty) -> (r: Ty)
        requires
            self.wf(),
        ensures
            r@ == self@.shallow(ty@),
            r@ matches TyV::Var(var) ==> self@.find(var) == var,
    {
        match ty.kind() {
            TyKind::Var(var) => {
                let root = self.find(*var);
                proof {
                    find_is_idempotent(self@, *var);
                }
                match self.known(root) {
                    Some(Entry::Bound(bound)) => {
                        assert(self@.entries[root.0 as int].suits(root.0 as int));
                        bound.clone()
                    },
                    _ => Ty::new(TyKind::Var(root)),
                }
            },
            _ => ty.clone(),
        }
    }
}

/// A representative is its own representative.
pub proof fn find_is_idempotent(table: TableV, var: InferenceVar)
    ensures
        table.find(table.find(var)) == table.find(var),
    decreases var.0,
{
    if table.holds(var) {
        match table.entries[var.0 as int] {
            EntryV::Redirect(to) => {
                if to.0 < var.0 {
                    find_is_idempotent(table, to);
                }
            },
            _ => {},
        }
    }
}

impl InferenceTable {
    /// Replaces every bound variable in the structure and expands alias
    /// applications; self-reference cuts to `Unknown` instead of expanding
    /// forever.
    pub fn resolve(&self, ty: &Ty) -> (r: Ty)
        requires
            self.wf(),
        ensures
            r@ == self@.resolve(ty@),
    {
        let mut stack: Vec<InferenceVar> = Vec::new();
        assert(stack@ =~= Seq::empty());
        self.resolve_below(ty, &mut stack)
    }

    fn resolve_below(&self, ty: &Ty, stack: &mut Vec<InferenceVar>) -> (r: Ty)
        requires
            self.wf(),
        ensures
            r@ == self@.resolve_below(ty@, old(stack)@),
            final(stack)@ == old(stack)@,
        decreases self@.stack_bound() - old(stack)@.len(), ty@,
    {
        if let TyKind::Var(var) = ty.kind() {
            let root = self.find(*var);
            let shallow = self.shallow_resolve(ty);
            if let TyKind::Var(_) = shallow.kind() {
                return shallow;
            }
            let full = stack.len() >= ALIAS_EXPANSION_LIMIT && stack.len() - ALIAS_EXPANSION_LIMIT
                >= self.entries.len();
            if full || contains_var(stack, root) {
                return unknown();
            }
            stack.push(root);
            let resolved = self.resolve_below(&shallow, stack);
            stack.pop();
            assert(stack@ =~= old(stack)@);
            return resolved;
        }
        let kids = child_types(ty);
        let mut out: Vec<Ty> = Vec::new();
        let mut i: usize = 0;
        while i < kids.len()
            invariant
                self.wf(),
                i <= kids.len(),
                types::tys(kids@) == ty@.children(),
                stack@ == old(stack)@,
                out@.len() == i,
                forall|j: int|
                    0 <= j < i ==> (#[trigger] out@[j])@ == self@.resolve_below(
                        ty@.children()[j],
                        old(stack)@,
                    ),
            decreases kids.len() - i,
        {
            proof {
                types::child_decreases(ty@, i as int);
                assert(types::tys(kids@)[i as int] == kids[i as int]@);
            }
            let kid = self.resolve_below(&kids[i], stack);
            out.push(kid);
            i += 1;
        }
        proof {
            assert(types::tys(kids@).len() == kids@.len());
            assert(types::tys(out@) =~= self@.resolve_children(ty@, old(stack)@));
        }
        let resolved = with_child_types(ty, out);
        if let TyKind::Named(name, arguments) = resolved.kind() {
            if let Some(definition) = self.vocabulary.definition(name) {
                if definition.alias && stack.len() < ALIAS_EXPANSION_LIMIT {
                    let expanded = apply_definition(definition, arguments);
                    stack.push(InferenceVar(u32::MAX));
                    let expanded = self.resolve_below(&expanded, stack);
                    stack.pop();
                    assert(stack@ =~= old(stack)@);
                    return expanded;
                }
            }
        }
        resolved
    }

    /// A nominal's representation with its arguments applied; `None` for aliases,
    /// opaque nominals and unknown names.
    pub fn representation(&self, name: &Name, arguments: &Vec<Ty>) -> (r: Option<Ty>)
        ensures
            types::opt_ty(r) == self@.representation(name@, types::tys(arguments@)),
    {
        match self.vocabulary.definition(name) {
            Some(definition) => {
                let opaque = match definition.body.kind() {
                    TyKind::Unknown => true,
                    _ => false,
                };
                if definition.alias || opaque {
                    None
                } else {
                    Some(apply_definition(definition, arguments))
                }
            },
            None => None,
        }
    }

    fn occurs(&self, var: InferenceVar, ty: &Ty, crossings: usize) -> (r: bool)
        requires
            self.wf(),
        ensures
            r == self@.occurs_within(var, ty@, crossings as nat),
        decreases crossings, ty@,
    {
        match ty.kind() {
            TyKind::Var(_) => {
                let shallow = self.shallow_resolve(ty);
                match shallow.kind() {
                    TyKind::Var(other) => self.find(*other) == var,
                    _ => crossings > 0 && self.occurs(var, &shallow, crossings - 1),
                }
            },
            _ => {
                let kids = child_types(ty);
                let mut i: usize = 0;
                while i < kids.len()
                    invariant
                        self.wf(),
                        i <= kids.len(),
                        ty@ !is Var,
                        types::tys(kids@) == ty@.children(),
                        forall|j: int|
                            0 <= j < i ==> !self@.occurs_within(
                                var,
                                #[trigger] ty@.children()[j],
                                crossings as nat,
                            ),
                    decreases kids.len() - i,
                {
                    proof {
                        types::child_decreases(ty@, i as int);
                        assert(types::tys(kids@)[i as int] == kids[i as int]@);
                    }
                    if self.occurs(var, &kids[i], crossings) {
                        assert(self@.occurs_within(
                            var,
                            ty@.children()[i as int],
                            crossings as nat,
                        ));
                        return true;
                    }
                    i += 1;
                }
                assert(types::tys(kids@).len() == kids@.len());
                false
            },
        }
    }

    fn adjust_levels(&mut self, level: u32, ty: &Ty, crossings: usize)
        requires
            old(self).wf(),
        ensures
            final(self).wf(),
            final(self)@ == old(self)@.lowered_within(level, ty@, crossings as nat),
            final(self)@.grown_from(old(self)@),
            keeps_bindings(old(self)@, final(self)@),
        decreases crossings, ty@,
    {
        match ty.kind() {
            TyKind::Var(_) => {
                let shallow = self.shallow_resolve(ty);
                match shallow.kind() {
                    TyKind::Var(root) => {
                        let root = *root;
                        if let Some(Entry::Unbound { level: own, constraint }) = self.known(root) {
                            let (own, constraint) = (*own, *constraint);
                            if own > level {
                                self.set(root, Entry::Unbound { level, constraint });
                            }
                        }
                    },
                    _ => {
                        if crossings > 0 {
                            self.adjust_levels(level, &shallow, crossings - 1);
                        }
                    },
                }
            },
            _ => {
                let kids = child_types(ty);
                let mut i: usize = 0;
                while i < kids.len()
                    invariant
                        self.wf(),
                        i <= kids.len(),
                        ty@ !is Var,
                        types::tys(kids@) == ty@.children(),
                        self@.grown_from(old(self)@),
                        keeps_bindings(old(self)@, self@),
                        self@.children_lowered(level, ty@, i as int, crossings as nat) == old(
                            self,
                        )@.children_lowered(level, ty@, 0, crossings as nat),
                    decreases kids.len() - i,
                {
                    proof {
                        types::child_decreases(ty@, i as int);
                        assert(types::tys(kids@)[i as int] == kids[i as int]@);
                        assert(types::tys(kids@).len() == kids@.len());
                    }
                    self.adjust_levels(level, &kids[i], crossings);
                    i += 1;
                }
                assert(types::tys(kids@).len() == kids@.len());
            },
        }
    }

    /// Whether a type may not stand for a variable with the given constraint.
    pub(crate) fn rejects(&self, constraint: Constraint, ty: &Ty) -> (r: bool)
        ensures
            r == !self@.admits(constraint, ty@),
    {
        match constraint {
            Constraint::Unconstrained => false,
            Constraint::Numeric => match ty.kind() {
                TyKind::Any | TyKind::Unknown => false,
                TyKind::Scalar(_) => !is_number(ty),
                TyKind::Vector(element) | TyKind::NamedVector(element) => !is_number(element),
                TyKind::Named(name, _) => !fx::contains_listed(
                    &self.vocabulary.arithmetic_classes,
                    name.text(),
                ),
                TyKind::Rigid(name) => !self.binder_implies(name, constraint),
                _ => true,
            },
            Constraint::AtomicElement => match ty.kind() {
                TyKind::Any | TyKind::Unknown | TyKind::Scalar(_) => false,
                TyKind::Rigid(name) => !self.binder_implies(name, constraint),
                _ => true,
            },
            Constraint::ScalarNumeric => match ty.kind() {
                TyKind::Any | TyKind::Unknown => false,
                TyKind::Scalar(_) => !is_number(ty),
                TyKind::Named(name, _) => !fx::contains_listed(
                    &self.vocabulary.arithmetic_classes,
                    name.text(),
                ),
                TyKind::Rigid(name) => !self.binder_implies(name, constraint),
                _ => true,
            },
        }
    }

    fn binder_implies(&self, name: &Name, constraint: Constraint) -> (r: bool)
        ensures
            r == self@.binder_implies(name@, constraint),
    {
        match self.rigid_constraint(name) {
            Some(own) => own.join(constraint) == own,
            None => false,
        }
    }

    /// Binds a variable after the occurs check and constraint admission.
    pub(crate) fn bind(&mut self, var: InferenceVar, ty: &Ty) -> (r: Result<(), UnifyError>)
        requires
            old(self).wf(),
            ty@ !is Var,
        ensures
            final(self).wf(),
            (final(self)@, outcome_view(r)) == old(self)@.bind(var, ty@),
            final(self)@.grown_from(old(self)@),
    {
        let root = self.find(var);
        proof {
            find_is_idempotent(self@, var);
        }
        let (level, constraint) = match self.known(root) {
            Some(Entry::Unbound { level, constraint }) => (*level, *constraint),
            Some(_) => {
                if self.occurs(root, ty, self.entries.len()) {
                    return Err(UnifyError::Occurs(root, ty.clone()));
                }
                return Ok(());
            },
            None => {
                return Ok(());
            },
        };
        if self.occurs(root, ty, self.entries.len()) {
            return Err(UnifyError::Occurs(root, ty.clone()));
        }
        if self.rejects(constraint, ty) {
            return Err(UnifyError::ConstraintRejected(constraint, ty.clone()));
        }
        self.adjust_levels(level, ty, self.entries.len());
        self.set(root, Entry::Bound(ty.clone()));
        Ok(())
    }
}

/// Whether a change left the number of entries alone and touched only unbound
/// ones.
pub open spec fn keeps_bindings(before: TableV, after: TableV) -> bool {
    &&& after.entries.len() == before.entries.len()
    &&& after.vocabulary == before.vocabulary
    &&& after.binders == before.binders
    &&& after.level == before.level
}

/// Whether a type is a single integer or double.
fn is_number(ty: &Ty) -> (r: bool)
    ensures
        r == table::is_number(ty@),
{
    match ty.kind() {
        TyKind::Scalar(Atomic::Integer) | TyKind::Scalar(Atomic::Double) => true,
        _ => false,
    }
}

/// Whether a list of variables holds one.
pub fn contains_var(vars: &Vec<InferenceVar>, var: InferenceVar) -> (r: bool)
    ensures
        r == vars@.contains(var),
{
    let mut i: usize = 0;
    while i < vars.len()
        invariant
            i <= vars.len(),
            forall|j: int| 0 <= j < i ==> vars@[j] != var,
        decreases vars.len() - i,
    {
        if vars[i] == var {
            assert(vars@[i as int] == var);
            return true;
        }
        i += 1;
    }
    false
}

/// A definition's body with its parameters replaced by the given arguments;
/// missing arguments fill as `Unknown`.
pub fn apply_definition(definition: &NamedDefinition, arguments: &Vec<Ty>) -> (r: Ty)
    ensures
        r@ == definition@.apply(types::tys(arguments@)),
{
    if definition.parameters.len() == 0 {
        return definition.body.clone();
    }
    let mut substitution: Vec<(Name, Ty)> = Vec::new();
    let mut i: usize = 0;
    while i < definition.parameters.len()
        invariant
            i <= definition.parameters.len(),
            substitution@.len() == i,
            forall|j: int|
                0 <= j < i ==> (#[trigger] substitution@[j]).0@ == definition@.parameters[j]
                    && substitution@[j].1@ == definition@.arguments_by_name(
                    types::tys(arguments@),
                )[j].1,
        decreases definition.parameters.len() - i,
    {
        let argument = if i < arguments.len() {
            arguments[i].clone()
        } else {
            unknown()
        };
        substitution.push((definition.parameters[i].clone(), argument));
        i += 1;
    }
    assert(type_ops::replacements(substitution@) =~= definition@.arguments_by_name(
        types::tys(arguments@),
    ));
    substitute_rigid(&definition.body, &substitution)
}

} // verus!
