//! The state of one item's check, and the steps on it that look at no
//! expression.

use rustc_hash::{FxHashMap, FxHashSet};
use vstd::prelude::*;

use crate::annotations;
use crate::annotations::{Annotation, DemandV};
use crate::blame;
use crate::checking;
use crate::checking::{CheckV, ItemV};
use crate::environment;
use crate::environment::{EnvEntry, Environment};
use crate::findings;
use crate::findings::{StrictOrigin, StrictOriginKind, TypeError, TypeErrorKind};
use crate::fx;
use crate::globals;
use crate::globals::{GlobalEnv, GlobalsV, StubCorpus};
use crate::hir::{ExprId, Module};
use crate::infer;
use crate::infer::{InferenceTable, Snapshot, UnifyError};
use crate::naming::{BindingInfo, ItemNaming};
use crate::overloads::Call;
use crate::schemes;
use crate::schemes::TypeScheme;
use crate::syntax::TextRange;
use crate::table;
use crate::table::TableV;
use crate::type_ops::{has_size, unknown};
use crate::types;
use crate::types::{Constraint, FunctionType, InferenceVar, Name, Ty, TyKind, TyV};

verus! {

broadcast use crate::types::group_type_views;

/// One item's check in progress.
pub struct Checker<'a, G: GlobalEnv> {
    module: &'a Module,
    naming: &'a ItemNaming,
    globals: Option<&'a G>,
    corpus: &'a StubCorpus,
    table: InferenceTable,
    annotations: FxHashMap<u32, &'a Annotation>,
    environment: Environment,
    scheme_arena: Vec<TypeScheme>,
    recorded: FxHashMap<u32, Ty>,
    selected_overloads: FxHashMap<u32, usize>,
    masked_reads: FxHashSet<u32>,
    errors: Vec<TypeError>,
    strict_origins: Vec<StrictOrigin>,
    return_frames: Vec<Vec<(Ty, TextRange)>>,
    pending_enclosing_writes: Vec<(u32, Ty)>,
    forward_captured: FxHashSet<u32>,
    capture_joins: FxHashMap<u32, Ty>,
    capture_repass_needed: bool,
    pre_materialized: Vec<(u32, Ty)>,
    no_default_formals: FxHashSet<u32>,
    non_local_slots: FxHashMap<String, u32>,
    next_non_local_slot: u32,
}

/// The types of a map of types.
pub open spec fn map_view(map: Map<u32, Ty>) -> Map<u32, TyV> {
    Map::new(|key: u32| map.dom().contains(key), |key: u32| map[key]@)
}

/// The demands of a map of annotations.
pub open spec fn demands_view(map: Map<u32, &Annotation>) -> Map<u32, DemandV> {
    Map::new(|key: u32| map.dom().contains(key), |key: u32| map[key]@.demand())
}

pub open spec fn frames_view(frames: Seq<Vec<(Ty, TextRange)>>) -> Seq<Seq<(TyV, TextRange)>> {
    Seq::new(frames.len(), |i: int| annotations::ranged_types_view(frames[i]@))
}

pub open spec fn slots_view(slots: Seq<(u32, Ty)>) -> Seq<(u32, TyV)> {
    Seq::new(slots.len(), |i: int| (slots[i].0, slots[i].1@))
}

pub open spec fn opt_model<G: GlobalEnv>(globals: Option<&G>) -> Option<GlobalsV> {
    match globals {
        Some(globals) => Some(globals.model()),
        None => None,
    }
}

impl<'a, G: GlobalEnv> Checker<'a, G> {
    /// What is checked.
    pub closed spec fn item(&self) -> ItemV {
        ItemV {
            module: *self.module,
            naming: self.naming@,
            globals: opt_model(self.globals),
            corpus: self.corpus@,
        }
    }

    pub closed spec fn view(&self) -> CheckV {
        CheckV {
            table: self.table@,
            annotations: demands_view(self.annotations@),
            env: self.environment@,
            schemes: schemes::schemes_view(self.scheme_arena@),
            recorded: map_view(self.recorded@),
            selected: self.selected_overloads@,
            masked_reads: self.masked_reads@,
            errors: findings::errors_view(self.errors@),
            origins: findings::origins_view(self.strict_origins@),
            return_frames: frames_view(self.return_frames@),
            pending: slots_view(self.pending_enclosing_writes@),
            forward_captured: self.forward_captured@,
            capture_joins: map_view(self.capture_joins@),
            repass: self.capture_repass_needed,
            pre_materialized: slots_view(self.pre_materialized@),
            no_default_formals: self.no_default_formals@,
            non_local_slots: fx::numbered_texts(self.non_local_slots),
            next_non_local: self.next_non_local_slot,
        }
    }

    pub open spec fn wf(&self) -> bool {
        self.item().module.wf() && self@.table.wf()
    }

    /// Whether the same item is still checked, in a sound state.
    pub open spec fn follows(&self, before: &Self) -> bool {
        self.item() == before.item() && self.wf()
    }

    /// Whether an expression is one of the item's.
    pub open spec fn holds(&self, id: ExprId) -> bool {
        self.item().module.holds(id)
    }

    /// A check of which nothing is done.
    pub fn new(
        module: &'a Module,
        naming: &'a ItemNaming,
        globals: Option<&'a G>,
        corpus: &'a StubCorpus,
    ) -> (r: Self)
        requires
            module.wf(),
        ensures
            r.wf(),
            r.item() == (ItemV {
                module: *module,
                naming: naming@,
                globals: opt_model(globals),
                corpus: corpus@,
            }),
            r@ == checking::initial(r.item()),
    {
        let vocabulary = match globals {
            Some(globals) => globals.vocabulary(),
            None => std::rc::Rc::new(infer::Vocabulary::empty()),
        };
        let next: u32 = naming.bindings.len() as u32;
        let r = Checker {
            module,
            naming,
            globals,
            corpus,
            table: InferenceTable::new(vocabulary),
            annotations: fx::fx_map(),
            environment: Environment::new(),
            scheme_arena: Vec::new(),
            recorded: fx::fx_map(),
            selected_overloads: fx::fx_map(),
            masked_reads: fx::fx_set(),
            errors: Vec::new(),
            strict_origins: Vec::new(),
            return_frames: Vec::new(),
            pending_enclosing_writes: Vec::new(),
            forward_captured: fx::fx_set(),
            capture_joins: fx::fx_map(),
            capture_repass_needed: false,
            pre_materialized: Vec::new(),
            no_default_formals: fx::fx_set(),
            non_local_slots: fx::no_numbered_texts(),
            next_non_local_slot: next,
        };
        proof {
            let start = checking::initial(r.item());
            assert(r@.table.entries =~= Seq::empty());
            assert(r@.table.undo =~= Seq::empty());
            assert(r@.table.binders =~= Seq::empty());
            assert(r@.table.vocabulary.definitions =~= start.table.vocabulary.definitions);
            assert(r@.table.vocabulary.nominals =~= start.table.vocabulary.nominals);
            assert(r@.table.vocabulary.arithmetic_classes
                =~= start.table.vocabulary.arithmetic_classes);
            assert(r@.table == start.table);
            assert(r@.annotations =~= start.annotations);
            assert(r@.schemes =~= start.schemes);
            assert(r@.recorded =~= start.recorded);
            assert(r@.selected =~= start.selected);
            assert(r@.errors =~= start.errors);
            assert(r@.origins =~= start.origins);
            assert(r@.return_frames =~= start.return_frames);
            assert(r@.pending =~= start.pending);
            assert(r@.capture_joins =~= start.capture_joins);
            assert(r@.pre_materialized =~= start.pre_materialized);
            assert(r@.non_local_slots =~= start.non_local_slots);
        }
        r
    }

    // ---- what is checked ----

    pub fn module(&self) -> (r: &'a Module)
        ensures
            *r == self.item().module,
    {
        self.module
    }

    pub fn naming(&self) -> (r: &'a ItemNaming)
        ensures
            r@ == self.item().naming,
    {
        self.naming
    }

    pub fn corpus(&self) -> (r: &'a StubCorpus)
        ensures
            r@ == self.item().corpus,
    {
        self.corpus
    }

    /// The scheme a read of a name sees outside the item.
    pub fn global_scheme(&self, name: &str, deferred: bool) -> (r: Option<TypeScheme>)
        ensures
            schemes::opt_scheme(r) == self.item().scheme(name@, deferred),
    {
        match self.globals {
            Some(globals) => globals.scheme(name, deferred),
            None => None,
        }
    }

    pub fn global_candidates(&self, name: &str, deferred: bool) -> (r: Option<Vec<TypeScheme>>)
        ensures
            globals::opt_schemes(r) == self.item().candidates(name@, deferred),
    {
        match self.globals {
            Some(globals) => globals.overloads(name, deferred),
            None => None,
        }
    }

    pub fn defined_in_project(&self, name: &str, deferred: bool) -> (r: bool)
        ensures
            r == self.item().defined_in_project(name@, deferred),
    {
        match self.globals {
            Some(globals) => globals.defined_in_project(name, deferred),
            None => false,
        }
    }

    /// The slot an expression resolves to.
    pub fn slot_of(&self, id: ExprId) -> (r: Option<u32>)
        ensures
            r == self.item().slot_of(id),
    {
        match self.naming.resolutions.get(&id.0) {
            Some(slot) => Some(slot.0),
            None => None,
        }
    }

    /// The name of a read that no slot resolves.
    pub fn non_local(&self, id: ExprId) -> (r: Option<&'a String>)
        ensures
            (match r {
                Some(name) => Some(name@),
                None => None,
            }) == self.item().non_local(id),
    {
        let naming: &'a ItemNaming = self.naming;
        naming.non_locals.get(&id.0)
    }

    pub fn is_deferred(&self, id: ExprId) -> (r: bool)
        ensures
            r == self.item().naming.deferred_non_locals.contains(id.0),
    {
        self.naming.deferred_non_locals.contains(&id.0)
    }

    pub fn is_captured(&self, slot: u32) -> (r: bool)
        ensures
            r == self.item().naming.captured_slots.contains(slot),
    {
        self.naming.captured_slots.contains(&slot)
    }

    pub fn is_masked_subset(&self, id: ExprId) -> (r: bool)
        ensures
            r == self.item().naming.masked_subsets.contains(id.0),
    {
        self.naming.masked_subsets.contains(&id.0)
    }

    /// The first slot whose site has the given range.
    pub fn slot_at(&self, range: TextRange) -> (r: Option<u32>)
        ensures
            r == checking::slot_at(self.item().naming.bindings, range, 0),
    {
        let mut i: usize = 0;
        while i < self.naming.bindings.len()
            invariant
                i <= self.naming.bindings.len(),
                checking::slot_at(self.naming@.bindings, range, 0) == checking::slot_at(
                    self.naming@.bindings,
                    range,
                    i as int,
                ),
            decreases self.naming.bindings.len() - i,
        {
            if self.naming.bindings[i].range == range {
                return Some(i as u32);
            }
            i += 1;
        }
        None
    }

    /// The site of a slot.
    pub fn binding(&self, slot: u32) -> (r: Option<&'a BindingInfo>)
        ensures
            (match r {
                Some(info) => Some(info@),
                None => None,
            }) == self.item().binding(slot),
    {
        let naming: &'a ItemNaming = self.naming;
        if (slot as usize) < naming.bindings.len() {
            Some(&naming.bindings[slot as usize])
        } else {
            None
        }
    }

    // ---- the table ----

    pub fn resolve(&self, ty: &Ty) -> (r: Ty)
        requires
            self.wf(),
        ensures
            r@ == self@.table.resolve(ty@),
    {
        self.table.resolve(ty)
    }

    pub fn shallow_resolve(&self, ty: &Ty) -> (r: Ty)
        requires
            self.wf(),
        ensures
            r@ == self@.table.shallow(ty@),
    {
        self.table.shallow_resolve(ty)
    }

    pub fn structural(&self, ty: &Ty) -> (r: Ty)
        requires
            self.wf(),
        ensures
            r@ == self@.table.structural(ty@),
    {
        self.table.structural(ty)
    }

    pub fn generalize(&self, ty: &Ty) -> (r: TypeScheme)
        requires
            self.wf(),
        ensures
            r@ == self@.table.generalize(ty@),
    {
        self.table.generalize(ty)
    }

    pub fn close_scheme(&self, scheme: &TypeScheme) -> (r: TypeScheme)
        requires
            self.wf(),
        ensures
            r@ == self@.table.close_scheme(scheme@),
            !r@.body.has_var(),
    {
        self.table.close_scheme(scheme)
    }

    pub fn table(&self) -> (r: &InferenceTable)
        requires
            self.wf(),
        ensures
            r@ == self@.table,
            r.wf(),
    {
        &self.table
    }

    pub fn level(&self) -> (r: u32)
        ensures
            r == self@.table.level,
    {
        self.table.level()
    }

    pub fn set_level(&mut self, level: u32)
        requires
            old(self).wf(),
        ensures
            final(self).follows(old(self)),
            final(self)@ == old(self)@.at_level(level),
    {
        self.table.set_level(level);
    }

    /// Goes a level further in.
    pub fn deepen(&mut self)
        requires
            old(self).wf(),
        ensures
            final(self).follows(old(self)),
            final(self)@ == old(self)@.deeper(),
    {
        let level = self.table.level();
        if level < u32::MAX {
            self.table.set_level(level + 1);
        }
    }

    pub fn fresh(&mut self, constraint: Constraint) -> (r: Ty)
        requires
            old(self).wf(),
        ensures
            final(self).follows(old(self)),
            (final(self)@, r@) == old(self)@.fresh(constraint),
    {
        self.table.fresh_ty(constraint)
    }

    pub fn unify(&mut self, a: &Ty, b: &Ty) -> (r: Result<(), UnifyError>)
        requires
            old(self).wf(),
        ensures
            final(self).follows(old(self)),
            final(self)@ == old(self)@.with_table(old(self)@.table.unify(a@, b@).0),
            infer::outcome_view(r) == old(self)@.table.unify(a@, b@).1,
    {
        self.table.unify(a, b)
    }

    pub fn compatible(&mut self, actual: &Ty, expected: &Ty) -> (r: bool)
        requires
            old(self).wf(),
        ensures
            final(self).follows(old(self)),
            (final(self)@, r) == old(self)@.compatible(actual@, expected@),
    {
        self.table.compatible(actual, expected)
    }

    pub fn constrain(&mut self, var: InferenceVar, constraint: Constraint) -> (r: Result<
        (),
        UnifyError,
    >)
        requires
            old(self).wf(),
        ensures
            final(self).follows(old(self)),
            final(self)@ == old(self)@.with_table(old(self)@.table.constrain(var, constraint).0),
            infer::outcome_view(r) == old(self)@.table.constrain(var, constraint).1,
    {
        self.table.constrain(var, constraint)
    }

    pub fn snapshot(&self) -> (r: Snapshot)
        ensures
            r@ == self@.table.snapshot(),
    {
        self.table.snapshot()
    }

    pub fn rollback_table(&mut self, snapshot: Snapshot)
        requires
            old(self).wf(),
        ensures
            final(self).follows(old(self)),
            final(self)@ == old(self)@.with_table(old(self)@.table.rolled_back(snapshot@)),
    {
        self.table.rollback(snapshot);
    }

    pub fn join_types(&mut self, left: &Ty, right: &Ty) -> (r: Ty)
        requires
            old(self).wf(),
        ensures
            final(self).follows(old(self)),
            (final(self)@, r@) == old(self)@.join_types(left@, right@),
    {
        self.table.join_types(left, right)
    }

    pub fn join_branch_values(&mut self, left: &Ty, right: &Ty) -> (r: Ty)
        requires
            old(self).wf(),
        ensures
            final(self).follows(old(self)),
            (final(self)@, r@) == old(self)@.join_branch_values(left@, right@),
    {
        self.table.join_branch_values(left, right)
    }

    pub fn instantiate(&mut self, scheme: &TypeScheme) -> (r: Ty)
        requires
            old(self).wf(),
        ensures
            final(self).follows(old(self)),
            (final(self)@, r@) == old(self)@.instantiate(scheme@),
    {
        self.table.instantiate(&scheme.binders, &scheme.body)
    }

    /// One arbitrary instantiation of the rigid binders in scope.
    pub fn instantiate_rigids(&mut self, ty: &Ty) -> (r: Ty)
        requires
            old(self).wf(),
        ensures
            final(self).follows(old(self)),
            (final(self)@, r@) == old(self)@.instantiate_rigids(ty@),
    {
        let binders = schemes::clone_binders(self.table.rigid_binders());
        if binders.len() == 0 {
            return ty.clone();
        }
        self.table.instantiate(&binders, ty)
    }

    /// Declares binders rigid.
    pub fn declare(&mut self, binders: &Vec<(Name, Constraint)>)
        requires
            old(self).wf(),
        ensures
            final(self).follows(old(self)),
            final(self)@ == old(self)@.declare(infer::binders_view(binders@), 0),
    {
        let mut i: usize = 0;
        while i < binders.len()
            invariant
                i <= binders.len(),
                self.follows(old(self)),
                self@.declare(infer::binders_view(binders@), i as int) == old(self)@.declare(
                    infer::binders_view(binders@),
                    0,
                ),
            decreases binders.len() - i,
        {
            self.declare_one(&binders[i].0, binders[i].1);
            i += 1;
        }
    }

    fn declare_one(&mut self, name: &Name, constraint: Constraint)
        requires
            old(self).wf(),
        ensures
            final(self).follows(old(self)),
            final(self)@ == old(self)@.with_table(
                TableV {
                    binders: table::with_binder(old(self)@.table.binders, name@, constraint),
                    ..old(self)@.table
                },
            ),
    {
        self.table.declare_rigid(name, constraint);
    }

    // ---- the environment ----

    pub fn get(&self, slot: u32) -> (r: Option<EnvEntry>)
        ensures
            environment::opt_slot(r) == self@.env.get(slot),
    {
        self.environment.get(slot)
    }

    pub fn set_slot(&mut self, slot: u32, entry: EnvEntry)
        requires
            old(self).wf(),
        ensures
            final(self).follows(old(self)),
            final(self)@ == old(self)@.set_slot(slot, entry@),
    {
        self.environment.set(slot, entry);
    }

    pub fn mark(&self) -> (r: usize)
        ensures
            r == self@.env.mark(),
    {
        self.environment.mark()
    }

    pub fn rollback(&mut self, mark: usize)
        requires
            old(self).wf(),
        ensures
            final(self).follows(old(self)),
            final(self)@ == old(self)@.rolled_back(mark as nat),
    {
        self.environment.rollback(mark);
    }

    pub fn writes_since(&self, mark: usize) -> (r: Vec<(u32, Option<EnvEntry>)>)
        ensures
            environment::writes_view(r@) == self@.env.writes_since(mark as nat),
    {
        self.environment.writes_since(mark)
    }

    // ---- schemes ----

    pub fn push_scheme(&mut self, scheme: TypeScheme) -> (r: u32)
        requires
            old(self).wf(),
        ensures
            final(self).follows(old(self)),
            (final(self)@, r) == old(self)@.push_scheme(scheme@),
    {
        let index: u32 = self.scheme_arena.len() as u32;
        self.scheme_arena.push(scheme);
        index
    }

    pub fn scheme_at(&self, index: u32) -> (r: TypeScheme)
        ensures
            r@ == self@.scheme_at(index),
    {
        if (index as usize) < self.scheme_arena.len() {
            self.scheme_arena[index as usize].clone()
        } else {
            TypeScheme::monomorphic(unknown())
        }
    }

    // ---- what is recorded ----

    /// Records the type of an expression; one that is too large is unknown.
    pub fn record(&mut self, id: ExprId, ty: Ty) -> (r: Ty)
        requires
            old(self).wf(),
        ensures
            final(self).follows(old(self)),
            final(self)@ == old(self)@.record(id, ty@),
            r@ == checking::recordable(ty@),
    {
        let kept = recordable(ty);
        let _ = fx::fx_insert(&mut self.recorded, id.0, kept.clone());
        kept
    }

    /// Records a type as it is.
    pub fn note(&mut self, id: ExprId, ty: Ty)
        requires
            old(self).wf(),
        ensures
            final(self).follows(old(self)),
            final(self)@ == old(self)@.note(id, ty@),
    {
        let _ = fx::fx_insert(&mut self.recorded, id.0, ty);
    }

    pub fn recorded(&self, id: ExprId) -> (r: Option<&Ty>)
        ensures
            match r {
                Some(ty) => self@.recorded.dom().contains(id.0) && ty@ == self@.recorded[id.0],
                None => !self@.recorded.dom().contains(id.0),
            },
    {
        fx::fx_get(&self.recorded, id.0)
    }

    pub fn recorded_ty(&self, id: ExprId) -> (r: Ty)
        ensures
            r@ == self@.recorded_ty(id),
    {
        match self.recorded(id) {
            Some(ty) => ty.clone(),
            None => unknown(),
        }
    }

    pub fn report(&mut self, error: TypeError)
        requires
            old(self).wf(),
        ensures
            final(self).follows(old(self)),
            final(self)@ == old(self)@.report(error@),
    {
        self.errors.push(error);
    }

    pub fn fail(&mut self, range: TextRange, kind: TypeErrorKind)
        requires
            old(self).wf(),
        ensures
            final(self).follows(old(self)),
            final(self)@ == old(self)@.fail(range, kind@),
    {
        self.errors.push(TypeError { range, kind });
    }

    pub fn report_all(&mut self, errors: Vec<TypeError>)
        requires
            old(self).wf(),
        ensures
            final(self).follows(old(self)),
            final(self)@ == old(self)@.report_all(findings::errors_view(errors@)),
    {
        let mut all = errors;
        self.errors.append(&mut all);
    }

    pub fn error_count(&self) -> (r: usize)
        ensures
            r == self@.errors.len(),
    {
        self.errors.len()
    }

    pub fn origin_count(&self) -> (r: usize)
        ensures
            r == self@.origins.len(),
    {
        self.strict_origins.len()
    }

    /// Drops the findings and origins past two marks.
    pub fn cut(&mut self, errors: usize, origins: usize)
        requires
            old(self).wf(),
        ensures
            final(self).follows(old(self)),
            final(self)@ == old(self)@.cut(errors as nat, origins as nat),
    {
        self.errors.truncate(errors);
        self.strict_origins.truncate(origins);
    }

    /// Records where an undetermined type was introduced, once.
    pub fn origin(&mut self, expression: ExprId, kind: StrictOriginKind)
        requires
            old(self).wf(),
            old(self).holds(expression),
        ensures
            final(self).follows(old(self)),
            final(self)@ == old(self)@.origin(old(self).item().module, expression, kind@),
    {
        let origin = StrictOrigin { expression, range: self.module.range(expression), kind };
        if !self.has_origin(&origin) {
            self.strict_origins.push(origin);
        }
    }

    fn has_origin(&self, origin: &StrictOrigin) -> (r: bool)
        ensures
            r == self@.origins.contains(origin@),
    {
        let mut i: usize = 0;
        while i < self.strict_origins.len()
            invariant
                i <= self.strict_origins.len(),
                forall|j: int|
                    0 <= j < i ==> #[trigger] findings::origins_view(self.strict_origins@)[j]
                        != origin@,
            decreases self.strict_origins.len() - i,
        {
            if self.strict_origins[i].same(origin) {
                assert(findings::origins_view(self.strict_origins@)[i as int] == origin@);
                return true;
            }
            i += 1;
        }
        false
    }

    pub fn unsupported(&mut self, expression: ExprId)
        requires
            old(self).wf(),
            old(self).holds(expression),
        ensures
            final(self).follows(old(self)),
            final(self)@ == old(self)@.unsupported(old(self).item().module, expression),
    {
        self.origin(expression, StrictOriginKind::UnsupportedConstruct);
    }

    /// Records the candidate a call committed to.
    pub fn select(&mut self, callee: ExprId, index: usize)
        requires
            old(self).wf(),
        ensures
            final(self).follows(old(self)),
            final(self)@ == (CheckV {
                selected: old(self)@.selected.insert(callee.0, index),
                ..old(self)@
            }),
    {
        let _ = fx::fx_insert(&mut self.selected_overloads, callee.0, index);
    }

    pub fn deselect(&mut self, callee: ExprId)
        requires
            old(self).wf(),
        ensures
            final(self).follows(old(self)),
            final(self)@ == (CheckV {
                selected: old(self)@.selected.remove(callee.0),
                ..old(self)@
            }),
    {
        fx::fx_remove(&mut self.selected_overloads, callee.0);
    }

    pub fn mask_read(&mut self, id: ExprId)
        requires
            old(self).wf(),
        ensures
            final(self).follows(old(self)),
            final(self)@ == (CheckV {
                masked_reads: old(self)@.masked_reads.insert(id.0),
                ..old(self)@
            }),
    {
        fx::fx_add(&mut self.masked_reads, id.0);
    }

    // ---- functions ----

    pub fn push_frame(&mut self)
        requires
            old(self).wf(),
        ensures
            final(self).follows(old(self)),
            final(self)@ == old(self)@.push_frame(),
    {
        let frame: Vec<(Ty, TextRange)> = Vec::new();
        assert(annotations::ranged_types_view(frame@) =~= Seq::empty());
        self.return_frames.push(frame);
        assert(frames_view(self.return_frames@) =~= old(self)@.return_frames.push(Seq::empty()));
    }

    /// Takes the innermost frame's early returns.
    pub fn pop_frame(&mut self) -> (r: Vec<(Ty, TextRange)>)
        requires
            old(self).wf(),
        ensures
            final(self).follows(old(self)),
            (final(self)@, annotations::ranged_types_view(r@)) == old(self)@.pop_frame(),
    {
        match self.return_frames.pop() {
            Some(frame) => {
                assert(frames_view(self.return_frames@)
                    =~= old(self)@.return_frames.drop_last());
                frame
            },
            None => {
                let frame: Vec<(Ty, TextRange)> = Vec::new();
                assert(annotations::ranged_types_view(frame@) =~= Seq::empty());
                frame
            },
        }
    }

    /// Adds an early return to the innermost frame.
    pub fn push_return(&mut self, ty: Ty, range: TextRange)
        requires
            old(self).wf(),
        ensures
            final(self).follows(old(self)),
            final(self)@ == old(self)@.push_return(ty@, range),
    {
        if let Some(mut frame) = self.return_frames.pop() {
            let ghost before = annotations::ranged_types_view(frame@);
            let ghost given = ty@;
            frame.push((ty, range));
            assert(annotations::ranged_types_view(frame@) =~= before.push((given, range)));
            self.return_frames.push(frame);
            assert(frames_view(self.return_frames@) =~= old(self)@.return_frames.update(
                old(self)@.return_frames.len() - 1,
                before.push((given, range)),
            ));
        }
    }

    /// Drops the early returns of the innermost frame.
    pub fn clear_frame(&mut self)
        requires
            old(self).wf(),
        ensures
            final(self).follows(old(self)),
            final(self)@ == old(self)@.clear_frame(),
    {
        if let Some(_) = self.return_frames.pop() {
            let frame: Vec<(Ty, TextRange)> = Vec::new();
            assert(annotations::ranged_types_view(frame@) =~= Seq::empty());
            self.return_frames.push(frame);
            assert(frames_view(self.return_frames@) =~= old(self)@.return_frames.update(
                old(self)@.return_frames.len() - 1,
                Seq::empty(),
            ));
        }
    }

    pub fn pending_count(&self) -> (r: usize)
        ensures
            r == self@.pending.len(),
    {
        self.pending_enclosing_writes.len()
    }

    pub fn push_pending(&mut self, slot: u32, ty: Ty)
        requires
            old(self).wf(),
        ensures
            final(self).follows(old(self)),
            final(self)@ == (CheckV {
                pending: old(self)@.pending.push((slot, ty@)),
                ..old(self)@
            }),
    {
        let ghost given = ty@;
        self.pending_enclosing_writes.push((slot, ty));
        assert(slots_view(self.pending_enclosing_writes@) =~= old(self)@.pending.push(
            (slot, given),
        ));
    }

    pub fn truncate_pending(&mut self, count: usize)
        requires
            old(self).wf(),
        ensures
            final(self).follows(old(self)),
            final(self)@ == old(self)@.truncate_pending(count as nat),
    {
        self.pending_enclosing_writes.truncate(count);
    }

    pub fn pending_at(&self, i: usize) -> (r: (u32, Ty))
        requires
            i < self@.pending.len(),
        ensures
            (r.0, r.1@) == self@.pending[i as int],
    {
        (self.pending_enclosing_writes[i].0, self.pending_enclosing_writes[i].1.clone())
    }

    pub fn is_no_default(&self, slot: u32) -> (r: bool)
        ensures
            r == self@.no_default_formals.contains(slot),
    {
        fx::fx_contains(&self.no_default_formals, slot)
    }

    pub fn mark_no_default(&mut self, slot: u32)
        requires
            old(self).wf(),
        ensures
            final(self).follows(old(self)),
            final(self)@ == (CheckV {
                no_default_formals: old(self)@.no_default_formals.insert(slot),
                ..old(self)@
            }),
    {
        fx::fx_add(&mut self.no_default_formals, slot);
    }

    // ---- captures ----

    pub fn is_forward_captured(&self, slot: u32) -> (r: bool)
        ensures
            r == self@.forward_captured.contains(slot),
    {
        fx::fx_contains(&self.forward_captured, slot)
    }

    pub fn mark_forward_captured(&mut self, slot: u32)
        requires
            old(self).wf(),
        ensures
            final(self).follows(old(self)),
            final(self)@ == (CheckV {
                forward_captured: old(self)@.forward_captured.insert(slot),
                ..old(self)@
            }),
    {
        fx::fx_add(&mut self.forward_captured, slot);
    }

    pub fn capture_join(&self, slot: u32) -> (r: Option<Ty>)
        ensures
            types::opt_ty(r) == self@.capture_join(slot),
    {
        match fx::fx_get(&self.capture_joins, slot) {
            Some(ty) => Some(ty.clone()),
            None => None,
        }
    }

    pub fn set_capture_join(&mut self, slot: u32, ty: Ty)
        requires
            old(self).wf(),
        ensures
            final(self).follows(old(self)),
            final(self)@ == (CheckV {
                capture_joins: old(self)@.capture_joins.insert(slot, ty@),
                ..old(self)@
            }),
    {
        let _ = fx::fx_insert(&mut self.capture_joins, slot, ty);
    }

    pub fn repass(&self) -> (r: bool)
        ensures
            r == self@.repass,
    {
        self.capture_repass_needed
    }

    pub fn set_repass(&mut self, repass: bool)
        requires
            old(self).wf(),
        ensures
            final(self).follows(old(self)),
            final(self)@ == (CheckV { repass, ..old(self)@ }),
    {
        self.capture_repass_needed = repass;
    }

    pub fn materialized_count(&self) -> (r: usize)
        ensures
            r == self@.pre_materialized.len(),
    {
        self.pre_materialized.len()
    }

    pub fn materialized_at(&self, i: usize) -> (r: (u32, Ty))
        requires
            i < self@.pre_materialized.len(),
        ensures
            (r.0, r.1@) == self@.pre_materialized[i as int],
    {
        (self.pre_materialized[i].0, self.pre_materialized[i].1.clone())
    }

    /// Notes what was observed of a slot before the item.
    pub fn materialize(&mut self, slot: u32, ty: Ty)
        requires
            old(self).wf(),
        ensures
            final(self).follows(old(self)),
            final(self)@ == (CheckV {
                pre_materialized: checking::with_slot_value(
                    old(self)@.pre_materialized,
                    slot,
                    ty@,
                ),
                ..old(self)@
            }),
    {
        let ghost given = ty@;
        let ghost before = old(self)@.pre_materialized;
        match self.materialized_place(slot) {
            Some(i) => {
                self.pre_materialized.set(i, (slot, ty));
                assert(slots_view(self.pre_materialized@) =~= before.update(
                    i as int,
                    (slot, given),
                ));
            },
            None => {
                self.pre_materialized.push((slot, ty));
                assert(slots_view(self.pre_materialized@) =~= before.push((slot, given)));
            },
        }
    }

    fn materialized_place(&self, slot: u32) -> (r: Option<usize>)
        ensures
            match r {
                Some(i) => i < self.pre_materialized@.len() && checking::slot_value(
                    self@.pre_materialized,
                    slot,
                    0,
                ) == Some(i as int),
                None => checking::slot_value(self@.pre_materialized, slot, 0) is None,
            },
    {
        let mut i: usize = 0;
        while i < self.pre_materialized.len()
            invariant
                i <= self.pre_materialized.len(),
                checking::slot_value(self@.pre_materialized, slot, 0) == checking::slot_value(
                    self@.pre_materialized,
                    slot,
                    i as int,
                ),
            decreases self.pre_materialized.len() - i,
        {
            if self.pre_materialized[i].0 == slot {
                return Some(i);
            }
            i += 1;
        }
        None
    }

    // ---- names the item does not bind ----

    pub fn named_slot(&self, name: &str) -> (r: Option<u32>)
        ensures
            r == checking::named_slot(self@.non_local_slots, name@),
    {
        fx::get_numbered_text(&self.non_local_slots, name)
    }

    /// A new slot for a name the item does not bind.
    pub fn mint_slot(&mut self, name: &String) -> (r: u32)
        requires
            old(self).wf(),
        ensures
            final(self).follows(old(self)),
            (final(self)@, r) == old(self)@.mint_slot(name@),
    {
        let slot = self.next_non_local_slot;
        fx::insert_numbered_text(&mut self.non_local_slots, name.as_str(), slot);
        let next: u32 = (slot as u64 + 1) as u32;
        self.next_non_local_slot = next;
        slot
    }

    // ---- annotations ----

    /// The annotation of an expression.
    pub fn annotation(&self, id: ExprId) -> (r: Option<&'a Annotation>)
        ensures
            match r {
                Some(annotation) => self@.annotations.dom().contains(id.0)
                    && annotation@.demand() == self@.annotations[id.0],
                None => !self@.annotations.dom().contains(id.0),
            },
    {
        match fx::fx_get(&self.annotations, id.0) {
            Some(annotation) => Some(*annotation),
            None => None,
        }
    }

    pub fn annotate(&mut self, id: ExprId, annotation: &'a Annotation)
        requires
            old(self).wf(),
        ensures
            final(self).follows(old(self)),
            final(self)@ == (CheckV {
                annotations: old(self)@.annotations.insert(id.0, annotation@.demand()),
                ..old(self)@
            }),
    {
        let _ = fx::fx_insert(&mut self.annotations, id.0, annotation);
    }

    // ---- findings about types ----

    /// A mismatch of two types, narrowed to one field where both are records.
    pub fn type_mismatch(
        &mut self,
        range: TextRange,
        expected: &Ty,
        found: &Ty,
        value: Option<ExprId>,
    ) -> (r: TypeError)
        requires
            old(self).wf(),
            value matches Some(value) ==> old(self).holds(value),
        ensures
            final(self).follows(old(self)),
            final(self)@ == old(self)@,
            r@ == checking::type_mismatch(
                old(self)@.table,
                old(self).item().module,
                range,
                expected@,
                found@,
                value,
            ),
    {
        blame::type_mismatch(&mut self.table, self.module, range, expected, found, value)
    }

    pub fn report_unify(&mut self, range: TextRange, error: UnifyError)
        requires
            old(self).wf(),
        ensures
            final(self).follows(old(self)),
            final(self)@ == old(self)@.report_unify(old(self).item().module, range, error@),
    {
        let finding = blame::unify_finding(&mut self.table, self.module, range, error);
        self.errors.push(finding);
    }

    // ---- calls ----

    /// One argument against one formal's type.
    pub fn check_argument(
        &mut self,
        expected: &Ty,
        found: &Ty,
        range: TextRange,
        whole_double: bool,
        value: Option<ExprId>,
    ) -> (r: Option<TypeError>)
        requires
            old(self).wf(),
            value matches Some(value) ==> old(self).holds(value),
        ensures
            final(self).follows(old(self)),
            (final(self)@, crate::matching::opt_error(r)) == old(self)@.check_argument(
                old(self).item().module,
                expected@,
                found@,
                range,
                whole_double,
                value,
            ),
    {
        self.table.check_argument(
            crate::matching::CallSite { module: self.module, strict: false },
            expected,
            found,
            range,
            whole_double,
            value,
        )
    }

    /// The findings of a call against a signature.
    pub fn match_arguments(&mut self, call: Call, function: &FunctionType) -> (r: Vec<TypeError>)
        requires
            old(self).wf(),
            call.wf(),
        ensures
            final(self).follows(old(self)),
            (final(self)@, findings::errors_view(r@)) == old(self)@.match_arguments(
                call@,
                function@,
            ),
    {
        self.table.match_arguments(
            crate::matching::CallSite { module: call.module, strict: false },
            call.callee_range,
            function,
            call.arguments,
        )
    }

    /// A call through a callee's type.
    pub fn dispatch_call(&mut self, call: Call, callee: &Ty) -> (r: Ty)
        requires
            old(self).wf(),
            call.wf(),
        ensures
            final(self).follows(old(self)),
            (final(self)@, r@) == old(self)@.dispatch_call(call@, callee@),
    {
        let (found, ty) = self.table.dispatch_call(call, callee);
        let mut all = found;
        self.errors.append(&mut all);
        ty
    }

    /// The first candidate that fits a call.
    pub fn first_fit(&mut self, call: Call, candidates: &Vec<TypeScheme>) -> (r: Option<FunctionType>)
        requires
            old(self).wf(),
            call.wf(),
        ensures
            final(self).follows(old(self)),
            match old(self)@.table.first_fit(call@, schemes::schemes_view(candidates@), 0) {
                Some((after, function)) => final(self)@ == old(self)@.with_table(after) && r is Some
                    && r->0@ == function,
                None => final(self)@ == old(self)@ && r is None,
            },
    {
        self.table.first_fit(call, candidates)
    }

    /// The candidate a call chooses.
    pub fn choose_candidate(&mut self, call: Call, candidates: &Vec<TypeScheme>) -> (r: (
        Option<(usize, bool)>,
        Vec<TypeError>,
    ))
        requires
            old(self).wf(),
            call.wf(),
        ensures
            final(self).follows(old(self)),
            final(self)@ == old(self)@,
            (crate::overloads::opt_choice(r.0), findings::errors_view(r.1@)) == old(
                self,
            )@.table.choose_candidate(call@, schemes::schemes_view(candidates@)),
            r.0 matches Some(choice) ==> choice.0 < candidates@.len(),
    {
        self.table.choose_candidate(call, candidates)
    }

    /// One candidate against the arguments.
    pub fn probe_overload_candidate(&mut self, call: Call, scheme: &TypeScheme, strict: bool) -> (r:
        Option<FunctionType>)
        requires
            old(self).wf(),
            call.wf(),
        ensures
            final(self).follows(old(self)),
            match old(self)@.table.probe_candidate(call@, scheme@, strict) {
                Ok((after, function)) => final(self)@ == old(self)@.with_table(after) && r is Some
                    && r->0@ == function,
                Err(_) => final(self)@ == old(self)@ && r is None,
            },
    {
        match self.table.probe_overload_candidate(call, scheme, strict) {
            Ok(function) => Some(function),
            Err(_) => None,
        }
    }

    // ---- the outcome ----

    /// What the check found, apart from its schemes and the types it recorded.
    pub fn into_parts(self) -> (r: (
        Vec<StrictOrigin>,
        FxHashMap<u32, usize>,
        FxHashSet<u32>,
    ))
        ensures
            findings::origins_view(r.0@) == self@.origins,
            r.1@ == self@.selected,
            r.2@ == self@.masked_reads,
    {
        (self.strict_origins, self.selected_overloads, self.masked_reads)
    }

    /// The findings so far, in order of report.
    pub fn errors(&self) -> (r: &Vec<TypeError>)
        ensures
            findings::errors_view(r@) == self@.errors,
    {
        &self.errors
    }
}

/// A type as it may be kept: one that is too large is unknown.
pub fn recordable(ty: Ty) -> (r: Ty)
    ensures
        r@ == checking::recordable(ty@),
{
    let composite = match ty.kind() {
        TyKind::Record(_) | TyKind::Function(_) | TyKind::Union(_) | TyKind::Tuple(_) => true,
        _ => false,
    };
    if composite && has_size(&ty, checking::TYPE_SIZE_CEILING) {
        unknown()
    } else {
        ty
    }
}

} // verus!
