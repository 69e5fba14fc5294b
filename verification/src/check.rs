//! Checking one item.

use rustc_hash::{FxHashMap, FxHashSet};
use vstd::prelude::*;

use crate::annotations::{Annotation, DemandV};
use crate::checker;
use crate::checker::Checker;
use crate::checking;
use crate::checking::{CheckV, ItemV};
use crate::closing;
use crate::closing::find_alias_cycle;
use crate::environment::{EnvEntry, SlotV};
use crate::findings;
use crate::findings::{
    sort_report, OriginV, StrictOrigin, TypeError, TypeErrorKind, TypeErrorKindV, TypeErrorV,
};
use crate::fx;
use crate::globals::{GlobalEnv, KnownNames, StubCorpus};
use crate::hir::{ExprId, ExpressionKind, Module};
use crate::infer::Vocabulary;
use crate::naming::ItemNaming;
use crate::schemes;
use crate::schemes::{SchemeV, TypeScheme};
use crate::steps::is_unknown;
use crate::type_ops::unknown;
use crate::types;
use crate::types::{Ty, TyKind, TyV};
use crate::walk::{BindingKind, BindingV};

verus! {

broadcast use crate::types::group_type_views;

/// The result of checking one item.
#[derive(Debug)]
pub struct ItemCheck {
    /// The resolved type of every expression that has one, by its place.
    pub expression_types: FxHashMap<u32, Ty>,
    pub errors: Vec<TypeError>,
    /// Places where no type could be determined.
    pub strict_origins: Vec<StrictOrigin>,
    /// The scheme of the item's value, where the item is a definition.
    pub scheme: Option<TypeScheme>,
    /// For each callee with overloads the candidate that was chosen, as a place
    /// in the declared set.
    pub selected_overloads: FxHashMap<u32, usize>,
    /// Reads that are column references of a `data.table`.
    pub masked_reads: FxHashSet<u32>,
    /// The scheme of every name the item's top-level frame binds.
    pub top_level_bindings: Vec<(String, TypeScheme)>,
}

/// The model of an item's check.
pub struct ItemCheckV {
    pub expression_types: Map<u32, TyV>,
    pub errors: Seq<TypeErrorV>,
    pub strict_origins: Seq<OriginV>,
    pub scheme: Option<SchemeV>,
    pub selected_overloads: Map<u32, usize>,
    pub masked_reads: Set<u32>,
    pub top_level_bindings: Seq<(Seq<char>, SchemeV)>,
}

pub open spec fn bindings_view(bindings: Seq<(String, TypeScheme)>) -> Seq<(Seq<char>, SchemeV)> {
    Seq::new(bindings.len(), |i: int| (bindings[i].0@, bindings[i].1@))
}

impl ItemCheck {
    pub open spec fn view(&self) -> ItemCheckV {
        ItemCheckV {
            expression_types: checker::map_view(self.expression_types@),
            errors: findings::errors_view(self.errors@),
            strict_origins: findings::origins_view(self.strict_origins@),
            scheme: schemes::opt_scheme(self.scheme),
            selected_overloads: self.selected_overloads@,
            masked_reads: self.masked_reads@,
            top_level_bindings: bindings_view(self.top_level_bindings@),
        }
    }
}

/// The demands of a list of annotated expressions.
pub open spec fn annotated_view(annotations: Seq<(ExprId, Annotation)>) -> Seq<(ExprId, DemandV)> {
    Seq::new(annotations.len(), |i: int| (annotations[i].0, annotations[i].1@.demand()))
}

pub open spec fn opt_demand(annotation: Option<&Annotation>) -> Option<DemandV> {
    match annotation {
        Some(annotation) => Some(annotation@.demand()),
        None => None,
    }
}

/// The types an annotation mentions at its top.
pub open spec fn mentioned(demand: DemandV) -> Seq<TyV> {
    (match demand.declared {
        Some(declared) => seq![declared.body],
        None => Seq::empty(),
    }) + (match demand.introduced {
        Some((_, arguments)) => arguments,
        None => Seq::empty(),
    })
}

impl CheckV {
    /// The state with the annotations from one on; the last one on an expression
    /// counts.
    pub open spec fn annotate_all(self, annotations: Seq<(ExprId, DemandV)>, from: int) -> CheckV
        decreases annotations.len() - from,
    {
        if 0 <= from < annotations.len() {
            CheckV {
                annotations: self.annotations.insert(
                    annotations[from].0.0,
                    annotations[from].1,
                ),
                ..self
            }.annotate_all(annotations, from + 1)
        } else {
            self
        }
    }

    /// The first alias cycle below types from one on.
    pub open spec fn first_cycle(self, types: Seq<TyV>, from: int) -> Option<Seq<char>>
        decreases types.len() - from,
    {
        if 0 <= from < types.len() {
            match checking::alias_cycle(
                self.table.vocabulary.definitions,
                types[from],
                Seq::empty(),
                self.table.vocabulary.definitions.dom().len(),
            ) {
                Some(name) => Some(name),
                None => self.first_cycle(types, from + 1),
            }
        } else {
            None
        }
    }

    /// An annotation that mentions an alias that expands into itself is reported
    /// and dropped.
    pub open spec fn vetted(self, m: Module, demand: Option<DemandV>) -> (CheckV, Option<DemandV>) {
        match (m.root, demand) {
            (Some(root), Some(present)) => match self.first_cycle(mentioned(present), 0) {
                Some(name) => (
                    self.fail(m.range_of(root), TypeErrorKindV::AliasCycle { name }),
                    None,
                ),
                None => (self, demand),
            },
            _ => (self, demand),
        }
    }

    /// A value against a declared type that is no function: the value flows into
    /// the declaration.
    pub open spec fn check_against_declared(
        self,
        m: Module,
        value: ExprId,
        value_ty: TyV,
        declared: SchemeV,
        demand: DemandV,
    ) -> CheckV {
        if demand.trusted || declared.body is Unknown || declared.body is Any {
            self
        } else {
            let resolved = self.table.resolve(value_ty);
            let (next, fits) = self.compatible(resolved, declared.body);
            if fits {
                next
            } else {
                next.report(
                    checking::type_mismatch(
                        next.table,
                        m,
                        m.range_of(value),
                        declared.body,
                        resolved,
                        Some(value),
                    ),
                )
            }
        }
    }

    /// The scheme of a definition whose value has been inferred, and whether the
    /// scheme is the declared one.
    pub open spec fn definition_scheme(
        self,
        m: Module,
        value: ExprId,
        value_ty: TyV,
        demand: Option<DemandV>,
    ) -> (CheckV, SchemeV, bool) {
        let inferred = (self, self.table.generalize(value_ty), false);
        match demand {
            None => inferred,
            Some(demand) => match demand.introduced {
                Some((name, arguments)) => {
                    let (next, scheme) = self.new_nominal(m, name, arguments, value, value_ty);
                    (next, scheme, false)
                },
                None => match demand.declared {
                    None => inferred,
                    Some(declared) => if demand.if_unknown {
                        let resolved = self.table.resolve(value_ty);
                        if resolved is Unknown {
                            (self, declared, false)
                        } else {
                            let next = self.fail(
                                m.range_of(value),
                                TypeErrorKindV::KnownTypeUnderIfUnknown { found: resolved },
                            );
                            (next, next.table.generalize(value_ty), false)
                        }
                    } else {
                        (
                            self.check_against_declared(m, value, value_ty, declared, demand),
                            declared,
                            true,
                        )
                    },
                },
            },
        }
    }

    /// A definition: its value inferred, and the scheme it exports.
    pub open spec fn check_definition(
        self,
        item: ItemV,
        root: ExprId,
        value: ExprId,
        demand: Option<DemandV>,
    ) -> (CheckV, SchemeV, bool) {
        let (next, root_ty) = self.infer(item, root);
        let value_ty = if next.recorded.dom().contains(value.0) {
            next.recorded[value.0]
        } else {
            root_ty
        };
        next.definition_scheme(item.module, value, value_ty, demand)
    }

    /// The root of an item: the state after it, and what the item exports with
    /// whether that is declared.
    pub open spec fn check_root(self, item: ItemV, root: ExprId, demand: Option<DemandV>) -> (
        CheckV,
        Option<(SchemeV, bool)>,
    ) {
        match item.module.kind_of(root) {
            ExpressionKind::Assign { value, .. } => match declared_signature(demand) {
                Some(declared) if item.module.kind_of(value) is Function => {
                    let (next, body) = self.check_against(item, value, declared);
                    (
                        next.note(root, body),
                        Some((SchemeV { binders: declared.binders, body }, true)),
                    )
                },
                _ => {
                    let (next, scheme, is_declared) = self.check_definition(
                        item,
                        root,
                        value,
                        demand,
                    );
                    (next, Some((scheme, is_declared)))
                },
            },
            _ => (
                (match demand {
                    Some(present) => CheckV {
                        annotations: self.annotations.insert(root.0, present),
                        ..self
                    },
                    None => self,
                }).infer(item, root).0,
                None,
            ),
        }
    }

    /// What an item exports: `Unknown` where the check found an error, unless the
    /// scheme is declared.
    pub open spec fn exported(self, scheme: Option<(SchemeV, bool)>) -> Option<SchemeV> {
        match scheme {
            Some((scheme, is_declared)) => if self.errors.len() == 0 || is_declared {
                Some(self.table.close_scheme(scheme))
            } else {
                Some(SchemeV::monomorphic(TyV::Unknown))
            },
            None => None,
        }
    }

    /// What a slot exports.
    pub open spec fn slot_scheme(self, entry: SlotV) -> SchemeV {
        if self.errors.len() == 0 {
            self.table.close_scheme(
                match entry {
                    SlotV::Mono(ty) => SchemeV::monomorphic(ty),
                    SlotV::MissingFormal(ty) => SchemeV::monomorphic(ty),
                    SlotV::Scheme(index) => self.scheme_at(index),
                },
            )
        } else {
            SchemeV::monomorphic(TyV::Unknown)
        }
    }

    /// What the first slots of the top-level frame export.
    pub open spec fn exported_slots(self, bindings: Seq<BindingV>, upto: nat) -> Seq<
        (Seq<char>, SchemeV),
    >
        decreases upto,
    {
        if upto == 0 {
            Seq::empty()
        } else {
            let before = self.exported_slots(bindings, (upto - 1) as nat);
            let slot = (upto - 1) as u32;
            if bindings[upto - 1].kind != BindingKind::TopLevel {
                before
            } else {
                match self.env.get(slot) {
                    Some(entry) => before.push(
                        (bindings[upto - 1].name, self.slot_scheme(entry)),
                    ),
                    None => before,
                }
            }
        }
    }

    /// The types that were recorded for a module's expressions, resolved.
    pub open spec fn resolved_types(self, m: Module) -> Map<u32, TyV> {
        Map::new(
            |id: u32| id < m.expressions@.len() && self.recorded.dom().contains(id),
            |id: u32| self.table.resolve(self.recorded[id]),
        )
    }

    /// The result of a finished check.
    pub open spec fn finished(self, item: ItemV, scheme: Option<(SchemeV, bool)>) -> ItemCheckV {
        ItemCheckV {
            expression_types: self.resolved_types(item.module),
            errors: findings::without_repeats(findings::by_range(self.errors)),
            strict_origins: self.origins,
            scheme: self.exported(scheme),
            selected_overloads: self.selected,
            masked_reads: self.masked_reads,
            top_level_bindings: self.exported_slots(
                item.naming.bindings,
                item.naming.bindings.len(),
            ),
        }
    }
}

/// The function type that an annotation declares and does not merely trust.
pub open spec fn declared_signature(demand: Option<DemandV>) -> Option<SchemeV> {
    match demand {
        Some(demand) => if demand.trusted {
            None
        } else {
            match demand.declared {
                Some(declared) => if declared.body is Function {
                    Some(declared)
                } else {
                    None
                },
                None => None,
            }
        },
        None => None,
    }
}

/// The check of an item under an annotation of the item and annotations of its
/// expressions.
pub open spec fn check_of(
    item: ItemV,
    annotation: Option<DemandV>,
    annotations: Seq<(ExprId, DemandV)>,
) -> ItemCheckV {
    let start = checking::initial(item).annotate_all(annotations, 0);
    let (ready, demand) = start.vetted(item.module, annotation);
    match item.module.root {
        Some(root) => {
            let (done, scheme) = ready.check_root(item, root, demand);
            done.finished(item, scheme)
        },
        None => ready.finished(item, None),
    }
}

impl<'a, G: GlobalEnv> Checker<'a, G> {
    fn annotate_all(&mut self, annotations: &'a Vec<(ExprId, Annotation)>)
        requires
            old(self).wf(),
        ensures
            final(self).follows(old(self)),
            final(self)@ == old(self)@.annotate_all(annotated_view(annotations@), 0),
    {
        let ghost all = annotated_view(annotations@);
        let mut i: usize = 0;
        while i < annotations.len()
            invariant
                i <= annotations.len(),
                all == annotated_view(annotations@),
                self.follows(old(self)),
                self@.annotate_all(all, i as int) == old(self)@.annotate_all(all, 0),
            decreases annotations.len() - i,
        {
            assert(all[i as int] == (
                annotations@[i as int].0,
                annotations@[i as int].1@.demand(),
            ));
            self.annotate(annotations[i].0, &annotations[i].1);
            i += 1;
        }
    }

    fn mentioned_cycle(&self, vocabulary: &Vocabulary, annotation: &Annotation) -> (r: Option<String>)
        requires
            vocabulary@ == self@.table.vocabulary,
        ensures
            types::opt_text(r) == self@.first_cycle(mentioned(annotation@.demand()), 0),
    {
        let mut all: Vec<Ty> = Vec::new();
        if let Some(declared) = &annotation.declared {
            all.push(declared.body.clone());
        }
        assert(types::tys(all@) =~= match annotation@.demand().declared {
            Some(declared) => seq![declared.body],
            None => Seq::empty(),
        });
        if let Some((_, arguments, _)) = &annotation.new_nominal {
            let ghost before = all@;
            let mut k: usize = 0;
            while k < arguments.len()
                invariant
                    k <= arguments.len(),
                    types::tys(all@) =~= types::tys(before) + types::tys(arguments@).subrange(
                        0,
                        k as int,
                    ),
                decreases arguments.len() - k,
            {
                all.push(arguments[k].clone());
                k += 1;
            }
        }
        assert(types::tys(all@) =~= mentioned(annotation@.demand()));
        let ghost tys = types::tys(all@);
        let mut i: usize = 0;
        while i < all.len()
            invariant
                i <= all.len(),
                tys == types::tys(all@),
                tys == mentioned(annotation@.demand()),
                vocabulary@ == self@.table.vocabulary,
                self@.first_cycle(tys, i as int) == self@.first_cycle(tys, 0),
            decreases all.len() - i,
        {
            let found = find_alias_cycle(vocabulary, &all[i]);
            if found.is_some() {
                return found;
            }
            i += 1;
        }
        None
    }

    fn vet(&mut self, vocabulary: &Vocabulary, annotation: Option<&'a Annotation>) -> (r: Option<
        &'a Annotation,
    >)
        requires
            old(self).wf(),
            vocabulary@ == old(self)@.table.vocabulary,
        ensures
            final(self).follows(old(self)),
            (final(self)@, opt_demand(r)) == old(self)@.vetted(
                old(self).item().module,
                opt_demand(annotation),
            ),
    {
        if let Some(root) = self.module().root {
            if let Some(present) = annotation {
                if let Some(name) = self.mentioned_cycle(vocabulary, present) {
                    let range = self.module().range(root);
                    self.fail(range, TypeErrorKind::AliasCycle { name });
                    return None;
                }
            }
        }
        annotation
    }

    fn check_declared_value(
        &mut self,
        value: ExprId,
        value_ty: &Ty,
        declared: &TypeScheme,
        annotation: &Annotation,
    )
        requires
            old(self).wf(),
            old(self).holds(value),
        ensures
            final(self).follows(old(self)),
            final(self)@ == old(self)@.check_against_declared(
                old(self).item().module,
                value,
                value_ty@,
                declared@,
                annotation@.demand(),
            ),
    {
        if annotation.trusted {
            return;
        }
        match declared.body.kind() {
            TyKind::Unknown | TyKind::Any => {
                return;
            },
            _ => {},
        }
        let resolved = self.resolve(value_ty);
        if !self.compatible(&resolved, &declared.body) {
            let range = self.module().range(value);
            let error = self.type_mismatch(range, &declared.body, &resolved, Some(value));
            self.report(error);
        }
    }

    fn settle_definition(&mut self, value: ExprId, value_ty: &Ty, annotation: Option<&Annotation>) -> (r:
        (TypeScheme, bool))
        requires
            old(self).wf(),
            old(self).holds(value),
        ensures
            final(self).follows(old(self)),
            (final(self)@, r.0@, r.1) == old(self)@.definition_scheme(
                old(self).item().module,
                value,
                value_ty@,
                opt_demand(annotation),
            ),
    {
        let annotation = match annotation {
            Some(annotation) => annotation,
            None => {
                return (self.generalize(value_ty), false);
            },
        };
        if let Some((name, arguments, _)) = &annotation.new_nominal {
            return (self.check_new_nominal(name, arguments, value, value_ty), false);
        }
        let declared = match &annotation.declared {
            Some(declared) => declared,
            None => {
                return (self.generalize(value_ty), false);
            },
        };
        if annotation.if_unknown {
            let resolved = self.resolve(value_ty);
            if is_unknown(&resolved) {
                return (declared.clone(), false);
            }
            let range = self.module().range(value);
            self.fail(range, TypeErrorKind::KnownTypeUnderIfUnknown { found: resolved });
            return (self.generalize(value_ty), false);
        }
        self.check_declared_value(value, value_ty, declared, annotation);
        (declared.clone(), true)
    }

    fn check_definition(&mut self, root: ExprId, value: ExprId, annotation: Option<&Annotation>) -> (r:
        (TypeScheme, bool))
        requires
            old(self).wf(),
            old(self).holds(root),
            old(self).holds(value),
        ensures
            final(self).follows(old(self)),
            (final(self)@, r.0@, r.1) == old(self)@.check_definition(
                old(self).item(),
                root,
                value,
                opt_demand(annotation),
            ),
    {
        let root_ty = self.infer(root);
        let value_ty = match self.recorded(value) {
            Some(ty) => ty.clone(),
            None => root_ty,
        };
        self.settle_definition(value, &value_ty, annotation)
    }

    fn check_root(&mut self, root: ExprId, annotation: Option<&'a Annotation>) -> (r: Option<
        (TypeScheme, bool),
    >)
        requires
            old(self).wf(),
            old(self).holds(root),
        ensures
            final(self).follows(old(self)),
            (final(self)@, opt_export(r)) == old(self)@.check_root(
                old(self).item(),
                root,
                opt_demand(annotation),
            ),
    {
        let module = self.module();
        let kind = module.kind(root);
        if let ExpressionKind::Assign { value, .. } = kind {
            assert(kind.built_below(root.0 as int));
            if let Some(declared) = signature_of(annotation) {
                if let ExpressionKind::Function { .. } = module.kind(*value) {
                    let body = self.check_function_against(*value, declared);
                    self.note(root, body.clone());
                    let binders = schemes::clone_binders(&declared.binders);
                    return Some((TypeScheme { binders, body }, true));
                }
            }
            return Some(self.check_definition(root, *value, annotation));
        }
        if let Some(present) = annotation {
            self.annotate(root, present);
        }
        self.infer(root);
        None
    }

    fn export(&self, scheme: &Option<(TypeScheme, bool)>) -> (r: Option<TypeScheme>)
        requires
            self.wf(),
        ensures
            schemes::opt_scheme(r) == self@.exported(opt_export(*scheme)),
    {
        match scheme {
            Some((scheme, is_declared)) => if self.error_count() == 0 || *is_declared {
                Some(self.close_scheme(scheme))
            } else {
                Some(TypeScheme::monomorphic(unknown()))
            },
            None => None,
        }
    }

    fn export_slot(&self, entry: EnvEntry) -> (r: TypeScheme)
        requires
            self.wf(),
        ensures
            r@ == self@.slot_scheme(entry@),
    {
        if self.error_count() > 0 {
            return TypeScheme::monomorphic(unknown());
        }
        let open = match entry {
            EnvEntry::Mono(ty) => TypeScheme::monomorphic(ty),
            EnvEntry::MissingFormal(ty) => TypeScheme::monomorphic(ty),
            EnvEntry::Scheme(index) => self.scheme_at(index),
        };
        self.close_scheme(&open)
    }

    fn export_slots(&self) -> (r: Vec<(String, TypeScheme)>)
        requires
            self.wf(),
        ensures
            bindings_view(r@) == self@.exported_slots(
                self.item().naming.bindings,
                self.item().naming.bindings.len(),
            ),
    {
        let bindings = &self.naming().bindings;
        let ghost all = self.item().naming.bindings;
        let mut slots: Vec<(String, TypeScheme)> = Vec::new();
        assert(bindings_view(slots@) =~= Seq::empty());
        let mut i: usize = 0;
        while i < bindings.len()
            invariant
                self.wf(),
                i <= bindings.len(),
                all.len() == bindings@.len(),
                forall|k: int| 0 <= k < all.len() ==> #[trigger] all[k] == bindings@[k]@,
                bindings_view(slots@) == self@.exported_slots(all, i as nat),
            decreases bindings.len() - i,
        {
            let info = &bindings[i];
            assert(all[i as int] == info@);
            if info.kind == BindingKind::TopLevel {
                if let Some(entry) = self.get(i as u32) {
                    let scheme = self.export_slot(entry);
                    let ghost before = bindings_view(slots@);
                    let ghost one = (info.name@, scheme@);
                    slots.push((info.name.clone(), scheme));
                    assert(bindings_view(slots@) =~= before.push(one));
                }
            }
            i += 1;
        }
        slots
    }

    fn resolve_recorded(&self) -> (r: FxHashMap<u32, Ty>)
        requires
            self.wf(),
        ensures
            checker::map_view(r@) == self@.resolved_types(self.item().module),
    {
        let count: usize = self.module().expressions.len();
        let mut resolved: FxHashMap<u32, Ty> = fx::fx_map();
        let mut i: usize = 0;
        while i < count && i <= u32::MAX as usize
            invariant
                self.wf(),
                i <= count,
                i <= u32::MAX as usize + 1,
                count == self.item().module.expressions@.len(),
                forall|id: u32| #[trigger]
                    resolved@.dom().contains(id) <==> id < i && self@.recorded.dom().contains(id),
                forall|id: u32| #[trigger]
                    resolved@.dom().contains(id) ==> resolved@[id]@ == self@.table.resolve(
                        self@.recorded[id],
                    ),
            decreases count - i,
        {
            let id: u32 = i as u32;
            if let Some(ty) = self.recorded(ExprId(id)) {
                fx::fx_insert(&mut resolved, id, self.resolve(ty));
            }
            i += 1;
        }
        assert(checker::map_view(resolved@) =~= self@.resolved_types(self.item().module));
        resolved
    }

    fn finish(self, scheme: Option<(TypeScheme, bool)>) -> (r: ItemCheck)
        requires
            self.wf(),
        ensures
            r@ == self@.finished(self.item(), opt_export(scheme)),
    {
        let expression_types = self.resolve_recorded();
        let errors = sort_report(self.errors());
        let exported = self.export(&scheme);
        let top_level_bindings = self.export_slots();
        let (strict_origins, selected_overloads, masked_reads) = self.into_parts();
        ItemCheck {
            expression_types,
            errors,
            strict_origins,
            scheme: exported,
            selected_overloads,
            masked_reads,
            top_level_bindings,
        }
    }
}

pub open spec fn opt_export(scheme: Option<(TypeScheme, bool)>) -> Option<(SchemeV, bool)> {
    match scheme {
        Some((scheme, is_declared)) => Some((scheme@, is_declared)),
        None => None,
    }
}

fn signature_of<'b>(annotation: Option<&'b Annotation>) -> (r: Option<&'b TypeScheme>)
    ensures
        (match r {
            Some(scheme) => Some(scheme@),
            None => None,
        }) == declared_signature(opt_demand(annotation)),
{
    match annotation {
        Some(annotation) => if annotation.trusted {
            None
        } else {
            match &annotation.declared {
                Some(declared) => match declared.body.kind() {
                    TyKind::Function(_) => Some(declared),
                    _ => None,
                },
                None => None,
            }
        },
        None => None,
    }
}

/// Checks an item under an annotation of the item, annotations of its
/// expressions, and a resolver for the names that are not its own.
pub fn check_item_with_annotation<G: GlobalEnv>(
    module: &Module,
    naming: &ItemNaming,
    annotation: Option<&Annotation>,
    expression_annotations: &Vec<(ExprId, Annotation)>,
    globals: Option<&G>,
    corpus: &StubCorpus,
) -> (r: ItemCheck)
    requires
        module.wf(),
    ensures
        r@ == check_of(
            (ItemV {
                module: *module,
                naming: naming@,
                globals: checker::opt_model(globals),
                corpus: corpus@,
            }),
            opt_demand(annotation),
            annotated_view(expression_annotations@),
        ),
{
    let vocabulary = match globals {
        Some(globals) => globals.vocabulary(),
        None => std::rc::Rc::new(Vocabulary::empty()),
    };
    let mut checker = Checker::new(module, naming, globals, corpus);
    checker.annotate_all(expression_annotations);
    proof {
        annotations_keep_vocabulary(
            checking::initial(checker.item()),
            annotated_view(expression_annotations@),
            0,
        );
    }
    let annotation = checker.vet(&vocabulary, annotation);
    match module.root {
        Some(root) => {
            let scheme = checker.check_root(root, annotation);
            checker.finish(scheme)
        },
        None => checker.finish(None),
    }
}

proof fn annotations_keep_vocabulary(
    state: CheckV,
    annotations: Seq<(ExprId, DemandV)>,
    from: int,
)
    ensures
        state.annotate_all(annotations, from).table == state.table,
    decreases annotations.len() - from,
{
    if 0 <= from < annotations.len() {
        annotations_keep_vocabulary(
            (CheckV {
                annotations: state.annotations.insert(
                    annotations[from].0.0,
                    annotations[from].1,
                ),
                ..state
            }),
            annotations,
            from + 1,
        );
    }
}

proof fn slot_exports(state: CheckV, bindings: Seq<BindingV>, upto: nat)
    ensures
        forall|i: int|
            #![trigger state.exported_slots(bindings, upto)[i]]
            0 <= i < state.exported_slots(bindings, upto).len() ==> {
                let scheme = state.exported_slots(bindings, upto)[i].1;
                &&& !scheme.body.has_var()
                &&& state.errors.len() > 0 ==> scheme == SchemeV::monomorphic(TyV::Unknown)
            },
    decreases upto,
{
    if upto > 0 {
        slot_exports(state, bindings, (upto - 1) as nat);
        let before = state.exported_slots(bindings, (upto - 1) as nat);
        match state.env.get((upto - 1) as u32) {
            Some(entry) => {
                let open = match entry {
                    SlotV::Mono(ty) => SchemeV::monomorphic(ty),
                    SlotV::MissingFormal(ty) => SchemeV::monomorphic(ty),
                    SlotV::Scheme(index) => state.scheme_at(index),
                };
                closing::closed_schemes_hold_no_variable(state.table, open);
                assert(!state.slot_scheme(entry).body.has_var());
            },
            None => {},
        }
        assert forall|i: int|
            #![trigger state.exported_slots(bindings, upto)[i]]
            0 <= i < state.exported_slots(bindings, upto).len() implies {
            let scheme = state.exported_slots(bindings, upto)[i].1;
            &&& !scheme.body.has_var()
            &&& state.errors.len() > 0 ==> scheme == SchemeV::monomorphic(TyV::Unknown)
        } by {
            if i < before.len() {
                assert(state.exported_slots(bindings, upto)[i] == before[i]);
            }
        }
    }
}

/// Whether everything an item exports stands on its own: no scheme holds an
/// inference variable, which another item's table could not resolve.
pub open spec fn exports_are_closed(check: ItemCheckV) -> bool {
    &&& match check.scheme {
        Some(scheme) => !scheme.body.has_var(),
        None => true,
    }
    &&& forall|i: int|
        0 <= i < check.top_level_bindings.len() ==> !(
        #[trigger] check.top_level_bindings[i]).1.body.has_var()
}

/// No scheme that a check exports holds an inference variable.
pub proof fn exported_schemes_hold_no_variable(
    item: ItemV,
    annotation: Option<DemandV>,
    annotations: Seq<(ExprId, DemandV)>,
)
    ensures
        exports_are_closed(check_of(item, annotation, annotations)),
{
    let start = checking::initial(item).annotate_all(annotations, 0);
    let (ready, demand) = start.vetted(item.module, annotation);
    let (done, scheme) = match item.module.root {
        Some(root) => ready.check_root(item, root, demand),
        None => (ready, None),
    };
    slot_exports(done, item.naming.bindings, item.naming.bindings.len());
    match scheme {
        Some((scheme, _)) => {
            closing::closed_schemes_hold_no_variable(done.table, scheme);
        },
        None => {},
    }
}

/// An item whose check found an error exports `Unknown` for every name, so that
/// other items are not checked against a shape that cannot be trusted. Only a
/// declared scheme survives.
pub proof fn failed_items_export_unknown(
    item: ItemV,
    annotation: Option<DemandV>,
    annotations: Seq<(ExprId, DemandV)>,
)
    requires
        check_of(item, annotation, annotations).errors.len() > 0,
    ensures
        match check_of(item, annotation, annotations).scheme {
            Some(scheme) => annotation is None ==> scheme == SchemeV::monomorphic(TyV::Unknown),
            None => true,
        },
        forall|i: int|
            0 <= i < check_of(item, annotation, annotations).top_level_bindings.len() ==> (
            #[trigger] check_of(item, annotation, annotations).top_level_bindings[i]).1
                == SchemeV::monomorphic(TyV::Unknown),
{
    let start = checking::initial(item).annotate_all(annotations, 0);
    let (ready, demand) = start.vetted(item.module, annotation);
    let (done, scheme) = match item.module.root {
        Some(root) => ready.check_root(item, root, demand),
        None => (ready, None),
    };
    assert(done.errors.len() > 0);
    slot_exports(done, item.naming.bindings, item.naming.bindings.len());
}

/// Checks an item without annotations and without names from elsewhere.
pub fn check_item(module: &Module, naming: &ItemNaming, corpus: &StubCorpus) -> (r: ItemCheck)
    requires
        module.wf(),
    ensures
        r@ == check_of(
            (ItemV { module: *module, naming: naming@, globals: None, corpus: corpus@ }),
            None,
            Seq::empty(),
        ),
{
    let none: Option<&KnownNames> = None;
    let annotations: Vec<(ExprId, Annotation)> = Vec::new();
    assert(annotated_view(annotations@) =~= Seq::empty());
    check_item_with_annotation(module, naming, None, &annotations, none, corpus)
}

} // verus!
