//! The model of a check's state, and the steps that do not look into
//! expressions: recording, joining, generalizing and reporting.

use vstd::prelude::*;

use crate::annotations::{DefinitionV, DemandV};
use crate::calls::CallSiteV;
use crate::environment::{EnvV, SlotV, WritesV};
use crate::findings::{OriginKindV, OriginV, TypeErrorKindV, TypeErrorV};
use crate::globals::{CorpusV, GlobalsV};
use crate::hir::{Argument, ExprId, ExpressionKind, Module};
use crate::overloads::CallV;
use crate::schemes::SchemeV;
use crate::syntax::TextRange;
use crate::table;
use crate::table::{EntryV, RecordMismatchV, TableV, UnifyErrorV};
use crate::types::{Constraint, FunctionV, InferenceVar, TyV};
use crate::walk;
use crate::walk::NamingV;

verus! {

/// A composite type of this many nodes is no longer recorded: the expression
/// takes `Unknown` instead.
pub const TYPE_SIZE_CEILING: usize = 4096;

/// How deep the closing of a scheme follows a type.
pub const ERASE_DEPTH_LIMIT: usize = 64;

/// How many representations of nominals a structural look goes through.
pub const PROJECTION_LIMIT: usize = 16;

/// What a check looks at.
pub struct ItemV {
    pub module: Module,
    pub naming: NamingV,
    pub globals: Option<GlobalsV>,
    pub corpus: CorpusV,
}

impl ItemV {
    /// The scheme a read of a name sees outside the item.
    pub open spec fn scheme(self, name: Seq<char>, deferred: bool) -> Option<SchemeV> {
        match self.globals {
            Some(globals) => globals.scheme(name, deferred),
            None => None,
        }
    }

    pub open spec fn candidates(self, name: Seq<char>, deferred: bool) -> Option<Seq<SchemeV>> {
        match self.globals {
            Some(globals) => globals.candidates(name, deferred),
            None => None,
        }
    }

    pub open spec fn defined_in_project(self, name: Seq<char>, deferred: bool) -> bool {
        match self.globals {
            Some(globals) => globals.defines(name, deferred),
            None => false,
        }
    }

    /// The slot an expression resolves to.
    pub open spec fn slot_of(self, id: ExprId) -> Option<u32> {
        if self.naming.resolutions.dom().contains(id.0) {
            Some(self.naming.resolutions[id.0].0)
        } else {
            None
        }
    }

    /// The name of a read that no slot resolves.
    pub open spec fn non_local(self, id: ExprId) -> Option<Seq<char>> {
        if self.naming.non_locals.dom().contains(id.0) {
            Some(self.naming.non_locals[id.0])
        } else {
            None
        }
    }
}

impl ItemV {
    /// The site of a slot.
    pub open spec fn binding(self, slot: u32) -> Option<walk::BindingV> {
        if slot < self.naming.bindings.len() {
            Some(self.naming.bindings[slot as int])
        } else {
            None
        }
    }
}

/// The first slot whose site has the given range.
pub open spec fn slot_at(bindings: Seq<walk::BindingV>, range: TextRange, from: int) -> Option<u32>
    decreases bindings.len() - from,
{
    if 0 <= from < bindings.len() {
        if bindings[from].range == range {
            Some(from as u32)
        } else {
            slot_at(bindings, range, from + 1)
        }
    } else {
        None
    }
}

/// The state of a check.
#[verifier::ext_equal]
pub struct CheckV {
    pub table: TableV,
    /// Statement-level annotations, by annotated expression.
    pub annotations: Map<u32, DemandV>,
    pub env: EnvV,
    pub schemes: Seq<SchemeV>,
    pub recorded: Map<u32, TyV>,
    pub selected: Map<u32, usize>,
    pub masked_reads: Set<u32>,
    pub errors: Seq<TypeErrorV>,
    pub origins: Seq<OriginV>,
    /// The early return values of each enclosing function, with their ranges.
    pub return_frames: Seq<Seq<(TyV, TextRange)>>,
    /// Writes to enclosing slots that outlive the body that made them.
    pub pending: Seq<(u32, TyV)>,
    /// Slots that a closure read before any write reached them.
    pub forward_captured: Set<u32>,
    /// The join of every write to a captured slot.
    pub capture_joins: Map<u32, TyV>,
    /// Whether the current body must be checked again.
    pub repass: bool,
    /// Top-level slots whose state before the item was observed.
    pub pre_materialized: Seq<(u32, TyV)>,
    pub no_default_formals: Set<u32>,
    /// Slots that stand for names the item reads and does not bind.
    pub non_local_slots: Map<Seq<char>, u32>,
    pub next_non_local: u32,
}

/// The state of a check of which nothing is done.
pub open spec fn initial(item: ItemV) -> CheckV {
    CheckV {
        table: TableV {
            entries: Seq::empty(),
            undo: Seq::empty(),
            level: 0,
            binders: Seq::empty(),
            vocabulary: match item.globals {
                Some(globals) => globals.vocabulary,
                None => table::VocabularyV {
                    definitions: Map::empty(),
                    nominals: Seq::empty(),
                    arithmetic_classes: Set::empty(),
                },
            },
        },
        annotations: Map::empty(),
        env: EnvV::empty(),
        schemes: Seq::empty(),
        recorded: Map::empty(),
        selected: Map::empty(),
        masked_reads: Set::empty(),
        errors: Seq::empty(),
        origins: Seq::empty(),
        return_frames: Seq::empty(),
        pending: Seq::empty(),
        forward_captured: Set::empty(),
        capture_joins: Map::empty(),
        repass: false,
        pre_materialized: Seq::empty(),
        no_default_formals: Set::empty(),
        non_local_slots: Map::empty(),
        next_non_local: item.naming.bindings.len() as u32,
    }
}

/// The expression inside any parentheses.
pub open spec fn unparenthesized(m: Module, id: ExprId) -> ExprId
    decreases id.0,
{
    match m.kind_of(id) {
        ExpressionKind::Paren(inner) => if inner.0 < id.0 {
            unparenthesized(m, inner)
        } else {
            id
        },
        _ => id,
    }
}

/// The range to blame for the value an expression produces.
pub open spec fn blame_range(m: Module, id: ExprId) -> TextRange {
    m.range_of(unparenthesized(m, id))
}

/// The tagged argument of a call with a name.
pub open spec fn tagged_argument(m: Module, call: ExprId, name: Seq<char>) -> Option<Argument> {
    match m.kind_of(call) {
        ExpressionKind::Call { arguments, .. } => match walk::argument_named(
            arguments@,
            name,
            0,
        ) {
            Some(i) => Some(arguments@[i]),
            None => None,
        },
        _ => None,
    }
}

/// The expression a path of tags leads to.
pub open spec fn descend(m: Module, current: ExprId, path: Seq<Seq<char>>, from: int, to: int) -> Option<
    ExprId,
>
    decreases to - from,
{
    if from < to {
        match tagged_argument(m, current, path[from]) {
            Some(argument) => match argument.value {
                Some(value) => descend(m, value, path, from + 1, to),
                None => None,
            },
            None => None,
        }
    } else {
        Some(current)
    }
}

impl RecordMismatchV {
    pub open spec fn path(self) -> Seq<Seq<char>> {
        match self {
            RecordMismatchV::Field { path, .. } => path,
            RecordMismatchV::Missing { path, .. } => path,
            RecordMismatchV::Unexpected { path, .. } => path,
        }
    }
}

/// Where the field a record mismatch names was written, walking the path along
/// the call that built the record.
pub open spec fn record_field_range(m: Module, value: ExprId, mismatch: RecordMismatchV) -> Option<
    TextRange,
> {
    let path = mismatch.path();
    if path.len() == 0 {
        None
    } else {
        match descend(m, value, path, 0, path.len() - 1) {
            None => None,
            Some(current) => match mismatch {
                RecordMismatchV::Missing { .. } => Some(blame_range(m, current)),
                RecordMismatchV::Field { .. } => match tagged_argument(m, current, path.last()) {
                    Some(argument) => match argument.value {
                        Some(value) => Some(blame_range(m, value)),
                        None => None,
                    },
                    None => None,
                },
                RecordMismatchV::Unexpected { .. } => match tagged_argument(
                    m,
                    current,
                    path.last(),
                ) {
                    Some(argument) => match argument.name_range {
                        Some(range) => Some(range),
                        None => match argument.value {
                            Some(value) => Some(blame_range(m, value)),
                            None => None,
                        },
                    },
                    None => None,
                },
            },
        }
    }
}

/// The digits of a number.
pub open spec fn number_text(n: nat) -> Seq<char>
    decreases n,
{
    if n < 10 {
        seq![digit_char(n)]
    } else {
        number_text(n / 10).push(digit_char(n % 10))
    }
}

pub open spec fn digit_char(n: nat) -> char {
    if n == 0 {
        '0'
    } else if n == 1 {
        '1'
    } else if n == 2 {
        '2'
    } else if n == 3 {
        '3'
    } else if n == 4 {
        '4'
    } else if n == 5 {
        '5'
    } else if n == 6 {
        '6'
    } else if n == 7 {
        '7'
    } else if n == 8 {
        '8'
    } else {
        '9'
    }
}

/// The letters of generalized binders, in order.
pub open spec fn binder_letter(n: nat) -> char {
    if n == 0 {
        'T'
    } else if n == 1 {
        'U'
    } else if n == 2 {
        'V'
    } else if n == 3 {
        'W'
    } else if n == 4 {
        'X'
    } else if n == 5 {
        'Y'
    } else {
        'Z'
    }
}

/// The name of a scheme's binder by its place: a letter, and a number from the
/// second round of letters on.
pub open spec fn binder_name(place: nat) -> Seq<char> {
    let letter = seq![binder_letter((place % 256) % 7)];
    if place / 7 == 0 {
        letter
    } else {
        letter + number_text(place / 7)
    }
}

/// The variables a generalization has quantified so far, with their
/// constraints.
pub type BoundVarsV = Seq<(InferenceVar, Constraint)>;

/// The place of a variable among those quantified.
pub open spec fn bound_place(bound: BoundVarsV, var: InferenceVar, from: int) -> Option<int>
    decreases bound.len() - from,
{
    if 0 <= from < bound.len() {
        if bound[from].0 == var {
            Some(from)
        } else {
            bound_place(bound, var, from + 1)
        }
    } else {
        None
    }
}

/// The binders a generalization introduced.
pub open spec fn bound_binders(bound: BoundVarsV) -> Seq<(Seq<char>, Constraint)> {
    Seq::new(bound.len(), |i: int| (binder_name(i as nat), bound[i].1))
}

/// What closing a scheme has gathered: the binders, and the rigid that stands
/// for each generalized variable.
pub struct CloserV {
    pub binders: Seq<(Seq<char>, Constraint)>,
    pub generalized: Map<u32, Seq<char>>,
}

/// The rigid that stands for a variable.
pub open spec fn generalized_name(
    generalized: Map<u32, Seq<char>>,
    var: InferenceVar,
) -> Option<Seq<char>> {
    if generalized.dom().contains(var.0) {
        Some(generalized[var.0])
    } else {
        None
    }
}

/// Whether a name is one of a scheme's binders.
pub open spec fn binds(binders: Seq<(Seq<char>, Constraint)>, name: Seq<char>) -> bool {
    exists|i: int| 0 <= i < binders.len() && (#[trigger] binders[i]).0 == name
}

pub open spec fn residual_name(ordinal: nat) -> Seq<char> {
    seq!['R'] + number_text(ordinal)
}

/// The first ordinal from `ordinal` on whose name is free. Among one more name
/// than there are binders one is free.
pub open spec fn free_ordinal(
    binders: Seq<(Seq<char>, Constraint)>,
    ordinal: nat,
    tries: nat,
) -> nat
    decreases tries,
{
    if tries == 0 || !binds(binders, residual_name(ordinal)) {
        ordinal
    } else {
        free_ordinal(binders, ordinal + 1, (tries - 1) as nat)
    }
}

impl TableV {
    /// The type projected through the representations of nominals.
    pub open spec fn projected(self, current: TyV, steps: nat) -> TyV
        decreases steps,
    {
        if steps == 0 {
            current
        } else {
            match current {
                TyV::Named(name, arguments) => if self.undeclared(current) {
                    TyV::Unknown
                } else {
                    match self.representation(name, arguments) {
                        Some(representation) => self.projected(
                            self.resolve(representation),
                            (steps - 1) as nat,
                        ),
                        None => current,
                    }
                },
                _ => current,
            }
        }
    }

    /// The structural shape of a type: resolved, and through its nominal.
    pub open spec fn structural(self, ty: TyV) -> TyV {
        self.projected(self.resolve(ty), PROJECTION_LIMIT as nat)
    }

    /// The type with the unbound variables above the current level replaced by
    /// binders.
    pub open spec fn abstracted(self, ty: TyV, bound: BoundVarsV) -> (TyV, BoundVarsV)
        decreases ty, 1int, 0int,
    {
        match ty {
            TyV::Var(var) => {
                let root = self.find(var);
                match bound_place(bound, root, 0) {
                    Some(place) => (TyV::Rigid(binder_name(place as nat)), bound),
                    None => if self.holds(root) {
                        match self.entries[root.0 as int] {
                            EntryV::Unbound { level, constraint } => if level <= self.level {
                                (ty, bound)
                            } else {
                                (
                                    TyV::Rigid(binder_name(bound.len())),
                                    bound.push((root, constraint)),
                                )
                            },
                            _ => (ty, bound),
                        }
                    } else {
                        (ty, bound)
                    },
                }
            },
            _ => {
                let (kids, after) = self.abstracted_children(ty, 0, bound, Seq::empty());
                (ty.with_children(kids), after)
            },
        }
    }

    pub open spec fn abstracted_children(
        self,
        ty: TyV,
        from: int,
        bound: BoundVarsV,
        done: Seq<TyV>,
    ) -> (Seq<TyV>, BoundVarsV)
        decreases ty, 0int, ty.children().len() - from,
    {
        if 0 <= from < ty.children().len() {
            proof {
                crate::types::child_decreases(ty, from);
            }
            let (child, after) = self.abstracted(ty.children()[from], bound);
            self.abstracted_children(ty, from + 1, after, done.push(child))
        } else {
            (done, bound)
        }
    }

    /// The join of two types: what unifies them, or their union. `NULL` joins by
    /// union alone.
    pub open spec fn join_types(self, left: TyV, right: TyV) -> (TableV, TyV) {
        let left_resolved = self.resolve(left);
        let right_resolved = self.resolve(right);
        let union = TyV::union_of(seq![left_resolved, right_resolved]);
        if left_resolved is Null || right_resolved is Null {
            (self, union)
        } else {
            let (table, outcome) = self.unify(left, right);
            if outcome is Ok {
                (table, left)
            } else {
                (self, union)
            }
        }
    }

    /// The value of a branch whose two arms both fall through: their union where
    /// only one of them is still open without a constraint.
    pub open spec fn join_branch_values(self, left: TyV, right: TyV) -> (TableV, TyV) {
        let left_resolved = self.resolve(left);
        let right_resolved = self.resolve(right);
        let left_open = self.has_unbound(left_resolved);
        let right_open = self.has_unbound(right_resolved);
        let open = if left_open {
            left_resolved
        } else {
            right_resolved
        };
        if left_open != right_open && self.open_constraint(open) == Some(
            Constraint::Unconstrained,
        ) {
            (self, TyV::union_of(seq![left_resolved, right_resolved]))
        } else {
            self.join_types(left, right)
        }
    }

    /// Fresh variables for the binders of a scheme, from one on.
    pub open spec fn fresh_binders(
        self,
        binders: Seq<(Seq<char>, Constraint)>,
        from: int,
        substitution: Seq<(Seq<char>, TyV)>,
    ) -> (TableV, Seq<(Seq<char>, TyV)>)
        decreases binders.len() - from,
    {
        if 0 <= from < binders.len() {
            self.with_fresh(binders[from].1).fresh_binders(
                binders,
                from + 1,
                substitution.push((binders[from].0, TyV::Var(self.next_var()))),
            )
        } else {
            (self, substitution)
        }
    }

    /// The type with fresh variables in the places of the given binders.
    pub open spec fn instantiate(self, binders: Seq<(Seq<char>, Constraint)>, body: TyV) -> (
        TableV,
        TyV,
    ) {
        let (table, substitution) = self.fresh_binders(binders, 0, Seq::empty());
        (table, body.substitute(substitution))
    }

    /// The scheme of a type: its variables above the current level quantified.
    pub open spec fn generalize(self, ty: TyV) -> SchemeV {
        let (body, bound) = self.abstracted(self.resolve(ty), Seq::empty());
        SchemeV { binders: bound_binders(bound), body }
    }

    /// The type without inference variables: bound ones are replaced, unbound
    /// ones that carry a constraint become binders, and the others are unknown.
    pub open spec fn closed_at(self, ty: TyV, depth: nat, closer: CloserV) -> (TyV, CloserV)
        decreases ERASE_DEPTH_LIMIT - depth, 1int, 0int,
    {
        if depth >= ERASE_DEPTH_LIMIT {
            (TyV::Unknown, closer)
        } else {
            let shallow = self.shallow(ty);
            match shallow {
                TyV::Var(var) => self.residual(var, closer),
                _ => {
                    let (kids, after) = self.closed_children(
                        shallow.children(),
                        0,
                        depth + 1,
                        closer,
                        Seq::empty(),
                    );
                    (shallow.with_children(kids), after)
                },
            }
        }
    }

    pub open spec fn closed_children(
        self,
        types: Seq<TyV>,
        from: int,
        depth: nat,
        closer: CloserV,
        done: Seq<TyV>,
    ) -> (Seq<TyV>, CloserV)
        decreases ERASE_DEPTH_LIMIT - depth, 2int, types.len() - from,
    {
        if 0 <= from < types.len() {
            let (child, after) = self.closed_at(types[from], depth, closer);
            self.closed_children(types, from + 1, depth, after, done.push(child))
        } else {
            (done, closer)
        }
    }

    /// What an unbound variable becomes where a scheme is closed.
    pub open spec fn residual(self, var: InferenceVar, closer: CloserV) -> (TyV, CloserV) {
        let root = self.find(var);
        if !self.holds(root) {
            (TyV::Unknown, closer)
        } else {
            match self.entries[root.0 as int] {
                EntryV::Unbound { constraint, .. } => if constraint == Constraint::Unconstrained {
                    (TyV::Unknown, closer)
                } else {
                    match generalized_name(closer.generalized, var) {
                        Some(name) => (TyV::Rigid(name), closer),
                        None => {
                            let name = residual_name(
                                free_ordinal(
                                    closer.binders,
                                    closer.binders.len() + 1,
                                    closer.binders.len() + 1,
                                ),
                            );
                            (
                                TyV::Rigid(name),
                                CloserV {
                                    binders: closer.binders.push((name, constraint)),
                                    generalized: closer.generalized.insert(var.0, name),
                                },
                            )
                        },
                    }
                },
                _ => (TyV::Unknown, closer),
            }
        }
    }

    /// A scheme as it may leave the item: without inference variables.
    pub open spec fn close_scheme(self, scheme: SchemeV) -> SchemeV {
        let (body, closer) = self.closed_at(
            scheme.body,
            0,
            CloserV { binders: scheme.binders, generalized: Map::empty() },
        );
        SchemeV { binders: closer.binders, body }
    }
}

/// Whether a composite type is too large to record.
pub open spec fn oversized(ty: TyV) -> bool {
    (ty is Record || ty is Function || ty is Union || ty is Tuple) && ty.size()
        >= TYPE_SIZE_CEILING
}

/// The type that is recorded for an inferred one.
pub open spec fn recordable(ty: TyV) -> TyV {
    if oversized(ty) {
        TyV::Unknown
    } else {
        ty
    }
}

/// The value a list of pairs gives a slot.
pub open spec fn slot_value(pairs: Seq<(u32, TyV)>, slot: u32, from: int) -> Option<int>
    decreases pairs.len() - from,
{
    if 0 <= from < pairs.len() {
        if pairs[from].0 == slot {
            Some(from)
        } else {
            slot_value(pairs, slot, from + 1)
        }
    } else {
        None
    }
}

/// A list of pairs in which a slot has a value, in its place where it has one.
pub open spec fn with_slot_value(pairs: Seq<(u32, TyV)>, slot: u32, ty: TyV) -> Seq<(u32, TyV)> {
    match slot_value(pairs, slot, 0) {
        Some(i) => pairs.update(i, (slot, ty)),
        None => pairs.push((slot, ty)),
    }
}

/// The slot a name has among named slots.
pub open spec fn named_slot(slots: Map<Seq<char>, u32>, name: Seq<char>) -> Option<u32> {
    if slots.dom().contains(name) {
        Some(slots[name])
    } else {
        None
    }
}

/// A mismatch of two types, narrowed to one field where both are records.
pub open spec fn type_mismatch(
    t: TableV,
    m: Module,
    range: TextRange,
    expected: TyV,
    found: TyV,
    value: Option<ExprId>,
) -> TypeErrorV {
    let expected = t.resolve(expected);
    let found = t.resolve(found);
    match t.explain_record(found, expected) {
        None => TypeErrorV { range, kind: TypeErrorKindV::Mismatch { expected, found } },
        Some(mismatch) => TypeErrorV {
            range: match value {
                Some(value) => match record_field_range(m, value, mismatch) {
                    Some(narrowed) => narrowed,
                    None => range,
                },
                None => range,
            },
            kind: TypeErrorKindV::RecordShape { mismatch },
        },
    }
}

/// What is reported where two types do not unify.
pub open spec fn unify_finding(
    t: TableV,
    m: Module,
    range: TextRange,
    error: UnifyErrorV,
) -> TypeErrorV {
    match error {
        UnifyErrorV::Mismatch(expected, found) => type_mismatch(
            t,
            m,
            range,
            expected,
            found,
            None,
        ),
        UnifyErrorV::Occurs(variable, container) => TypeErrorV {
            range,
            kind: TypeErrorKindV::InfiniteType {
                variable: TyV::Var(variable),
                container: t.resolve(container),
            },
        },
        UnifyErrorV::ConstraintRejected(constraint, found) => TypeErrorV {
            range,
            kind: TypeErrorKindV::ConstraintViolation { constraint, found: t.resolve(found) },
        },
    }
}

impl CheckV {
    pub open spec fn with_table(self, table: TableV) -> CheckV {
        CheckV { table, ..self }
    }

    pub open spec fn with_env(self, env: EnvV) -> CheckV {
        CheckV { env, ..self }
    }

    pub open spec fn set_slot(self, slot: u32, entry: SlotV) -> CheckV {
        self.with_env(self.env.set(slot, entry))
    }

    pub open spec fn rolled_back(self, mark: nat) -> CheckV {
        self.with_env(self.env.rolled_back(mark))
    }

    /// Reports a finding.
    pub open spec fn report(self, error: TypeErrorV) -> CheckV {
        CheckV { errors: self.errors.push(error), ..self }
    }

    pub open spec fn fail(self, range: TextRange, kind: TypeErrorKindV) -> CheckV {
        self.report(TypeErrorV { range, kind })
    }

    pub open spec fn report_all(self, errors: Seq<TypeErrorV>) -> CheckV {
        CheckV { errors: self.errors + errors, ..self }
    }

    /// Drops the findings and origins past two marks.
    pub open spec fn cut(self, errors: nat, origins: nat) -> CheckV {
        CheckV {
            errors: if errors <= self.errors.len() {
                self.errors.subrange(0, errors as int)
            } else {
                self.errors
            },
            origins: if origins <= self.origins.len() {
                self.origins.subrange(0, origins as int)
            } else {
                self.origins
            },
            ..self
        }
    }

    /// Records the type of an expression.
    pub open spec fn record(self, id: ExprId, ty: TyV) -> CheckV {
        CheckV { recorded: self.recorded.insert(id.0, recordable(ty)), ..self }
    }

    /// Records a type as it is.
    pub open spec fn note(self, id: ExprId, ty: TyV) -> CheckV {
        CheckV { recorded: self.recorded.insert(id.0, ty), ..self }
    }

    pub open spec fn recorded_ty(self, id: ExprId) -> TyV {
        if self.recorded.dom().contains(id.0) {
            self.recorded[id.0]
        } else {
            TyV::Unknown
        }
    }

    /// Records where an undetermined type was introduced, once.
    pub open spec fn origin(self, m: Module, expression: ExprId, kind: OriginKindV) -> CheckV {
        let origin = OriginV { expression, range: m.range_of(expression), kind };
        if self.origins.contains(origin) {
            self
        } else {
            CheckV { origins: self.origins.push(origin), ..self }
        }
    }

    pub open spec fn unsupported(self, m: Module, expression: ExprId) -> CheckV {
        self.origin(m, expression, OriginKindV::UnsupportedConstruct)
    }

    pub open spec fn fresh(self, constraint: Constraint) -> (CheckV, TyV) {
        (self.with_table(self.table.with_fresh(constraint)), TyV::Var(self.table.next_var()))
    }

    /// Reports why two types did not unify.
    pub open spec fn report_unify(self, m: Module, range: TextRange, error: UnifyErrorV) -> CheckV {
        self.report(unify_finding(self.table, m, range, error))
    }

    pub open spec fn unify_or_report(
        self,
        m: Module,
        range: TextRange,
        expected: TyV,
        found: TyV,
    ) -> CheckV {
        let (table, outcome) = self.table.unify(expected, found);
        match outcome {
            Ok(()) => self.with_table(table),
            Err(error) => self.with_table(table).report_unify(m, range, error),
        }
    }

    pub open spec fn join_types(self, left: TyV, right: TyV) -> (CheckV, TyV) {
        let (table, ty) = self.table.join_types(left, right);
        (self.with_table(table), ty)
    }

    pub open spec fn join_branch_values(self, left: TyV, right: TyV) -> (CheckV, TyV) {
        let (table, ty) = self.table.join_branch_values(left, right);
        (self.with_table(table), ty)
    }

    pub open spec fn push_frame(self) -> CheckV {
        CheckV { return_frames: self.return_frames.push(Seq::empty()), ..self }
    }

    /// The early returns of the innermost frame, which is left.
    pub open spec fn pop_frame(self) -> (CheckV, Seq<(TyV, TextRange)>) {
        if self.return_frames.len() == 0 {
            (self, Seq::empty())
        } else {
            (
                CheckV { return_frames: self.return_frames.drop_last(), ..self },
                self.return_frames.last(),
            )
        }
    }

    /// An early return of the innermost frame, where there is one.
    pub open spec fn push_return(self, ty: TyV, range: TextRange) -> CheckV {
        if self.return_frames.len() == 0 {
            self
        } else {
            CheckV {
                return_frames: self.return_frames.update(
                    self.return_frames.len() - 1,
                    self.return_frames.last().push((ty, range)),
                ),
                ..self
            }
        }
    }

    pub open spec fn clear_frame(self) -> CheckV {
        if self.return_frames.len() == 0 {
            self
        } else {
            CheckV {
                return_frames: self.return_frames.update(
                    self.return_frames.len() - 1,
                    Seq::empty(),
                ),
                ..self
            }
        }
    }

    pub open spec fn truncate_pending(self, count: nat) -> CheckV {
        CheckV {
            pending: if count <= self.pending.len() {
                self.pending.subrange(0, count as int)
            } else {
                self.pending
            },
            ..self
        }
    }

    /// A new slot for a name the item does not bind.
    pub open spec fn mint_slot(self, name: Seq<char>) -> (CheckV, u32) {
        (
            CheckV {
                non_local_slots: self.non_local_slots.insert(name, self.next_non_local),
                next_non_local: (self.next_non_local + 1) as u32,
                ..self
            },
            self.next_non_local,
        )
    }

    /// One argument against one formal's type.
    pub open spec fn check_argument(
        self,
        m: Module,
        expected: TyV,
        found: TyV,
        range: TextRange,
        whole_double: bool,
        value: Option<ExprId>,
    ) -> (CheckV, Option<TypeErrorV>) {
        let (table, error) = self.table.check_argument(
            CallSiteV { module: m, strict: false },
            expected,
            found,
            range,
            whole_double,
            value,
        );
        (self.with_table(table), error)
    }

    /// The findings of a call against a signature.
    pub open spec fn match_arguments(self, call: CallV, function: FunctionV) -> (
        CheckV,
        Seq<TypeErrorV>,
    ) {
        let (table, found) = self.table.match_arguments(
            CallSiteV { module: call.module, strict: false },
            call.callee_range,
            function,
            call.arguments,
        );
        (self.with_table(table), found)
    }

    /// A call through a callee's type.
    pub open spec fn dispatch_call(self, call: CallV, callee: TyV) -> (CheckV, TyV) {
        let (table, found, ty) = self.table.dispatch(call, callee);
        (self.with_table(table).report_all(found), ty)
    }

    /// The scheme at a place of the arena.
    pub open spec fn scheme_at(self, index: u32) -> SchemeV {
        if index < self.schemes.len() {
            self.schemes[index as int]
        } else {
            SchemeV::monomorphic(TyV::Unknown)
        }
    }

    pub open spec fn push_scheme(self, scheme: SchemeV) -> (CheckV, u32) {
        (
            CheckV { schemes: self.schemes.push(scheme), ..self },
            self.schemes.len() as u32,
        )
    }

    /// The type with fresh variables in the places of the given binders.
    pub open spec fn instantiate_binders(
        self,
        binders: Seq<(Seq<char>, Constraint)>,
        body: TyV,
    ) -> (CheckV, TyV) {
        let (table, ty) = self.table.instantiate(binders, body);
        (self.with_table(table), ty)
    }

    pub open spec fn instantiate(self, scheme: SchemeV) -> (CheckV, TyV) {
        self.instantiate_binders(scheme.binders, scheme.body)
    }

    /// One arbitrary instantiation of the rigid binders in scope.
    pub open spec fn instantiate_rigids(self, ty: TyV) -> (CheckV, TyV) {
        if self.table.binders.len() == 0 {
            (self, ty)
        } else {
            self.instantiate_binders(self.table.binders, ty)
        }
    }

    /// What a slot holds, as a type.
    pub open spec fn entry_monotype(self, entry: SlotV) -> (CheckV, TyV) {
        match entry {
            SlotV::Mono(ty) => (self, ty),
            SlotV::MissingFormal(ty) => (self, ty),
            SlotV::Scheme(index) => self.instantiate(self.scheme_at(index)),
        }
    }

    /// The entry of a slot where a branch that wrote it meets the current state.
    /// The mark of a missing formal is local to its branch, and a function slot
    /// that was rewritten is no longer polymorphic.
    pub open spec fn joined_entry(self, slot: u32, written: Option<SlotV>) -> (
        CheckV,
        Option<SlotV>,
    ) {
        let branch = match written {
            Some(SlotV::MissingFormal(ty)) => Some(SlotV::Mono(ty)),
            _ => written,
        };
        match (self.env.get(slot), branch) {
            (_, None) => (self, None),
            (None, Some(entry)) => (self, Some(entry)),
            (Some(a), Some(b)) => if a == b {
                (self, Some(a))
            } else {
                match (a, b) {
                    (SlotV::Mono(left), SlotV::Mono(right)) => {
                        let (next, ty) = self.join_types(left, right);
                        (next, Some(SlotV::Mono(ty)))
                    },
                    _ => {
                        let (first, left) = self.entry_monotype(a);
                        let (second, right) = first.entry_monotype(b);
                        (
                            second,
                            Some(
                                SlotV::Mono(
                                    TyV::union_of(
                                        seq![
                                            second.table.resolve(left),
                                            second.table.resolve(right),
                                        ],
                                    ),
                                ),
                            ),
                        )
                    },
                }
            },
        }
    }

    /// One branch write joined into the state, and whether that changed it.
    pub open spec fn join_write(self, slot: u32, written: Option<SlotV>) -> (CheckV, bool) {
        let (next, joined) = self.joined_entry(slot, written);
        match joined {
            Some(entry) => if self.env.get(slot) != Some(entry) {
                (next.set_slot(slot, entry), true)
            } else {
                (next, false)
            },
            None => (next, false),
        }
    }

    /// Branch writes joined into the state, and the slots they changed.
    pub open spec fn join_writes(self, writes: WritesV, from: int, changed: Seq<u32>) -> (
        CheckV,
        Seq<u32>,
    )
        decreases writes.len() - from,
    {
        if 0 <= from < writes.len() {
            let (next, changes) = self.join_write(writes[from].0, writes[from].1);
            next.join_writes(
                writes,
                from + 1,
                if changes {
                    changed.push(writes[from].0)
                } else {
                    changed
                },
            )
        } else {
            (self, changed)
        }
    }

    /// The writes of a branch as the state itself.
    pub open spec fn adopt_writes(self, writes: WritesV, from: int) -> CheckV
        decreases writes.len() - from,
    {
        if 0 <= from < writes.len() {
            match writes[from].1 {
                Some(entry) => self.set_slot(writes[from].0, entry),
                None => self,
            }.adopt_writes(writes, from + 1)
        } else {
            self
        }
    }

    pub open spec fn capture_join(self, slot: u32) -> Option<TyV> {
        if self.capture_joins.dom().contains(slot) {
            Some(self.capture_joins[slot])
        } else {
            None
        }
    }

    /// Keeps the join of a captured slot's writes; a write that completes a join
    /// some closure already read asks for another pass. A join that has grown too
    /// large is unknown.
    pub open spec fn note_captured_write(self, n: NamingV, slot: u32, value: TyV) -> CheckV {
        if !n.captured_slots.contains(slot) {
            self
        } else {
            let written = self.table.resolve(value).erased();
            let (next, whole) = match self.capture_join(slot) {
                Some(existing) => if existing != written {
                    self.join_types(existing, written)
                } else {
                    (self, existing)
                },
                None => (self, written),
            };
            let joined = recordable(whole);
            CheckV {
                capture_joins: next.capture_joins.insert(slot, joined),
                repass: next.repass || (self.capture_join(slot) != Some(joined)
                    && self.forward_captured.contains(slot)),
                ..next
            }
        }
    }

    /// Joins the type a `<<-` wrote into the entry of its slot.
    pub open spec fn join_enclosing_write(self, slot: u32, written: TyV) -> CheckV {
        let (next, ty) = match self.env.get(slot) {
            Some(SlotV::Mono(existing)) => if existing != written {
                self.join_types(existing, written)
            } else {
                (self, existing)
            },
            Some(SlotV::Scheme(index)) => {
                let (next, existing) = self.instantiate(self.scheme_at(index));
                next.join_types(existing, written)
            },
            Some(SlotV::MissingFormal(existing)) => self.join_types(existing, written),
            None => (self, written),
        };
        next.set_slot(slot, SlotV::Mono(ty))
    }

    /// Joins the pending writes from one on into the state again.
    pub open spec fn reapply(self, writes: Seq<(u32, TyV)>, from: int) -> CheckV
        decreases writes.len() - from,
    {
        if 0 <= from < writes.len() {
            self.join_enclosing_write(writes[from].0, writes[from].1).reapply(writes, from + 1)
        } else {
            self
        }
    }

    /// What was observed of slots before the item, where they hold nothing.
    pub open spec fn establish(self, observed: Seq<(u32, TyV)>, from: int) -> CheckV
        decreases observed.len() - from,
    {
        if 0 <= from < observed.len() {
            let (slot, ty) = observed[from];
            (if self.env.get(slot) is None {
                self.set_slot(slot, SlotV::Mono(ty))
            } else {
                self
            }).establish(observed, from + 1)
        } else {
            self
        }
    }

    /// Whether one may flow into another.
    pub open spec fn compatible(self, actual: TyV, expected: TyV) -> (CheckV, bool) {
        let (table, fits) = self.table.compatible(actual, expected);
        (self.with_table(table), fits)
    }

    /// Demands that a flexible operand be numeric.
    pub open spec fn constrain_numeric(self, m: Module, range: TextRange, ty: TyV) -> CheckV {
        match ty {
            TyV::Var(var) => {
                let (table, outcome) = self.table.constrain(var, Constraint::Numeric);
                match outcome {
                    Ok(()) => self.with_table(table),
                    Err(error) => self.with_table(table).report_unify(m, range, error),
                }
            },
            TyV::Rigid(name) => if promises_number(
                table::binder_constraint(self.table.binders, name),
            ) {
                self
            } else {
                self.fail(
                    range,
                    TypeErrorKindV::ConstraintViolation {
                        constraint: Constraint::Numeric,
                        found: ty,
                    },
                )
            },
            _ => self,
        }
    }

    /// A level further in.
    pub open spec fn deeper(self) -> CheckV {
        self.with_table(
            TableV {
                level: if self.table.level < u32::MAX {
                    (self.table.level + 1) as u32
                } else {
                    self.table.level
                },
                ..self.table
            },
        )
    }

    pub open spec fn at_level(self, level: u32) -> CheckV {
        self.with_table(TableV { level, ..self.table })
    }

    /// Declares binders rigid, from one on.
    pub open spec fn declare(self, binders: Seq<(Seq<char>, Constraint)>, from: int) -> CheckV
        decreases binders.len() - from,
    {
        if 0 <= from < binders.len() {
            self.with_table(
                TableV {
                    binders: table::with_binder(
                        self.table.binders,
                        binders[from].0,
                        binders[from].1,
                    ),
                    ..self.table
                },
            ).declare(binders, from + 1)
        } else {
            self
        }
    }

    /// `@new`: the value checks against the nominal's representation, and the
    /// binding takes the nominal. A generic nominal that is not applied infers
    /// its arguments.
    pub open spec fn new_nominal(
        self,
        m: Module,
        name: Seq<char>,
        given: Seq<TyV>,
        value: ExprId,
        value_ty: TyV,
    ) -> (CheckV, SchemeV) {
        match self.table.definition(name) {
            None => (self, self.table.generalize(value_ty)),
            Some(definition) => if definition.alias {
                (self, self.table.generalize(value_ty))
            } else {
                let inner = self.deeper();
                let (ready, arguments) = if given.len() == definition.parameters.len() {
                    (inner, given)
                } else {
                    inner.fresh_arguments(definition.parameters.len(), Seq::empty())
                };
                let checked = if definition.body is Unknown {
                    ready
                } else {
                    ready.check_value(
                        m,
                        definition.apply(arguments),
                        ready.table.resolve(value_ty),
                        value,
                    )
                };
                let outer = checked.at_level(self.table.level);
                (outer, outer.table.generalize(TyV::Named(name, arguments)))
            },
        }
    }

    /// So many fresh variables.
    pub open spec fn fresh_arguments(self, count: nat, done: Seq<TyV>) -> (CheckV, Seq<TyV>)
        decreases count - done.len(),
    {
        if done.len() < count {
            let (next, ty) = self.fresh(Constraint::Unconstrained);
            next.fresh_arguments(count, done.push(ty))
        } else {
            (self, done)
        }
    }

    /// Checks that a value fits a declared type, blaming the value.
    pub open spec fn check_value(self, m: Module, expected: TyV, found: TyV, value: ExprId) -> CheckV {
        let (next, fits) = self.compatible(found, expected);
        if fits {
            next
        } else {
            next.report(
                type_mismatch(
                    next.table,
                    m,
                    blame_range(m, value),
                    expected,
                    found,
                    Some(value),
                ),
            )
        }
    }

    /// Applies a statement-level annotation to the value of an expression.
    pub open spec fn apply_annotation(
        self,
        m: Module,
        annotated: ExprId,
        value: ExprId,
        value_ty: TyV,
    ) -> (CheckV, TyV) {
        if !self.annotations.dom().contains(annotated.0) {
            (self, value_ty)
        } else {
            let demand = self.annotations[annotated.0];
            match demand.introduced {
                Some((name, arguments)) => {
                    let (next, scheme) = self.new_nominal(m, name, arguments, value, value_ty);
                    next.instantiate(scheme)
                },
                None => match demand.declared {
                    None => (self, value_ty),
                    Some(declared) => if demand.trusted {
                        (self, declared.body)
                    } else if demand.if_unknown {
                        let resolved = self.table.resolve(value_ty);
                        if resolved is Unknown {
                            (self, declared.body)
                        } else {
                            (
                                self.fail(
                                    blame_range(m, value),
                                    TypeErrorKindV::KnownTypeUnderIfUnknown { found: resolved },
                                ),
                                resolved,
                            )
                        }
                    } else if declared.body is Unknown || declared.body is Any {
                        (self, declared.body)
                    } else {
                        (
                            self.check_value(
                                m,
                                declared.body,
                                self.table.resolve(value_ty),
                                value,
                            ),
                            declared.body,
                        )
                    },
                },
            }
        }
    }

    /// The scheme a statement-level annotation declares for a function
    /// expression, where it declares one to check against.
    pub open spec fn declared_function(self, annotated: ExprId) -> Option<SchemeV> {
        if !self.annotations.dom().contains(annotated.0) {
            None
        } else {
            let demand = self.annotations[annotated.0];
            if demand.trusted || demand.if_unknown || demand.introduced is Some {
                None
            } else {
                match demand.declared {
                    Some(declared) => if declared.body is Function {
                        Some(declared)
                    } else {
                        None
                    },
                    None => None,
                }
            }
        }
    }
}

/// Whether a binder's declaration promises numbers.
pub open spec fn promises_number(constraint: Option<Constraint>) -> bool {
    constraint == Some(Constraint::Numeric) || constraint == Some(Constraint::ScalarNumeric)
}

/// The first alias whose expansion re-enters itself below a type. A name is
/// expanding only while its own body is walked, so two mentions of one alias
/// side by side are no cycle. Nominals are not expanded. Every expansion adds a
/// declared name, so there are no more than declarations.
pub open spec fn alias_cycle(
    definitions: Map<Seq<char>, DefinitionV>,
    ty: TyV,
    expanding: Seq<Seq<char>>,
    expansions: nat,
) -> Option<Seq<char>>
    decreases expansions, ty, 1int, 0int,
{
    match alias_cycle_in(definitions, ty, 0, expanding, expansions) {
        Some(name) => Some(name),
        None => match ty {
            TyV::Named(name, _) => match table::declared(definitions, name) {
                Some(definition) => if !definition.alias {
                    None
                } else if expanding.contains(name) {
                    Some(name)
                } else if expansions == 0 {
                    None
                } else {
                    alias_cycle(
                        definitions,
                        definition.body,
                        expanding.push(name),
                        (expansions - 1) as nat,
                    )
                },
                None => None,
            },
            _ => None,
        },
    }
}

/// The types an alias expansion walks through: no default of a formal counts.
pub open spec fn alias_children(ty: TyV) -> Seq<TyV> {
    match ty {
        TyV::Function(function) => function.signature_types(),
        _ => ty.children(),
    }
}

pub open spec fn alias_cycle_in(
    definitions: Map<Seq<char>, DefinitionV>,
    ty: TyV,
    from: int,
    expanding: Seq<Seq<char>>,
    expansions: nat,
) -> Option<Seq<char>>
    decreases expansions, ty, 0int, alias_children(ty).len() - from,
{
    if 0 <= from < alias_children(ty).len() {
        proof {
            alias_child_decreases(ty, from);
        }
        match alias_cycle(definitions, alias_children(ty)[from], expanding, expansions) {
            Some(name) => Some(name),
            None => alias_cycle_in(definitions, ty, from + 1, expanding, expansions),
        }
    } else {
        None
    }
}

pub proof fn alias_child_decreases(ty: TyV, i: int)
    requires
        0 <= i < alias_children(ty).len(),
    ensures
        decreases_to!(ty => alias_children(ty)[i]),
{
    match ty {
        TyV::Function(function) => {
            let f = *function;
            assert(decreases_to!(ty => function));
            assert(decreases_to!(f => f.positional));
            assert(decreases_to!(f => f.named));
            assert(decreases_to!(f => f.ret));
            let p = f.positional.len();
            let n = f.named.len();
            if i < p {
                assert(alias_children(ty)[i] == f.positional[i]);
                assert(decreases_to!(f.positional => f.positional[i]));
            } else if i < p + n {
                assert(alias_children(ty)[i] == f.named[i - p].ty);
                assert(decreases_to!(f.named => f.named[i - p]));
                assert(decreases_to!(f.named[i - p] => f.named[i - p].ty));
            } else if i < alias_children(ty).len() - 1 {
                assert(decreases_to!(f => f.variadic));
                assert(decreases_to!(f.variadic => f.variadic->0));
                assert(decreases_to!(f.variadic->0 => f.variadic->0.element));
                assert(alias_children(ty)[i] == f.variadic->0.element);
            } else {
                assert(alias_children(ty)[i] == f.ret);
            }
        },
        _ => {
            crate::types::child_decreases(ty, i);
        },
    }
}

} // verus!
