//! The parts of inference that look into no expression's own parts.

use vstd::prelude::*;

use crate::access::{Access, Key};
use crate::blame::blame_range;
use crate::calls::CallArgument;
use crate::checker::Checker;
use crate::environment;
use crate::environment::EnvEntry;
use crate::findings::{StrictOriginKind, TypeErrorKind};
use crate::globals::{validated_namespace_name, GlobalEnv};
use crate::hir;
use crate::hir::{Argument, ExprId, ExpressionKind, Module};
use crate::infer::contains_text;
use crate::inference;
use crate::numbers::integer_literal_position;
use crate::operands;
use crate::operands::{data_table_keeps_class, find_named, find_unnamed, is_data_table};
use crate::overloads::{no_matching_overload, Call};
use crate::replacing::string_literal;
use crate::schemes;
use crate::schemes::TypeScheme;
use crate::syntax::TextRange;
use crate::type_ops::{any, unknown};
use crate::types;
use crate::types::{Name, RecordField, Ty, TyKind};

verus! {

broadcast use crate::types::group_type_views;

pub fn drop_slot(writes: Vec<(u32, Option<EnvEntry>)>, slot: Option<u32>) -> (r: Vec<
    (u32, Option<EnvEntry>),
>)
    ensures
        environment::writes_view(r@) == inference::without_slot(
            environment::writes_view(writes@),
            slot,
            writes@.len(),
        ),
{
    let mut kept: Vec<(u32, Option<EnvEntry>)> = Vec::new();
    assert(environment::writes_view(kept@) =~= Seq::empty());
    let ghost all = environment::writes_view(writes@);
    let mut i: usize = 0;
    while i < writes.len()
        invariant
            i <= writes.len(),
            all == environment::writes_view(writes@),
            environment::writes_view(kept@) == inference::without_slot(all, slot, i as nat),
        decreases writes.len() - i,
    {
        let write = &writes[i];
        assert(all[i as int] == (write.0, environment::opt_slot(write.1)));
        let dropped = match slot {
            Some(slot) => slot == write.0,
            None => false,
        };
        if !dropped {
            let ghost before = environment::writes_view(kept@);
            let entry = match &write.1 {
                Some(entry) => Some(entry.clone()),
                None => None,
            };
            kept.push((write.0, entry));
            assert(environment::writes_view(kept@) =~= before.push(all[i as int]));
        }
        i += 1;
    }
    kept
}

/// An argument as a call sees it.
pub fn given_argument(module: &Module, range: TextRange, argument: &Argument, ty: Option<Ty>) -> (r:
    CallArgument)
    requires
        module.wf(),
        hir::opt_below(argument.value, module.expressions@.len() as int),
    ensures
        r@ == inference::call_argument(*module, range, *argument, types::opt_ty(ty)),
{
    let name = match &argument.name {
        Some(name) => Some(name.clone()),
        None => None,
    };
    let unnamed = argument.name.is_none();
    match argument.value {
        Some(value) => CallArgument {
            name,
            name_range: argument.name_range,
            ty,
            range: blame_range(module, value),
            value: argument.value,
            whole_double: operands::is_whole_double(module, value),
            forwards_dots: unnamed && module.is_name(value, "..."),
        },
        None => CallArgument {
            name,
            name_range: argument.name_range,
            ty,
            range,
            value: None,
            whole_double: false,
            forwards_dots: false,
        },
    }
}

pub fn every_named(arguments: &Vec<Argument>) -> (r: bool)
    ensures
        r == inference::all_named(arguments@),
{
    let mut i: usize = 0;
    while i < arguments.len()
        invariant
            i <= arguments.len(),
            forall|k: int| 0 <= k < i ==> (#[trigger] arguments@[k]).name is Some,
        decreases arguments.len() - i,
    {
        if arguments[i].name.is_none() {
            return false;
        }
        i += 1;
    }
    true
}

pub fn none_named(arguments: &Vec<Argument>) -> (r: bool)
    ensures
        r == inference::all_unnamed(arguments@),
{
    let mut i: usize = 0;
    while i < arguments.len()
        invariant
            i <= arguments.len(),
            forall|k: int| 0 <= k < i ==> (#[trigger] arguments@[k]).name is None,
        decreases arguments.len() - i,
    {
        if arguments[i].name.is_some() {
            return false;
        }
        i += 1;
    }
    true
}

/// The value that `structure(...)` returns with attributes attached.
pub fn structure_value(arguments: &Vec<Argument>) -> (r: Option<ExprId>)
    ensures
        r == inference::structured_value(arguments@),
{
    if find_named(arguments, "dim").is_some() || find_named(arguments, ".Dim").is_some() {
        return None;
    }
    match find_named(arguments, ".Data") {
        Some(i) => arguments[i].value,
        None => match find_unnamed(arguments, 0) {
            Some(i) => arguments[i].value,
            None => None,
        },
    }
}

/// The plain name that a one-argument call is applied to.
pub fn guarded_name(module: &Module, arguments: &Vec<Argument>) -> (r: Option<ExprId>)
    requires
        hir::values_below(arguments@, module.expressions@.len() as int),
    ensures
        r == inference::tested_name(*module, arguments@),
        r matches Some(value) ==> arguments@.len() > 0 && arguments@[0].value == Some(value),
{
    if arguments.len() == 1 && arguments[0].name.is_none() {
        match arguments[0].value {
            Some(value) => match module.kind(value) {
                ExpressionKind::NameRef(_) => Some(value),
                _ => None,
            },
            None => None,
        }
    } else {
        None
    }
}

/// The fields of a record that named arguments build.
pub fn built_fields(arguments: &Vec<Argument>, items: &Vec<Ty>) -> (r: Vec<RecordField>)
    requires
        arguments@.len() == items@.len(),
    ensures
        types::fields_view(r@) == inference::record_fields(arguments@, types::tys(items@)),
{
    let mut fields: Vec<RecordField> = Vec::new();
    let mut i: usize = 0;
    while i < arguments.len()
        invariant
            i <= arguments.len(),
            arguments@.len() == items@.len(),
            types::fields_view(fields@) =~= inference::record_fields(
                arguments@,
                types::tys(items@),
            ).subrange(0, i as int),
        decreases arguments.len() - i,
    {
        let name = match &arguments[i].name {
            Some(name) => Name::new(name.clone()),
            None => Name::new(String::new()),
        };
        fields.push(RecordField { name, ty: items[i].clone(), optional: false });
        i += 1;
    }
    fields
}

impl<'a, G: GlobalEnv> Checker<'a, G> {
    /// The overload set a callee resolves through.
    pub fn overloads_of(&self, callee: ExprId) -> (r: Option<(String, Vec<TypeScheme>)>)
        requires
            self.holds(callee),
        ensures
            (match r {
                Some((name, candidates)) => Some((name@, schemes::schemes_view(candidates@))),
                None => None,
            }) == self.item().overload_set(callee),
    {
        let name = match self.module().kind(callee) {
            ExpressionKind::NameRef(name) => if self.slot_of(callee).is_some() {
                None
            } else {
                Some(name.clone())
            },
            ExpressionKind::Namespace { internal, package, name } => validated_namespace_name(
                self.corpus(),
                *internal,
                package,
                name,
            ),
            _ => None,
        };
        match name {
            Some(name) => match self.global_candidates(name.as_str(), self.is_deferred(callee)) {
                Some(candidates) => if candidates.len() < 2 {
                    None
                } else {
                    Some((name, candidates))
                },
                None => None,
            },
            None => None,
        }
    }

    /// The scheme of an operator that the stub corpus declares and the project
    /// does not.
    pub fn operator_scheme(&self, name: &Option<String>) -> (r: Option<TypeScheme>)
        ensures
            schemes::opt_scheme(r) == self.item().declared_operator(types::opt_text(*name)),
    {
        match name {
            Some(name) => if !contains_text(&self.corpus().schemes, name.as_str()) || self.defined_in_project(
                name.as_str(),
                false,
            ) {
                None
            } else {
                self.global_scheme(name.as_str(), false)
            },
            None => None,
        }
    }

    /// Marks the reads under an expression as column references.
    pub fn mask_reads(&mut self, id: ExprId)
        requires
            old(self).wf(),
            old(self).holds(id),
        ensures
            final(self).follows(old(self)),
            final(self)@ == old(self)@.mask_reads(old(self).item().module, id),
        decreases id.0,
    {
        let kind = self.module().kind(id);
        if let ExpressionKind::NameRef(_) = kind {
            self.mask_read(id);
        }
        let ids = kind.child_ids();
        let ghost m = self.item().module;
        let ghost all = self@.mask_all(m, id, ids@, 0);
        let mut i: usize = 0;
        while i < ids.len()
            invariant
                i <= ids.len(),
                self.follows(old(self)),
                m == old(self).item().module,
                old(self).holds(id),
                self@.mask_all(m, id, ids@, i as int) == all,
            decreases ids.len() - i,
        {
            let child = ids[i];
            if child.0 < id.0 {
                self.mask_reads(child);
            }
            i += 1;
        }
    }

    fn mask_argument_reads(&mut self, arguments: &Vec<Argument>)
        requires
            old(self).wf(),
            hir::values_below(
                arguments@,
                old(self).item().module.expressions@.len() as int,
            ),
        ensures
            final(self).follows(old(self)),
            final(self)@ == old(self)@.mask_arguments(old(self).item().module, arguments@, 0),
    {
        let ghost m = self.item().module;
        let mut i: usize = 0;
        while i < arguments.len()
            invariant
                i <= arguments.len(),
                self.follows(old(self)),
                m == old(self).item().module,
                hir::values_below(arguments@, m.expressions@.len() as int),
                self@.mask_arguments(m, arguments@, i as int) == old(self)@.mask_arguments(
                    m,
                    arguments@,
                    0,
                ),
            decreases arguments.len() - i,
        {
            if let Some(value) = arguments[i].value {
                self.mask_reads(value);
            }
            i += 1;
        }
    }

    /// The outcome of an access.
    pub fn finish_access(&mut self, id: ExprId, access: Access) -> (r: Ty)
        requires
            old(self).wf(),
            old(self).holds(id),
        ensures
            final(self).follows(old(self)),
            (final(self)@, r@) == old(self)@.accessed(old(self).item().module, id, access@),
    {
        if access.unmodelled {
            self.unsupported(id);
        }
        match access.result {
            Ok(ty) => ty,
            Err(error) => {
                self.report(error);
                unknown()
            },
        }
    }

    fn refuse(&mut self, id: ExprId) -> (r: Ty)
        requires
            old(self).wf(),
            old(self).holds(id),
        ensures
            final(self).follows(old(self)),
            final(self)@ == old(self)@.unsupported(old(self).item().module, id),
            r@ is Unknown,
    {
        self.unsupported(id);
        unknown()
    }

    fn fail_index(&mut self, id: ExprId, index_count: usize) -> (r: Ty)
        requires
            old(self).wf(),
            old(self).holds(id),
        ensures
            final(self).follows(old(self)),
            final(self)@ == old(self)@.fail(
                old(self).item().module.range_of(id),
                crate::findings::TypeErrorKindV::UnsupportedIndexShape { index_count },
            ),
            r@ is Unknown,
    {
        let range = self.module().range(id);
        self.fail(range, TypeErrorKind::UnsupportedIndexShape { index_count });
        unknown()
    }

    /// An index on a subject of a structural type.
    pub fn index_into(
        &mut self,
        id: ExprId,
        double: bool,
        subject: Ty,
        arguments: &Vec<Argument>,
        indexes: &Vec<Ty>,
    ) -> (r: Ty)
        requires
            old(self).wf(),
            old(self).holds(id),
            hir::values_below(arguments@, id.0 as int),
        ensures
            final(self).follows(old(self)),
            (final(self)@, r@) == old(self)@.indexed(
                old(self).item(),
                id,
                double,
                subject@,
                arguments@,
                types::tys(indexes@),
            ),
    {
        let module = self.module();
        assert(hir::values_below(arguments@, module.expressions@.len() as int));
        if !double && is_data_table(&subject) {
            self.mask_argument_reads(arguments);
            return if data_table_keeps_class(module, arguments) {
                subject
            } else {
                self.refuse(id)
            };
        }
        if self.is_masked_subset(id) {
            return unknown();
        }
        match subject.kind() {
            TyKind::Unknown => {
                return unknown();
            },
            TyKind::Any => {
                return any();
            },
            TyKind::Named(_, _) | TyKind::Var(_) | TyKind::Rigid(_) => {
                return self.refuse(id);
            },
            _ => {},
        }
        if indexes.len() != 1 {
            return self.fail_index(id, indexes.len());
        }
        if arguments.len() != 1 {
            return self.refuse(id);
        }
        if arguments[0].name.is_some() {
            return self.fail_index(id, 1);
        }
        match arguments[0].value {
            Some(value) => {
                let range = module.range(id);
                let access = if double {
                    let key = Key {
                        position: integer_literal_position(module.kind(value)),
                        name: string_literal(module, Some(value)),
                    };
                    crate::access::extract_result(
                        &subject,
                        &key,
                        range,
                        blame_range(module, value),
                    )
                } else {
                    let index = self.resolve(&indexes[0]);
                    crate::access::subset_result(&subject, &Some(index), range)
                };
                self.finish_access(id, access)
            },
            None => unknown(),
        }
    }

    /// Widens the slots that still change when a loop is given up on.
    pub fn widen_slots(&mut self, id: ExprId, slots: &Vec<u32>)
        requires
            old(self).wf(),
            old(self).holds(id),
        ensures
            final(self).follows(old(self)),
            final(self)@ == old(self)@.widen(old(self).item(), id, slots@, 0),
    {
        let ghost item = self.item();
        let mut i: usize = 0;
        while i < slots.len()
            invariant
                i <= slots.len(),
                self.follows(old(self)),
                item == old(self).item(),
                old(self).holds(id),
                self@.widen(item, id, slots@, i as int) == old(self)@.widen(item, id, slots@, 0),
            decreases slots.len() - i,
        {
            self.set_slot(slots[i], EnvEntry::Mono(unknown()));
            if let Some(binding) = self.binding(slots[i]) {
                self.origin(id, StrictOriginKind::LoopWidened(binding.name.clone()));
            }
            i += 1;
        }
    }

    /// Where the arms of a branch meet.
    pub fn meet_arms(
        &mut self,
        diverge: (bool, bool),
        writes: &Vec<(u32, Option<EnvEntry>)>,
        mark: usize,
        then_ty: Ty,
        else_ty: Ty,
    ) -> (r: Ty)
        requires
            old(self).wf(),
        ensures
            final(self).follows(old(self)),
            (final(self)@, r@) == old(self)@.meet(
                diverge,
                environment::writes_view(writes@),
                mark as nat,
                then_ty@,
                else_ty@,
            ),
    {
        match diverge {
            (true, false) => else_ty,
            (false, true) => {
                self.rollback(mark);
                self.adopt_writes(writes);
                then_ty
            },
            (false, false) => {
                self.join_writes_reporting(writes);
                self.join_branch_values(&then_ty, &else_ty)
            },
            (true, true) => {
                self.rollback(mark);
                self.join_branch_values(&then_ty, &else_ty)
            },
        }
    }

    /// Where the branches of a `switch` meet.
    pub fn meet_all(&mut self, branches: &Vec<Vec<(u32, Option<EnvEntry>)>>)
        requires
            old(self).wf(),
        ensures
            final(self).follows(old(self)),
            final(self)@ == old(self)@.meet_branches(branches_view(branches@)),
    {
        let count: usize = branches.len();
        if count == 0 {
            return;
        }
        let ghost all = branches_view(branches@);
        assert(all.last() == environment::writes_view(branches@[count - 1]@));
        self.adopt_writes(&branches[count - 1]);
        let ghost start = self@;
        let mut i: usize = 0;
        while i < count - 1
            invariant
                i <= count - 1,
                count == branches@.len(),
                all == branches_view(branches@),
                self.follows(old(self)),
                self@.join_branches(all, i as int, count - 1) == start.join_branches(
                    all,
                    0,
                    count - 1,
                ),
            decreases count - i,
        {
            assert(all[i as int] == environment::writes_view(branches@[i as int]@));
            self.join_writes_reporting(&branches[i]);
            i += 1;
        }
    }

    /// Binds a formal's slot to its type.
    pub fn bind_parameter(&mut self, parameter: &hir::Parameter, ty: &Ty)
        requires
            old(self).wf(),
        ensures
            final(self).follows(old(self)),
            final(self)@ == old(self)@.bind_formal(old(self).item(), *parameter, ty@),
    {
        if let Some(slot) = self.slot_at(parameter.range) {
            self.set_slot(slot, EnvEntry::Mono(ty.clone()));
            if parameter.default.is_none() {
                self.mark_no_default(slot);
            }
        }
    }

    /// Leaves a function: its bindings vanish, and only `<<-` writes survive.
    pub fn leave(&mut self, mark: usize, pending: usize, level: u32)
        requires
            old(self).wf(),
        ensures
            final(self).follows(old(self)),
            final(self)@ == old(self)@.leave_function(mark as nat, pending as nat, level),
    {
        self.rollback(mark);
        self.reapply_enclosing_writes(pending);
        self.set_level(level);
    }

    /// The chosen candidate's result, or why no candidate fits.
    pub fn select_candidate(
        &mut self,
        id: ExprId,
        callee: ExprId,
        call: Call,
        name: &String,
        candidates: &Vec<TypeScheme>,
    ) -> (r: Ty)
        requires
            old(self).wf(),
            old(self).holds(id),
            call.wf(),
        ensures
            final(self).follows(old(self)),
            (final(self)@, r@) == old(self)@.select_overload(
                old(self).item(),
                id,
                callee,
                call@,
                name@,
                schemes::schemes_view(candidates@),
            ),
    {
        let (choice, errors) = self.choose_candidate(call, candidates);
        if let Some((index, strict)) = choice {
            assert(schemes::schemes_view(candidates@)[index as int]
                == candidates@[index as int]@);
            if let Some(function) = self.probe_overload_candidate(call, &candidates[index], strict) {
                let ret = function.ret.clone();
                self.note(callee, Ty::new(TyKind::Function(function)));
                self.select(callee, index);
                let shallow = self.shallow_resolve(&ret);
                if let TyKind::Any = shallow.kind() {
                    self.unsupported(id);
                }
                return ret;
            }
        }
        let error = no_matching_overload(name, &errors, candidates.len(), call);
        self.report(error);
        self.note(callee, unknown());
        self.deselect(callee);
        unknown()
    }
}

pub open spec fn branches_view(branches: Seq<Vec<(u32, Option<EnvEntry>)>>) -> Seq<
    environment::WritesV,
> {
    Seq::new(branches.len(), |i: int| environment::writes_view(branches[i]@))
}

} // verus!
