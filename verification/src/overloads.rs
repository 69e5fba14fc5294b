//! Calls through a callee's type: overload selection and dispatch.

use rustc_hash::FxHashSet;
use vstd::prelude::*;

use crate::blame;
use crate::calls;
use crate::calls::{CallArgument, CallArgumentV, CallSiteV};
use crate::checking;
use crate::findings;
use crate::findings::{TypeError, TypeErrorKind, TypeErrorKindV, TypeErrorV};
use crate::fx;
use crate::hir::Module;
use crate::infer;
use crate::infer::InferenceTable;
use crate::matching::CallSite;
use crate::schemes;
use crate::schemes::{SchemeV, TypeScheme};
use crate::syntax::TextRange;
use crate::table;
use crate::table::{EntryV, TableV};
use crate::type_ops;
use crate::type_ops::{erase_vars, substitute_rigid, union_of, unknown};
use crate::types;
use crate::types::{
    Constraint, FunctionType, FunctionV, InferenceVar, Name, Parameter, ParameterV, Ty, TyKind, TyV,
};

verus! {

broadcast use {
    crate::types::group_type_views,
    crate::table::grown_from_itself,
    crate::table::grown_in_steps,
};

/// A call as it is matched: the module, the range to blame, and the arguments.
pub struct CallV {
    pub module: Module,
    pub range: TextRange,
    pub callee_range: TextRange,
    pub arguments: Seq<CallArgumentV>,
}

/// What one round over the candidates found.
pub enum RoundV {
    /// A candidate fits, and nothing of the caller's was open.
    Settled(int),
    /// The candidates that fit, each with whether it left the caller's open
    /// variables alone, and the first finding of each that did not.
    Tried(Seq<(int, bool)>, Seq<TypeErrorV>),
}

/// The numbers of the variables of a list of arguments that are still open.
pub open spec fn caller_vars(
    t: TableV,
    arguments: Seq<CallArgumentV>,
    from: int,
    found: Set<u32>,
) -> Set<u32>
    decreases arguments.len() - from,
{
    if 0 <= from < arguments.len() {
        caller_vars(
            t,
            arguments,
            from + 1,
            match arguments[from].ty {
                Some(ty) => t.unbound_vars(ty, found),
                None => found,
            },
        )
    } else {
        found
    }
}

/// What a table knows of a variable.
pub open spec fn entry_of(t: TableV, var: InferenceVar) -> Option<EntryV> {
    if t.holds(t.find(var)) {
        Some(t.entries[t.find(var).0 as int])
    } else {
        None
    }
}

/// Whether a variable was not narrowed.
pub open spec fn is_as_before(before: TableV, after: TableV, var: InferenceVar) -> bool {
    after.find(var) == var && entry_of(after, var) == entry_of(before, var)
}

/// Whether none of the variables was narrowed.
pub open spec fn untouched(before: TableV, after: TableV, vars: Set<u32>) -> bool {
    forall|var: u32| #[trigger]
        vars.contains(var) ==> is_as_before(before, after, InferenceVar(var))
}

impl TableV {
    /// One candidate against the arguments: the table it leaves, its type and its
    /// signature, or what it finds wrong with the call. The findings are empty
    /// where the candidate is no function.
    pub open spec fn probe_candidate(self, call: CallV, scheme: SchemeV, strict: bool) -> Result<
        (TableV, FunctionV),
        Seq<TypeErrorV>,
    > {
        let (ready, ty) = self.instantiate(scheme.binders, scheme.body);
        match ready.shallow(ty) {
            TyV::Function(function) => {
                let (after, found) = ready.match_arguments(
                    CallSiteV { module: call.module, strict },
                    call.callee_range,
                    *function,
                    call.arguments,
                );
                if found.len() == 0 {
                    Ok((after, *function))
                } else {
                    Err(found)
                }
            },
            _ => Err(Seq::empty()),
        }
    }

    /// One round over the candidates from one on.
    pub open spec fn probe_round(
        self,
        call: CallV,
        candidates: Seq<SchemeV>,
        strict: bool,
        vars: Set<u32>,
        from: int,
        fits: Seq<(int, bool)>,
        errors: Seq<TypeErrorV>,
    ) -> RoundV
        decreases candidates.len() - from,
    {
        if 0 <= from < candidates.len() {
            match self.probe_candidate(call, candidates[from], strict) {
                Ok((after, _)) => if vars == Set::<u32>::empty() {
                    RoundV::Settled(from)
                } else {
                    self.probe_round(
                        call,
                        candidates,
                        strict,
                        vars,
                        from + 1,
                        fits.push((from, untouched(self, after, vars))),
                        errors,
                    )
                },
                Err(found) => self.probe_round(
                    call,
                    candidates,
                    strict,
                    vars,
                    from + 1,
                    fits,
                    if strict && found.len() > 0 {
                        errors.push(found[0])
                    } else {
                        errors
                    },
                ),
            }
        } else {
            RoundV::Tried(fits, errors)
        }
    }

    /// The chosen candidate and whether it was chosen strictly, and the findings
    /// of the strict round. A fit that narrows nothing of the caller's outranks
    /// one that does; otherwise the declared order decides. Only where nothing
    /// fits strictly, a whole-number literal may count as an integer.
    pub open spec fn choose_candidate(self, call: CallV, candidates: Seq<SchemeV>) -> (
        Option<(int, bool)>,
        Seq<TypeErrorV>,
    ) {
        let vars = caller_vars(self, call.arguments, 0, Set::empty());
        match self.probe_round(call, candidates, true, vars, 0, Seq::empty(), Seq::empty()) {
            RoundV::Settled(index) => (Some((index, true)), Seq::empty()),
            RoundV::Tried(fits, errors) => match best_fit(fits) {
                Some(index) => (Some((index, true)), errors),
                None => if any_whole_double(call.arguments) {
                    match self.probe_round(
                        call,
                        candidates,
                        false,
                        vars,
                        0,
                        Seq::empty(),
                        Seq::empty(),
                    ) {
                        RoundV::Settled(index) => (Some((index, false)), errors),
                        RoundV::Tried(lenient, _) => match best_fit(lenient) {
                            Some(index) => (Some((index, false)), errors),
                            None => (None, errors),
                        },
                    }
                } else {
                    (None, errors)
                },
            },
        }
    }

    /// The first candidate from one on that fits, as it leaves the table.
    pub open spec fn first_fit(self, call: CallV, candidates: Seq<SchemeV>, from: int) -> Option<
        (TableV, FunctionV),
    >
        decreases candidates.len() - from,
    {
        if 0 <= from < candidates.len() {
            match self.probe_candidate(call, candidates[from], false) {
                Ok(fit) => Some(fit),
                Err(_) => self.first_fit(call, candidates, from + 1),
            }
        } else {
            None
        }
    }

    /// A call through a type that is no nominal: the table, the findings, and the
    /// call's type.
    pub open spec fn dispatch_plain(self, call: CallV, callee: TyV) -> (
        TableV,
        Seq<TypeErrorV>,
        TyV,
    ) {
        let site = CallSiteV { module: call.module, strict: false };
        match self.shallow(callee) {
            TyV::Function(function) => {
                let (after, found) = self.match_arguments(
                    site,
                    call.callee_range,
                    *function,
                    call.arguments,
                );
                (after, found, function.ret)
            },
            TyV::Any | TyV::Unknown => (self, Seq::empty(), TyV::Unknown),
            TyV::Var(var) => {
                let ready = self.with_fresh(Constraint::Unconstrained);
                let ret = TyV::Var(self.next_var());
                let (after, outcome) = ready.unify(
                    TyV::Function(Box::new(observed_signature(call.arguments, ret))),
                    TyV::Var(var),
                );
                (
                    after,
                    match outcome {
                        Ok(()) => Seq::empty(),
                        Err(error) => seq![
                            checking::unify_finding(after, call.module, call.range, error),
                        ],
                    },
                    ret,
                )
            },
            TyV::Union(members) => if self.all_functions(members) {
                match self.dispatch_members(call, members, 0, Seq::empty()) {
                    Ok(results) => (self, Seq::empty(), TyV::union_of(results)),
                    Err(found) => (self, found, TyV::Unknown),
                }
            } else {
                self.not_a_function(call, TyV::Union(members))
            },
            resolved => self.not_a_function(call, resolved),
        }
    }

    pub open spec fn not_a_function(self, call: CallV, found: TyV) -> (
        TableV,
        Seq<TypeErrorV>,
        TyV,
    ) {
        (
            self,
            seq![
                TypeErrorV {
                    range: call.callee_range,
                    kind: TypeErrorKindV::NotAFunction { found: self.resolve(found) },
                },
            ],
            TyV::Unknown,
        )
    }

    pub open spec fn all_functions(self, members: Seq<TyV>) -> bool {
        forall|i: int| 0 <= i < members.len() ==> self.shallow(#[trigger] members[i]) is Function
    }

    /// Whether every member is a function or `NULL`, and one is `NULL`.
    pub open spec fn maybe_null_functions(self, members: Seq<TyV>) -> bool {
        &&& members.contains(TyV::Null)
        &&& forall|i: int|
            0 <= i < members.len() ==> (self.shallow(#[trigger] members[i]) is Function
                || self.shallow(members[i]) is Null)
    }

    /// A call through every member of a union must be valid; each is matched on
    /// its own. The member returns lose their variables, which the next member
    /// does not know.
    pub open spec fn dispatch_members(
        self,
        call: CallV,
        members: Seq<TyV>,
        from: int,
        results: Seq<TyV>,
    ) -> Result<Seq<TyV>, Seq<TypeErrorV>>
        decreases members.len() - from,
    {
        if 0 <= from < members.len() {
            match self.shallow(members[from]) {
                TyV::Function(function) => {
                    let (after, found) = self.match_arguments(
                        CallSiteV { module: call.module, strict: false },
                        call.callee_range,
                        *function,
                        call.arguments,
                    );
                    if found.len() == 0 {
                        self.dispatch_members(
                            call,
                            members,
                            from + 1,
                            results.push(after.resolve(function.ret).erased()),
                        )
                    } else {
                        Err(found)
                    }
                },
                _ => self.dispatch_members(call, members, from + 1, results),
            }
        } else {
            Ok(results)
        }
    }

    /// A call through a callee's type. A nominal calls through its
    /// representation. A callee that may be `NULL` is reported as that, and the
    /// call goes on through its functions.
    pub open spec fn dispatch(self, call: CallV, callee: TyV) -> (TableV, Seq<TypeErrorV>, TyV) {
        let shallow = self.shallow(callee);
        let resolved = if shallow is Named {
            self.structural(shallow)
        } else {
            shallow
        };
        match resolved {
            TyV::Union(members) => if self.maybe_null_functions(members) {
                let (after, found, ty) = self.dispatch_plain(
                    call,
                    TyV::union_of(without_null(members, members.len())),
                );
                (
                    after,
                    seq![
                        TypeErrorV {
                            range: call.callee_range,
                            kind: TypeErrorKindV::MaybeNullCallee { found: self.resolve(resolved) },
                        },
                    ] + found,
                    ty,
                )
            } else {
                self.dispatch_plain(call, resolved)
            },
            _ => self.dispatch_plain(call, resolved),
        }
    }
}

/// The first of the members that are not `NULL`.
pub open spec fn without_null(members: Seq<TyV>, upto: nat) -> Seq<TyV>
    decreases upto,
{
    if upto == 0 {
        Seq::empty()
    } else {
        let before = without_null(members, (upto - 1) as nat);
        if members[upto - 1] is Null {
            before
        } else {
            before.push(members[upto - 1])
        }
    }
}

/// The type of an argument, unknown where it has none.
pub open spec fn argument_type(argument: CallArgumentV) -> TyV {
    match argument.ty {
        Some(ty) => ty,
        None => TyV::Unknown,
    }
}

pub open spec fn observed_positional(arguments: Seq<CallArgumentV>, upto: nat) -> Seq<TyV>
    decreases upto,
{
    if upto == 0 {
        Seq::empty()
    } else {
        let before = observed_positional(arguments, (upto - 1) as nat);
        if arguments[upto - 1].name is None {
            before.push(argument_type(arguments[upto - 1]))
        } else {
            before
        }
    }
}

pub open spec fn observed_named(arguments: Seq<CallArgumentV>, upto: nat) -> Seq<ParameterV>
    decreases upto,
{
    if upto == 0 {
        Seq::empty()
    } else {
        let before = observed_named(arguments, (upto - 1) as nat);
        match arguments[upto - 1].name {
            Some(name) => before.push(
                ParameterV {
                    name,
                    ty: argument_type(arguments[upto - 1]),
                    optional: false,
                    default: None,
                },
            ),
            None => before,
        }
    }
}

/// The signature a call asks of a callee that is not known yet.
pub open spec fn observed_signature(arguments: Seq<CallArgumentV>, ret: TyV) -> FunctionV {
    FunctionV {
        positional: observed_positional(arguments, arguments.len()),
        named: observed_named(arguments, arguments.len()),
        variadic: None,
        ret,
    }
}

pub open spec fn any_whole_double(arguments: Seq<CallArgumentV>) -> bool {
    exists|i: int| 0 <= i < arguments.len() && (#[trigger] arguments[i]).whole_double
}

/// The first fit from one on that narrows nothing.
pub open spec fn free_fit(fits: Seq<(int, bool)>, from: int) -> Option<int>
    decreases fits.len() - from,
{
    if 0 <= from < fits.len() {
        if fits[from].1 {
            Some(fits[from].0)
        } else {
            free_fit(fits, from + 1)
        }
    } else {
        None
    }
}

pub open spec fn best_fit(fits: Seq<(int, bool)>) -> Option<int> {
    match free_fit(fits, 0) {
        Some(index) => Some(index),
        None => if fits.len() > 0 {
            Some(fits[0].0)
        } else {
            None
        },
    }
}

/// The first argument from one on that stands at a range.
pub open spec fn argument_at(arguments: Seq<CallArgumentV>, range: TextRange, from: int) -> Option<int>
    decreases arguments.len() - from,
{
    if 0 <= from < arguments.len() {
        if arguments[from].range == range {
            Some(from)
        } else {
            argument_at(arguments, range, from + 1)
        }
    } else {
        None
    }
}

/// Whether a finding blames a later argument than every other finding.
pub open spec fn got_furthest(
    errors: Seq<TypeErrorV>,
    arguments: Seq<CallArgumentV>,
    i: int,
) -> bool {
    match argument_at(arguments, errors[i].range, 0) {
        Some(own) => forall|j: int|
            #![trigger errors[j]]
            0 <= j < errors.len() && j != i ==> match argument_at(arguments, errors[j].range, 0) {
                Some(other) => other < own,
                None => true,
            },
        None => false,
    }
}

pub open spec fn furthest(
    errors: Seq<TypeErrorV>,
    arguments: Seq<CallArgumentV>,
    from: int,
) -> Option<int>
    decreases errors.len() - from,
{
    if 0 <= from < errors.len() {
        if got_furthest(errors, arguments, from) {
            Some(from)
        } else {
            furthest(errors, arguments, from + 1)
        }
    } else {
        None
    }
}

pub open spec fn all_alike(errors: Seq<TypeErrorV>) -> bool {
    forall|i: int| 0 <= i < errors.len() ==> #[trigger] errors[i] == errors[0]
}

/// The one finding that explains why no candidate fits: the one they all have, or
/// that of the candidate which got further into the call than any other.
pub open spec fn single_answer(
    errors: Seq<TypeErrorV>,
    candidates: nat,
    arguments: Seq<CallArgumentV>,
) -> Option<TypeErrorV> {
    if errors.len() != candidates || errors.len() == 0 {
        None
    } else if all_alike(errors) {
        Some(errors[0])
    } else {
        match furthest(errors, arguments, 0) {
            Some(i) => Some(errors[i]),
            None => None,
        }
    }
}

/// The finding of a call that no candidate fits.
pub open spec fn no_match(
    name: Seq<char>,
    errors: Seq<TypeErrorV>,
    candidates: nat,
    call: CallV,
) -> TypeErrorV {
    match single_answer(errors, candidates, call.arguments) {
        Some(error) => error,
        None => TypeErrorV {
            range: call.range,
            kind: TypeErrorKindV::NoMatchingOverload {
                name,
                candidates: candidates as usize,
                first: if errors.len() > 0 {
                    Some(Box::new(errors[0]))
                } else {
                    None
                },
            },
        },
    }
}

/// A call to be matched.
#[derive(Debug, Clone, Copy)]
pub struct Call<'a> {
    pub module: &'a Module,
    pub range: TextRange,
    pub callee_range: TextRange,
    pub arguments: &'a Vec<CallArgument>,
}

impl<'a> Call<'a> {
    pub open spec fn view(&self) -> CallV {
        CallV {
            module: *self.module,
            range: self.range,
            callee_range: self.callee_range,
            arguments: calls::arguments_view(self.arguments@),
        }
    }

    pub open spec fn wf(&self) -> bool {
        self.module.wf() && calls::values_held(
            *self.module,
            calls::arguments_view(self.arguments@),
        )
    }
}

fn same_range(a: TextRange, b: TextRange) -> (r: bool)
    ensures
        r == (a == b),
{
    a == b
}

fn argument_place(arguments: &Vec<CallArgument>, range: TextRange) -> (r: Option<usize>)
    ensures
        match r {
            Some(i) => argument_at(calls::arguments_view(arguments@), range, 0) == Some(i as int),
            None => argument_at(calls::arguments_view(arguments@), range, 0) is None,
        },
{
    let mut i: usize = 0;
    while i < arguments.len()
        invariant
            i <= arguments.len(),
            argument_at(calls::arguments_view(arguments@), range, 0) == argument_at(
                calls::arguments_view(arguments@),
                range,
                i as int,
            ),
        decreases arguments.len() - i,
    {
        if same_range(arguments[i].range, range) {
            return Some(i);
        }
        i += 1;
    }
    None
}

fn blames_furthest(errors: &Vec<TypeError>, arguments: &Vec<CallArgument>, i: usize) -> (r: bool)
    requires
        i < errors@.len(),
    ensures
        r == got_furthest(
            findings::errors_view(errors@),
            calls::arguments_view(arguments@),
            i as int,
        ),
{
    let ghost all = findings::errors_view(errors@);
    let ghost given = calls::arguments_view(arguments@);
    assert(all[i as int] == errors@[i as int]@);
    let own = match argument_place(arguments, errors[i].range) {
        Some(own) => own,
        None => {
            return false;
        },
    };
    let mut j: usize = 0;
    while j < errors.len()
        invariant
            i < errors@.len(),
            j <= errors.len(),
            all == findings::errors_view(errors@),
            given == calls::arguments_view(arguments@),
            argument_at(given, all[i as int].range, 0) == Some(own as int),
            forall|k: int|
                #![trigger all[k]]
                0 <= k < j && k != i ==> match argument_at(given, all[k].range, 0) {
                    Some(other) => other < own,
                    None => true,
                },
        decreases errors.len() - j,
    {
        assert(all[j as int] == errors@[j as int]@);
        if j != i {
            if let Some(other) = argument_place(arguments, errors[j].range) {
                if other >= own {
                    return false;
                }
            }
        }
        j += 1;
    }
    true
}

/// The finding of a call that no candidate fits.
pub fn no_matching_overload(
    name: &String,
    errors: &Vec<TypeError>,
    candidates: usize,
    call: Call,
) -> (r: TypeError)
    ensures
        r@ == no_match(name@, findings::errors_view(errors@), candidates as nat, call@),
{
    if errors.len() == candidates && errors.len() > 0 {
        if alike(errors) {
            return errors[0].clone();
        }
        let ghost all = findings::errors_view(errors@);
        let mut i: usize = 0;
        while i < errors.len()
            invariant
                i <= errors.len(),
                all == findings::errors_view(errors@),
                furthest(all, call@.arguments, 0) == furthest(all, call@.arguments, i as int),
                errors.len() == candidates && errors.len() > 0,
                !all_alike(all),
            decreases errors.len() - i,
        {
            if blames_furthest(errors, call.arguments, i) {
                return errors[i].clone();
            }
            i += 1;
        }
    }
    TypeError {
        range: call.range,
        kind: TypeErrorKind::NoMatchingOverload {
            name: name.clone(),
            candidates,
            first: if errors.len() > 0 {
                Some(Box::new(errors[0].clone()))
            } else {
                None
            },
        },
    }
}

fn alike(errors: &Vec<TypeError>) -> (r: bool)
    requires
        errors@.len() > 0,
    ensures
        r == all_alike(findings::errors_view(errors@)),
{
    let ghost all = findings::errors_view(errors@);
    let mut i: usize = 0;
    while i < errors.len()
        invariant
            i <= errors.len(),
            errors@.len() > 0,
            all == findings::errors_view(errors@),
            forall|j: int| 0 <= j < i ==> #[trigger] all[j] == all[0],
        decreases errors.len() - i,
    {
        if !errors[i].same(&errors[0]) {
            assert(all[i as int] != all[0]);
            return false;
        }
        i += 1;
    }
    true
}

fn any_whole(arguments: &Vec<CallArgument>) -> (r: bool)
    ensures
        r == any_whole_double(calls::arguments_view(arguments@)),
{
    let mut i: usize = 0;
    while i < arguments.len()
        invariant
            i <= arguments.len(),
            forall|j: int|
                0 <= j < i ==> !(#[trigger] calls::arguments_view(arguments@)[j]).whole_double,
        decreases arguments.len() - i,
    {
        assert(calls::arguments_view(arguments@)[i as int] == arguments@[i as int]@);
        if arguments[i].whole_double {
            return true;
        }
        i += 1;
    }
    false
}

pub open spec fn fits_view(fits: Seq<(usize, bool)>) -> Seq<(int, bool)> {
    Seq::new(fits.len(), |i: int| (fits[i].0 as int, fits[i].1))
}

fn best(fits: &Vec<(usize, bool)>) -> (r: Option<usize>)
    ensures
        (match r {
            Some(index) => Some(index as int),
            None => None,
        }) == best_fit(fits_view(fits@)),
        r matches Some(index) ==> exists|i: int| 0 <= i < fits@.len() && fits@[i].0 == index,
{
    let mut i: usize = 0;
    while i < fits.len()
        invariant
            i <= fits.len(),
            free_fit(fits_view(fits@), 0) == free_fit(fits_view(fits@), i as int),
        decreases fits.len() - i,
    {
        assert(fits_view(fits@)[i as int] == (fits@[i as int].0 as int, fits@[i as int].1));
        if fits[i].1 {
            return Some(fits[i].0);
        }
        i += 1;
    }
    if fits.len() > 0 {
        assert(fits_view(fits@)[0] == (fits@[0].0 as int, fits@[0].1));
        Some(fits[0].0)
    } else {
        None
    }
}

enum Round {
    Settled(usize),
    Tried(Vec<(usize, bool)>, Vec<TypeError>),
}

impl Round {
    spec fn view(&self) -> RoundV {
        match self {
            Round::Settled(index) => RoundV::Settled(*index as int),
            Round::Tried(fits, errors) => RoundV::Tried(
                fits_view(fits@),
                findings::errors_view(errors@),
            ),
        }
    }

    spec fn within(&self, count: nat) -> bool {
        match self {
            Round::Settled(index) => *index < count,
            Round::Tried(fits, _) => forall|i: int|
                0 <= i < fits@.len() ==> (#[trigger] fits@[i]).0 < count,
        }
    }
}

/// The model of a probe's outcome, but for the table a fit leaves.
pub open spec fn probe_outcome(outcome: Result<FunctionType, Vec<TypeError>>) -> Result<
    FunctionV,
    Seq<TypeErrorV>,
> {
    match outcome {
        Ok(function) => Ok(function@),
        Err(found) => Err(findings::errors_view(found@)),
    }
}

impl InferenceTable {
    /// The type with fresh variables in the places of the given binders.
    pub fn instantiate(&mut self, binders: &Vec<(Name, Constraint)>, body: &Ty) -> (r: Ty)
        requires
            old(self).wf(),
        ensures
            final(self).wf(),
            final(self)@.grown_from(old(self)@),
            (final(self)@, r@) == old(self)@.instantiate(infer::binders_view(binders@), body@),
    {
        let mut substitution: Vec<(Name, Ty)> = Vec::new();
        let mut i: usize = 0;
        assert(type_ops::replacements(substitution@) =~= Seq::empty());
        while i < binders.len()
            invariant
                i <= binders.len(),
                self.wf(),
                self@.grown_from(old(self)@),
                self@.fresh_binders(
                    infer::binders_view(binders@),
                    i as int,
                    type_ops::replacements(substitution@),
                ) == old(self)@.fresh_binders(infer::binders_view(binders@), 0, Seq::empty()),
            decreases binders.len() - i,
        {
            let ghost before = type_ops::replacements(substitution@);
            let ghost var = TyV::Var(self@.next_var());
            let fresh = self.fresh_ty(binders[i].1);
            substitution.push((binders[i].0.clone(), fresh));
            assert(type_ops::replacements(substitution@) =~= before.push(
                (binders@[i as int].0@, var),
            ));
            i += 1;
        }
        substitute_rigid(body, &substitution)
    }

    /// One candidate against the arguments. A candidate that does not fit leaves
    /// no trace.
    pub fn probe_overload_candidate(&mut self, call: Call, scheme: &TypeScheme, strict: bool) -> (r:
        Result<FunctionType, Vec<TypeError>>)
        requires
            old(self).wf(),
            call.wf(),
        ensures
            final(self).wf(),
            final(self)@.grown_from(old(self)@),
            match old(self)@.probe_candidate(call@, scheme@, strict) {
                Ok((after, function)) => final(self)@ == after && probe_outcome(r) == Ok::<
                    FunctionV,
                    Seq<TypeErrorV>,
                >(function),
                Err(found) => final(self)@ == old(self)@ && probe_outcome(r) == Err::<
                    FunctionV,
                    Seq<TypeErrorV>,
                >(found),
            },
    {
        let snapshot = self.snapshot();
        let instantiated = self.instantiate(&scheme.binders, &scheme.body);
        let resolved = self.shallow_resolve(&instantiated);
        match resolved.kind() {
            TyKind::Function(function) => {
                let found = self.match_arguments(
                    CallSite { module: call.module, strict },
                    call.callee_range,
                    function,
                    call.arguments,
                );
                if found.len() == 0 {
                    Ok(function.clone())
                } else {
                    self.rollback(snapshot);
                    Err(found)
                }
            },
            _ => {
                self.rollback(snapshot);
                let none: Vec<TypeError> = Vec::new();
                assert(findings::errors_view(none@) =~= Seq::empty());
                Err(none)
            },
        }
    }

    fn caller_vars(&self, arguments: &Vec<CallArgument>) -> (r: FxHashSet<u32>)
        requires
            self.wf(),
        ensures
            r@ == caller_vars(self@, calls::arguments_view(arguments@), 0, Set::empty()),
    {
        let mut found: FxHashSet<u32> = fx::fx_set();
        let mut i: usize = 0;
        while i < arguments.len()
            invariant
                i <= arguments.len(),
                self.wf(),
                caller_vars(self@, calls::arguments_view(arguments@), i as int, found@)
                    == caller_vars(self@, calls::arguments_view(arguments@), 0, Set::empty()),
            decreases arguments.len() - i,
        {
            assert(calls::arguments_view(arguments@)[i as int] == arguments@[i as int]@);
            if let Some(ty) = &arguments[i].ty {
                self.collect_unbound_vars(ty, &mut found);
            }
            i += 1;
        }
        found
    }

    /// What the table knows of each variable.
    fn entries_of(&self, vars: &Vec<u32>) -> (r: Vec<Option<infer::Entry>>)
        requires
            self.wf(),
        ensures
            r@.len() == vars@.len(),
            forall|i: int|
                #![trigger r@[i]]
                0 <= i < vars@.len() ==> opt_entry(r@[i]) == entry_of(self@, InferenceVar(vars@[i])),
    {
        let mut entries: Vec<Option<infer::Entry>> = Vec::new();
        let mut i: usize = 0;
        while i < vars.len()
            invariant
                i <= vars.len(),
                self.wf(),
                entries@.len() == i,
                forall|j: int|
                    #![trigger entries@[j]]
                    0 <= j < i ==> opt_entry(entries@[j]) == entry_of(self@, InferenceVar(vars@[j])),
            decreases vars.len() - i,
        {
            let entry = match self.known(InferenceVar(vars[i])) {
                Some(entry) => Some(entry.clone()),
                None => None,
            };
            entries.push(entry);
            i += 1;
        }
        entries
    }

    fn is_untouched(
        &self,
        vars: &Vec<u32>,
        entries: &Vec<Option<infer::Entry>>,
        Ghost(before): Ghost<TableV>,
    ) -> (r: bool)
        requires
            self.wf(),
            entries@.len() == vars@.len(),
            forall|i: int|
                #![trigger entries@[i]]
                0 <= i < vars@.len() ==> opt_entry(entries@[i]) == entry_of(before, InferenceVar(vars@[i])),
        ensures
            r == untouched(before, self@, vars@.to_set()),
    {
        let mut i: usize = 0;
        while i < vars.len()
            invariant
                i <= vars.len(),
                self.wf(),
                entries@.len() == vars@.len(),
                forall|j: int|
                    #![trigger entries@[j]]
                    0 <= j < vars@.len() ==> opt_entry(entries@[j]) == entry_of(
                        before,
                        InferenceVar(vars@[j]),
                    ),
                forall|j: int|
                    0 <= j < i ==> is_as_before(before, self@, InferenceVar(#[trigger] vars@[j])),
            decreases vars.len() - i,
        {
            let var = InferenceVar(vars[i]);
            assert(opt_entry(entries@[i as int]) == entry_of(before, var));
            assert(vars@.to_set().contains(vars@[i as int]));
            if self.find(var) != var {
                assert(!is_as_before(before, self@, var));
                return false;
            }
            let same = match (self.known(var), &entries[i]) {
                (Some(now), Some(then)) => now.same(then),
                (None, None) => true,
                _ => false,
            };
            if !same {
                assert(!is_as_before(before, self@, var));
                return false;
            }
            i += 1;
        }
        true
    }

    fn probe_round(
        &mut self,
        call: Call,
        candidates: &Vec<TypeScheme>,
        strict: bool,
        vars: &Vec<u32>,
    ) -> (r: Round)
        requires
            old(self).wf(),
            call.wf(),
        ensures
            final(self).wf(),
            final(self)@ == old(self)@,
            r@ == old(self)@.probe_round(
                call@,
                schemes::schemes_view(candidates@),
                strict,
                vars@.to_set(),
                0,
                Seq::empty(),
                Seq::empty(),
            ),
            r.within(candidates@.len()),
    {
        let entries = self.entries_of(vars);
        proof {
            if vars@.len() > 0 {
                assert(vars@.to_set().contains(vars@[0]));
            } else {
                assert(vars@.to_set() =~= Set::empty());
            }
        }
        let mut fits: Vec<(usize, bool)> = Vec::new();
        let mut errors: Vec<TypeError> = Vec::new();
        let mut i: usize = 0;
        assert(fits_view(fits@) =~= Seq::empty());
        assert(findings::errors_view(errors@) =~= Seq::empty());
        while i < candidates.len()
            invariant
                i <= candidates.len(),
                self.wf(),
                call.wf(),
                self@ == old(self)@,
                (vars@.len() == 0) == (vars@.to_set() == Set::<u32>::empty()),
                entries@.len() == vars@.len(),
                forall|j: int|
                    #![trigger entries@[j]]
                    0 <= j < vars@.len() ==> opt_entry(entries@[j]) == entry_of(
                        old(self)@,
                        InferenceVar(vars@[j]),
                    ),
                forall|j: int| 0 <= j < fits@.len() ==> (#[trigger] fits@[j]).0 < candidates@.len(),
                old(self)@.probe_round(
                    call@,
                    schemes::schemes_view(candidates@),
                    strict,
                    vars@.to_set(),
                    i as int,
                    fits_view(fits@),
                    findings::errors_view(errors@),
                ) == old(self)@.probe_round(
                    call@,
                    schemes::schemes_view(candidates@),
                    strict,
                    vars@.to_set(),
                    0,
                    Seq::empty(),
                    Seq::empty(),
                ),
            decreases candidates.len() - i,
        {
            assert(schemes::schemes_view(candidates@)[i as int] == candidates@[i as int]@);
            let snapshot = self.snapshot();
            match self.probe_overload_candidate(call, &candidates[i], strict) {
                Ok(_) => {
                    let free = self.is_untouched(vars, &entries, Ghost(old(self)@));
                    self.rollback(snapshot);
                    if vars.len() == 0 {
                        return Round::Settled(i);
                    }
                    let ghost before = fits_view(fits@);
                    fits.push((i, free));
                    assert(fits_view(fits@) =~= before.push((i as int, free)));
                },
                Err(found) => {
                    if strict && found.len() > 0 {
                        let ghost before = findings::errors_view(errors@);
                        errors.push(found[0].clone());
                        assert(findings::errors_view(errors@) =~= before.push(
                            findings::errors_view(found@)[0],
                        ));
                    }
                },
            }
            i += 1;
        }
        Round::Tried(fits, errors)
    }

    /// The chosen candidate and whether it was chosen strictly, and the findings
    /// of the strict round.
    pub fn choose_candidate(&mut self, call: Call, candidates: &Vec<TypeScheme>) -> (r: (
        Option<(usize, bool)>,
        Vec<TypeError>,
    ))
        requires
            old(self).wf(),
            call.wf(),
        ensures
            final(self).wf(),
            final(self)@ == old(self)@,
            (opt_choice(r.0), findings::errors_view(r.1@)) == old(self)@.choose_candidate(
                call@,
                schemes::schemes_view(candidates@),
            ),
            r.0 matches Some(choice) ==> choice.0 < candidates@.len(),
    {
        let vars = fx::fx_keys(&self.caller_vars(call.arguments));
        let (fits, errors) = match self.probe_round(call, candidates, true, &vars) {
            Round::Settled(index) => {
                let none: Vec<TypeError> = Vec::new();
                assert(findings::errors_view(none@) =~= Seq::empty());
                return (Some((index, true)), none);
            },
            Round::Tried(fits, errors) => (fits, errors),
        };
        if let Some(index) = best(&fits) {
            return (Some((index, true)), errors);
        }
        if any_whole(call.arguments) {
            match self.probe_round(call, candidates, false, &vars) {
                Round::Settled(index) => {
                    return (Some((index, false)), errors);
                },
                Round::Tried(lenient, _) => {
                    if let Some(index) = best(&lenient) {
                        return (Some((index, false)), errors);
                    }
                },
            }
        }
        (None, errors)
    }

    /// The first candidate that fits.
    pub fn first_fit(&mut self, call: Call, candidates: &Vec<TypeScheme>) -> (r: Option<FunctionType>)
        requires
            old(self).wf(),
            call.wf(),
        ensures
            final(self).wf(),
            final(self)@.grown_from(old(self)@),
            match old(self)@.first_fit(call@, schemes::schemes_view(candidates@), 0) {
                Some((after, function)) => final(self)@ == after && r is Some && r->0@ == function,
                None => final(self)@ == old(self)@ && r is None,
            },
    {
        let mut i: usize = 0;
        while i < candidates.len()
            invariant
                i <= candidates.len(),
                self.wf(),
                call.wf(),
                self@ == old(self)@,
                old(self)@.first_fit(call@, schemes::schemes_view(candidates@), i as int) == old(
                    self,
                )@.first_fit(call@, schemes::schemes_view(candidates@), 0),
            decreases candidates.len() - i,
        {
            assert(schemes::schemes_view(candidates@)[i as int] == candidates@[i as int]@);
            if let Ok(function) = self.probe_overload_candidate(call, &candidates[i], false) {
                return Some(function);
            }
            i += 1;
        }
        None
    }

    fn all_functions(&self, members: &Vec<Ty>) -> (r: bool)
        requires
            self.wf(),
        ensures
            r == self@.all_functions(types::tys(members@)),
    {
        let mut i: usize = 0;
        while i < members.len()
            invariant
                i <= members.len(),
                self.wf(),
                forall|j: int|
                    0 <= j < i ==> self@.shallow(#[trigger] types::tys(members@)[j]) is Function,
            decreases members.len() - i,
        {
            assert(types::tys(members@)[i as int] == members@[i as int]@);
            let resolved = self.shallow_resolve(&members[i]);
            if let TyKind::Function(_) = resolved.kind() {
            } else {
                return false;
            }
            i += 1;
        }
        true
    }

    fn maybe_null_functions(&self, members: &Vec<Ty>) -> (r: bool)
        requires
            self.wf(),
        ensures
            r == self@.maybe_null_functions(types::tys(members@)),
    {
        if !type_ops::contains_type(members, &type_ops::null()) {
            return false;
        }
        let mut i: usize = 0;
        while i < members.len()
            invariant
                i <= members.len(),
                self.wf(),
                forall|j: int|
                    0 <= j < i ==> (self@.shallow(#[trigger] types::tys(members@)[j]) is Function
                        || self@.shallow(types::tys(members@)[j]) is Null),
            decreases members.len() - i,
        {
            assert(types::tys(members@)[i as int] == members@[i as int]@);
            let resolved = self.shallow_resolve(&members[i]);
            match resolved.kind() {
                TyKind::Function(_) | TyKind::Null => {},
                _ => {
                    return false;
                },
            }
            i += 1;
        }
        true
    }

    fn dispatch_members(&mut self, call: Call, members: &Vec<Ty>) -> (r: Result<
        Vec<Ty>,
        Vec<TypeError>,
    >)
        requires
            old(self).wf(),
            call.wf(),
        ensures
            final(self).wf(),
            final(self)@ == old(self)@,
            (match r {
                Ok(results) => Ok(types::tys(results@)),
                Err(found) => Err(findings::errors_view(found@)),
            }) == old(self)@.dispatch_members(call@, types::tys(members@), 0, Seq::empty()),
    {
        let mut results: Vec<Ty> = Vec::new();
        let mut i: usize = 0;
        assert(types::tys(results@) =~= Seq::empty());
        while i < members.len()
            invariant
                i <= members.len(),
                self.wf(),
                call.wf(),
                self@ == old(self)@,
                old(self)@.dispatch_members(
                    call@,
                    types::tys(members@),
                    i as int,
                    types::tys(results@),
                ) == old(self)@.dispatch_members(call@, types::tys(members@), 0, Seq::empty()),
            decreases members.len() - i,
        {
            assert(types::tys(members@)[i as int] == members@[i as int]@);
            let member = self.shallow_resolve(&members[i]);
            if let TyKind::Function(function) = member.kind() {
                let snapshot = self.snapshot();
                let found = self.match_arguments(
                    CallSite { module: call.module, strict: false },
                    call.callee_range,
                    function,
                    call.arguments,
                );
                if found.len() == 0 {
                    let result = erase_vars(&self.resolve(&function.ret));
                    self.rollback(snapshot);
                    results.push(result);
                } else {
                    self.rollback(snapshot);
                    return Err(found);
                }
            }
            i += 1;
        }
        Ok(results)
    }

    fn not_a_function(&self, call: Call, found: &Ty) -> (r: (Vec<TypeError>, Ty))
        requires
            self.wf(),
        ensures
            (self@, findings::errors_view(r.0@), r.1@) == self@.not_a_function(call@, found@),
    {
        let error = TypeError {
            range: call.callee_range,
            kind: TypeErrorKind::NotAFunction { found: self.resolve(found) },
        };
        (one_finding(error), unknown())
    }

    fn dispatch_plain(&mut self, call: Call, callee: &Ty) -> (r: (Vec<TypeError>, Ty))
        requires
            old(self).wf(),
            call.wf(),
        ensures
            final(self).wf(),
            (final(self)@, findings::errors_view(r.0@), r.1@) == old(self)@.dispatch_plain(
                call@,
                callee@,
            ),
    {
        let resolved = self.shallow_resolve(callee);
        match resolved.kind() {
            TyKind::Function(function) => {
                let found = self.match_arguments(
                    CallSite { module: call.module, strict: false },
                    call.callee_range,
                    function,
                    call.arguments,
                );
                (found, function.ret.clone())
            },
            TyKind::Any | TyKind::Unknown => (no_findings(), unknown()),
            TyKind::Var(_) => {
                let ret = self.fresh_ty(Constraint::Unconstrained);
                let signature = signature_of(call.arguments, &ret);
                let expected = Ty::new(TyKind::Function(signature));
                match self.unify(&expected, &resolved) {
                    Ok(()) => (no_findings(), ret),
                    Err(error) => {
                        let finding = blame::unify_finding(self, call.module, call.range, error);
                        (one_finding(finding), ret)
                    },
                }
            },
            TyKind::Union(members) => {
                if self.all_functions(members) {
                    match self.dispatch_members(call, members) {
                        Ok(results) => (no_findings(), union_of(&results)),
                        Err(found) => (found, unknown()),
                    }
                } else {
                    self.not_a_function(call, &resolved)
                }
            },
            _ => self.not_a_function(call, &resolved),
        }
    }

    /// A call through a callee's type: the findings, and the call's type.
    pub fn dispatch_call(&mut self, call: Call, callee: &Ty) -> (r: (Vec<TypeError>, Ty))
        requires
            old(self).wf(),
            call.wf(),
        ensures
            final(self).wf(),
            (final(self)@, findings::errors_view(r.0@), r.1@) == old(self)@.dispatch(
                call@,
                callee@,
            ),
    {
        let shallow = self.shallow_resolve(callee);
        let resolved = match shallow.kind() {
            TyKind::Named(_, _) => self.structural(&shallow),
            _ => shallow,
        };
        if let TyKind::Union(members) = resolved.kind() {
            if self.maybe_null_functions(members) {
                let error = TypeError {
                    range: call.callee_range,
                    kind: TypeErrorKind::MaybeNullCallee { found: self.resolve(&resolved) },
                };
                let callable = callable_members(members);
                let ghost first = error@;
                let (found, ty) = self.dispatch_plain(call, &union_of(&callable));
                let ghost others = findings::errors_view(found@);
                let mut all = one_finding(error);
                let mut rest = found;
                all.append(&mut rest);
                assert(findings::errors_view(all@) =~= seq![first] + others);
                return (all, ty);
            }
        }
        self.dispatch_plain(call, &resolved)
    }
}

pub open spec fn opt_entry(entry: Option<infer::Entry>) -> Option<EntryV> {
    match entry {
        Some(entry) => Some(entry@),
        None => None,
    }
}

pub open spec fn opt_choice(choice: Option<(usize, bool)>) -> Option<(int, bool)> {
    match choice {
        Some((index, strict)) => Some((index as int, strict)),
        None => None,
    }
}

fn no_findings() -> (r: Vec<TypeError>)
    ensures
        findings::errors_view(r@) == Seq::<TypeErrorV>::empty(),
{
    let none: Vec<TypeError> = Vec::new();
    assert(findings::errors_view(none@) =~= Seq::empty());
    none
}

fn one_finding(error: TypeError) -> (r: Vec<TypeError>)
    ensures
        findings::errors_view(r@) == seq![error@],
{
    let ghost one = error@;
    let mut only: Vec<TypeError> = Vec::new();
    only.push(error);
    assert(findings::errors_view(only@) =~= seq![one]);
    only
}

fn callable_members(members: &Vec<Ty>) -> (r: Vec<Ty>)
    ensures
        types::tys(r@) == without_null(types::tys(members@), members@.len()),
{
    let mut kept: Vec<Ty> = Vec::new();
    let mut i: usize = 0;
    assert(types::tys(kept@) =~= Seq::empty());
    while i < members.len()
        invariant
            i <= members.len(),
            types::tys(kept@) == without_null(types::tys(members@), i as nat),
        decreases members.len() - i,
    {
        assert(types::tys(members@)[i as int] == members@[i as int]@);
        if let TyKind::Null = members[i].kind() {
        } else {
            kept.push(members[i].clone());
        }
        i += 1;
    }
    kept
}

fn type_of(argument: &CallArgument) -> (r: Ty)
    ensures
        r@ == argument_type(argument@),
{
    match &argument.ty {
        Some(ty) => ty.clone(),
        None => unknown(),
    }
}

fn signature_of(arguments: &Vec<CallArgument>, ret: &Ty) -> (r: FunctionType)
    ensures
        r@ == observed_signature(calls::arguments_view(arguments@), ret@),
{
    let ghost given = calls::arguments_view(arguments@);
    let mut positional: Vec<Ty> = Vec::new();
    let mut named: Vec<Parameter> = Vec::new();
    let mut i: usize = 0;
    assert(types::tys(positional@) =~= Seq::empty());
    assert(types::params_view(named@) =~= Seq::empty());
    while i < arguments.len()
        invariant
            i <= arguments.len(),
            given == calls::arguments_view(arguments@),
            types::tys(positional@) == observed_positional(given, i as nat),
            types::params_view(named@) == observed_named(given, i as nat),
        decreases arguments.len() - i,
    {
        assert(given[i as int] == arguments@[i as int]@);
        match &arguments[i].name {
            Some(name) => {
                named.push(
                    Parameter {
                        name: Name::new(name.clone()),
                        ty: type_of(&arguments[i]),
                        optional: false,
                        default: None,
                    },
                );
            },
            None => {
                positional.push(type_of(&arguments[i]));
            },
        }
        i += 1;
    }
    FunctionType { positional, named, variadic: None, ret: ret.clone() }
}

} // verus!
