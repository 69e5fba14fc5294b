//! Which function a call goes to: the laws of overloads and of callees.

use vstd::prelude::*;

use crate::calls::{CallArgumentV, CallSiteV};
use crate::findings::TypeErrorV;
use crate::overloads::{self, CallV, RoundV};
use crate::schemes::SchemeV;
use crate::table::TableV;
use crate::types::{FunctionV, TyV};

verus! {

/// Whether a candidate fits a call.
#[verifier::opaque]
pub open spec fn fits(t: TableV, call: CallV, candidate: SchemeV, strict: bool) -> bool {
    t.probe_candidate(call, candidate, strict) is Ok
}

/// The first candidate that fits is taken, with what it leaves; where none is
/// taken, none fits.
pub proof fn the_first_fit_is_taken(
    t: TableV,
    call: CallV,
    candidates: Seq<SchemeV>,
    from: int,
    i: int,
)
    requires
        0 <= from <= candidates.len(),
    ensures
        from <= i < candidates.len() && fits(t, call, candidates[i], false) && (forall|k: int|
            from <= k < i ==> !fits(t, call, #[trigger] candidates[k], false)) ==> t.first_fit(
            call,
            candidates,
            from,
        ) == Some(t.probe_candidate(call, candidates[i], false)->Ok_0),
        t.first_fit(call, candidates, from) is None <==> forall|k: int|
            from <= k < candidates.len() ==> !fits(t, call, #[trigger] candidates[k], false),
    decreases candidates.len() - from,
{
    reveal(fits);
    if from < candidates.len() {
        the_first_fit_is_taken(t, call, candidates, from + 1, i);
        if fits(t, call, candidates[from], false) {
            assert(t.first_fit(call, candidates, from) is Some);
        }
    }
}

/// Whether every fit of a list is one of the first candidates and fits.
#[verifier::opaque]
spec fn all_fit(
    t: TableV,
    call: CallV,
    candidates: Seq<SchemeV>,
    strict: bool,
    list: Seq<(int, bool)>,
    upto: int,
) -> bool {
    &&& forall|k: int|
        0 <= k < list.len() ==> 0 <= (#[trigger] list[k]).0 < upto && fits(
            t,
            call,
            candidates[list[k].0],
            strict,
        )
    &&& forall|c: int|
        0 <= c < upto && fits(t, call, #[trigger] candidates[c], strict) ==> exists|k: int|
            0 <= k < list.len() && (#[trigger] list[k]).0 == c
    &&& forall|k: int, l: int|
        0 <= k < l < list.len() ==> (#[trigger] list[k]).0 < (#[trigger] list[l]).0
}

proof fn one_more_fit(
    t: TableV,
    call: CallV,
    candidates: Seq<SchemeV>,
    strict: bool,
    list: Seq<(int, bool)>,
    from: int,
    free: bool,
)
    requires
        0 <= from < candidates.len(),
        all_fit(t, call, candidates, strict, list, from),
    ensures
        fits(t, call, candidates[from], strict) ==> all_fit(
            t,
            call,
            candidates,
            strict,
            list.push((from, free)),
            from + 1,
        ),
        !fits(t, call, candidates[from], strict) ==> all_fit(
            t,
            call,
            candidates,
            strict,
            list,
            from + 1,
        ),
{
    reveal(all_fit);
    if fits(t, call, candidates[from], strict) {
        let more = list.push((from, free));
        assert forall|c: int|
            0 <= c < from + 1 && fits(t, call, #[trigger] candidates[c], strict) implies exists|
            k: int,
        |
            0 <= k < more.len() && (#[trigger] more[k]).0 == c by {
            if c < from {
                let k = choose|k: int| 0 <= k < list.len() && (#[trigger] list[k]).0 == c;
                assert(more[k] == list[k]);
            } else {
                assert(more[list.len() as int].0 == from);
            }
        }
        assert forall|k: int, l: int| 0 <= k < l < more.len() implies (#[trigger] more[k]).0 < (
        #[trigger] more[l]).0 by {
            assert(more[k] == list[k]);
            if l < list.len() {
                assert(more[l] == list[l]);
            }
        }
    }
}

proof fn nothing_before(
    t: TableV,
    call: CallV,
    candidates: Seq<SchemeV>,
    strict: bool,
    list: Seq<(int, bool)>,
    from: int,
)
    requires
        all_fit(t, call, candidates, strict, list, from),
        list.len() == 0,
    ensures
        forall|k: int| 0 <= k < from ==> !fits(t, call, #[trigger] candidates[k], strict),
{
    reveal(all_fit);
    assert forall|c: int| 0 <= c < from implies !fits(
        t,
        call,
        #[trigger] candidates[c],
        strict,
    ) by {
        if fits(t, call, candidates[c], strict) {
            let k = choose|k: int| 0 <= k < list.len() && (#[trigger] list[k]).0 == c;
        }
    }
}

proof fn a_round_finds_the_fits(
    t: TableV,
    call: CallV,
    candidates: Seq<SchemeV>,
    strict: bool,
    vars: Set<u32>,
    from: int,
    list: Seq<(int, bool)>,
    errors: Seq<TypeErrorV>,
)
    requires
        0 <= from <= candidates.len(),
        all_fit(t, call, candidates, strict, list, from),
        vars == Set::<u32>::empty() ==> list.len() == 0,
    ensures
        match t.probe_round(call, candidates, strict, vars, from, list, errors) {
            RoundV::Settled(i) => {
                &&& from <= i < candidates.len()
                &&& vars == Set::<u32>::empty()
                &&& fits(t, call, candidates[i], strict)
                &&& forall|k: int|
                    0 <= k < i ==> !fits(t, call, #[trigger] candidates[k], strict)
            },
            RoundV::Tried(all, _) => {
                &&& all_fit(t, call, candidates, strict, all, candidates.len() as int)
                &&& vars == Set::<u32>::empty() ==> all.len() == 0
            },
        },
    decreases candidates.len() - from,
{
    if from < candidates.len() {
        let outcome = t.probe_candidate(call, candidates[from], strict);
        assert(outcome is Ok == fits(t, call, candidates[from], strict)) by {
            reveal(fits);
        }
        match outcome {
            Ok((after, _)) => {
                if vars == Set::<u32>::empty() {
                    nothing_before(t, call, candidates, strict, list, from);
                } else {
                    let free = overloads::untouched(t, after, vars);
                    one_more_fit(t, call, candidates, strict, list, from, free);
                    a_round_finds_the_fits(
                        t,
                        call,
                        candidates,
                        strict,
                        vars,
                        from + 1,
                        list.push((from, free)),
                        errors,
                    );
                }
            },
            Err(found) => {
                one_more_fit(t, call, candidates, strict, list, from, false);
                a_round_finds_the_fits(
                    t,
                    call,
                    candidates,
                    strict,
                    vars,
                    from + 1,
                    list,
                    if strict && found.len() > 0 {
                        errors.push(found[0])
                    } else {
                        errors
                    },
                );
            },
        }
    }
}

/// The best of several fits is one that narrows nothing where there is one, the
/// first of those; otherwise it is the first of all.
pub proof fn the_best_fit_narrows_nothing(list: Seq<(int, bool)>, from: int)
    requires
        0 <= from <= list.len(),
    ensures
        match overloads::free_fit(list, from) {
            Some(index) => exists|k: int|
                from <= k < list.len() && (#[trigger] list[k]).0 == index && list[k].1
                    && forall|j: int| from <= j < k ==> !(#[trigger] list[j]).1,
            None => forall|j: int| from <= j < list.len() ==> !(#[trigger] list[j]).1,
        },
        overloads::best_fit(list) is None <==> list.len() == 0,
        list.len() > 0 ==> exists|k: int|
            0 <= k < list.len() && overloads::best_fit(list) == Some((#[trigger] list[k]).0),
    decreases list.len() - from,
{
    if from < list.len() {
        the_best_fit_narrows_nothing(list, from + 1);
        if list[from].1 {
            assert(list[from].0 == overloads::free_fit(list, from)->0);
        } else {
            match overloads::free_fit(list, from + 1) {
                Some(index) => {
                    let k = choose|k: int|
                        from + 1 <= k < list.len() && (#[trigger] list[k]).0 == index && list[k].1
                            && forall|j: int| from + 1 <= j < k ==> !(#[trigger] list[j]).1;
                    assert forall|j: int| from <= j < k implies !(#[trigger] list[j]).1 by {
                        if j > from {
                            assert(from + 1 <= j);
                        }
                    }
                    assert(list[k].0 == index);
                },
                None => {},
            }
        }
    }
    free_fits_are_listed(list, 0);
    if list.len() > 0 && overloads::free_fit(list, 0) is None {
        assert(overloads::best_fit(list) == Some(list[0].0));
    }
}

proof fn free_fits_are_listed(list: Seq<(int, bool)>, from: int)
    requires
        0 <= from <= list.len(),
    ensures
        match overloads::free_fit(list, from) {
            Some(index) => exists|k: int| from <= k < list.len() && (#[trigger] list[k]).0 == index,
            None => true,
        },
    decreases list.len() - from,
{
    if from < list.len() {
        free_fits_are_listed(list, from + 1);
        if list[from].1 {
            assert(list[from].0 == overloads::free_fit(list, from)->0);
        }
    }
}

/// An overload is chosen exactly where one fits, and the one chosen does. One
/// that fits strictly is always preferred, so a lenient choice is made only where
/// none fits strictly and a whole-number literal stands among the arguments.
/// Where the caller leaves nothing open, the first that fits is chosen.
pub proof fn the_chosen_overload_fits(t: TableV, call: CallV, candidates: Seq<SchemeV>)
    ensures
        ({
            let none_strictly = forall|k: int|
                0 <= k < candidates.len() ==> !fits(t, call, #[trigger] candidates[k], true);
            let none_at_all = forall|k: int|
                0 <= k < candidates.len() ==> !fits(t, call, #[trigger] candidates[k], false);
            let vars = overloads::caller_vars(t, call.arguments, 0, Set::empty());
            match t.choose_candidate(call, candidates).0 {
                Some((i, strict)) => {
                    &&& 0 <= i < candidates.len()
                    &&& fits(t, call, candidates[i], strict)
                    &&& !strict ==> none_strictly && overloads::any_whole_double(call.arguments)
                    &&& vars == Set::<u32>::empty() ==> forall|k: int|
                        0 <= k < i ==> !fits(t, call, #[trigger] candidates[k], strict)
                },
                None => none_strictly && (overloads::any_whole_double(call.arguments)
                    ==> none_at_all),
            }
        }),
{
    let vars = overloads::caller_vars(t, call.arguments, 0, Set::empty());
    a_round_chooses_a_fit(t, call, candidates, true, vars);
    a_round_chooses_a_fit(t, call, candidates, false, vars);
}

/// The candidate that a round settles on.
spec fn chosen(
    t: TableV,
    call: CallV,
    candidates: Seq<SchemeV>,
    strict: bool,
    vars: Set<u32>,
) -> Option<int> {
    match t.probe_round(call, candidates, strict, vars, 0, Seq::empty(), Seq::empty()) {
        RoundV::Settled(i) => Some(i),
        RoundV::Tried(list, _) => overloads::best_fit(list),
    }
}

proof fn a_round_chooses_a_fit(
    t: TableV,
    call: CallV,
    candidates: Seq<SchemeV>,
    strict: bool,
    vars: Set<u32>,
)
    ensures
        match chosen(t, call, candidates, strict, vars) {
            Some(i) => {
                &&& 0 <= i < candidates.len()
                &&& fits(t, call, candidates[i], strict)
                &&& vars == Set::<u32>::empty() ==> forall|k: int|
                    0 <= k < i ==> !fits(t, call, #[trigger] candidates[k], strict)
            },
            None => forall|k: int|
                0 <= k < candidates.len() ==> !fits(t, call, #[trigger] candidates[k], strict),
        },
{
    assert(all_fit(t, call, candidates, strict, Seq::empty(), 0)) by {
        reveal(all_fit);
    }
    a_round_finds_the_fits(t, call, candidates, strict, vars, 0, Seq::empty(), Seq::empty());
    match t.probe_round(call, candidates, strict, vars, 0, Seq::empty(), Seq::empty()) {
        RoundV::Settled(_) => {},
        RoundV::Tried(list, _) => {
            the_best_fit_narrows_nothing(list, 0);
            if list.len() == 0 {
                nothing_before(t, call, candidates, strict, list, candidates.len() as int);
            } else {
                reveal(all_fit);
            }
        },
    }
}

/// What is no function cannot be called: the callee is blamed, and nothing is
/// known of the result.
pub proof fn only_functions_are_called(t: TableV, call: CallV, callee: TyV)
    requires
        callee is Null || callee is Scalar || callee is Vector || callee is NamedVector || callee
            is List || callee is NamedList || callee is Tuple || callee is Record,
    ensures
        ({
            let (after, found, ty) = t.dispatch(call, callee);
            &&& after == t
            &&& ty == TyV::Unknown
            &&& found.len() == 1
            &&& found[0].range == call.callee_range
            &&& found[0].kind is NotAFunction
        }),
{
}

/// A known function is called as its signature says, and the call has its
/// result's type; an unknown callee is let pass.
pub proof fn a_function_is_called_by_its_signature(t: TableV, call: CallV, function: FunctionV)
    ensures
        t.dispatch(call, TyV::Function(Box::new(function))).2 == function.ret,
        t.dispatch(call, TyV::Unknown) == (t, Seq::<TypeErrorV>::empty(), TyV::Unknown),
        t.dispatch(call, TyV::Any) == (t, Seq::<TypeErrorV>::empty(), TyV::Unknown),
{
}

/// A callee that may be `NULL` is reported as that before anything else.
pub proof fn a_callee_that_may_be_null_is_reported(t: TableV, call: CallV, members: Seq<TyV>)
    requires
        t.maybe_null_functions(members),
    ensures
        ({
            let found = t.dispatch(call, TyV::Union(members)).1;
            &&& found.len() >= 1
            &&& found[0].range == call.callee_range
            &&& found[0].kind is MaybeNullCallee
        }),
{
}

/// Leaving `NULL` out keeps every other member, in order.
pub proof fn only_null_is_left_out(members: Seq<TyV>, upto: nat, ty: TyV)
    requires
        upto <= members.len(),
    ensures
        overloads::without_null(members, upto).contains(ty) <==> ty !is Null && exists|i: int|
            0 <= i < upto && #[trigger] members[i] == ty,
    decreases upto,
{
    if upto > 0 {
        only_null_is_left_out(members, (upto - 1) as nat, ty);
        let before = overloads::without_null(members, (upto - 1) as nat);
        let all = overloads::without_null(members, upto);
        if before.contains(ty) {
            let k = choose|k: int| 0 <= k < before.len() && before[k] == ty;
            assert(all[k] == ty);
        }
        if all.contains(ty) && !before.contains(ty) {
            let k = choose|k: int| 0 <= k < all.len() && all[k] == ty;
            if k < before.len() {
                assert(before[k] == ty);
            }
            assert(members[upto - 1] == ty);
        }
        if members[upto - 1] == ty && ty !is Null {
            assert(all.last() == ty);
        }
    }
}

/// What a call asks of an unknown callee has one formal for each argument: a
/// named one for each that has a name, of that name and type, and a positional
/// one for each that has none.
pub proof fn a_call_asks_for_its_arguments(arguments: Seq<CallArgumentV>, upto: nat)
    requires
        upto <= arguments.len(),
    ensures
        overloads::observed_positional(arguments, upto).len() + overloads::observed_named(
            arguments,
            upto,
        ).len() == upto,
        upto > 0 && arguments[upto - 1].name is Some ==> overloads::observed_named(
            arguments,
            upto,
        ).last().name == arguments[upto - 1].name->0,
        upto > 0 && arguments[upto - 1].name is None && arguments[upto - 1].ty is Some
            ==> overloads::observed_positional(arguments, upto).last() == arguments[upto
            - 1].ty->0,
    decreases upto,
{
    if upto > 0 {
        a_call_asks_for_its_arguments(arguments, (upto - 1) as nat);
    }
}

/// Where no candidate fits, one answer is given for all: the common one where all
/// agree, else that of the candidate that got past more arguments than every
/// other.
pub proof fn the_answer_is_that_of_the_furthest(
    errors: Seq<TypeErrorV>,
    candidates: nat,
    arguments: Seq<CallArgumentV>,
    j: int,
)
    requires
        0 <= j < errors.len(),
    ensures
        match overloads::single_answer(errors, candidates, arguments) {
            Some(error) => {
                &&& errors.contains(error)
                &&& errors[j] != error ==> match (
                    overloads::argument_at(arguments, error.range, 0),
                    overloads::argument_at(arguments, errors[j].range, 0),
                ) {
                    (Some(own), Some(other)) => other < own,
                    (Some(_), None) => true,
                    _ => false,
                }
            },
            None => errors.len() != candidates || !overloads::all_alike(errors),
        },
{
    the_furthest_is_one_of_them(errors, arguments, 0);
    if overloads::all_alike(errors) {
        assert(errors[j] == errors[0]);
        assert(errors.contains(errors[0]));
    }
}

proof fn the_furthest_is_one_of_them(
    errors: Seq<TypeErrorV>,
    arguments: Seq<CallArgumentV>,
    from: int,
)
    requires
        0 <= from <= errors.len(),
    ensures
        match overloads::furthest(errors, arguments, from) {
            Some(i) => from <= i < errors.len() && overloads::got_furthest(errors, arguments, i),
            None => true,
        },
    decreases errors.len() - from,
{
    if from < errors.len() {
        the_furthest_is_one_of_them(errors, arguments, from + 1);
    }
}

/// A value that may be one of several functions is called with what fits each of
/// them: the first that does not fit is what is reported.
pub proof fn an_alternative_callee_must_fit_in_every_shape(
    t: TableV,
    call: CallV,
    members: Seq<TyV>,
    from: int,
    results: Seq<TyV>,
    i: int,
)
    requires
        0 <= from <= i < members.len(),
        t.shallow(members[i]) is Function,
    ensures
        t.dispatch_members(call, members, from, results) is Ok ==> t.match_arguments(
            CallSiteV { module: call.module, strict: false },
            call.callee_range,
            *t.shallow(members[i])->Function_0,
            call.arguments,
        ).1.len() == 0,
        t.dispatch_members(call, members, from, results) is Err
            ==> t.dispatch_members(call, members, from, results)->Err_0.len() > 0,
    decreases members.len() - from,
{
    let next = match t.shallow(members[from]) {
        TyV::Function(function) => {
            let (after, found) = t.match_arguments(
                CallSiteV { module: call.module, strict: false },
                call.callee_range,
                *function,
                call.arguments,
            );
            results.push(after.resolve(function.ret).erased())
        },
        _ => results,
    };
    if from < i {
        an_alternative_callee_must_fit_in_every_shape(t, call, members, from + 1, next, i);
    } else {
        a_refusal_has_a_finding(t, call, members, from + 1, next);
    }
}

proof fn a_refusal_has_a_finding(
    t: TableV,
    call: CallV,
    members: Seq<TyV>,
    from: int,
    results: Seq<TyV>,
)
    requires
        0 <= from <= members.len(),
    ensures
        t.dispatch_members(call, members, from, results) is Err
            ==> t.dispatch_members(call, members, from, results)->Err_0.len() > 0,
    decreases members.len() - from,
{
    if from < members.len() {
        let next = match t.shallow(members[from]) {
            TyV::Function(function) => {
                let (after, found) = t.match_arguments(
                    CallSiteV { module: call.module, strict: false },
                    call.callee_range,
                    *function,
                    call.arguments,
                );
                results.push(after.resolve(function.ret).erased())
            },
            _ => results,
        };
        a_refusal_has_a_finding(t, call, members, from + 1, next);
    }
}

} // verus!
