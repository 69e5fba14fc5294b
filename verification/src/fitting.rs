//! Which values fit where: the laws of compatibility over known types, and of
//! arguments against formals.

use vstd::prelude::*;

use crate::calls::{self, ArgumentTarget, CallArgumentV, CallSiteV, TargetsV};
use crate::compatible;
use crate::findings::TypeErrorV;
use crate::hir::ExprId;
use crate::operands;
use crate::syntax::TextRange;
use crate::table::{self, FillV, SlotV, TableV};
use crate::types::{Atomic, FieldV, FunctionV, ParameterV, TyV};

verus! {

/// A mode is promoted where it is expected to be a higher one of the numeric
/// modes: exactly where the two combine to the expected one.
pub proof fn promotion_follows_combination(from: Atomic, to: Atomic)
    ensures
        table::promotes(from, to) <==> from != to && to != Atomic::Character
            && operands::combined(from, to) == Some(to),
{
}

/// A type that holds one type and nothing else.
pub open spec fn is_wrapper(ty: TyV) -> bool {
    ty is Vector || ty is NamedVector || ty is List || ty is NamedList
}

/// What such a type holds.
pub open spec fn wrapped(ty: TyV) -> TyV {
    ty.children()[0]
}

proof fn wrappers_resolve(t: TableV, ty: TyV)
    requires
        is_wrapper(ty),
        wrapped(ty) is Scalar,
    ensures
        t.resolve(ty) == ty,
        t.shallow(ty) == ty,
{
    let inner = wrapped(ty);
    compatible::leaves_resolve_to_themselves(t, inner);
    assert(t.resolve_children(ty, Seq::empty()) =~= seq![inner]);
}

/// One pair to check one level down is that pair's own verdict.
proof fn one_pair(t: TableV, a: TyV, b: TyV, depth: nat)
    requires
        depth < table::DEPTH_LIMIT,
        a is Scalar,
        b is Scalar,
    ensures
        t.compatible_every(seq![(a, b)], 0, depth) == t.compatible(a, b),
        t.compatible_at(a, b, depth) == t.compatible(a, b),
        t.compatible(a, b).0 == t,
{
    compatible::leaves_resolve_to_themselves(t, a);
    compatible::leaves_resolve_to_themselves(t, b);
    compatible::scalars_widen_one_way(t, a->Scalar_0, b->Scalar_0);
    reveal_with_fuel(TableV::compatible_every, 2);
    reveal_with_fuel(TableV::compatible_at, 2);
}

/// Containers fit by what they hold: a vector or a list fits one of its kind
/// exactly where its elements fit.
pub proof fn containers_fit_by_their_elements(t: TableV, a: Atomic, b: Atomic)
    ensures
        ({
            let x = TyV::Scalar(a);
            let y = TyV::Scalar(b);
            let fits = t.compatible(x, y).1;
            &&& t.compatible(TyV::Vector(Box::new(x)), TyV::Vector(Box::new(y))) == (t, fits)
            &&& t.compatible(TyV::NamedVector(Box::new(x)), TyV::NamedVector(Box::new(y))) == (
                t,
                fits,
            )
            &&& t.compatible(TyV::List(Box::new(x)), TyV::List(Box::new(y))) == (t, fits)
            &&& t.compatible(TyV::NamedList(Box::new(x)), TyV::NamedList(Box::new(y))) == (t, fits)
        }),
{
    let x = TyV::Scalar(a);
    let y = TyV::Scalar(b);
    wrappers_resolve(t, TyV::Vector(Box::new(x)));
    wrappers_resolve(t, TyV::Vector(Box::new(y)));
    wrappers_resolve(t, TyV::NamedVector(Box::new(x)));
    wrappers_resolve(t, TyV::NamedVector(Box::new(y)));
    wrappers_resolve(t, TyV::List(Box::new(x)));
    wrappers_resolve(t, TyV::List(Box::new(y)));
    wrappers_resolve(t, TyV::NamedList(Box::new(x)));
    wrappers_resolve(t, TyV::NamedList(Box::new(y)));
    one_pair(t, x, y, 1);
    compatible::every_type_fits_itself(t, x);
    compatible::scalars_widen_one_way(t, a, b);
}

/// A single value fits where a vector is expected exactly where it fits the
/// vector's elements; a vector never fits where a single value is expected.
pub proof fn a_single_value_is_a_short_vector(t: TableV, a: Atomic, b: Atomic)
    ensures
        ({
            let x = TyV::Scalar(a);
            let y = TyV::Scalar(b);
            &&& t.compatible(x, TyV::Vector(Box::new(y))) == (t, t.compatible(x, y).1)
            &&& !t.compatible(TyV::Vector(Box::new(x)), y).1
            &&& !t.compatible(TyV::NamedVector(Box::new(x)), y).1
            &&& !t.compatible(TyV::List(Box::new(x)), y).1
            &&& !t.compatible(x, TyV::List(Box::new(y))).1
            &&& !t.compatible(TyV::Vector(Box::new(x)), TyV::List(Box::new(y))).1
            &&& !t.compatible(TyV::List(Box::new(x)), TyV::Vector(Box::new(y))).1
        }),
{
    let x = TyV::Scalar(a);
    let y = TyV::Scalar(b);
    wrappers_resolve(t, TyV::Vector(Box::new(x)));
    wrappers_resolve(t, TyV::Vector(Box::new(y)));
    wrappers_resolve(t, TyV::NamedVector(Box::new(x)));
    wrappers_resolve(t, TyV::List(Box::new(x)));
    wrappers_resolve(t, TyV::List(Box::new(y)));
    compatible::leaves_resolve_to_themselves(t, x);
    compatible::leaves_resolve_to_themselves(t, y);
    one_pair(t, x, y, 1);
    compatible::scalars_widen_one_way(t, a, b);
}

/// Names may be dropped and never appear: a named container fits where one
/// without names is expected exactly where its elements fit, and never the other
/// way round.
pub proof fn names_may_be_dropped(t: TableV, a: Atomic, b: Atomic)
    ensures
        ({
            let x = TyV::Scalar(a);
            let y = TyV::Scalar(b);
            let fits = t.compatible(x, y).1;
            &&& t.compatible(TyV::NamedVector(Box::new(x)), TyV::Vector(Box::new(y))) == (t, fits)
            &&& t.compatible(TyV::NamedList(Box::new(x)), TyV::List(Box::new(y))) == (t, fits)
            &&& !t.compatible(TyV::Vector(Box::new(x)), TyV::NamedVector(Box::new(y))).1
            &&& !t.compatible(TyV::List(Box::new(x)), TyV::NamedList(Box::new(y))).1
        }),
{
    let x = TyV::Scalar(a);
    let y = TyV::Scalar(b);
    wrappers_resolve(t, TyV::NamedVector(Box::new(x)));
    wrappers_resolve(t, TyV::NamedVector(Box::new(y)));
    wrappers_resolve(t, TyV::Vector(Box::new(x)));
    wrappers_resolve(t, TyV::Vector(Box::new(y)));
    wrappers_resolve(t, TyV::NamedList(Box::new(x)));
    wrappers_resolve(t, TyV::NamedList(Box::new(y)));
    wrappers_resolve(t, TyV::List(Box::new(x)));
    wrappers_resolve(t, TyV::List(Box::new(y)));
    one_pair(t, x, y, 1);
    compatible::scalars_widen_one_way(t, a, b);
}

/// `NULL` fits no single value and no vector, and none of them fits `NULL`.
pub proof fn null_is_no_value(t: TableV, mode: Atomic)
    ensures
        !t.compatible(TyV::Null, TyV::Scalar(mode)).1,
        !t.compatible(TyV::Scalar(mode), TyV::Null).1,
        !t.compatible(TyV::Null, TyV::Vector(Box::new(TyV::Scalar(mode)))).1,
        !t.compatible(TyV::Vector(Box::new(TyV::Scalar(mode))), TyV::Null).1,
        t.compatible(TyV::Null, TyV::Null).1,
{
    wrappers_resolve(t, TyV::Vector(Box::new(TyV::Scalar(mode))));
    compatible::leaves_resolve_to_themselves(t, TyV::Null);
    compatible::leaves_resolve_to_themselves(t, TyV::Scalar(mode));
}

/// What two records ask of each other is decided by the names of the fields
/// alone: each expected field is paired with the field of its name.
pub proof fn record_fields_pair_by_name(
    own: Seq<FieldV>,
    wanted: Seq<FieldV>,
    upto: nat,
    i: int,
)
    requires
        upto <= wanted.len(),
        0 <= i < upto,
    ensures
        table::field_type(own, wanted[i].name) is None ==> table::record_pairs(own, wanted, upto)
            is None,
        table::record_pairs(own, wanted, upto) is Some ==> table::record_pairs(
            own,
            wanted,
            upto,
        )->0.len() == upto && table::record_pairs(own, wanted, upto)->0[i] == (
            table::field_type(own, wanted[i].name)->0,
            wanted[i].ty,
        ),
    decreases upto,
{
    if i < upto - 1 {
        record_fields_pair_by_name(own, wanted, (upto - 1) as nat, i);
    } else if upto > 1 {
        record_fields_pair_by_name(own, wanted, (upto - 1) as nat, 0);
    }
}

/// A function that takes its formals by position alone.
pub open spec fn is_plain(function: FunctionV) -> bool {
    function.named.len() == 0 && function.variadic is None
}

proof fn filled_in_order(
    filled: Seq<Option<FillV>>,
    queue: Seq<FillV>,
    from: int,
    used: nat,
)
    requires
        0 <= from <= filled.len(),
        used == if from <= queue.len() {
            from
        } else {
            queue.len() as int
        },
        forall|i: int| from <= i < filled.len() ==> #[trigger] filled[i] is None,
    ensures
        ({
            let (done, all) = table::fill_in_order(filled, queue, from, used);
            &&& done.len() == filled.len()
            &&& forall|i: int|
                from <= i < filled.len() ==> #[trigger] done[i] == if i < queue.len() {
                    Some(queue[i])
                } else {
                    None
                }
            &&& forall|i: int| 0 <= i < from ==> #[trigger] done[i] == filled[i]
            &&& all == if filled.len() <= queue.len() {
                filled.len()
            } else {
                if from <= queue.len() {
                    queue.len()
                } else {
                    used
                }
            }
        }),
    decreases filled.len() - from,
{
    if from < filled.len() {
        if used < queue.len() {
            let next = filled.update(from, Some(queue[used as int]));
            filled_in_order(next, queue, from + 1, used + 1);
            let done = table::fill_in_order(filled, queue, from, used).0;
            assert(done[from] == next[from]);
        } else {
            filled_in_order(filled, queue, from + 1, used);
            let done = table::fill_in_order(filled, queue, from, used).0;
            assert(done[from] == filled[from]);
        }
    }
}

proof fn every_slot_pairs(slots: Seq<SlotV>, filled: Seq<Option<FillV>>, upto: nat)
    requires
        upto <= slots.len(),
        filled.len() == slots.len(),
        forall|i: int|
            0 <= i < slots.len() ==> !(#[trigger] slots[i]).optional && filled[i] is Some && !(
            filled[i]->0).1,
    ensures
        table::paired_slots(slots, filled, upto) is Some,
        table::paired_slots(slots, filled, upto)->0.len() == upto,
        forall|i: int|
            0 <= i < upto ==> (#[trigger] table::paired_slots(slots, filled, upto)->0[i]).passed
                == (filled[i]->0).0 && table::paired_slots(slots, filled, upto)->0[i].accepts
                == slots[i].ty,
    decreases upto,
{
    if upto > 0 {
        every_slot_pairs(slots, filled, (upto - 1) as nat);
        assert(!slots[upto - 1].optional);
    }
}

proof fn an_empty_slot_pairs_nothing(
    slots: Seq<SlotV>,
    filled: Seq<Option<FillV>>,
    upto: nat,
    i: int,
)
    requires
        0 <= i < upto <= slots.len(),
        filled[i] is None,
        !slots[i].optional,
    ensures
        table::paired_slots(slots, filled, upto) is None,
    decreases upto,
{
    if i < upto - 1 {
        an_empty_slot_pairs_nothing(slots, filled, (upto - 1) as nat, i);
    }
}

/// A function serves an interface by position: both have as many formals, and
/// what the interface passes at each place must fit what the function accepts
/// there, so formals vary against the functions they belong to.
pub proof fn formals_are_contravariant(own: FunctionV, wanted: FunctionV, i: int)
    requires
        is_plain(own),
        is_plain(wanted),
    ensures
        table::pair_parameters(own, wanted) is Some <==> own.positional.len()
            == wanted.positional.len(),
        table::pair_parameters(own, wanted) is Some && 0 <= i < own.positional.len() ==> {
            let pairs = (table::pair_parameters(own, wanted)->0).contravariant();
            &&& pairs.len() == own.positional.len()
            &&& pairs[i] == (wanted.positional[i], own.positional[i])
        },
{
    let slots = own.slots();
    let none = Seq::new(slots.len(), |i: int| None::<FillV>);
    let (claimed, overflow) = table::claim_named(slots, wanted.named, 0, none, Seq::empty());
    assert(claimed == none && overflow == Seq::<FillV>::empty());
    let queue = table::positional_queue(wanted, overflow);
    assert(queue.len() == wanted.positional.len());
    assert(slots.len() == own.positional.len());
    filled_in_order(claimed, queue, 0, 0);
    let (filled, used) = table::fill_in_order(claimed, queue, 0, 0);
    if own.positional.len() <= wanted.positional.len() {
        assert forall|k: int| 0 <= k < slots.len() implies !(#[trigger] slots[k]).optional
            && filled[k] is Some && !(filled[k]->0).1 by {
            assert(filled[k] == Some(queue[k]));
        }
        every_slot_pairs(slots, filled, slots.len());
        if 0 <= i < own.positional.len() {
            let pairs = table::paired_slots(slots, filled, slots.len())->0;
            assert(pairs[i].passed == (filled[i]->0).0);
        }
    } else {
        let k = wanted.positional.len() as int;
        assert(filled[k] is None);
        assert(!slots[k].optional);
        an_empty_slot_pairs_nothing(slots, filled, slots.len(), k);
    }
}

/// One value of a known mode against a formal of a known mode: it fits where it
/// is of that mode or is promoted to it. A whole-number double literal also fits
/// wherever an integer does, unless the site is strict.
pub proof fn an_argument_fits_by_its_mode(
    t: TableV,
    site: CallSiteV,
    wanted: Atomic,
    found: Atomic,
    range: TextRange,
    whole_double: bool,
    value: Option<ExprId>,
)
    ensures
        ({
            let (after, error) = t.check_argument(
                site,
                TyV::Scalar(wanted),
                TyV::Scalar(found),
                range,
                whole_double,
                value,
            );
            let courtesy = !site.strict && whole_double && found == Atomic::Double;
            &&& error is None <==> found == wanted || table::promotes(found, wanted) || (courtesy
                && (wanted == Atomic::Integer || table::promotes(Atomic::Integer, wanted)))
            &&& after == t
        }),
{
    compatible::leaves_resolve_to_themselves(t, TyV::Scalar(found));
    compatible::leaves_resolve_to_themselves(t, TyV::Scalar(wanted));
    compatible::scalars_widen_one_way(t, found, wanted);
    compatible::scalars_widen_one_way(t, Atomic::Integer, wanted);
}

/// An argument with nowhere to go is refused at its own place, and is then the
/// only finding of the call.
pub proof fn a_surplus_argument_is_refused(
    t: TableV,
    site: CallSiteV,
    callee_range: TextRange,
    function: FunctionV,
    arguments: Seq<CallArgumentV>,
    i: int,
)
    requires
        0 <= i < arguments.len(),
        calls::targets_of(function, arguments)[i] == Some(ArgumentTarget::Overflow),
        !calls::any_forwards(arguments),
    ensures
        ({
            let findings = t.match_arguments(site, callee_range, function, arguments).1;
            &&& findings.len() == 1
            &&& findings[0].kind is ArityMismatch
        }),
{
    let targets = calls::targets_of(function, arguments);
    overflow_stops(
        t,
        site,
        function,
        arguments,
        targets,
        calls::forwarded(targets, targets.len()),
        0,
        Seq::empty(),
        i,
    );
}

proof fn overflow_stops(
    t: TableV,
    site: CallSiteV,
    function: FunctionV,
    arguments: Seq<CallArgumentV>,
    targets: TargetsV,
    places: Seq<int>,
    from: int,
    findings: Seq<TypeErrorV>,
    i: int,
)
    requires
        0 <= from <= i < arguments.len(),
        targets[i] == Some(ArgumentTarget::Overflow),
        !calls::any_forwards(arguments),
    ensures
        ({
            let outcome = t.check_targets(
                site,
                function,
                arguments,
                targets,
                places,
                from,
                findings,
            ).1;
            outcome is Err && outcome->Err_0.kind is ArityMismatch
        }),
    decreases arguments.len() - from,
{
    if targets[from] != Some(ArgumentTarget::Overflow) {
        let (after, error) = t.check_target(
            site,
            function,
            arguments,
            places,
            arguments[from],
            targets[from],
        );
        overflow_stops(
            after,
            site,
            function,
            arguments,
            targets,
            places,
            from + 1,
            match error {
                Some(error) => findings.push(error),
                None => findings,
            },
            i,
        );
    }
}

/// A call that leaves out a formal it must give is refused, and so is one with a
/// name that no formal has left: there is always a finding.
pub proof fn a_call_of_the_wrong_shape_is_refused(
    t: TableV,
    site: CallSiteV,
    callee_range: TextRange,
    function: FunctionV,
    arguments: Seq<CallArgumentV>,
)
    requires
        !calls::any_forwards(arguments),
        calls::misses_required(function.named, calls::targets_of(function, arguments))
            || calls::positional_filled(
            calls::targets_of(function, arguments),
            calls::targets_of(function, arguments).len(),
        ) != function.positional.len() || exists|i: int|
            0 <= i < arguments.len() && arguments[i].name is Some
                && #[trigger] calls::targets_of(function, arguments)[i] == Some(
                ArgumentTarget::UnmatchedName,
            ),
    ensures
        t.match_arguments(site, callee_range, function, arguments).1.len() > 0,
{
    let targets = calls::targets_of(function, arguments);
    if exists|i: int|
        0 <= i < arguments.len() && arguments[i].name is Some && #[trigger] targets[i] == Some(
            ArgumentTarget::UnmatchedName,
        ) {
        let i = choose|i: int|
            0 <= i < arguments.len() && arguments[i].name is Some && #[trigger] targets[i] == Some(
                ArgumentTarget::UnmatchedName,
            );
        unmatched_is_found(function, arguments, targets, arguments.len(), i);
    }
}

proof fn unmatched_is_found(
    function: FunctionV,
    arguments: Seq<CallArgumentV>,
    targets: TargetsV,
    upto: nat,
    i: int,
)
    requires
        0 <= i < upto <= arguments.len(),
        arguments[i].name is Some,
        targets[i] == Some(ArgumentTarget::UnmatchedName),
    ensures
        calls::unmatched_names(function, arguments, targets, upto).len() > 0,
    decreases upto,
{
    if i < upto - 1 {
        unmatched_is_found(function, arguments, targets, (upto - 1) as nat, i);
    }
}

/// A call of the right shape whose arguments are untracked is accepted: every
/// argument goes to a formal or to the rest parameter, every formal that must be
/// given is, and no argument has a known type.
pub proof fn an_untracked_call_of_the_right_shape_is_accepted(
    t: TableV,
    site: CallSiteV,
    callee_range: TextRange,
    function: FunctionV,
    arguments: Seq<CallArgumentV>,
)
    requires
        forall|i: int|
            0 <= i < arguments.len() ==> (#[trigger] arguments[i]).ty is None || arguments[i].ty
                == Some(TyV::Unknown),
        forall|i: int|
            0 <= i < arguments.len() ==> #[trigger] calls::targets_of(function, arguments)[i]
                != Some(ArgumentTarget::Overflow) && calls::targets_of(function, arguments)[i]
                != Some(ArgumentTarget::UnmatchedName),
        !calls::misses_required(function.named, calls::targets_of(function, arguments)),
        calls::positional_filled(
            calls::targets_of(function, arguments),
            calls::targets_of(function, arguments).len(),
        ) == function.positional.len(),
    ensures
        t.match_arguments(site, callee_range, function, arguments).1.len() == 0,
{
    let targets = calls::targets_of(function, arguments);
    untracked_pass(
        t,
        site,
        function,
        arguments,
        targets,
        calls::forwarded(targets, targets.len()),
        0,
    );
    none_unmatched(function, arguments, targets, arguments.len());
}

proof fn none_unmatched(
    function: FunctionV,
    arguments: Seq<CallArgumentV>,
    targets: TargetsV,
    upto: nat,
)
    requires
        upto <= arguments.len(),
        forall|i: int|
            0 <= i < arguments.len() ==> #[trigger] targets[i] != Some(
                ArgumentTarget::UnmatchedName,
            ),
    ensures
        calls::unmatched_names(function, arguments, targets, upto).len() == 0,
    decreases upto,
{
    if upto > 0 {
        none_unmatched(function, arguments, targets, (upto - 1) as nat);
        assert(targets[upto - 1] != Some(ArgumentTarget::UnmatchedName));
    }
}

proof fn untracked_pass(
    t: TableV,
    site: CallSiteV,
    function: FunctionV,
    arguments: Seq<CallArgumentV>,
    targets: TargetsV,
    places: Seq<int>,
    from: int,
)
    requires
        0 <= from <= arguments.len(),
        forall|i: int|
            0 <= i < arguments.len() ==> (#[trigger] arguments[i]).ty is None || arguments[i].ty
                == Some(TyV::Unknown),
        forall|i: int|
            0 <= i < arguments.len() ==> #[trigger] targets[i] != Some(ArgumentTarget::Overflow),
    ensures
        t.check_targets(site, function, arguments, targets, places, from, Seq::empty()) == (t, Ok::<
            Seq<TypeErrorV>,
            TypeErrorV,
        >(Seq::empty())),
    decreases arguments.len() - from,
{
    if from < arguments.len() {
        assert(targets[from] != Some(ArgumentTarget::Overflow));
        assert(arguments[from].ty is None || arguments[from].ty == Some(TyV::Unknown));
        compatible::leaves_resolve_to_themselves(t, TyV::Unknown);
        let outcome = t.check_target(
            site,
            function,
            arguments,
            places,
            arguments[from],
            targets[from],
        );
        assert(outcome == (t, None::<TypeErrorV>));
        untracked_pass(t, site, function, arguments, targets, places, from + 1);
    }
}

/// One class fits itself as its arguments do: with what it gives, against what it
/// takes, both ways where it does both, and always where it does neither.
pub proof fn a_class_fits_by_its_arguments(
    t: TableV,
    name: Seq<char>,
    parameter: Seq<char>,
    body: TyV,
    a: Atomic,
    b: Atomic,
)
    requires
        t.definition(name) is Some,
        (t.definition(name)->0).parameters == seq![parameter],
        (t.definition(name)->0).body == body,
        a != b,
    ensures
        ({
            let actual = TyV::Named(name, seq![TyV::Scalar(a)]);
            let expected = TyV::Named(name, seq![TyV::Scalar(b)]);
            let gives = body.occurs_signed(parameter, true);
            let takes = body.occurs_signed(parameter, false);
            match table::compatible_step(t, actual, expected) {
                table::CompatibleStepV::Every(pairs) => {
                    &&& pairs.contains((TyV::Scalar(a), TyV::Scalar(b))) <==> gives
                    &&& pairs.contains((TyV::Scalar(b), TyV::Scalar(a))) <==> takes
                    &&& !gives && !takes <==> pairs.len() == 0
                },
                _ => t.undeclared(actual) || t.undeclared(expected),
            }
        }),
{
    let x = TyV::Scalar(a);
    let y = TyV::Scalar(b);
    let actual = TyV::Named(name, seq![x]);
    let expected = TyV::Named(name, seq![y]);
    let definition = t.definition(name)->0;
    assert(seq![x][0] == x && seq![y][0] == y);
    assert(actual != expected);
    assert(table::is_first(definition.parameters, 0));
    reveal_with_fuel(table::variance_pairs, 3);
    let pairs = table::variance_pairs(definition.variances(), seq![x], seq![y], 1);
    let own = table::argument_pairs(definition.variance(0), x, y);
    assert(pairs =~= own);
    assert(own.len() > 0 ==> own.contains(own[0]));
    assert(own.len() > 1 ==> own.contains(own[1]));
}

/// A value of a class fits what the class stands for, and what stands for it does
/// not fit the class.
pub proof fn a_class_is_more_than_its_representation(
    t: TableV,
    name: Seq<char>,
    arguments: Seq<TyV>,
    other: TyV,
)
    requires
        other is Scalar || other is Vector || other is Record || other is Tuple || other is List,
        !t.undeclared(TyV::Named(name, arguments)),
        !t.undeclared(other),
    ensures
        table::compatible_step(t, TyV::Named(name, arguments), other) == match t.representation(
            name,
            arguments,
        ) {
            Some(representation) => table::CompatibleStepV::Every(seq![(representation, other)]),
            None => table::CompatibleStepV::Verdict(false),
        },
        table::compatible_step(t, other, TyV::Named(name, arguments))
            == table::CompatibleStepV::Verdict(false),
{
}

/// An alternative is fitted by what fits one of its members; what may be one of
/// several must fit with each.
pub proof fn every_member_must_fit(t: TableV, members: Seq<TyV>, other: TyV)
    requires
        other is Scalar || other is Vector || other is Record || other is Null || other is List,
        !t.undeclared(TyV::Union(members)),
        !t.undeclared(other),
    ensures
        match table::compatible_step(t, TyV::Union(members), other) {
            table::CompatibleStepV::Every(pairs) => {
                &&& pairs.len() == members.len()
                &&& forall|i: int|
                    0 <= i < members.len() ==> #[trigger] pairs[i] == (members[i], other)
            },
            _ => false,
        },
        match table::compatible_step(t, other, TyV::Union(members)) {
            table::CompatibleStepV::AnyOf(actual, tried) => {
                &&& actual == other
                &&& forall|ty: TyV| #[trigger] tried.contains(ty) <==> members.contains(ty)
            },
            _ => false,
        },
{
    let settled = |m: TyV| t.shallow(m) !is Var;
    let open = |m: TyV| t.shallow(m) is Var;
    let first = members.filter(settled);
    let second = members.filter(open);
    assert forall|ty: TyV| (first + second).contains(ty) <==> members.contains(ty) by {
        if members.contains(ty) {
            let k = choose|k: int| 0 <= k < members.len() && members[k] == ty;
            if open(ty) {
                members.lemma_filter_contains(open, k);
                let i = choose|i: int| 0 <= i < second.len() && second[i] == ty;
                assert((first + second)[first.len() + i] == ty);
            } else {
                members.lemma_filter_contains(settled, k);
                let i = choose|i: int| 0 <= i < first.len() && first[i] == ty;
                assert((first + second)[i] == ty);
            }
        }
        if (first + second).contains(ty) {
            let i = choose|i: int| 0 <= i < (first + second).len() && (first + second)[i] == ty;
            if i < first.len() {
                assert(first.contains(first[i]));
                members.lemma_filter_contains_rev(settled, ty);
            } else {
                assert(second.contains(second[i - first.len()]));
                members.lemma_filter_contains_rev(open, ty);
            }
        }
    }
}

/// An argument is held to the formal that it goes to: to that position's type, or
/// to the element of the rest.
pub proof fn an_argument_is_held_to_its_formal(
    t: TableV,
    site: CallSiteV,
    function: FunctionV,
    arguments: Seq<CallArgumentV>,
    places: Seq<int>,
    argument: CallArgumentV,
    slot: usize,
    found: Atomic,
    wanted: Atomic,
)
    requires
        argument.ty == Some(TyV::Scalar(found)),
        !argument.whole_double,
    ensures
        ({
            let fits = found == wanted || table::promotes(found, wanted);
            let checked = |target: ArgumentTarget|
                t.check_target(site, function, arguments, places, argument, Some(target));
            &&& slot < function.positional.len() && function.positional[slot as int]
                == TyV::Scalar(wanted) ==> (checked(ArgumentTarget::Positional(slot)).1 is None
                <==> fits)
            &&& slot < function.named.len() && function.named[slot as int].ty == TyV::Scalar(wanted)
                ==> (checked(ArgumentTarget::Named(slot)).1 is None <==> fits)
            &&& function.variadic is Some && (function.variadic->0).element == TyV::Scalar(wanted)
                ==> (checked(ArgumentTarget::Rest).1 is None <==> fits)
        }),
{
    an_argument_fits_by_its_mode(
        t,
        site,
        wanted,
        found,
        argument.range,
        false,
        argument.value,
    );
    compatible::leaves_resolve_to_themselves(t, TyV::Scalar(found));
    compatible::leaves_resolve_to_themselves(t, TyV::Scalar(wanted));
}

/// A formal that a call leaves out takes the type of its default; one that the
/// call fills does not.
pub proof fn an_omitted_formal_takes_its_default(
    t: TableV,
    formal: ParameterV,
    default: TyV,
    target: ArgumentTarget,
)
    requires
        formal.default == Some(default),
    ensures
        t.fill_defaults(seq![formal], seq![Some(target)], 0) == if target == (
        ArgumentTarget::Named(0)) {
            t
        } else {
            t.unify(formal.ty, default).0
        },
        t.fill_defaults(seq![formal], Seq::empty(), 0) == t.unify(formal.ty, default).0,
{
    let formals = seq![formal];
    let targets: TargetsV = seq![Some(target)];
    let none: TargetsV = Seq::empty();
    assert(formals[0] == formal);
    assert(targets[0] == Some(target));
    assert(calls::is_supplied(targets, 0) <==> target == ArgumentTarget::Named(0));
    assert(!calls::is_supplied(none, 0));
    reveal_with_fuel(TableV::fill_defaults, 3);
}

/// A formal that callers leave out must be one that may be left out; what is
/// passed goes to what is accepted.
pub proof fn an_omitted_formal_must_be_optional(slot: SlotV, passed: TyV, may_omit: bool)
    ensures
        ({
            let paired = table::paired_slots(seq![slot], seq![Some((passed, may_omit))], 1);
            let empty = table::paired_slots(seq![slot], seq![None::<FillV>], 1);
            &&& paired is Some <==> slot.optional || !may_omit
            &&& paired is Some ==> (paired->0).len() == 1 && (paired->0)[0].passed == passed && (
            paired->0)[0].accepts == slot.ty && (paired->0)[0].name == slot.name
            &&& empty is Some <==> slot.optional
        }),
{
    let slots = seq![slot];
    let filled: Seq<Option<FillV>> = seq![Some((passed, may_omit))];
    let none: Seq<Option<FillV>> = seq![None];
    assert(slots[0] == slot && filled[0] == Some((passed, may_omit)) && none[0] is None);
    reveal_with_fuel(table::paired_slots, 2);
}

/// A callback that does not take what it is passed is reported with what it is
/// passed and what it accepts.
pub proof fn a_callback_is_blamed_for_its_formal(
    t: TableV,
    pair: table::ParameterPairV,
    passed: Atomic,
    accepts: Atomic,
)
    requires
        pair.passed == TyV::Scalar(passed),
        pair.accepts == TyV::Scalar(accepts),
    ensures
        ({
            let mismatch = t.explain_parameters(seq![pair], 0).1;
            &&& mismatch is None <==> passed == accepts || table::promotes(passed, accepts)
            &&& mismatch is Some ==> match mismatch->0 {
                table::FunctionMismatchV::Parameter {
                    name,
                    passed: given,
                    accepts: wanted,
                    ..
                } => name == pair.name && given == TyV::Scalar(passed) && wanted == TyV::Scalar(
                    accepts,
                ),
                _ => false,
            }
        }),
{
    compatible::leaves_resolve_to_themselves(t, TyV::Scalar(passed));
    compatible::leaves_resolve_to_themselves(t, TyV::Scalar(accepts));
    compatible::scalars_widen_one_way(t, passed, accepts);
    let pairs = seq![pair];
    assert(pairs[0] == pair);
    reveal_with_fuel(TableV::explain_parameters, 2);
}

/// A name that fits no formal is reported with the formals that there are, in
/// order, and as one given twice where a formal has that name.
pub proof fn an_unmatched_name_is_told_the_formals(function: FunctionV, name: Seq<char>, i: int)
    requires
        0 <= i < function.named.len(),
    ensures
        match calls::name_mismatch(function, name) {
            crate::findings::TypeErrorKindV::NamedArgumentMismatch {
                argument,
                duplicate,
                expected_parameters,
                ..
            } => {
                &&& argument == name
                &&& expected_parameters.len() == function.named.len()
                &&& expected_parameters[i] == function.named[i].name
                &&& function.named[i].name == name ==> duplicate
                &&& (forall|k: int|
                    0 <= k < function.named.len() ==> (#[trigger] function.named[k]).name != name)
                    ==> !duplicate
            },
            _ => false,
        },
{
    let names = calls::formal_names(function.named);
    assert(names[i] == function.named[i].name);
    if names.contains(name) {
        let k = choose|k: int| 0 <= k < names.len() && names[k] == name;
        assert(function.named[k].name == name);
    }
}

/// A value that is forwarded to a callback goes to the first position that is
/// open, then to the first formal before the rest, then to the rest; where none of
/// them is left it is refused.
pub proof fn a_forwarded_value_goes_to_the_first_open_formal(
    t: TableV,
    site: CallSiteV,
    value: calls::FilledV,
    open: calls::OpenFormalsV,
    rest: Option<TyV>,
)
    requires
        0 <= open.pre_rest <= open.named.len(),
    ensures
        ({
            let outcome = t.fill_open(site, seq![value], 0, open, rest);
            if open.positional.len() > 0 {
                let admitted = t.admits_filled(site, open.positional[0], value);
                &&& outcome is Some <==> admitted is Some
                &&& outcome is Some ==> (outcome->0).1.positional == open.positional.remove(0)
                    && (outcome->0).1.named == open.named
            } else if open.pre_rest > 0 {
                let admitted = t.admits_filled(site, open.named[0].ty, value);
                &&& outcome is Some <==> admitted is Some
                &&& outcome is Some ==> (outcome->0).1.named == open.named.remove(0)
            } else {
                &&& rest is None ==> outcome is None
                &&& rest is Some ==> (outcome is Some <==> t.admits_filled(
                    site,
                    rest->0,
                    value,
                ) is Some)
                &&& outcome is Some ==> (outcome->0).1 == open
            }
        }),
{
    let values = seq![value];
    assert(values[0] == value);
    reveal_with_fuel(TableV::fill_open, 2);
}

} // verus!
