//! Pairing of a function's parameters with an interface's, and the variance of
//! declared parameters.
//!
//! Arity is a range, not a number: a function serves an interface when it
//! accepts every call shape the interface promises, so it may declare more
//! parameters than the interface passes as long as the extras default.

use vstd::prelude::*;

use crate::annotations::NamedDefinition;
use crate::table;
use crate::table::{FillV, PairingV, ParameterPairV, SlotV, Variance};
use crate::types;
use crate::types::{Atomic, FunctionType, Name, Ty, TyKind, TyV};

verus! {

broadcast use crate::types::group_type_views;

/// The models of a list of type pairs.
pub open spec fn pairs_view(pairs: Seq<(Ty, Ty)>) -> Seq<(TyV, TyV)> {
    Seq::new(pairs.len(), |i: int| (pairs[i].0@, pairs[i].1@))
}

pub broadcast proof fn pairs_push(pairs: Seq<(Ty, Ty)>, pair: (Ty, Ty))
    ensures
        #[trigger] pairs_view(pairs.push(pair)) == pairs_view(pairs).push((pair.0@, pair.1@)),
{
    assert(pairs_view(pairs.push(pair)) =~= pairs_view(pairs).push((pair.0@, pair.1@)));
}

/// One parameter of a function and what an interface may pass to it.
#[derive(Debug)]
pub struct ParameterPair {
    pub name: Option<Name>,
    /// The interface's parameter type: what it may pass in.
    pub passed: Ty,
    /// The function's own parameter type: what it accepts.
    pub accepts: Ty,
}

/// The model of an optional name.
pub open spec fn opt_name(name: Option<Name>) -> Option<Seq<char>> {
    match name {
        Some(name) => Some(name@),
        None => None,
    }
}

impl ParameterPair {
    pub open spec fn view(&self) -> ParameterPairV {
        ParameterPairV {
            name: opt_name(self.name),
            passed: self.passed@,
            accepts: self.accepts@,
        }
    }
}

pub open spec fn parameter_pairs_view(pairs: Seq<ParameterPair>) -> Seq<ParameterPairV> {
    Seq::new(pairs.len(), |i: int| pairs[i]@)
}

/// How an interface's parameters land on a function's.
#[derive(Debug)]
pub struct Pairing {
    pub parameters: Vec<ParameterPair>,
    /// Interface parameters absorbed by the function's rest parameter, and the
    /// two rest elements, as (passed, accepts) pairs.
    pub rest: Vec<(Ty, Ty)>,
}

impl Pairing {
    pub open spec fn view(&self) -> PairingV {
        PairingV {
            parameters: parameter_pairs_view(self.parameters@),
            rest: pairs_view(self.rest@),
        }
    }
}

pub open spec fn opt_pairing(pairing: Option<Pairing>) -> Option<PairingV> {
    match pairing {
        Some(pairing) => Some(pairing@),
        None => None,
    }
}

/// One formal as a slot to fill.
struct Slot {
    name: Option<Name>,
    ty: Ty,
    optional: bool,
}

impl Slot {
    spec fn view(&self) -> SlotV {
        SlotV { name: opt_name(self.name), ty: self.ty@, optional: self.optional }
    }
}

spec fn slots_view(slots: Seq<Slot>) -> Seq<SlotV> {
    Seq::new(slots.len(), |i: int| slots[i]@)
}

/// What fills a slot: a type and whether the interface may leave it out.
struct Fill {
    ty: Ty,
    optional: bool,
}

impl Fill {
    spec fn view(&self) -> FillV {
        (self.ty@, self.optional)
    }

    fn duplicate(&self) -> (r: Fill)
        ensures
            r@ == self@,
    {
        Fill { ty: self.ty.clone(), optional: self.optional }
    }
}

spec fn fills_view(fills: Seq<Fill>) -> Seq<FillV> {
    Seq::new(fills.len(), |i: int| fills[i]@)
}

spec fn filled_view(filled: Seq<Option<Fill>>) -> Seq<Option<FillV>> {
    Seq::new(
        filled.len(),
        |i: int|
            match filled[i] {
                Some(fill) => Some(fill@),
                None => None,
            },
    )
}

fn slots_of(function: &FunctionType) -> (r: Vec<Slot>)
    ensures
        slots_view(r@) == function@.slots(),
{
    let mut out: Vec<Slot> = Vec::new();
    let mut i: usize = 0;
    while i < function.positional.len()
        invariant
            i <= function.positional.len(),
            slots_view(out@) =~= function@.slots().subrange(0, i as int),
        decreases function.positional.len() - i,
    {
        let slot = Slot { name: None, ty: function.positional[i].clone(), optional: false };
        let ghost before = slots_view(out@);
        out.push(slot);
        assert(slots_view(out@) =~= before.push(slot@));
        assert(function@.positional[i as int] == function.positional[i as int]@);
        assert(function@.slots()[i as int] == slot@);
        i += 1;
    }
    let mut k: usize = 0;
    while k < function.named.len()
        invariant
            k <= function.named.len(),
            function@.positional.len() == function.positional@.len(),
            slots_view(out@) =~= function@.slots().subrange(0, function@.positional.len() + k),
        decreases function.named.len() - k,
    {
        let param = &function.named[k];
        let slot = Slot {
            name: Some(param.name.clone()),
            ty: param.ty.clone(),
            optional: param.optional,
        };
        let ghost before = slots_view(out@);
        out.push(slot);
        assert(slots_view(out@) =~= before.push(slot@));
        assert(function@.named[k as int] == param@);
        assert(function@.slots()[function@.positional.len() + k] == slot@);
        k += 1;
    }
    assert(slots_view(out@) =~= function@.slots());
    out
}

fn slot_named(slots: &Vec<Slot>, name: &Name) -> (r: Option<usize>)
    ensures
        (match r {
            Some(i) => Some(i as int),
            None => None,
        }) == table::slot_named(slots_view(slots@), name@, 0),
        r matches Some(i) ==> i < slots.len(),
{
    let mut i: usize = 0;
    while i < slots.len()
        invariant
            i <= slots.len(),
            table::slot_named(slots_view(slots@), name@, 0) == table::slot_named(
                slots_view(slots@),
                name@,
                i as int,
            ),
        decreases slots.len() - i,
    {
        assert(slots_view(slots@)[i as int] == slots[i as int]@);
        if let Some(own) = &slots[i].name {
            if own.same(name) {
                return Some(i);
            }
        }
        i += 1;
    }
    None
}

/// Pairs a function's parameters with an expected interface's: by name where
/// both name them, otherwise by position. Variadic pairing is conservative: a
/// variadic function pairs only with a variadic interface whose rest parameter
/// sits at the same place.
pub fn pair_parameters(actual: &FunctionType, expected: &FunctionType) -> (r: Option<Pairing>)
    ensures
        opt_pairing(r) == table::pair_parameters(actual@, expected@),
{
    let mut rest: Vec<(Ty, Ty)> = Vec::new();
    match (&actual.variadic, &expected.variadic) {
        (Some(own), Some(wanted)) => {
            if own.preceding_named != wanted.preceding_named {
                return None;
            }
            rest.push((wanted.element.clone(), own.element.clone()));
            assert(pairs_view(rest@) =~= seq![(wanted.element@, own.element@)]);
        },
        (None, None) => {
            assert(pairs_view(rest@) =~= Seq::empty());
        },
        _ => {
            return None;
        },
    }
    let slots = slots_of(actual);
    let ghost slots_v = slots_view(slots@);
    let mut filled: Vec<Option<Fill>> = Vec::new();
    let mut i: usize = 0;
    while i < slots.len()
        invariant
            i <= slots.len(),
            filled@.len() == i,
            forall|j: int| 0 <= j < i ==> filled@[j] is None,
        decreases slots.len() - i,
    {
        filled.push(None);
        i += 1;
    }
    let mut overflow: Vec<Fill> = Vec::new();
    let ghost start: Seq<Option<FillV>> = Seq::new(slots_v.len(), |i: int| None);
    assert(filled_view(filled@) =~= start);
    assert(fills_view(overflow@) =~= Seq::empty());
    let mut k: usize = 0;
    while k < expected.named.len()
        invariant
            k <= expected.named.len(),
            filled@.len() == slots@.len(),
            slots_v == slots_view(slots@),
            table::claim_named(
                slots_v,
                expected@.named,
                k as int,
                filled_view(filled@),
                fills_view(overflow@),
            ) == table::claim_named(slots_v, expected@.named, 0, start, Seq::empty()),
        decreases expected.named.len() - k,
    {
        let field = &expected.named[k];
        let fill = Fill { ty: field.ty.clone(), optional: field.optional };
        let ghost before = filled_view(filled@);
        let ghost overflow_before = fills_view(overflow@);
        assert(expected@.named[k as int] == field@);
        let mut claimed: Option<usize> = None;
        if let Some(index) = slot_named(&slots, &field.name) {
            assert(before[index as int] is None == filled@[index as int] is None);
            if filled[index].is_none() {
                claimed = Some(index);
            }
        }
        match claimed {
            Some(index) => {
                filled.set(index, Some(fill));
                assert(filled_view(filled@) =~= before.update(index as int, Some(fill@)));
            },
            None => {
                overflow.push(fill);
                assert(fills_view(overflow@) =~= overflow_before.push(fill@));
            },
        }
        k += 1;
    }
    let ghost claimed_v = filled_view(filled@);
    let ghost overflow_v = fills_view(overflow@);
    let mut queue: Vec<Fill> = Vec::new();
    let ghost queue_v = table::positional_queue(expected@, overflow_v);
    let mut p: usize = 0;
    while p < expected.positional.len()
        invariant
            p <= expected.positional.len(),
            queue_v == table::positional_queue(expected@, overflow_v),
            fills_view(queue@) =~= queue_v.subrange(0, p as int),
        decreases expected.positional.len() - p,
    {
        let fill = Fill { ty: expected.positional[p].clone(), optional: false };
        let ghost before = fills_view(queue@);
        queue.push(fill);
        assert(fills_view(queue@) =~= before.push(fill@));
        assert(expected@.positional[p as int] == expected.positional[p as int]@);
        assert(queue_v[p as int] == fill@);
        p += 1;
    }
    let mut o: usize = 0;
    while o < overflow.len()
        invariant
            o <= overflow.len(),
            overflow_v == fills_view(overflow@),
            expected@.positional.len() == expected.positional@.len(),
            queue_v == table::positional_queue(expected@, overflow_v),
            fills_view(queue@) =~= queue_v.subrange(0, expected@.positional.len() + o),
        decreases overflow.len() - o,
    {
        let fill = overflow[o].duplicate();
        let ghost before = fills_view(queue@);
        queue.push(fill);
        assert(fills_view(queue@) =~= before.push(fill@));
        assert(overflow_v[o as int] == fill@);
        assert(queue_v[expected@.positional.len() + o] == fill@);
        o += 1;
    }
    assert(fills_view(queue@) =~= queue_v);
    let mut used: usize = 0;
    let mut s: usize = 0;
    while s < filled.len()
        invariant
            s <= filled.len(),
            used <= queue@.len(),
            filled@.len() == slots@.len(),
            queue_v == fills_view(queue@),
            table::fill_in_order(filled_view(filled@), queue_v, s as int, used as nat)
                == table::fill_in_order(claimed_v, queue_v, 0, 0),
        decreases filled.len() - s,
    {
        let ghost before = filled_view(filled@);
        assert(before[s as int] is None == filled@[s as int] is None);
        if filled[s].is_none() && used < queue.len() {
            let fill = queue[used].duplicate();
            assert(fill@ == queue_v[used as int]);
            filled.set(s, Some(fill));
            assert(filled_view(filled@) =~= before.update(s as int, Some(fill@)));
            used += 1;
        }
        s += 1;
    }
    let ghost filled_v = filled_view(filled@);
    let ghost rest_start = pairs_view(rest@);
    let ghost used_v = used as nat;
    let mut q: usize = used;
    while q < queue.len()
        invariant
            used <= q <= queue.len(),
            used_v == used as nat,
            queue_v == fills_view(queue@),
            q > used ==> actual.variadic is Some,
            actual.variadic matches Some(own) ==> pairs_view(rest@) =~= rest_start + Seq::new(
                (q - used) as nat,
                |i: int| (queue_v[used_v + i].0, own.element@),
            ),
            actual.variadic is None ==> pairs_view(rest@) =~= rest_start,
            expected.variadic is Some == actual.variadic is Some,
            (used_v < queue_v.len() && actual.variadic is None) ==> table::pair_parameters(
                actual@,
                expected@,
            ) is None,
        decreases queue.len() - q,
    {
        match &actual.variadic {
            Some(own) => {
                assert(queue_v[q as int] == queue[q as int]@);
                let ghost before = pairs_view(rest@);
                rest.push((queue[q].ty.clone(), own.element.clone()));
                assert(pairs_view(rest@) =~= before.push((queue_v[q as int].0, own.element@)));
            },
            None => {
                return None;
            },
        }
        q += 1;
    }
    let mut parameters: Vec<ParameterPair> = Vec::new();
    let mut n: usize = 0;
    assert(parameter_pairs_view(parameters@) =~= Seq::empty());
    while n < slots.len()
        invariant
            n <= slots.len(),
            filled@.len() == slots@.len(),
            slots_v == slots_view(slots@),
            filled_v == filled_view(filled@),
            table::paired_slots(slots_v, filled_v, n as nat) == Some(
                parameter_pairs_view(parameters@),
            ),
            table::paired_slots(slots_v, filled_v, slots@.len()) is None ==> table::pair_parameters(
                actual@,
                expected@,
            ) is None,
        decreases slots.len() - n,
    {
        assert(slots_v[n as int] == slots[n as int]@);
        let ghost before = parameter_pairs_view(parameters@);
        match &filled[n] {
            None => {
                assert(filled_v[n as int] is None);
                if !slots[n].optional {
                    proof {
                        paired_slots_stay_none(slots_v, filled_v, (n + 1) as nat, slots@.len());
                    }
                    return None;
                }
            },
            Some(fill) => {
                assert(filled_v[n as int] == Some(fill@));
                if fill.optional && !slots[n].optional {
                    proof {
                        paired_slots_stay_none(slots_v, filled_v, (n + 1) as nat, slots@.len());
                    }
                    return None;
                }
                let name = match &slots[n].name {
                    Some(name) => Some(name.clone()),
                    None => None,
                };
                let pair = ParameterPair {
                    name,
                    passed: fill.ty.clone(),
                    accepts: slots[n].ty.clone(),
                };
                parameters.push(pair);
                assert(parameter_pairs_view(parameters@) =~= before.push(pair@));
            },
        }
        n += 1;
    }
    let r = Pairing { parameters, rest };
    proof {
        if actual.variadic is Some {
            assert(r@.rest =~= table::pair_parameters(actual@, expected@)->0.rest);
        } else {
            assert(r@.rest =~= Seq::empty());
        }
    }
    Some(r)
}

/// Once a slot fails to pair, no longer prefix pairs.
proof fn paired_slots_stay_none(
    slots: Seq<SlotV>,
    filled: Seq<Option<FillV>>,
    from: nat,
    upto: nat,
)
    requires
        from <= upto,
        table::paired_slots(slots, filled, from) is None,
    ensures
        table::paired_slots(slots, filled, upto) is None,
    decreases upto - from,
{
    if from < upto {
        paired_slots_stay_none(slots, filled, from, (upto - 1) as nat);
    }
}

/// The place of a mode on the promotion ladder, for the modes that are on it.
/// `character` and `raw` are deliberately off it.
pub fn numeric_ladder_rank(atomic: Atomic) -> (r: Option<u8>)
    ensures
        r == table::ladder_rank(atomic),
{
    match atomic {
        Atomic::Logical => Some(0),
        Atomic::Integer => Some(1),
        Atomic::Double => Some(2),
        Atomic::Complex => Some(3),
        Atomic::Character | Atomic::Raw => None,
    }
}

/// Whether one atomic mode is promoted to another in a numeric context.
pub fn promotes(from: Atomic, to: Atomic) -> (r: bool)
    ensures
        r == table::promotes(from, to),
{
    match (numeric_ladder_rank(from), numeric_ladder_rank(to)) {
        (Some(low), Some(high)) => low < high,
        _ => false,
    }
}

/// Promotion is a strict order: nothing promotes to itself, and it never goes
/// both ways.
pub proof fn promotion_is_one_way(a: Atomic, b: Atomic, c: Atomic)
    ensures
        !table::promotes(a, a),
        table::promotes(a, b) ==> !table::promotes(b, a),
        table::promotes(a, b) && table::promotes(b, c) ==> table::promotes(a, c),
{
}

/// Each parameter's variance, derived from where it occurs in the body:
/// covariant for direct, container, field and return positions, contravariant
/// under function parameters, invariant when both.
pub fn parameter_variances(definition: &NamedDefinition) -> (r: Vec<Variance>)
    ensures
        r@ == definition@.variances(),
{
    let count = definition.parameters.len();
    let mut positive: Vec<bool> = Vec::new();
    let mut negative: Vec<bool> = Vec::new();
    let mut i: usize = 0;
    while i < count
        invariant
            i <= count,
            positive@.len() == i,
            negative@.len() == i,
            forall|j: int| 0 <= j < i ==> !positive@[j] && !negative@[j],
        decreases count - i,
    {
        positive.push(false);
        negative.push(false);
        i += 1;
    }
    let ghost names = types::names(definition.parameters@);
    record_occurrences(
        &definition.body,
        &definition.parameters,
        true,
        &mut positive,
        &mut negative,
    );
    let mut out: Vec<Variance> = Vec::new();
    let mut k: usize = 0;
    while k < count
        invariant
            k <= count,
            count == definition.parameters.len(),
            names == types::names(definition.parameters@),
            positive@.len() == count,
            negative@.len() == count,
            out@.len() == k,
            forall|j: int|
                0 <= j < count ==> #[trigger] positive@[j] == marks(
                    definition.body@,
                    names,
                    j,
                    true,
                ),
            forall|j: int|
                0 <= j < count ==> #[trigger] negative@[j] == marks(
                    definition.body@,
                    names,
                    j,
                    false,
                ),
            forall|j: int| 0 <= j < k ==> #[trigger] out@[j] == definition@.variance(j),
        decreases count - k,
    {
        let variance = match (positive[k], negative[k]) {
            (false, false) => Variance::Bivariant,
            (true, false) => Variance::Covariant,
            (false, true) => Variance::Contravariant,
            (true, true) => Variance::Invariant,
        };
        out.push(variance);
        k += 1;
    }
    assert(out@ =~= definition@.variances());
    out
}

/// Whether an occurrence in the type marks the given parameter.
pub open spec fn marks(ty: TyV, names: Seq<Seq<char>>, i: int, positive: bool) -> bool {
    table::is_first(names, i) && ty.occurs_signed(names[i], positive)
}

/// Whether a list of flags took on exactly the marks of a type.
pub open spec fn marked(
    before: Seq<bool>,
    after: Seq<bool>,
    ty: TyV,
    names: Seq<Seq<char>>,
    positive: bool,
) -> bool {
    &&& after.len() == before.len()
    &&& forall|i: int|
        0 <= i < names.len() ==> #[trigger] after[i] == (before[i] || marks(ty, names, i, positive))
}

/// The first place of a name in a list.
fn place_of(names: &Vec<Name>, name: &Name) -> (r: Option<usize>)
    ensures
        match r {
            Some(i) => i < names.len() && types::names(names@)[i as int] == name@
                && table::is_first(types::names(names@), i as int),
            None => !types::names(names@).contains(name@),
        },
{
    let mut i: usize = 0;
    while i < names.len()
        invariant
            i <= names.len(),
            forall|j: int| 0 <= j < i ==> types::names(names@)[j] != name@,
        decreases names.len() - i,
    {
        if names[i].same(name) {
            return Some(i);
        }
        i += 1;
    }
    None
}

/// Marks the parameters that occur in the type at positive and negative
/// positions.
pub fn record_occurrences(
    ty: &Ty,
    parameters: &Vec<Name>,
    positive_position: bool,
    positive: &mut Vec<bool>,
    negative: &mut Vec<bool>,
)
    requires
        old(positive)@.len() == parameters@.len(),
        old(negative)@.len() == parameters@.len(),
    ensures
        recorded(
            (old(positive)@, old(negative)@),
            (final(positive)@, final(negative)@),
            ty@,
            types::names(parameters@),
            positive_position,
        ),
    decreases ty,
{
    let ghost names = types::names(parameters@);
    let ghost before_positive = positive@;
    let ghost before_negative = negative@;
    match ty.kind() {
        TyKind::Rigid(name) => {
            if let Some(index) = place_of(parameters, name) {
                if positive_position {
                    positive.set(index, true);
                } else {
                    negative.set(index, true);
                }
                assert forall|i: int| 0 <= i < names.len() && table::is_first(names, i) && names[i]
                    == name@ implies i == index by {
                    if i < index {
                        assert(names[i] != names[index as int]);
                    } else if index < i {
                        assert(names[index as int] != names[i]);
                    }
                }
            } else {
                assert forall|i: int| 0 <= i < names.len() implies names[i] != name@ by {
                    assert(names.contains(names[i]));
                }
            }
            assert(marked(before_positive, positive@, ty@, names, positive_position));
            assert(marked(before_negative, negative@, ty@, names, !positive_position));
        },
        TyKind::Vector(inner) | TyKind::NamedVector(inner) | TyKind::List(inner) | TyKind::NamedList(
            inner,
        ) => {
            record_occurrences(inner, parameters, positive_position, positive, negative);
        },
        TyKind::Tuple(items) => {
            record_all(items, parameters, positive_position, positive, negative);
        },
        TyKind::Union(members) => {
            record_all(members, parameters, positive_position, positive, negative);
        },
        TyKind::Record(fields) => {
            let mut k: usize = 0;
            while k < fields.len()
                invariant
                    k <= fields.len(),
                    ty@ == TyV::Record(types::fields_view(fields@)),
                    names == types::names(parameters@),
                    before_positive.len() == names.len(),
                    before_negative.len() == names.len(),
                    positive@.len() == names.len(),
                    negative@.len() == names.len(),
                    decreases_to!(ty => fields),
                    forall|i: int|
                        0 <= i < names.len() ==> #[trigger] positive@[i] == (before_positive[i]
                            || (table::is_first(names, i) && exists|j: int|
                            0 <= j < k && (#[trigger] types::fields_view(
                                fields@,
                            )[j]).ty.occurs_signed(names[i], positive_position))),
                    forall|i: int|
                        0 <= i < names.len() ==> #[trigger] negative@[i] == (before_negative[i]
                            || (table::is_first(names, i) && exists|j: int|
                            0 <= j < k && (#[trigger] types::fields_view(
                                fields@,
                            )[j]).ty.occurs_signed(names[i], !positive_position))),
                decreases fields.len() - k,
            {
                assert(decreases_to!(fields => fields[k as int]));
                assert(decreases_to!(fields[k as int] => fields[k as int].ty));
                record_occurrences(
                    &fields[k].ty,
                    parameters,
                    positive_position,
                    positive,
                    negative,
                );
                assert(types::fields_view(fields@)[k as int] == fields[k as int]@);
                k += 1;
            }
            assert(marked(before_positive, positive@, ty@, names, positive_position));
            assert(marked(before_negative, negative@, ty@, names, !positive_position));
        },
        TyKind::Named(_, arguments) => {
            let mut k: usize = 0;
            while k < arguments.len()
                invariant
                    k <= arguments.len(),
                    ty@ is Named,
                    ty@->Named_1 == types::tys(arguments@),
                    names == types::names(parameters@),
                    before_positive.len() == names.len(),
                    before_negative.len() == names.len(),
                    positive@.len() == names.len(),
                    negative@.len() == names.len(),
                    decreases_to!(ty => arguments),
                    forall|i: int|
                        0 <= i < names.len() ==> #[trigger] positive@[i] == (before_positive[i]
                            || (table::is_first(names, i) && exists|j: int|
                            0 <= j < k && ((#[trigger] types::tys(arguments@)[j]).occurs_signed(
                                names[i],
                                true,
                            ) || types::tys(arguments@)[j].occurs_signed(names[i], false)))),
                    forall|i: int|
                        0 <= i < names.len() ==> #[trigger] negative@[i] == (before_negative[i]
                            || (table::is_first(names, i) && exists|j: int|
                            0 <= j < k && ((#[trigger] types::tys(arguments@)[j]).occurs_signed(
                                names[i],
                                true,
                            ) || types::tys(arguments@)[j].occurs_signed(names[i], false)))),
                decreases arguments.len() - k,
            {
                record_occurrences(&arguments[k], parameters, true, positive, negative);
                record_occurrences(&arguments[k], parameters, false, positive, negative);
                assert(types::tys(arguments@)[k as int] == arguments[k as int]@);
                k += 1;
            }
            assert(marked(before_positive, positive@, ty@, names, positive_position));
            assert(marked(before_negative, negative@, ty@, names, !positive_position));
        },
        TyKind::Function(function) => {
            record_function(function, parameters, positive_position, positive, negative);
        },
        _ => {},
    }
}

/// Marks the parameters that occur in any of several types.
fn record_all(
    items: &Vec<Ty>,
    parameters: &Vec<Name>,
    positive_position: bool,
    positive: &mut Vec<bool>,
    negative: &mut Vec<bool>,
)
    requires
        old(positive)@.len() == parameters@.len(),
        old(negative)@.len() == parameters@.len(),
    ensures
        final(positive)@.len() == parameters@.len(),
        final(negative)@.len() == parameters@.len(),
        forall|i: int|
            0 <= i < parameters@.len() ==> #[trigger] final(positive)@[i] == (old(positive)@[i]
                || (table::is_first(types::names(parameters@), i) && TyV::any_occurs_signed(
                types::tys(items@),
                types::names(parameters@)[i],
                positive_position,
            ))),
        forall|i: int|
            0 <= i < parameters@.len() ==> #[trigger] final(negative)@[i] == (old(negative)@[i]
                || (table::is_first(types::names(parameters@), i) && TyV::any_occurs_signed(
                types::tys(items@),
                types::names(parameters@)[i],
                !positive_position,
            ))),
    decreases items,
{
    let ghost names = types::names(parameters@);
    let ghost before_positive = positive@;
    let ghost before_negative = negative@;
    let mut k: usize = 0;
    while k < items.len()
        invariant
            k <= items.len(),
            names == types::names(parameters@),
            before_positive.len() == names.len(),
            before_negative.len() == names.len(),
            positive@.len() == names.len(),
            negative@.len() == names.len(),
            forall|i: int|
                0 <= i < names.len() ==> #[trigger] positive@[i] == (before_positive[i] || (
                table::is_first(names, i) && TyV::any_occurs_signed(
                    types::tys(items@).subrange(0, k as int),
                    names[i],
                    positive_position,
                ))),
            forall|i: int|
                0 <= i < names.len() ==> #[trigger] negative@[i] == (before_negative[i] || (
                table::is_first(names, i) && TyV::any_occurs_signed(
                    types::tys(items@).subrange(0, k as int),
                    names[i],
                    !positive_position,
                ))),
        decreases items.len() - k,
    {
        record_occurrences(&items[k], parameters, positive_position, positive, negative);
        proof {
            let upto = types::tys(items@).subrange(0, k as int);
            let next = types::tys(items@).subrange(0, k + 1);
            assert(types::tys(items@)[k as int] == items[k as int]@);
            assert forall|name: Seq<char>, sign: bool| #[trigger]
                TyV::any_occurs_signed(next, name, sign) == (TyV::any_occurs_signed(upto, name, sign)
                    || items[k as int]@.occurs_signed(name, sign)) by {
                if TyV::any_occurs_signed(upto, name, sign) {
                    let j = choose|j: int|
                        0 <= j < upto.len() && (#[trigger] upto[j]).occurs_signed(name, sign);
                    assert(next[j].occurs_signed(name, sign));
                }
                if items[k as int]@.occurs_signed(name, sign) {
                    assert(next[k as int].occurs_signed(name, sign));
                }
                if TyV::any_occurs_signed(next, name, sign) {
                    let j = choose|j: int|
                        0 <= j < next.len() && (#[trigger] next[j]).occurs_signed(name, sign);
                    if j < k {
                        assert(upto[j].occurs_signed(name, sign));
                    }
                }
            }
        }
        k += 1;
    }
    assert(types::tys(items@).subrange(0, items@.len() as int) =~= types::tys(items@));
}

/// Marks the parameters that occur in a signature.
fn record_function(
    function: &FunctionType,
    parameters: &Vec<Name>,
    positive_position: bool,
    positive: &mut Vec<bool>,
    negative: &mut Vec<bool>,
)
    requires
        old(positive)@.len() == parameters@.len(),
        old(negative)@.len() == parameters@.len(),
    ensures
        marked(
            old(positive)@,
            final(positive)@,
            TyV::Function(Box::new(function@)),
            types::names(parameters@),
            positive_position,
        ),
        marked(
            old(negative)@,
            final(negative)@,
            TyV::Function(Box::new(function@)),
            types::names(parameters@),
            !positive_position,
        ),
    decreases function,
{
    let ghost names = types::names(parameters@);
    let ghost before_positive = positive@;
    let ghost before_negative = negative@;
    let mut k: usize = 0;
    while k < function.positional.len()
        invariant
            k <= function.positional.len(),
            names == types::names(parameters@),
            before_positive.len() == names.len(),
            before_negative.len() == names.len(),
            positive@.len() == names.len(),
            negative@.len() == names.len(),
            forall|i: int|
                0 <= i < names.len() ==> #[trigger] positive@[i] == (before_positive[i] || (
                table::is_first(names, i) && exists|j: int|
                    0 <= j < k && (#[trigger] function@.positional[j]).occurs_signed(
                        names[i],
                        !positive_position,
                    ))),
            forall|i: int|
                0 <= i < names.len() ==> #[trigger] negative@[i] == (before_negative[i] || (
                table::is_first(names, i) && exists|j: int|
                    0 <= j < k && (#[trigger] function@.positional[j]).occurs_signed(
                        names[i],
                        positive_position,
                    ))),
        decreases function.positional.len() - k,
    {
        record_occurrences(
            &function.positional[k],
            parameters,
            !positive_position,
            positive,
            negative,
        );
        assert(function@.positional[k as int] == function.positional[k as int]@);
        k += 1;
    }
    let ghost mid_positive = positive@;
    let ghost mid_negative = negative@;
    let mut n: usize = 0;
    while n < function.named.len()
        invariant
            n <= function.named.len(),
            names == types::names(parameters@),
            mid_positive.len() == names.len(),
            mid_negative.len() == names.len(),
            positive@.len() == names.len(),
            negative@.len() == names.len(),
            forall|i: int|
                0 <= i < names.len() ==> #[trigger] positive@[i] == (mid_positive[i] || (
                table::is_first(names, i) && exists|j: int|
                    0 <= j < n && (#[trigger] function@.named[j]).ty.occurs_signed(
                        names[i],
                        !positive_position,
                    ))),
            forall|i: int|
                0 <= i < names.len() ==> #[trigger] negative@[i] == (mid_negative[i] || (
                table::is_first(names, i) && exists|j: int|
                    0 <= j < n && (#[trigger] function@.named[j]).ty.occurs_signed(
                        names[i],
                        positive_position,
                    ))),
        decreases function.named.len() - n,
    {
        assert(decreases_to!(function.named => function.named[n as int]));
        assert(decreases_to!(function.named[n as int] => function.named[n as int].ty));
        record_occurrences(
            &function.named[n].ty,
            parameters,
            !positive_position,
            positive,
            negative,
        );
        assert(function@.named[n as int] == function.named[n as int]@);
        n += 1;
    }
    if let Some(rest) = &function.variadic {
        record_occurrences(&rest.element, parameters, !positive_position, positive, negative);
    }
    record_occurrences(&function.ret, parameters, positive_position, positive, negative);
}

/// What recording the occurrences of a type does to the marks of its parameters:
/// `positive` of one polarity, `negative` of the other.
pub open spec fn recorded(
    before: (Seq<bool>, Seq<bool>),
    after: (Seq<bool>, Seq<bool>),
    ty: TyV,
    names: Seq<Seq<char>>,
    positive: bool,
) -> bool {
    &&& marked(before.0, after.0, ty, names, positive)
    &&& marked(before.1, after.1, ty, names, !positive)
}

/// Recording at the flipped position into exchanged marks gives the same marks,
/// exchanged.
pub proof fn flipping_exchanges_the_marks(
    before: (Seq<bool>, Seq<bool>),
    after: (Seq<bool>, Seq<bool>),
    flipped: (Seq<bool>, Seq<bool>),
    ty: TyV,
    names: Seq<Seq<char>>,
    positive: bool,
)
    requires
        before.0.len() == names.len(),
        before.1.len() == names.len(),
        recorded(before, after, ty, names, positive),
        recorded((before.1, before.0), flipped, ty, names, !positive),
    ensures
        flipped.0 == after.1,
        flipped.1 == after.0,
{
    assert(flipped.0 =~= after.1);
    assert(flipped.1 =~= after.0);
}

/// Recording takes no mark back, and leaves the marks of a parameter alone that
/// does not occur in the type.
pub proof fn recording_only_adds_marks(
    before: (Seq<bool>, Seq<bool>),
    after: (Seq<bool>, Seq<bool>),
    ty: TyV,
    names: Seq<Seq<char>>,
    positive: bool,
    i: int,
)
    requires
        before.0.len() == names.len(),
        before.1.len() == names.len(),
        recorded(before, after, ty, names, positive),
        0 <= i < names.len(),
    ensures
        before.0[i] ==> after.0[i],
        before.1[i] ==> after.1[i],
        !ty.occurs_signed(names[i], true) && !ty.occurs_signed(names[i], false) ==> after.0[i]
            == before.0[i] && after.1[i] == before.1[i],
{
    assert(after.0[i] == (before.0[i] || marks(ty, names, i, positive)));
    assert(after.1[i] == (before.1[i] || marks(ty, names, i, !positive)));
}

} // verus!
