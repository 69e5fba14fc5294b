//! The laws of unions: what a union of types holds.

use vstd::prelude::*;

use crate::types::{self, TyV};

verus! {

/// Whether a type is among the members of some type of a list.
pub open spec fn is_member(list: Seq<TyV>, ty: TyV) -> bool {
    exists|i: int|
        0 <= i < list.len() && types::members_of(#[trigger] list[i]).contains(ty)
}

/// Whether every union of a list has members, none of them a union.
pub open spec fn is_flat(list: Seq<TyV>) -> bool {
    forall|i: int|
        0 <= i < list.len() ==> types::members_of(#[trigger] list[i]).len() > 0
            && forall|j: int|
            0 <= j < types::members_of(list[i]).len() ==> !((
            #[trigger] types::members_of(list[i])[j]) is Union)
}

proof fn spliced_holds(list: Seq<TyV>, ty: TyV)
    ensures
        types::spliced(list).contains(ty) <==> is_member(list, ty),
    decreases list.len(),
{
    if list.len() > 0 {
        let before = types::spliced(list.drop_last());
        let own = types::members_of(list.last());
        let all = types::spliced(list);
        spliced_holds(list.drop_last(), ty);
        assert(all == before + own);
        if all.contains(ty) {
            let k = choose|k: int| 0 <= k < all.len() && all[k] == ty;
            if k < before.len() {
                assert(before[k] == ty);
                assert(before.contains(ty));
                let i = choose|i: int|
                    0 <= i < list.drop_last().len() && types::members_of(
                        #[trigger] list.drop_last()[i],
                    ).contains(ty);
                assert(list[i] == list.drop_last()[i]);
            } else {
                assert(own[k - before.len()] == ty);
                assert(types::members_of(list[list.len() - 1]).contains(ty));
            }
        }
        if is_member(list, ty) {
            let i = choose|i: int|
                0 <= i < list.len() && types::members_of(#[trigger] list[i]).contains(ty);
            if i < list.len() - 1 {
                assert(list.drop_last()[i] == list[i]);
                let k = choose|k: int| 0 <= k < before.len() && before[k] == ty;
                assert(all[k] == ty);
            } else {
                let k = choose|k: int| 0 <= k < own.len() && own[k] == ty;
                assert(all[before.len() + k] == ty);
            }
        }
    }
}

proof fn distinct_holds(list: Seq<TyV>, ty: TyV)
    ensures
        types::distinct(list).contains(ty) <==> list.contains(ty),
        types::distinct(list).no_duplicates(),
    decreases list.len(),
{
    if list.len() > 0 {
        let before = types::distinct(list.drop_last());
        let all = types::distinct(list);
        distinct_holds(list.drop_last(), ty);
        distinct_holds(list.drop_last(), list.last());
        if list.contains(ty) {
            let k = choose|k: int| 0 <= k < list.len() && list[k] == ty;
            if k < list.len() - 1 {
                assert(list.drop_last()[k] == ty);
                assert(before.contains(ty));
                let j = choose|j: int| 0 <= j < before.len() && before[j] == ty;
                assert(all[j] == ty);
            } else if before.contains(ty) {
                let j = choose|j: int| 0 <= j < before.len() && before[j] == ty;
                assert(all[j] == ty);
            } else {
                assert(all.last() == ty);
            }
        }
        if all.contains(ty) {
            let k = choose|k: int| 0 <= k < all.len() && all[k] == ty;
            if k < before.len() {
                assert(before[k] == ty);
                assert(list.drop_last().contains(ty));
                let j = choose|j: int| 0 <= j < list.drop_last().len() && list.drop_last()[j] == ty;
                assert(list[j] == ty);
            } else {
                assert(list[list.len() - 1] == ty);
            }
        }
    }
}

/// A union has exactly the members of the types it is made of, each once; an
/// absent fact absorbs the rest, and so does the top type.
pub proof fn a_union_has_the_members_of_its_parts(list: Seq<TyV>, ty: TyV)
    requires
        list.len() > 0,
        is_flat(list),
    ensures
        is_member(list, TyV::Unknown) ==> TyV::union_of(list) == TyV::Unknown,
        is_member(list, TyV::Any) && !is_member(list, TyV::Unknown) ==> TyV::union_of(list)
            == TyV::Any,
        !is_member(list, TyV::Any) && !is_member(list, TyV::Unknown) ==> (types::members_of(
            TyV::union_of(list),
        ).contains(ty) <==> is_member(list, ty)),
        types::members_of(TyV::union_of(list)).no_duplicates(),
{
    let members = types::distinct(types::spliced(list));
    let first = types::members_of(list[0])[0];
    spliced_holds(list, ty);
    spliced_holds(list, TyV::Unknown);
    spliced_holds(list, TyV::Any);
    spliced_holds(list, first);
    distinct_holds(types::spliced(list), ty);
    distinct_holds(types::spliced(list), TyV::Unknown);
    distinct_holds(types::spliced(list), TyV::Any);
    distinct_holds(types::spliced(list), first);
    assert(types::members_of(list[0]).contains(first));
    assert(is_member(list, first));
    assert(members.contains(first));
    if members.len() == 1 {
        spliced_holds(list, members[0]);
        distinct_holds(types::spliced(list), members[0]);
        assert(members.contains(members[0]));
        let i = choose|i: int|
            0 <= i < list.len() && types::members_of(#[trigger] list[i]).contains(members[0]);
        let j = choose|j: int|
            0 <= j < types::members_of(list[i]).len() && types::members_of(list[i])[j]
                == members[0];
        assert(!(types::members_of(list[i])[j] is Union));
        assert(types::members_of(members[0]) =~= members);
    }
}

/// It does not matter in which order two types are put together.
pub proof fn a_union_has_no_order(a: TyV, b: TyV, ty: TyV)
    requires
        is_flat(seq![a]),
        is_flat(seq![b]),
    ensures
        types::members_of(TyV::union_of(seq![a, b])).contains(ty) <==> types::members_of(
            TyV::union_of(seq![b, a]),
        ).contains(ty),
{
    let one = seq![a, b];
    let two = seq![b, a];
    assert(seq![a][0] == a && seq![b][0] == b);
    assert(is_flat(one));
    assert(is_flat(two));
    a_union_has_the_members_of_its_parts(one, ty);
    a_union_has_the_members_of_its_parts(two, ty);
    swapped(a, b, ty);
    swapped(a, b, TyV::Unknown);
    swapped(a, b, TyV::Any);
}

proof fn swapped(a: TyV, b: TyV, ty: TyV)
    ensures
        is_member(seq![a, b], ty) <==> types::members_of(a).contains(ty) || types::members_of(
            b,
        ).contains(ty),
        is_member(seq![b, a], ty) <==> types::members_of(a).contains(ty) || types::members_of(
            b,
        ).contains(ty),
{
    let one = seq![a, b];
    let two = seq![b, a];
    assert(one[0] == a && one[1] == b && two[0] == b && two[1] == a);
}

/// A type put together with itself is the type.
pub proof fn a_union_of_one_type_is_the_type(ty: TyV)
    requires
        !(ty is Union),
    ensures
        TyV::union_of(seq![ty]) == ty,
        TyV::union_of(seq![ty, ty]) == ty,
{
    reveal_with_fuel(types::spliced, 3);
    reveal_with_fuel(types::distinct, 3);
    let one = seq![ty];
    let two = seq![ty, ty];
    assert(one.drop_last() =~= Seq::empty());
    assert(two.drop_last() =~= one);
    assert(types::spliced(one) =~= one);
    assert(types::spliced(two) =~= two);
    assert(types::distinct(one) =~= one);
    assert(one.contains(ty)) by {
        assert(one[0] == ty);
    }
    assert(types::distinct(two) =~= one);
    assert(one.contains(TyV::Unknown) ==> ty == TyV::Unknown);
    assert(one.contains(TyV::Any) ==> ty == TyV::Any);
}

} // verus!
