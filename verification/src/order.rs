//! Ascending lists, and the order of texts.

use vstd::prelude::*;

use crate::text::chars_of;
use crate::types;

verus! {

broadcast use crate::types::group_type_views;

/// Whether a text comes before another: character by character, and a prefix
/// first.
pub open spec fn before(a: Seq<char>, b: Seq<char>) -> bool
    decreases a.len(),
{
    if b.len() == 0 {
        false
    } else if a.len() == 0 {
        true
    } else if a[0] != b[0] {
        a[0] < b[0]
    } else {
        before(a.drop_first(), b.drop_first())
    }
}

/// Two different texts are ordered one way.
pub proof fn order_is_total(a: Seq<char>, b: Seq<char>)
    ensures
        a == b || before(a, b) || before(b, a),
    decreases a.len(),
{
    if a.len() > 0 && b.len() > 0 && a[0] == b[0] {
        order_is_total(a.drop_first(), b.drop_first());
        if a.drop_first() == b.drop_first() {
            assert(a =~= seq![a[0]] + a.drop_first());
            assert(b =~= seq![b[0]] + b.drop_first());
        }
    } else if a.len() == 0 && b.len() == 0 {
        assert(a =~= b);
    }
}

/// No text comes before itself.
pub proof fn order_is_strict(a: Seq<char>)
    ensures
        !before(a, a),
    decreases a.len(),
{
    if a.len() > 0 {
        order_is_strict(a.drop_first());
    }
}

/// What comes before a text comes before everything after it.
pub proof fn order_is_transitive(a: Seq<char>, b: Seq<char>, c: Seq<char>)
    requires
        before(a, b),
        before(b, c),
    ensures
        before(a, c),
    decreases a.len(),
{
    if a.len() > 0 && b.len() > 0 && c.len() > 0 && a[0] == b[0] && b[0] == c[0] {
        order_is_transitive(a.drop_first(), b.drop_first(), c.drop_first());
    }
}

/// Whether one text comes before another.
pub fn comes_before(a: &str, b: &str) -> (r: bool)
    ensures
        r == before(a@, b@),
{
    let left = chars_of(a);
    let right = chars_of(b);
    let mut i: usize = 0;
    assert(left@.subrange(0, left@.len() as int) =~= left@);
    assert(right@.subrange(0, right@.len() as int) =~= right@);
    while i < left.len() && i < right.len()
        invariant
            i <= left@.len(),
            i <= right@.len(),
            left@ == a@,
            right@ == b@,
            before(
                left@.subrange(i as int, left@.len() as int),
                right@.subrange(i as int, right@.len() as int),
            ) == before(a@, b@),
        decreases left.len() - i,
    {
        if left[i] != right[i] {
            return left[i] < right[i];
        }
        assert(left@.subrange(i as int, left@.len() as int).drop_first() =~= left@.subrange(
            i + 1,
            left@.len() as int,
        ));
        assert(right@.subrange(i as int, right@.len() as int).drop_first() =~= right@.subrange(
            i + 1,
            right@.len() as int,
        ));
        i += 1;
    }
    i < right.len()
}

/// Whether a relation is a strict total order.
pub open spec fn is_order<T>(lt: spec_fn(T, T) -> bool) -> bool {
    &&& forall|a: T| !#[trigger] lt(a, a)
    &&& forall|a: T, b: T| a == b || #[trigger] lt(a, b) || lt(b, a)
    &&& forall|a: T, b: T, c: T| #[trigger] lt(a, b) && #[trigger] lt(b, c) ==> lt(a, c)
}

/// Whether every element of a list comes before the next ones.
pub open spec fn ascending_by<T>(list: Seq<T>, lt: spec_fn(T, T) -> bool) -> bool {
    forall|i: int, j: int|
        0 <= i < j < list.len() ==> #[trigger] lt(list[i], list[j])
}

/// An element put between the smaller and the larger ones of an ascending list
/// leaves it ascending.
pub proof fn insertion_ascends<T>(list: Seq<T>, i: int, element: T, lt: spec_fn(T, T) -> bool)
    requires
        is_order(lt),
        ascending_by(list, lt),
        0 <= i <= list.len(),
        forall|k: int| 0 <= k < i ==> lt(#[trigger] list[k], element),
        i < list.len() ==> lt(element, list[i]),
    ensures
        ascending_by(list.insert(i, element), lt),
        list.insert(i, element).to_set() == list.to_set().insert(element),
{
    let new = list.insert(i, element);
    assert forall|j: int| i <= j < list.len() implies lt(element, #[trigger] list[j]) by {
        if j > i {
            assert(lt(list[i], list[j]));
        }
    }
    assert forall|a: int, b: int| 0 <= a < b < new.len() implies #[trigger] lt(new[a], new[b]) by {
        if a < i && b < i {
            assert(lt(list[a], list[b]));
        } else if a < i && b > i {
            assert(lt(list[a], list[b - 1]));
        } else if a > i {
            assert(lt(list[a - 1], list[b - 1]));
        } else if a == i {
            assert(new[b] == list[b - 1]);
        } else {
            assert(new[a] == list[a]);
        }
    }
    assert forall|t: T| new.to_set().contains(t) == list.to_set().insert(element).contains(t) by {
        if new.contains(t) {
            let k = choose|k: int| 0 <= k < new.len() && new[k] == t;
            if k < i {
                assert(list[k] == t);
            } else if k > i {
                assert(list[k - 1] == t);
            }
        }
        if list.contains(t) {
            let k = choose|k: int| 0 <= k < list.len() && list[k] == t;
            if k < i {
                assert(new[k] == t);
            } else {
                assert(new[k + 1] == t);
            }
        }
        assert(new[i] == element);
    }
    assert(new.to_set() =~= list.to_set().insert(element));
}

/// An ascending list is the only one of its elements: two ascending lists of the
/// same elements are equal.
pub proof fn ascending_lists_are_unique<T>(a: Seq<T>, b: Seq<T>, lt: spec_fn(T, T) -> bool)
    requires
        is_order(lt),
        ascending_by(a, lt),
        ascending_by(b, lt),
        a.to_set() == b.to_set(),
    ensures
        a == b,
    decreases a.len(),
{
    if a.len() == 0 {
        if b.len() > 0 {
            assert(b.to_set().contains(b[0]));
            assert(a.contains(b[0]));
        }
        assert(a =~= b);
    } else {
        assert(a.to_set().contains(a[0]));
        assert(b.to_set().contains(a[0]));
        let at = choose|k: int| 0 <= k < b.len() && b[k] == a[0];
        assert(b.to_set().contains(b[0]));
        assert(a.to_set().contains(b[0]));
        let of = choose|k: int| 0 <= k < a.len() && a[k] == b[0];
        if at > 0 {
            assert(lt(b[0], b[at]));
            if of > 0 {
                assert(lt(a[0], a[of]));
            }
            assert(lt(a[0], a[0]));
        }
        assert(a[0] == b[0]);
        let c = a.drop_first();
        let d = b.drop_first();
        assert forall|i: int, j: int| 0 <= i < j < c.len() implies #[trigger] lt(c[i], c[j]) by {
            assert(lt(a[i + 1], a[j + 1]));
        }
        assert forall|i: int, j: int| 0 <= i < j < d.len() implies #[trigger] lt(d[i], d[j]) by {
            assert(lt(b[i + 1], b[j + 1]));
        }
        assert forall|t: T| c.to_set().contains(t) == d.to_set().contains(t) by {
            rest_is_shared(a, b, t, lt);
            rest_is_shared(b, a, t, lt);
        }
        assert(c.to_set() =~= d.to_set());
        ascending_lists_are_unique(c, d, lt);
        assert(a =~= seq![a[0]] + c);
        assert(b =~= seq![b[0]] + d);
    }
}

proof fn rest_is_shared<T>(a: Seq<T>, b: Seq<T>, t: T, lt: spec_fn(T, T) -> bool)
    requires
        is_order(lt),
        ascending_by(a, lt),
        a.len() > 0,
        b.len() > 0,
        a[0] == b[0],
        a.to_set() == b.to_set(),
    ensures
        a.drop_first().contains(t) ==> b.drop_first().contains(t),
{
    if a.drop_first().contains(t) {
        let k = choose|k: int| 0 <= k < a.drop_first().len() && a.drop_first()[k] == t;
        assert(a[k + 1] == t);
        assert(a.to_set().contains(t));
        assert(b.to_set().contains(t));
        let m = choose|m: int| 0 <= m < b.len() && b[m] == t;
        if m == 0 {
            assert(lt(a[0], a[k + 1]));
            assert(lt(t, t));
        }
        assert(b.drop_first()[m - 1] == t);
    }
}

/// The order of texts.
pub open spec fn text_order() -> spec_fn(Seq<char>, Seq<char>) -> bool {
    |a: Seq<char>, b: Seq<char>| before(a, b)
}

/// The order of texts is a strict total order.
pub proof fn texts_are_ordered()
    ensures
        is_order(text_order()),
{
    let lt = text_order();
    assert forall|a: Seq<char>| !#[trigger] lt(a, a) by {
        order_is_strict(a);
    }
    assert forall|a: Seq<char>, b: Seq<char>| a == b || #[trigger] lt(a, b) || lt(b, a) by {
        order_is_total(a, b);
    }
    assert forall|a: Seq<char>, b: Seq<char>, c: Seq<char>| #[trigger]
        lt(a, b) && #[trigger] lt(b, c) implies lt(a, c) by {
        order_is_transitive(a, b, c);
    }
}

/// Whether every text of a list comes before the next ones.
pub open spec fn ascending(texts: Seq<Seq<char>>) -> bool {
    ascending_by(texts, text_order())
}

/// Adds a text to a list of texts; an ascending list stays ascending.
pub fn add_text(texts: &mut Vec<String>, text: String)
    ensures
        ascending(types::texts(old(texts)@)) ==> ascending(types::texts(final(texts)@)),
        types::texts(final(texts)@).to_set() == types::texts(old(texts)@).to_set().insert(text@),
{
    let ghost all = types::texts(texts@);
    let ghost own = text@;
    let ghost lt = text_order();
    let mut i: usize = 0;
    while i < texts.len() && comes_before(texts[i].as_str(), text.as_str())
        invariant
            i <= texts@.len(),
            all == types::texts(texts@),
            own == text@,
            lt == text_order(),
            forall|k: int| 0 <= k < i ==> lt(#[trigger] all[k], own),
        decreases texts.len() - i,
    {
        assert(all[i as int] == texts@[i as int]@);
        i += 1;
    }
    if i < texts.len() && crate::text::same_text(texts[i].as_str(), text.as_str()) {
        assert(all[i as int] == own);
        assert(all.contains(own));
        assert(all.to_set().insert(own) =~= all.to_set());
        return;
    }
    texts.insert(i, text);
    proof {
        let after = types::texts(texts@);
        assert(after =~= all.insert(i as int, own));
        assert forall|x: Seq<char>| #[trigger] after.contains(x) == (all.contains(x) || x == own) by {
            if all.contains(x) {
                let k = choose|k: int| 0 <= k < all.len() && all[k] == x;
                assert(after[if k < i {
                    k
                } else {
                    k + 1
                }] == x);
            }
            if x == own {
                assert(after[i as int] == x);
            }
        }
        assert(after.to_set() =~= all.to_set().insert(own));
        texts_are_ordered();
        if i < all.len() {
            assert(all[i as int] != own);
            assert(lt(all[i as int], own) || lt(own, all[i as int]));
        }
        if ascending(all) {
            insertion_ascends(all, i as int, own, lt);
        }
    }
}

} // verus!
