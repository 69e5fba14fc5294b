//! Near-miss suggestions.

use vstd::prelude::*;

use crate::text::chars_of;
use crate::types;

verus! {

broadcast use crate::types::group_type_views;

/// How many insertions, deletions and replacements of one character turn one
/// text into the other.
pub open spec fn edit_distance(a: Seq<char>, b: Seq<char>) -> nat
    decreases a.len() + b.len(),
{
    if a.len() == 0 {
        b.len()
    } else if b.len() == 0 {
        a.len()
    } else {
        let replaced = edit_distance(a.drop_last(), b.drop_last()) + if a.last() == b.last() {
            0nat
        } else {
            1nat
        };
        let deleted = edit_distance(a.drop_last(), b) + 1;
        let inserted = edit_distance(a, b.drop_last()) + 1;
        if replaced <= deleted && replaced <= inserted {
            replaced
        } else if deleted <= inserted {
            deleted
        } else {
            inserted
        }
    }
}

/// A candidate is a near miss within one edit per three characters, and at least
/// one.
pub open spec fn near_enough(name: Seq<char>, candidate: Seq<char>) -> bool {
    edit_distance(name, candidate) <= if name.len() < 3 {
        1
    } else {
        name.len() / 3
    }
}

/// The place of the nearest of the first `upto` candidates, the earliest where
/// several are as near.
pub open spec fn nearest_place(
    name: Seq<char>,
    candidates: Seq<Seq<char>>,
    upto: nat,
) -> Option<int>
    decreases upto,
{
    if upto == 0 {
        None
    } else {
        let i = upto - 1;
        match nearest_place(name, candidates, i as nat) {
            Some(best) => if near_enough(name, candidates[i]) && edit_distance(name, candidates[i])
                < edit_distance(name, candidates[best]) {
                Some(i)
            } else {
                Some(best)
            },
            None => if near_enough(name, candidates[i]) {
                Some(i)
            } else {
                None
            },
        }
    }
}

/// The candidate a misspelled name most likely meant.
pub open spec fn nearest(name: Seq<char>, candidates: Seq<Seq<char>>) -> Option<Seq<char>> {
    match nearest_place(name, candidates, candidates.len()) {
        Some(i) => Some(candidates[i]),
        None => None,
    }
}

/// The edit distance to the empty text is the length.
proof fn distance_to_empty(a: Seq<char>)
    ensures
        edit_distance(a, Seq::empty()) == a.len(),
{
}

/// The edit distance of two texts.
pub fn distance(a: &Vec<char>, b: &Vec<char>) -> (r: u128)
    ensures
        r == edit_distance(a@, b@),
{
    let mut row: Vec<u128> = Vec::new();
    row.push(0);
    let mut j: usize = 0;
    while j < b.len()
        invariant
            j <= b.len(),
            row@.len() == j + 1,
            forall|k: int| 0 <= k <= j ==> #[trigger] row@[k] == k,
        decreases b.len() - j,
    {
        row.push(j as u128 + 1);
        j += 1;
    }
    proof {
        assert forall|k: int| 0 <= k <= b@.len() implies #[trigger] row@[k] == edit_distance(
            a@.subrange(0, 0),
            b@.subrange(0, k),
        ) by {}
    }
    let mut i: usize = 0;
    while i < a.len()
        invariant
            i <= a.len(),
            row@.len() == b@.len() + 1,
            forall|k: int|
                0 <= k <= b@.len() ==> #[trigger] row@[k] == edit_distance(
                    a@.subrange(0, i as int),
                    b@.subrange(0, k),
                ),
        decreases a.len() - i,
    {
        let ghost a_next = a@.subrange(0, i + 1);
        proof {
            assert(a_next.drop_last() =~= a@.subrange(0, i as int));
            assert(b@.subrange(0, 0) =~= Seq::empty());
            distance_to_empty(a_next);
        }
        let mut next: Vec<u128> = Vec::new();
        next.push(i as u128 + 1);
        let mut j: usize = 0;
        while j < b.len()
            invariant
                i < a.len(),
                j <= b.len(),
                a_next == a@.subrange(0, i + 1),
                a_next.drop_last() == a@.subrange(0, i as int),
                row@.len() == b@.len() + 1,
                next@.len() == j + 1,
                forall|k: int|
                    0 <= k <= b@.len() ==> #[trigger] row@[k] == edit_distance(
                        a@.subrange(0, i as int),
                        b@.subrange(0, k),
                    ),
                forall|k: int|
                    0 <= k <= j ==> #[trigger] next@[k] == edit_distance(
                        a_next,
                        b@.subrange(0, k),
                    ),
            decreases b.len() - j,
        {
            proof {
                let b_next = b@.subrange(0, j + 1);
                assert(b_next.drop_last() =~= b@.subrange(0, j as int));
                distance_is_bounded(a@.subrange(0, i as int), b@.subrange(0, j as int));
                distance_is_bounded(a@.subrange(0, i as int), b_next);
                distance_is_bounded(a_next, b@.subrange(0, j as int));
                assert(row@[j as int] == edit_distance(
                    a@.subrange(0, i as int),
                    b@.subrange(0, j as int),
                ));
                assert(row@[j + 1] == edit_distance(a@.subrange(0, i as int), b_next));
                assert(next@[j as int] == edit_distance(a_next, b@.subrange(0, j as int)));
            }
            let replaced: u128 = row[j] + if a[i] == b[j] {
                0
            } else {
                1
            };
            let deleted: u128 = row[j + 1] + 1;
            let inserted: u128 = next[j] + 1;
            if replaced <= deleted && replaced <= inserted {
                next.push(replaced);
            } else if deleted <= inserted {
                next.push(deleted);
            } else {
                next.push(inserted);
            }
            j += 1;
        }
        row = next;
        i += 1;
    }
    proof {
        assert(a@.subrange(0, a@.len() as int) =~= a@);
        assert(b@.subrange(0, b@.len() as int) =~= b@);
        assert(row@[b@.len() as int] == edit_distance(
            a@.subrange(0, a@.len() as int),
            b@.subrange(0, b@.len() as int),
        ));
    }
    row[b.len()]
}

/// The edit distance is at most the sum of the lengths.
pub proof fn distance_is_bounded(a: Seq<char>, b: Seq<char>)
    ensures
        edit_distance(a, b) <= a.len() + b.len(),
    decreases a.len() + b.len(),
{
    if a.len() > 0 && b.len() > 0 {
        distance_is_bounded(a.drop_last(), b.drop_last());
        distance_is_bounded(a.drop_last(), b);
        distance_is_bounded(a, b.drop_last());
    }
}

/// The edit distance does not depend on which text comes first.
pub proof fn distance_is_symmetric(a: Seq<char>, b: Seq<char>)
    ensures
        edit_distance(a, b) == edit_distance(b, a),
    decreases a.len() + b.len(),
{
    if a.len() > 0 && b.len() > 0 {
        distance_is_symmetric(a.drop_last(), b.drop_last());
        distance_is_symmetric(a.drop_last(), b);
        distance_is_symmetric(a, b.drop_last());
    }
}

/// A text is at distance zero from itself, and from no other.
pub proof fn distance_zero_is_equality(a: Seq<char>, b: Seq<char>)
    ensures
        edit_distance(a, b) == 0 <==> a == b,
    decreases a.len() + b.len(),
{
    if a.len() > 0 && b.len() > 0 {
        distance_zero_is_equality(a.drop_last(), b.drop_last());
        if a == b {
            assert(a.drop_last() == b.drop_last());
        }
        if edit_distance(a, b) == 0 {
            assert(a =~= a.drop_last().push(a.last()));
            assert(b =~= b.drop_last().push(b.last()));
        }
    } else if edit_distance(a, b) == 0 {
        assert(a =~= b);
    }
}

/// The candidate a misspelled name most likely meant, if one is near enough.
pub fn nearest_field_name(name: &str, candidates: &Vec<String>) -> (r: Option<String>)
    ensures
        types::opt_text(r) == nearest(name@, types::texts(candidates@)),
{
    let ghost texts = types::texts(candidates@);
    let wanted = chars_of(name);
    let limit: u128 = if wanted.len() < 3 {
        1
    } else {
        (wanted.len() / 3) as u128
    };
    let mut best: Option<(usize, u128)> = None;
    let mut i: usize = 0;
    while i < candidates.len()
        invariant
            i <= candidates.len(),
            wanted@ == name@,
            texts == types::texts(candidates@),
            limit == if name@.len() < 3 {
                1
            } else {
                name@.len() / 3
            },
            match best {
                Some((place, d)) => place < i && nearest_place(name@, texts, i as nat) == Some(
                    place as int,
                ) && d == edit_distance(name@, texts[place as int]),
                None => nearest_place(name@, texts, i as nat) is None,
            },
        decreases candidates.len() - i,
    {
        let other = chars_of(candidates[i].as_str());
        assert(other@ == texts[i as int]);
        let d = distance(&wanted, &other);
        if d <= limit {
            let better = match best {
                Some((_, so_far)) => d < so_far,
                None => true,
            };
            if better {
                best = Some((i, d));
            }
        }
        i += 1;
    }
    match best {
        Some((place, _)) => Some(candidates[place].clone()),
        None => None,
    }
}

} // verus!
