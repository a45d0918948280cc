//! What is ordered by the text of a time and then by an identifier.

use crate::ids::Uuid;
use crate::text::{
    is_before, precedes, precedes_is_irreflexive, precedes_is_total, precedes_is_transitive, same,
};
use vstd::prelude::*;

verus! {

/// Whether one pair of a text and an identifier comes before another: by the text,
/// then by the identifier.
pub open spec fn dated_before(a: (Seq<char>, Uuid), b: (Seq<char>, Uuid)) -> bool {
    precedes(a.0, b.0) || (a.0 == b.0 && a.1 < b.1)
}

/// Of two pairs one comes before the other, and not both.
pub proof fn dates_are_ordered(a: (Seq<char>, Uuid), b: (Seq<char>, Uuid))
    ensures
        !(dated_before(a, b) && dated_before(b, a)),
        a != b ==> dated_before(a, b) || dated_before(b, a),
{
    precedes_is_irreflexive(a.0);
    if a.0 != b.0 {
        precedes_is_total(a.0, b.0);
        if precedes(a.0, b.0) && precedes(b.0, a.0) {
            precedes_is_transitive(a.0, b.0, a.0);
        }
    }
}

/// What comes before a pair that comes before a third comes before the third.
pub proof fn dates_are_transitive(
    a: (Seq<char>, Uuid),
    b: (Seq<char>, Uuid),
    c: (Seq<char>, Uuid),
)
    requires
        dated_before(a, b),
        dated_before(b, c),
    ensures
        dated_before(a, c),
{
    if precedes(a.0, b.0) && precedes(b.0, c.0) {
        precedes_is_transitive(a.0, b.0, c.0);
    }
}

/// Whether one pair of a text and an identifier comes before another.
pub fn is_dated_before(text: &str, id: Uuid, other_text: &str, other: Uuid) -> (before: bool)
    ensures
        before == dated_before((text@, id), (other_text@, other)),
{
    is_before(text, other_text) || (same(text, other_text) && id < other)
}

/// Pairs of texts and identifiers, mathematically.
pub open spec fn dated_keys(list: Seq<(String, Uuid)>) -> Seq<(Seq<char>, Uuid)> {
    list.map_values(|pair: (String, Uuid)| (pair.0@, pair.1))
}

/// Whether each pair comes before those after it.
pub open spec fn in_date_order(keys: Seq<(Seq<char>, Uuid)>) -> bool {
    forall|i: int, j: int| 0 <= i < j < keys.len() ==> dated_before(keys[i], keys[j])
}

/// Puts a pair in its place.
pub fn put_in_place(list: &mut Vec<(String, Uuid)>, text: String, id: Uuid)
    requires
        in_date_order(dated_keys(old(list)@)),
        forall|k: int| 0 <= k < old(list)@.len() ==> (#[trigger] old(list)@[k]).1 != id,
    ensures
        in_date_order(dated_keys(final(list)@)),
        exists|i: int|
            0 <= i <= old(list)@.len() && dated_keys(final(list)@) == #[trigger] dated_keys(
                old(list)@,
            ).insert(i, (text@, id)),
{
    let ghost before = dated_keys(list@);
    let ghost key = (text@, id);
    let mut i: usize = 0;
    while i < list.len() && is_dated_before(list[i].0.as_str(), list[i].1, text.as_str(), id)
        invariant
            before == dated_keys(list@),
            key == (text@, id),
            i <= list.len(),
            forall|k: int| 0 <= k < i ==> dated_before(#[trigger] before[k], key),
        decreases list.len() - i,
    {
        assert(before[i as int] == (list@[i as int].0@, list@[i as int].1));
        i += 1;
    }
    proof {
        if i < list.len() {
            assert(before[i as int] == (list@[i as int].0@, list@[i as int].1));
            dates_are_ordered(before[i as int], key);
            assert forall|k: int| i < k < before.len() implies dated_before(
                key,
                #[trigger] before[k],
            ) by {
                dates_are_transitive(key, before[i as int], before[k]);
            }
        }
    }
    list.insert(i, (text, id));
    proof {
        let after = dated_keys(list@);
        assert(after =~= before.insert(i as int, key));
        assert forall|a: int, b: int| 0 <= a < b < after.len() implies dated_before(
            after[a],
            after[b],
        ) by {
            if a < i && b == i {
                assert(dated_before(before[a], key));
            } else if a == i {
                assert(after[b] == before[b - 1]);
            } else if a < i && b > i {
                assert(dated_before(before[a], before[b - 1]));
            } else if a > i {
                assert(dated_before(before[a - 1], before[b - 1]));
            }
        }
    }
}

} // verus!
