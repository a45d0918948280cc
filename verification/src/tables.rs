//! Tables: maps from identifiers to rows, walked in the order of the
//! identifiers.

use crate::ids::{increasing, Uuid};
use std::collections::BTreeMap;
use vstd::prelude::*;
use vstd::std_specs::btree::increasing_seq;
use vstd::std_specs::cmp::OrdSpec;
use vstd::std_specs::iter::IteratorSpec;

verus! {

/// Identifiers in the order that a map keeps are in the order of the numbers.
proof fn lemma_map_order(order: Seq<Uuid>)
    requires
        increasing_seq(order),
    ensures
        increasing(order),
{
    assert forall|i: int, j: int| 0 <= i < j < order.len() implies order[i] < order[j] by {
        assert(order[i].cmp_spec(&order[j]) is Less);
    }
}

/// The keys of a table, the least first.
pub fn sorted_keys<V>(table: &BTreeMap<Uuid, V>) -> (keys: Vec<Uuid>)
    ensures
        increasing(keys@),
        keys@.to_set() == table@.dom(),
{
    let mut keys: Vec<Uuid> = Vec::new();
    let pairs = table.iter();
    let ghost all = pairs.remaining();
    let ghost order = all.map_values(|pair: (&Uuid, &V)| *pair.0);
    for pair in it: pairs
        invariant
            it.seq() == all,
            order == all.map_values(|pair: (&Uuid, &V)| *pair.0),
            keys@ == order.take(it.index() as int),
    {
        keys.push(*pair.0);
        assert(order.take(it.index() + 1) =~= order.take(it.index() as int).push(
            order[it.index() as int],
        ));
    }
    assert(keys@ =~= order);
    proof {
        lemma_map_order(order);
        assert forall|k: Uuid| keys@.to_set().contains(k) <==> table@.dom().contains(k) by {
            if keys@.contains(k) {
                let i = choose|i: int| 0 <= i < keys@.len() && keys@[i] == k;
                assert(table@.contains_key(*all[i].0));
            }
            if table@.contains_key(k) {
                assert(all.contains((&k, &table@[k])));
                let i = choose|i: int| 0 <= i < all.len() && all[i] == (&k, &table@[k]);
                assert(order[i] == k);
            }
        }
        assert(keys@.to_set() =~= table@.dom());
    }
    keys
}

/// What rows are ordered by: three numbers, the first of most weight.
pub type Rank = (i128, i128, u128);

/// Whether one rank comes before another.
pub open spec fn rank_before(a: Rank, b: Rank) -> bool {
    a.0 < b.0 || (a.0 == b.0 && (a.1 < b.1 || (a.1 == b.1 && a.2 < b.2)))
}

/// Whether each rank comes before those after it.
pub open spec fn in_rank_order(ranks: Seq<Rank>) -> bool {
    forall|i: int, j: int| 0 <= i < j < ranks.len() ==> rank_before(ranks[i], ranks[j])
}

/// Ranks in the order that a map keeps are in the order of the ranks.
proof fn lemma_map_rank_order(ranks: Seq<Rank>)
    requires
        increasing_seq(ranks),
    ensures
        in_rank_order(ranks),
{
    assert forall|i: int, j: int| 0 <= i < j < ranks.len() implies rank_before(
        ranks[i],
        ranks[j],
    ) by {
        assert(ranks[i].cmp_spec(&ranks[j]) is Less);
    }
}

/// The members of `ranks`, each once, in the order of the ranks.
pub fn sort_ranks(ranks: &Vec<Rank>) -> (sorted: Vec<Rank>)
    ensures
        in_rank_order(sorted@),
        sorted@.to_set() == ranks@.to_set(),
{
    let mut table: BTreeMap<Rank, ()> = BTreeMap::new();
    let mut i: usize = 0;
    while i < ranks.len()
        invariant
            i <= ranks.len(),
            table@.dom() == ranks@.take(i as int).to_set(),
        decreases ranks.len() - i,
    {
        table.insert(ranks[i], ());
        assert(ranks@.take(i + 1) =~= ranks@.take(i as int).push(ranks@[i as int]));
        proof {
            lemma_to_set_push(ranks@.take(i as int), ranks@[i as int]);
        }
        i += 1;
    }
    assert(ranks@.take(ranks@.len() as int) =~= ranks@);
    let mut sorted: Vec<Rank> = Vec::new();
    let pairs = table.iter();
    let ghost all = pairs.remaining();
    let ghost order = all.map_values(|pair: (&Rank, &())| *pair.0);
    for pair in it: pairs
        invariant
            it.seq() == all,
            order == all.map_values(|pair: (&Rank, &())| *pair.0),
            sorted@ == order.take(it.index() as int),
    {
        sorted.push(*pair.0);
        assert(order.take(it.index() + 1) =~= order.take(it.index() as int).push(
            order[it.index() as int],
        ));
    }
    assert(sorted@ =~= order);
    proof {
        lemma_map_rank_order(order);
        assert forall|k: Rank| sorted@.to_set().contains(k) <==> table@.dom().contains(k) by {
            if sorted@.contains(k) {
                let i = choose|i: int| 0 <= i < sorted@.len() && sorted@[i] == k;
                assert(table@.contains_key(*all[i].0));
            }
            if table@.contains_key(k) {
                assert(all.contains((&k, &table@[k])));
                let i = choose|i: int| 0 <= i < all.len() && all[i] == (&k, &table@[k]);
                assert(order[i] == k);
            }
        }
        assert(sorted@.to_set() =~= table@.dom());
    }
    sorted
}

/// A member more at the end of a sequence is a member more in its set.
pub proof fn lemma_to_set_push<T>(s: Seq<T>, x: T)
    ensures
        s.push(x).to_set() == s.to_set().insert(x),
{
    assert forall|y: T| s.push(x).to_set().contains(y) <==> s.to_set().insert(x).contains(y) by {
        if s.contains(y) {
            let k = choose|k: int| 0 <= k < s.len() && s[k] == y;
            assert(s.push(x)[k] == y);
        }
        assert(s.push(x)[s.len() as int] == x);
        if s.push(x).contains(y) && y != x {
            let k = choose|k: int| 0 <= k < s.push(x).len() && s.push(x)[k] == y;
            assert(s[k] == y);
        }
    }
    assert(s.push(x).to_set() =~= s.to_set().insert(x));
}

} // verus!
