//! Facts about dependencies: what leads where, and why no operation closes a
//! circle.

use crate::board::{Board, RecordModel};
use crate::ids::Uuid;
use vstd::prelude::*;

verus! {

/// What leads on from where something leads is led to from the start.
pub proof fn lemma_leads_on(board: Board, a: Uuid, b: Uuid, c: Uuid, m: nat, n: nat)
    requires
        board.leads(a, b, m),
        board.leads(b, c, n),
    ensures
        board.leads(a, c, m + n),
    decreases m,
{
    if m > 0 {
        let mid = choose|mid: Uuid| #[trigger]
            board.depends(a, mid) && board.leads(mid, b, (m - 1) as nat);
        lemma_leads_on(board, mid, b, c, (m - 1) as nat, n);
        assert((m + n - 1) as nat == (m - 1) as nat + n);
        assert(board.depends(a, mid) && board.leads(mid, c, (m + n - 1) as nat));
    }
}

/// Every task is where it is.
pub proof fn lemma_reaches_itself(board: Board, id: Uuid)
    ensures
        board.reaches(id, id),
{
    assert(board.leads(id, id, 0));
}

/// A dependency of what is reached is reached.
pub proof fn lemma_reaches_on(board: Board, from: Uuid, mid: Uuid, to: Uuid)
    requires
        board.reaches(from, mid),
        board.depends(mid, to),
    ensures
        board.reaches(from, to),
{
    let n = choose|n: nat| board.leads(from, mid, n);
    assert(board.leads(to, to, 0));
    assert(board.leads(mid, to, 1));
    lemma_leads_on(board, from, mid, to, n, 1);
}

/// A set that holds the dependencies of all its members holds what they lead to.
pub proof fn lemma_closed_set(board: Board, members: Set<Uuid>, from: Uuid, to: Uuid, n: nat)
    requires
        members.contains(from),
        forall|a: Uuid, b: Uuid| members.contains(a) && #[trigger] board.depends(a, b)
            ==> members.contains(b),
        board.leads(from, to, n),
    ensures
        members.contains(to),
    decreases n,
{
    if n > 0 {
        let mid = choose|mid: Uuid| #[trigger]
            board.depends(from, mid) && board.leads(mid, to, (n - 1) as nat);
        lemma_closed_set(board, members, mid, to, (n - 1) as nat);
    }
}

/// Whether every dependency on one board is a dependency on another.
pub open spec fn edges_within(after: Board, before: Board) -> bool {
    forall|a: Uuid, b: Uuid| #[trigger] after.depends(a, b) ==> before.depends(a, b)
}

/// With fewer dependencies no more leads anywhere.
pub proof fn lemma_fewer_edges(after: Board, before: Board, from: Uuid, to: Uuid, n: nat)
    requires
        edges_within(after, before),
        after.leads(from, to, n),
    ensures
        before.leads(from, to, n),
    decreases n,
{
    if n > 0 {
        let mid = choose|mid: Uuid| #[trigger]
            after.depends(from, mid) && after.leads(mid, to, (n - 1) as nat);
        lemma_fewer_edges(after, before, mid, to, (n - 1) as nat);
        assert(before.depends(from, mid));
    }
}

/// With fewer dependencies no circle comes to be.
pub proof fn lemma_fewer_edges_acyclic(after: Board, before: Board)
    requires
        edges_within(after, before),
        before.acyclic(),
    ensures
        after.acyclic(),
{
    assert forall|id: Uuid, n: nat| n > 0 implies !#[trigger] after.leads(id, id, n) by {
        if after.leads(id, id, n) {
            lemma_fewer_edges(after, before, id, id, n);
        }
    }
}

/// Whether two boards differ in the dependencies of one task alone.
spec fn differs_at(before: Board, after: Board, id: Uuid) -> bool {
    forall|a: Uuid, b: Uuid|
        a != id ==> #[trigger] after.depends(a, b) == before.depends(a, b)
}

/// Where new dependencies of one task are used on the way, the old ones lead to
/// that task.
proof fn lemma_before_entry(before: Board, after: Board, id: Uuid, from: Uuid, to: Uuid, n: nat)
    requires
        differs_at(before, after, id),
        after.leads(from, to, n),
    ensures
        before.leads(from, to, n) || before.reaches(from, id),
    decreases n,
{
    if n > 0 {
        if from == id {
            lemma_reaches_itself(before, id);
        } else {
            let mid = choose|mid: Uuid| #[trigger]
                after.depends(from, mid) && after.leads(mid, to, (n - 1) as nat);
            lemma_before_entry(before, after, id, mid, to, (n - 1) as nat);
            assert(before.depends(from, mid));
            if before.reaches(mid, id) {
                let k = choose|k: nat| before.leads(mid, id, k);
                assert(before.leads(mid, id, ((k + 1) - 1) as nat));
                assert(before.leads(from, id, k + 1));
            }
        }
    }
}

/// Where new dependencies of one task are used on the way, the old ones lead on
/// from one of the new.
proof fn lemma_after_exit(before: Board, after: Board, id: Uuid, from: Uuid, to: Uuid, n: nat)
    requires
        differs_at(before, after, id),
        after.leads(from, to, n),
    ensures
        before.leads(from, to, n) || exists|d: Uuid| #[trigger]
            after.depends(id, d) && before.reaches(d, to),
    decreases n,
{
    if n > 0 {
        let mid = choose|mid: Uuid| #[trigger]
            after.depends(from, mid) && after.leads(mid, to, (n - 1) as nat);
        lemma_after_exit(before, after, id, mid, to, (n - 1) as nat);
        if before.leads(mid, to, (n - 1) as nat) {
            if from == id {
                assert(after.depends(id, mid) && before.reaches(mid, to));
            } else {
                assert(before.depends(from, mid));
            }
        }
    }
}

/// New dependencies of one task, none of which leads back to it, close no
/// circle.
pub proof fn lemma_new_edges_acyclic(before: Board, id: Uuid, record: RecordModel)
    requires
        before.acyclic(),
        forall|d: Uuid| #[trigger]
            record.task.depends_on.contains(d) ==> !before.reaches(d, id),
    ensures
        before.with(id, record).acyclic(),
{
    let after = before.with(id, record);
    assert(differs_at(before, after, id)) by {
        assert forall|a: Uuid, b: Uuid| a != id implies #[trigger] after.depends(a, b)
            == before.depends(a, b) by {
            assert(after.has(a) == before.has(a));
        }
    }
    assert forall|a: Uuid, n: nat| n > 0 implies !#[trigger] after.leads(a, a, n) by {
        if after.leads(a, a, n) {
            lemma_before_entry(before, after, id, a, a, n);
            lemma_after_exit(before, after, id, a, a, n);
            let d = choose|d: Uuid| #[trigger] after.depends(id, d) && before.reaches(d, a);
            assert(record.task.depends_on.contains(d));
            let m = choose|m: nat| before.leads(d, a, m);
            let k = choose|k: nat| before.leads(a, id, k);
            lemma_leads_on(before, d, a, id, m, k);
        }
    }
}

} // verus!
