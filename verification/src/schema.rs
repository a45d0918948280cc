//! The versions of the database's schema.

use vstd::prelude::*;

verus! {

/// The versions from 1 through `count` that come after the current one, in their
/// order.
pub open spec fn versions_after(current: int, count: nat) -> Seq<int>
    decreases count,
{
    if count == 0 {
        Seq::empty()
    } else if count <= current {
        Seq::empty()
    } else {
        versions_after(current, (count - 1) as nat).push(count as int)
    }
}

/// A list of versions, mathematically.
pub open spec fn version_models(versions: Seq<i64>) -> Seq<int> {
    versions.map_values(|version: i64| version as int)
}

/// The versions that a database at the current one has still to be brought to, one
/// after the other, where there are `count` in all.
pub fn pending_versions(current: i64, count: u32) -> (versions: Vec<i64>)
    ensures
        version_models(versions@) == versions_after(current as int, count as nat),
{
    let mut versions: Vec<i64> = Vec::new();
    let mut done: u32 = 0;
    assert(version_models(versions@) =~= versions_after(current as int, 0));
    while done < count
        invariant
            done <= count,
            version_models(versions@) == versions_after(current as int, done as nat),
        decreases count - done,
    {
        let version: i64 = done as i64 + 1;
        let ghost before = versions@;
        if version > current {
            versions.push(version);
            assert(version_models(versions@) =~= version_models(before).push(version as int));
        } else {
            proof {
                lemma_none_after(current as int, done as nat);
                lemma_none_after(current as int, (done + 1) as nat);
            }
        }
        done += 1;
    }
    versions
}

proof fn lemma_none_after(current: int, count: nat)
    requires
        count <= current,
    ensures
        versions_after(current, count) == Seq::<int>::empty(),
{
}

/// A database that was brought to the last version has nothing to be brought to.
pub proof fn migrations_are_idempotent(count: nat)
    ensures
        versions_after(count as int, count) == Seq::<int>::empty(),
{
}

/// A version is pending exactly when it is one of those that there are and comes
/// after the current one.
pub proof fn pending_means_later(current: int, count: nat, version: int)
    requires
        current >= 0,
    ensures
        versions_after(current, count).contains(version) <==> current < version <= count,
    decreases count,
{
    if count > 0 && count > current {
        let front = versions_after(current, (count - 1) as nat);
        let all = versions_after(current, count);
        pending_means_later(current, (count - 1) as nat, version);
        assert(all[front.len() as int] == count);
        if front.contains(version) {
            let k = choose|k: int| 0 <= k < front.len() && front[k] == version;
            assert(all[k] == version);
        }
        if all.contains(version) && version != count {
            let k = choose|k: int| 0 <= k < all.len() && all[k] == version;
            assert(front[k] == version);
        }
    }
}

} // verus!
