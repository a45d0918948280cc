//! What has to be written for a board to be kept after an operation.

use super::{Record, Store};
use crate::board::Board;
use crate::history::{every_change_counts_one_version, Step};
use crate::ids::{ascending, lemma_ascending_filter, Uuid};
use crate::model::Artifact;
use crate::steps::stored_version;
use crate::tables::sorted_keys;
use vstd::prelude::*;

verus! {

/// What differs between two boards: the tasks and artifacts to be written, and the
/// identifiers of those to be removed.
#[derive(Clone, Debug, PartialEq)]
pub struct Changes {
    pub tasks: Vec<Record>,
    pub removed_tasks: Vec<Uuid>,
    pub artifacts: Vec<Artifact>,
    pub removed_artifacts: Vec<Uuid>,
}

/// Whether a task is new or has another version than before.
pub open spec fn is_changed(before: Board, after: Board, id: Uuid) -> bool {
    after.has(id) && (!before.has(id) || stored_version(before.tasks[id]) != stored_version(
        after.tasks[id],
    ))
}

/// The tasks that are new or have another version than before.
pub open spec fn changed_tasks(before: Board, after: Board) -> Set<Uuid> {
    Set::new(|id: Uuid| is_changed(before, after, id))
}

/// The tasks that are no longer there.
pub open spec fn removed_tasks(before: Board, after: Board) -> Set<Uuid> {
    Set::new(|id: Uuid| before.has(id) && !after.has(id))
}

/// The artifacts that are new.
pub open spec fn new_artifacts(before: Board, after: Board) -> Set<Uuid> {
    Set::new(
        |id: Uuid| after.artifacts.contains_key(id) && !before.artifacts.contains_key(id),
    )
}

/// The artifacts that are no longer there.
pub open spec fn removed_artifacts(before: Board, after: Board) -> Set<Uuid> {
    Set::new(
        |id: Uuid| before.artifacts.contains_key(id) && !after.artifacts.contains_key(id),
    )
}

/// The board that is left when what differs from another is written over it.
pub open spec fn written_over(before: Board, after: Board) -> Board {
    let changed = changed_tasks(before, after);
    let added = new_artifacts(before, after);
    Board {
        tasks: Map::new(
            |id: Uuid|
                changed.contains(id) || (before.has(id) && !removed_tasks(before, after).contains(
                    id,
                )),
            |id: Uuid|
                if changed.contains(id) {
                    after.tasks[id]
                } else {
                    before.tasks[id]
                },
        ),
        artifacts: Map::new(
            |id: Uuid|
                added.contains(id) || (before.artifacts.contains_key(id) && !removed_artifacts(
                    before,
                    after,
                ).contains(id)),
            |id: Uuid|
                if added.contains(id) {
                    after.artifacts[id]
                } else {
                    before.artifacts[id]
                },
        ),
    }
}

/// Writing what an operation changed over the board before it leaves the board
/// after it.
pub proof fn what_changed_is_enough(board: Board, step: Step, now: int)
    requires
        board.valid(),
        board.step_fault(step) is None,
    ensures
        written_over(board, board.stepped(step, now)) == board.stepped(step, now),
{
    let after = board.stepped(step, now);
    let written = written_over(board, after);
    assert forall|id: Uuid| after.has(id) implies #[trigger] written.tasks[id]
        == after.tasks[id] by {
        if board.has(id) && board.tasks[id] != after.tasks[id] {
            every_change_counts_one_version(board, step, now, id);
        }
    }
    assert(written.tasks =~= after.tasks);
    assert forall|id: Uuid|
        after.artifacts.contains_key(id) && board.artifacts.contains_key(id) implies
        #[trigger] after.artifacts[id] == board.artifacts[id] by {}
    assert(written.artifacts =~= after.artifacts);
    assert(written =~= after);
}

/// Whether two tasks are stored with the same version.
fn same_version(a: &Record, b: &Record) -> (equal: bool)
    ensures
        equal == (stored_version(a@) == stored_version(b@)),
{
    match (&a.raw, &b.raw) {
        (None, None) => a.task.version == b.task.version,
        (Some(x), Some(y)) => x.version == y.version,
        (Some(x), None) => x.version >= 0 && x.version as u64 == b.task.version,
        (None, Some(y)) => y.version >= 0 && y.version as u64 == a.task.version,
    }
}

impl Clone for Store {
    fn clone(&self) -> (result: Self)
        ensures
            result@ == self@,
    {
        Store {
            tasks: self.tasks.clone(),
            artifacts: self.artifacts.clone(),
        }
    }
}

impl Store {
    /// The tasks that the other board does not hold.
    fn tasks_missing_in(&self, other: &Store) -> (ids: Vec<Uuid>)
        ensures
            ids@ == ascending(removed_tasks(self@, other@)),
    {
        let ghost missing = |id: Uuid| !other@.has(id);
        let keys = self.keys();
        let mut ids: Vec<Uuid> = Vec::new();
        let mut i: usize = 0;
        assert(keys@.take(0).filter(missing) =~= ids@) by {
            reveal(Seq::filter);
        }
        while i < keys.len()
            invariant
                missing == (|id: Uuid| !other@.has(id)),
                i <= keys.len(),
                ids@ == keys@.take(i as int).filter(missing),
            decreases keys.len() - i,
        {
            let id: Uuid = keys[i];
            proof {
                assert(keys@.take(i + 1) =~= keys@.take(i as int).push(id));
                keys@.take(i as int).lemma_filter_push(id, missing);
            }
            if !other.tasks.contains_key(&id) {
                ids.push(id);
            }
            i += 1;
        }
        proof {
            assert(keys@.take(keys@.len() as int) =~= keys@);
            assert forall|x: Uuid| #[trigger]
                removed_tasks(self@, other@).contains(x) <==> keys@.contains(x) && missing(x) by {
                assert(keys@.to_set().contains(x) <==> self@.has(x));
            }
            lemma_ascending_filter(keys@, missing, removed_tasks(self@, other@));
        }
        ids
    }

    /// The artifacts that the other board does not hold.
    fn artifacts_missing_in(&self, other: &Store) -> (ids: Vec<Uuid>)
        ensures
            ids@ == ascending(removed_artifacts(self@, other@)),
            ids@.to_set() == removed_artifacts(self@, other@),
    {
        let ghost missing = |id: Uuid| !other@.artifacts.contains_key(id);
        let keys = sorted_keys(&self.artifacts);
        let mut ids: Vec<Uuid> = Vec::new();
        let mut i: usize = 0;
        assert(keys@.take(0).filter(missing) =~= ids@) by {
            reveal(Seq::filter);
        }
        while i < keys.len()
            invariant
                missing == (|id: Uuid| !other@.artifacts.contains_key(id)),
                i <= keys.len(),
                ids@ == keys@.take(i as int).filter(missing),
            decreases keys.len() - i,
        {
            let id: Uuid = keys[i];
            proof {
                assert(keys@.take(i + 1) =~= keys@.take(i as int).push(id));
                keys@.take(i as int).lemma_filter_push(id, missing);
            }
            if !other.artifacts.contains_key(&id) {
                ids.push(id);
            }
            i += 1;
        }
        proof {
            assert(keys@.take(keys@.len() as int) =~= keys@);
            assert forall|x: Uuid| #[trigger]
                removed_artifacts(self@, other@).contains(x) <==> keys@.contains(x) && missing(
                    x,
                ) by {
                assert(keys@.to_set().contains(x) <==> self.artifacts@.dom().contains(x));
            }
            lemma_ascending_filter(keys@, missing, removed_artifacts(self@, other@));
        }
        ids
    }

    /// Whether a task is new or has another version than before.
    fn is_changed_since(&self, before: &Store, id: Uuid) -> (changed: bool)
        requires
            self@.has(id),
        ensures
            changed == is_changed(before@, self@, id),
    {
        let record = self.tasks.get(&id).unwrap();
        match before.tasks.get(&id) {
            Some(earlier) => !same_version(earlier, record),
            None => true,
        }
    }

    /// What differs from the board before.
    pub fn changes_since(&self, before: &Store) -> (changes: Changes)
        ensures
            changes.tasks@.map_values(|record: Record| record@) == ascending(
                changed_tasks(before@, self@),
            ).map_values(|id: Uuid| self@.tasks[id]),
            changes.removed_tasks@ == ascending(removed_tasks(before@, self@)),
            changes.artifacts@.map_values(|artifact: Artifact| artifact@) == ascending(
                new_artifacts(before@, self@),
            ).map_values(|id: Uuid| self@.file(id)),
            changes.removed_artifacts@ == ascending(removed_artifacts(before@, self@)),
    {
        let ghost differs = |id: Uuid| is_changed(before@, self@, id);
        let keys = self.keys();
        let ghost mut ids = Seq::<Uuid>::empty();
        let mut tasks: Vec<Record> = Vec::new();
        let mut i: usize = 0;
        assert(keys@.take(0).filter(differs) =~= ids) by {
            reveal(Seq::filter);
        }
        while i < keys.len()
            invariant
                differs == (|id: Uuid| is_changed(before@, self@, id)),
                keys@.to_set() == self@.tasks.dom(),
                i <= keys.len(),
                ids == keys@.take(i as int).filter(differs),
                tasks@.len() == ids.len(),
                forall|k: int| 0 <= k < ids.len() ==> (#[trigger] tasks@[k])@ == self@.tasks[ids[k]],
            decreases keys.len() - i,
        {
            let id: Uuid = keys[i];
            assert(keys@.to_set().contains(id));
            assert(self@.has(id));
            proof {
                assert(keys@.take(i + 1) =~= keys@.take(i as int).push(id));
                keys@.take(i as int).lemma_filter_push(id, differs);
            }
            if self.is_changed_since(before, id) {
                tasks.push(self.tasks.get(&id).unwrap().clone());
                proof {
                    ids = ids.push(id);
                }
            }
            i += 1;
        }
        proof {
            assert(keys@.take(keys@.len() as int) =~= keys@);
            assert forall|x: Uuid| #[trigger]
                changed_tasks(before@, self@).contains(x) <==> keys@.contains(x) && differs(x) by {
                assert(keys@.to_set().contains(x) <==> self@.has(x));
            }
            lemma_ascending_filter(keys@, differs, changed_tasks(before@, self@));
            assert(tasks@.map_values(|record: Record| record@) =~= ids.map_values(
                |id: Uuid| self@.tasks[id],
            ));
        }
        let added = self.artifacts_missing_in(before);
        let mut artifacts: Vec<Artifact> = Vec::new();
        proof {
            assert(removed_artifacts(self@, before@) =~= new_artifacts(before@, self@));
            assert forall|k: int| 0 <= k < added@.len() implies self@.artifacts.contains_key(
                #[trigger] added@[k],
            ) by {
                assert(added@.to_set().contains(added@[k]));
            }
        }
        i = 0;
        while i < added.len()
            invariant
                i <= added.len(),
                forall|k: int|
                    0 <= k < added@.len() ==> self@.artifacts.contains_key(#[trigger] added@[k]),
                artifacts@.len() == i,
                forall|k: int|
                    0 <= k < i ==> (#[trigger] artifacts@[k])@ == self@.file(added@[k]),
            decreases added.len() - i,
        {
            assert(self@.artifacts.contains_key(added@[i as int]));
            artifacts.push(self.artifacts.get(&added[i]).unwrap().artifact.clone());
            i += 1;
        }
        assert(artifacts@.map_values(|artifact: Artifact| artifact@) =~= added@.map_values(
            |id: Uuid| self@.file(id),
        ));
        Changes {
            tasks,
            removed_tasks: before.tasks_missing_in(self),
            artifacts,
            removed_artifacts: before.artifacts_missing_in(self),
        }
    }
}

} // verus!
