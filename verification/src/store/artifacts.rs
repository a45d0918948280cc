//! The records of artifacts: adding, reading, removing, and expiry.

use super::lifecycle::is_claimed_by;
use super::{Filed, Store, StoreError};
use crate::board::{artifact_flaw, artifact_key, is_closed, Board};
use crate::dates::{dated_before, dated_keys, dates_are_ordered, in_date_order, put_in_place};
use crate::ids::{
    ascending, increasing, lemma_ascending_filter, lemma_first_such, lemma_none_such, Uuid,
};
use crate::model::{Artifact, ArtifactModel, Status};
use crate::rules::{
    joined, owner_conflict, reports, sql_integer, status_text, validate_artifact_filename,
    validate_content_type,
};
use crate::steps::stored_artifact;
use crate::tables::{lemma_to_set_push, sorted_keys};
use crate::text::{is_before, precedes_is_irreflexive};
use crate::time::{follows_time, is_recent, timestamp_text, Timestamp};
use crate::validity::{lemma_fewer_artifacts, lemma_more_artifacts};
use std::collections::HashSet;
use vstd::prelude::*;

verus! {

/// A list of artifacts, mathematically.
pub open spec fn artifact_list(list: Seq<Artifact>) -> Seq<ArtifactModel> {
    list.map_values(|artifact: Artifact| artifact@)
}

impl Store {
    /// Artifacts are added by the owner of a task in progress.
    fn validate_artifact_owner(&self, task_id: Uuid, agent: &str) -> (result: Result<
        (),
        StoreError,
    >)
        ensures
            reports(result, self@.ownership_fault(task_id, agent@)),
    {
        let task = match self.read_record(task_id) {
            Ok(record) => &record.task,
            Err(error) => {
                return Err(error);
            },
        };
        if task.status != Status::InProgress {
            return Err(
                StoreError::Conflict(
                    joined("cannot add an artifact to a task in status ", status_text(task.status)),
                ),
            );
        }
        if !is_claimed_by(task, agent) {
            return Err(owner_conflict(agent));
        }
        Ok(())
    }

    /// Whether an agent may add an artifact with these descriptions.
    pub fn validate_artifact_upload(
        &self,
        task_id: Uuid,
        agent: &str,
        filename: &str,
        content_type: &str,
    ) -> (result: Result<(), StoreError>)
        ensures
            reports(result, self@.upload_fault(task_id, agent@, filename@, content_type@)),
    {
        if let Err(error) = self.validate_artifact_owner(task_id, agent) {
            return Err(error);
        }
        if let Err(error) = validate_artifact_filename(filename.trim()) {
            return Err(error);
        }
        validate_content_type(content_type)
    }

    /// Adds the record of an artifact for the owner of its task.
    pub fn add_artifact(&mut self, agent: &str, artifact: Artifact) -> (result: Result<
        Artifact,
        StoreError,
    >)
        requires
            old(self).wf(),
        ensures
            final(self).wf(),
            match result {
                Ok(stored) => old(self)@.artifact_fault(agent@, artifact@) is None && stored@
                    == stored_artifact(artifact@) && final(self)@ == old(self)@.with_artifact(
                    artifact@,
                ),
                Err(error) => old(self)@.artifact_fault(agent@, artifact@) == Some(error@)
                    && final(self)@ == old(self)@,
            },
    {
        if let Err(error) = self.validate_artifact_upload(
            artifact.task_id,
            agent,
            artifact.filename.as_str(),
            artifact.content_type.as_str(),
        ) {
            return Err(error);
        }
        if let Err(error) = sql_integer(artifact.size_bytes, "artifact size") {
            return Err(error);
        }
        if self.artifacts.contains_key(&artifact.id) {
            return Err(StoreError::Internal("UNIQUE constraint failed: artifacts.id".to_owned()));
        }
        let stored = Artifact {
            id: artifact.id,
            task_id: artifact.task_id,
            filename: artifact.filename.as_str().trim().to_owned(),
            content_type: artifact.content_type,
            size_bytes: artifact.size_bytes,
            created_at: artifact.created_at,
        };
        let ghost before = self@;
        self.artifacts.insert(stored.id, Filed { artifact: stored.clone(), raw: None });
        proof {
            assert(self@ =~= before.with_artifact(artifact@));
            lemma_more_artifacts(before, artifact@);
        }
        Ok(stored)
    }

    /// The artifacts of a task, in the order in which they were added, where all of them
    /// can be read.
    pub fn artifacts(&self, task_id: Uuid) -> (result: Result<Vec<Artifact>, StoreError>)
        requires
            self.wf(),
        ensures
            match result {
                Ok(list) => self@.artifacts_fault(task_id) is None && self@.is_furnished_with(
                    task_id,
                    artifact_list(list@),
                ) && are_listed_by_age(self@, artifact_list(list@)),
                Err(error) => self@.artifacts_fault(task_id) == Some(error@),
            },
    {
        if let Err(error) = self.read_record(task_id) {
            return Err(error);
        }
        let ghost board = self@;
        let order = self.filing_order(task_id);
        let ghost keys = dated_keys(order@);
        let mut list: Vec<Artifact> = Vec::new();
        let mut i: usize = 0;
        while i < order.len()
            invariant
                self.wf(),
                board == self@,
                board.read_fault(task_id) is None,
                keys == dated_keys(order@),
                is_filing_order(board, task_id, keys),
                forall|k: int| 0 <= k < keys.len() ==> tells_age(board, #[trigger] keys[k]),
                i <= order.len(),
                list@.len() == i,
                forall|k: int|
                    0 <= k < i ==> (#[trigger] list@[k])@ == board.file(keys[k].1)
                        && !board.is_illegible(task_id, keys[k].1),
            decreases order.len() - i,
        {
            let id: Uuid = order[i].1;
            assert(keys[i as int].1 == id);
            let file = self.artifacts.get(&id).unwrap();
            assert(board.artifacts[id] == file@);
            if let Some(text) = file.flaw() {
                proof {
                    assert forall|other: Uuid|
                        other != id && #[trigger] board.is_illegible(
                            task_id,
                            other,
                        ) implies board.is_filed_before(id, other) by {
                        let k = choose|k: int| 0 <= k < keys.len() && (#[trigger] keys[k]).1 == other;
                        if k < i {
                            assert(list@[k]@ == board.file(keys[k].1));
                        }
                        assert(dated_before(keys[i as int], keys[k]));
                    }
                    lemma_first_illegible(board, task_id, id);
                }
                return Err(StoreError::Internal(text));
            }
            list.push(file.artifact.clone());
            i += 1;
        }
        proof {
            assert forall|id: Uuid| !board.is_first_illegible(task_id, id) by {
                if board.is_illegible(task_id, id) {
                    let k = choose|k: int| 0 <= k < keys.len() && (#[trigger] keys[k]).1 == id;
                    assert(list@[k]@ == board.file(keys[k].1));
                }
            }
            let models = artifact_list(list@);
            assert forall|k: int| 0 <= k < models.len() implies board.owns(
                task_id,
                (#[trigger] models[k]).id,
            ) && models[k] == board.file(models[k].id) && models[k].id == keys[k].1 by {
                assert(models[k] == list@[k]@);
                assert(board.owns(task_id, keys[k].1));
            }
            assert forall|a: int, b: int| 0 <= a < b < models.len() implies board.is_filed_before(
                models[a].id,
                models[b].id,
            ) by {
                assert(models[a].id == keys[a].1 && models[b].id == keys[b].1);
                assert(dated_before(keys[a], keys[b]));
            }
            assert forall|id: Uuid| #[trigger] board.owns(task_id, id) implies exists|k: int|
                0 <= k < models.len() && models[k].id == id by {
                let k = choose|k: int| 0 <= k < keys.len() && (#[trigger] keys[k]).1 == id;
                assert(models[k].id == id);
            }
            assert forall|a: int, b: int|
                0 <= a < b < models.len() && has_age(board, models[a].id) && has_age(
                    board,
                    models[b].id,
                ) implies models[a].created_at < models[b].created_at || (models[a].created_at
                == models[b].created_at && models[a].id < models[b].id) by {
                assert(models[a].id == keys[a].1 && models[b].id == keys[b].1);
                assert(dated_before(keys[a], keys[b]));
                assert(keys[a].0 == timestamp_text(models[a].created_at));
                assert(keys[b].0 == timestamp_text(models[b].created_at));
                assert(follows_time(keys[b].0, models[b].created_at));
                precedes_is_irreflexive(keys[a].0);
            }
        }
        Ok(list)
    }

    /// The artifacts of a task in the order of its list, with what they are ordered by.
    fn filing_order(&self, task_id: Uuid) -> (order: Vec<(String, Uuid)>)
        requires
            self.wf(),
        ensures
            is_filing_order(self@, task_id, dated_keys(order@)),
            forall|k: int|
                0 <= k < order@.len() ==> tells_age(self@, #[trigger] dated_keys(order@)[k]),
    {
        let ghost board = self@;
        let keys = sorted_keys(&self.artifacts);
        assert(board.artifacts.dom() =~= self.artifacts@.dom());
        let mut order: Vec<(String, Uuid)> = Vec::new();
        let mut i: usize = 0;
        while i < keys.len()
            invariant
                self.wf(),
                board == self@,
                increasing(keys@),
                keys@.to_set() == board.artifacts.dom(),
                i <= keys.len(),
                in_date_order(dated_keys(order@)),
                forall|k: int|
                    0 <= k < order@.len() ==> is_filed_as(
                        board,
                        task_id,
                        #[trigger] dated_keys(order@)[k],
                    ) && tells_age(board, dated_keys(order@)[k]) && keys@.take(i as int).contains(
                        dated_keys(order@)[k].1,
                    ),
                forall|k: int|
                    0 <= k < i && board.owns(task_id, #[trigger] keys@[k]) ==> exists|m: int|
                        0 <= m < order@.len() && (#[trigger] dated_keys(order@)[m]).1 == keys@[k],
            decreases keys.len() - i,
        {
            let id: Uuid = keys[i];
            assert(keys@.to_set().contains(id));
            let file = self.artifacts.get(&id).unwrap();
            assert(board.artifacts[id] == file@);
            let ghost before = dated_keys(order@);
            let ghost done = keys@.take(i as int);
            let ghost more = keys@.take(i + 1);
            assert forall|x: Uuid| done.contains(x) implies more.contains(x) && x != id by {
                let k = choose|k: int| 0 <= k < done.len() && done[k] == x;
                assert(more[k] == x);
                assert(keys@[k] < keys@[i as int]);
            }
            assert(more[i as int] == id);
            if file.artifact.task_id == task_id {
                assert forall|k: int| 0 <= k < order@.len() implies (#[trigger] order@[k]).1
                    != id by {
                    assert(done.contains(before[k].1));
                }
                let date = file.date();
                let ghost key = (date@, id);
                put_in_place(&mut order, date, id);
                proof {
                    let after = dated_keys(order@);
                    let at = choose|at: int|
                        0 <= at <= before.len() && after == #[trigger] before.insert(at, key);
                    assert(after[at] == key);
                    assert forall|k: int| 0 <= k < after.len() implies is_filed_as(
                        board,
                        task_id,
                        #[trigger] after[k],
                    ) && tells_age(board, after[k]) && more.contains(after[k].1) by {
                        if k < at {
                            assert(after[k] == before[k]);
                        } else if k > at {
                            assert(after[k] == before[k - 1]);
                        }
                    }
                    assert forall|k: int|
                        0 <= k < i + 1 && board.owns(
                            task_id,
                            #[trigger] keys@[k],
                        ) implies exists|m: int|
                        0 <= m < after.len() && (#[trigger] after[m]).1 == keys@[k] by {
                        if k == i {
                            assert(after[at].1 == keys@[k]);
                        } else {
                            let m = choose|m: int|
                                0 <= m < before.len() && (#[trigger] before[m]).1 == keys@[k];
                            if m < at {
                                assert(after[m] == before[m]);
                            } else {
                                assert(after[m + 1] == before[m]);
                            }
                        }
                    }
                }
            } else {
                assert(!board.owns(task_id, id));
            }
            i += 1;
        }
        proof {
            let filed = dated_keys(order@);
            assert forall|id: Uuid| #[trigger] board.owns(task_id, id) implies exists|k: int|
                0 <= k < filed.len() && (#[trigger] filed[k]).1 == id by {
                assert(keys@.to_set().contains(id));
                let n = choose|n: int| 0 <= n < keys@.len() && keys@[n] == id;
                assert(board.owns(task_id, keys@[n]));
            }
        }
        order
    }

    /// An artifact of a task.
    pub fn artifact(&self, task_id: Uuid, id: Uuid) -> (result: Result<Artifact, StoreError>)
        requires
            self.wf(),
        ensures
            match result {
                Ok(artifact) => self@.artifact_read_fault(task_id, id) is None && artifact@
                    == self@.file(id),
                Err(error) => self@.artifact_read_fault(task_id, id) == Some(error@),
            },
    {
        match self.artifacts.get(&id) {
            Some(file) => {
                assert(self@.artifacts[id] == file@);
                if file.artifact.task_id == task_id {
                    match file.flaw() {
                        Some(text) => Err(StoreError::Internal(text)),
                        None => Ok(file.artifact.clone()),
                    }
                } else {
                    Err(StoreError::NotFound)
                }
            },
            None => Err(StoreError::NotFound),
        }
    }

    /// Removes the record of an artifact of a task.
    pub fn delete_artifact(&mut self, task_id: Uuid, id: Uuid) -> (result: Result<
        Artifact,
        StoreError,
    >)
        requires
            old(self).wf(),
        ensures
            final(self).wf(),
            match result {
                Ok(artifact) => old(self)@.artifact_read_fault(task_id, id) is None && artifact@
                    == old(self)@.file(id) && final(self)@ == old(self)@.without_artifact(id),
                Err(error) => old(self)@.artifact_read_fault(task_id, id) == Some(error@)
                    && final(self)@ == old(self)@,
            },
    {
        let artifact = match self.artifact(task_id, id) {
            Ok(artifact) => artifact,
            Err(error) => {
                return Err(error);
            },
        };
        self.artifacts.remove(&id);
        proof {
            assert(self@ =~= old(self)@.without_artifact(id));
            lemma_fewer_artifacts(old(self)@, self@);
        }
        Ok(artifact)
    }

    /// Whether an artifact's task was closed at or before the given time.
    fn is_expired(&self, id: Uuid, cutoff: Timestamp, limit: &str) -> (expired: bool)
        requires
            self.wf(),
            self@.artifacts.contains_key(id),
            limit@ == timestamp_text(cutoff@),
        ensures
            expired == self@.is_expired(id, cutoff@),
    {
        let file = self.artifacts.get(&id).unwrap();
        assert(self@.artifacts[id] == file@);
        let record = self.tasks.get(&file.artifact.task_id).unwrap();
        match record.task.status {
            Status::Done | Status::Cancelled => {},
            Status::Todo | Status::InProgress | Status::Failed => {
                return false;
            },
        }
        match &record.closed_at {
            Some(text) => !is_before(limit, text.as_str()),
            None => false,
        }
    }

    /// Removes and returns the records of artifacts whose tasks were closed at or
    /// before the given time, the lowest identifier first, where all of them can be
    /// read.
    pub fn take_expired_artifacts(&mut self, cutoff: Timestamp) -> (result: Result<
        Vec<Artifact>,
        StoreError,
    >)
        requires
            old(self).wf(),
        ensures
            final(self).wf(),
            forall|id: Uuid| #[trigger]
                old(self)@.artifacts.contains_key(id) ==> expires_in_time(old(self)@, id, cutoff@),
            match result {
                Ok(list) => old(self)@.expiry_fault(cutoff@) is None && final(self)@ == old(
                    self,
                )@.without_expired(cutoff@) && artifact_list(list@) == ascending(
                    old(self)@.expired(cutoff@),
                ).map_values(|id: Uuid| old(self)@.file(id)),
                Err(error) => old(self)@.expiry_fault(cutoff@) == Some(error@) && final(self)@
                    == old(self)@,
            },
    {
        let ghost board = self@;
        let limit = cutoff.to_text();
        assert forall|id: Uuid| #[trigger] board.artifacts.contains_key(id) implies expires_in_time(
            board,
            id,
            cutoff@,
        ) by {
            assert(board.has(board.file(id).task_id));
            if is_recent(cutoff@) {
                assert(follows_time(limit@, cutoff@));
            }
        }
        let keys = sorted_keys(&self.artifacts);
        assert(board.artifacts.dom() =~= self.artifacts@.dom());
        let mut expired: Vec<Uuid> = Vec::new();
        let mut list: Vec<Artifact> = Vec::new();
        let mut i: usize = 0;
        let ghost due = |id: Uuid| board.is_expired(id, cutoff@);
        assert(keys@.take(0).filter(due) =~= expired@) by {
            reveal(Seq::filter);
        }
        while i < keys.len()
            invariant
                self.wf(),
                board == self@,
                *self == *old(self),
                keys@.to_set() == board.artifacts.dom(),
                due == (|id: Uuid| board.is_expired(id, cutoff@)),
                limit@ == timestamp_text(cutoff@),
                i <= keys.len(),
                expired@ == keys@.take(i as int).filter(due),
                list@.len() == expired@.len(),
                forall|k: int|
                    0 <= k < list@.len() ==> (#[trigger] list@[k])@ == board.file(expired@[k]),
            decreases keys.len() - i,
        {
            let id: Uuid = keys[i];
            assert(keys@.to_set().contains(id));
            proof {
                assert(keys@.take(i + 1) =~= keys@.take(i as int).push(id));
                keys@.take(i as int).lemma_filter_push(id, due);
            }
            if self.is_expired(id, cutoff, limit.as_str()) {
                expired.push(id);
                list.push(self.artifacts.get(&id).unwrap().artifact.clone());
            }
            i += 1;
        }
        proof {
            assert(keys@.take(keys@.len() as int) =~= keys@);
            assert forall|x: Uuid| #[trigger]
                board.expired(cutoff@).contains(x) <==> keys@.contains(x) && due(x) by {
                assert(keys@.to_set().contains(x) <==> board.artifacts.contains_key(x));
            }
            lemma_ascending_filter(keys@, due, board.expired(cutoff@));
        }
        let ghost flawed = |id: Uuid| artifact_flaw(board.artifacts[id]) is Some;
        i = 0;
        while i < expired.len()
            invariant
                self.wf(),
                board == self@,
                *self == *old(self),
                expired@ == ascending(board.expired(cutoff@)),
                expired@.to_set() == board.expired(cutoff@),
                forall|id: Uuid| #[trigger]
                    board.artifacts.contains_key(id) ==> expires_in_time(board, id, cutoff@),
                flawed == (|id: Uuid| artifact_flaw(board.artifacts[id]) is Some),
                i <= expired.len(),
                forall|k: int| 0 <= k < i ==> !flawed(#[trigger] expired@[k]),
            decreases expired.len() - i,
        {
            let id: Uuid = expired[i];
            assert(board.artifacts.contains_key(id)) by {
                assert(expired@.to_set().contains(id));
                assert(board.expired(cutoff@).contains(id));
            }
            let file = self.artifacts.get(&id).unwrap();
            assert(board.artifacts[id] == file@);
            if let Some(text) = file.flaw() {
                proof {
                    lemma_first_such(expired@, flawed, i as int);
                }
                return Err(StoreError::Internal(text));
            }
            i += 1;
        }
        proof {
            lemma_none_such(expired@, flawed);
        }
        i = 0;
        while i < expired.len()
            invariant
                board == old(self)@,
                self.tasks == old(self).tasks,
                i <= expired.len(),
                self.artifacts@ =~= old(self).artifacts@.remove_keys(
                    expired@.take(i as int).to_set(),
                ),
            decreases expired.len() - i,
        {
            self.artifacts.remove(&expired[i]);
            proof {
                assert(expired@.take(i + 1) =~= expired@.take(i as int).push(expired@[i as int]));
                lemma_to_set_push(expired@.take(i as int), expired@[i as int]);
            }
            i += 1;
        }
        proof {
            assert(expired@.take(expired@.len() as int) =~= expired@);
            assert(expired@.to_set() == board.expired(cutoff@));
            assert(self@ =~= board.without_expired(cutoff@));
            lemma_fewer_artifacts(board, self@);
            assert(artifact_list(list@) =~= ascending(board.expired(cutoff@)).map_values(
                |id: Uuid| old(self)@.file(id),
            ));
        }
        Ok(list)
    }

    /// The identifiers of all artifacts.
    pub fn artifact_ids(&self) -> (result: Result<HashSet<Uuid>, StoreError>)
        ensures
            result matches Ok(ids) && ids@ == self@.artifacts.dom(),
    {
        let keys = sorted_keys(&self.artifacts);
        let mut ids: HashSet<Uuid> = HashSet::new();
        let mut i: usize = 0;
        while i < keys.len()
            invariant
                i <= keys.len(),
                ids@ == keys@.take(i as int).to_set(),
            decreases keys.len() - i,
        {
            ids.insert(keys[i]);
            proof {
                assert(keys@.take(i + 1) =~= keys@.take(i as int).push(keys@[i as int]));
                lemma_to_set_push(keys@.take(i as int), keys@[i as int]);
            }
            i += 1;
        }
        assert(keys@.take(keys@.len() as int) =~= keys@);
        assert(ids@ =~= self@.artifacts.dom());
        Ok(ids)
    }
}

/// Whether a pair is what an artifact of a task is ordered by in its list.
spec fn is_filed_as(board: Board, task_id: Uuid, key: (Seq<char>, Uuid)) -> bool {
    board.owns(task_id, key.1) && key == artifact_key(board.artifacts[key.1])
}

/// Whether an artifact was written by the board, in a year that is not negative.
pub open spec fn has_age(board: Board, id: Uuid) -> bool {
    board.artifacts[id].raw is None && is_recent(board.file(id).created_at)
}

/// Whether artifacts that were written by the board, in years that are not negative,
/// stand in the order of time, and of identifiers at the same time.
pub open spec fn are_listed_by_age(board: Board, list: Seq<ArtifactModel>) -> bool {
    forall|i: int, j: int|
        0 <= i < j < list.len() && has_age(board, list[i].id) && has_age(board, list[j].id) ==> (
        list[i].created_at < list[j].created_at || (list[i].created_at == list[j].created_at
            && list[i].id < list[j].id))
}

/// Whether the text that an artifact is ordered by follows its age.
spec fn tells_age(board: Board, key: (Seq<char>, Uuid)) -> bool {
    has_age(board, key.1) ==> follows_time(key.0, board.file(key.1).created_at)
}

/// Whether an artifact expires in time: where its task was closed by the board, and that
/// time and the given one are in years that are not negative, exactly when its task was
/// closed at or before the given time.
pub open spec fn expires_in_time(board: Board, id: Uuid, cutoff: int) -> bool {
    forall|t: int|
        is_recent(t) && is_recent(cutoff) && board.tasks[board.file(id).task_id].closed_at == Some(
            #[trigger] timestamp_text(t),
        ) && is_closed(board.task(board.file(id).task_id).status) ==> (board.is_expired(id, cutoff)
            <==> t <= cutoff)
}

/// Whether these are what all the artifacts of a task are ordered by, in their order.
spec fn is_filing_order(board: Board, task_id: Uuid, keys: Seq<(Seq<char>, Uuid)>) -> bool {
    &&& in_date_order(keys)
    &&& forall|k: int| 0 <= k < keys.len() ==> is_filed_as(board, task_id, #[trigger] keys[k])
    &&& forall|id: Uuid| #[trigger]
        board.owns(task_id, id) ==> exists|k: int|
            0 <= k < keys.len() && (#[trigger] keys[k]).1 == id
}

/// One artifact of a task is the first that cannot be read.
proof fn lemma_first_illegible(board: Board, task_id: Uuid, id: Uuid)
    requires
        board.read_fault(task_id) is None,
        board.is_first_illegible(task_id, id),
    ensures
        board.artifacts_fault(task_id) == board.artifact_read_fault(task_id, id),
{
    let chosen = choose|id: Uuid| board.is_first_illegible(task_id, id);
    if chosen != id {
        assert(board.is_filed_before(id, chosen));
        assert(board.is_filed_before(chosen, id));
        dates_are_ordered(
            artifact_key(board.artifacts[id]),
            artifact_key(board.artifacts[chosen]),
        );
    }
}

} // verus!
