//! Creating, changing and deleting tasks.

use super::{answers, Record, Store, StoreError};
use crate::board::{Board, RecordModel};
use crate::ids::{
    deduplicate, first_seen_keeps_each_once, increasing, join_ids, random_uuid, repeats_of_values,
    uuid_digit, Uuid,
};
use crate::model::{CreateTask, Patch, PatchTask, Status, Task, TaskView};
use crate::rules::{
    joined, normalized_names_are_distinct, reports, validate_requirements, validate_title,
};
use crate::steps::{touched, version_fault};
use crate::tables::sorted_keys;
use crate::time::{in_range, timestamp_text, Timestamp};
use crate::validity::{lemma_deleted_valid, lemma_sound_dependencies, lemma_with_valid};
use vstd::prelude::*;

verus! {

/// Counts a change of a task, at the given time.
pub(super) fn touch(record: &mut Record, now: Timestamp) -> (result: Result<(), StoreError>)
    ensures
        reports(result, version_fault(old(record)@.task)),
        match result {
            Ok(_) => final(record)@ == (RecordModel {
                task: touched(old(record)@.task, now@),
                updated: timestamp_text(now@),
                ..old(record)@
            }),
            Err(_) => *final(record) == *old(record),
        },
{
    if record.task.version >= i64::MAX as u64 {
        return Err(StoreError::Internal(joined("task version", " exceeds SQLite integer range")));
    }
    record.task.updated_at = now;
    record.task.version = record.task.version + 1;
    record.updated = now.to_text();
    Ok(())
}

impl Store {
    /// Replaces or adds a task.
    pub(super) fn put(&mut self, id: Uuid, record: Record)
        requires
            old(self).wf(),
            old(self)@.valid_record(id, record@),
        ensures
            final(self).wf(),
            final(self)@ == old(self)@.with(id, record@),
    {
        proof {
            lemma_with_valid(self@, id, record@);
        }
        self.tasks.insert(id, record);
        assert(self@ =~= old(self)@.with(id, record@));
    }

    /// Creates a task with the given identifier at the given time.
    pub fn create_at(&mut self, id: Uuid, request: CreateTask, now: Timestamp) -> (result: Result<
        TaskView,
        StoreError,
    >)
        requires
            old(self).wf(),
        ensures
            final(self).wf(),
            answers(
                result,
                old(self)@,
                final(self)@,
                old(self)@.create_fault(id, request@),
                old(self)@.created(id, request@, now@),
                id,
            ),
            result matches Ok(view) ==> view.task.title@ == request.title@
                && view.task.description@ == request.description@ && view.task.priority
                == request.priority && view.task.metadata == request.metadata && view.task.status
                == Status::Todo,
    {
        if let Err(error) = validate_title(request.title.as_str()) {
            return Err(error);
        }
        let list = match validate_requirements(request.requires) {
            Ok(list) => list,
            Err(error) => {
                return Err(error);
            },
        };
        proof {
            repeats_of_values(request.depends_on@);
        }
        let depends_on = deduplicate(request.depends_on);
        if let Err(error) = self.validate_dependencies(id, &depends_on) {
            return Err(error);
        }
        if let Err(error) = self.validate_cycle(id, &depends_on) {
            return Err(error);
        }
        if self.tasks.contains_key(&id) {
            return Err(StoreError::Internal("UNIQUE constraint failed: tasks.id".to_owned()));
        }
        proof {
            lemma_sound_dependencies(self@, id, depends_on@);
            first_seen_keeps_each_once(request@.depends_on);
            normalized_names_are_distinct(request@.requires);
        }
        let record = Record {
            task: Task {
                id,
                title: request.title,
                description: request.description,
                status: Status::Todo,
                priority: request.priority,
                requires: list,
                depends_on,
                metadata: request.metadata,
                claimed_by: None,
                result: None,
                created_at: now,
                updated_at: now,
                version: 1,
            },
            created: now.to_text(),
            updated: now.to_text(),
            closed_at: None,
            raw: None,
        };
        self.put(id, record);
        Ok(self.task_view(id))
    }

    /// Creates a task now, with a new identifier.
    pub fn create(&mut self, request: CreateTask) -> (result: Result<TaskView, StoreError>)
        requires
            old(self).wf(),
        ensures
            final(self).wf(),
            exists|id: Uuid, now: int|
                in_range(now) && uuid_digit(id, 12) == 4 && 8 <= uuid_digit(id, 16) <= 11
                    && #[trigger] answers(
                    result,
                    old(self)@,
                    final(self)@,
                    old(self)@.create_fault(id, request@),
                    old(self)@.created(id, request@, now),
                    id,
                ),
            result matches Ok(view) ==> view.task.title@ == request.title@
                && view.task.description@ == request.description@ && view.task.priority
                == request.priority && view.task.metadata == request.metadata && view.task.status
                == Status::Todo,
    {
        let id: Uuid = random_uuid();
        let now = Timestamp::now();
        self.create_at(id, request, now)
    }

    /// Replaces the fields of a task that a change holds, at the given time.
    pub fn patch_at(&mut self, id: Uuid, patch: PatchTask, now: Timestamp) -> (result: Result<
        TaskView,
        StoreError,
    >)
        requires
            old(self).wf(),
        ensures
            final(self).wf(),
            answers(
                result,
                old(self)@,
                final(self)@,
                old(self)@.patch_fault(id, patch@),
                old(self)@.patched(id, patch@, now@),
                id,
            ),
            result matches Ok(view) ==> {
                &&& patch.title matches Patch::Present(title) ==> view.task.title@ == title@
                &&& patch.description matches Patch::Present(description)
                    ==> view.task.description@ == description@
                &&& patch.priority matches Patch::Present(priority) ==> view.task.priority
                    == priority
                &&& patch.metadata matches Patch::Present(metadata) ==> view.task.metadata
                    == metadata
            },
    {
        let ghost changes = patch@;
        let mut record = match self.read_record(id) {
            Ok(record) => record.clone(),
            Err(error) => {
                return Err(error);
            },
        };
        let PatchTask { title, description, priority, requires: inputs, depends_on, metadata } =
            patch;
        if let Patch::Present(title) = &title {
            if let Err(error) = validate_title(title.as_str()) {
                return Err(error);
            }
        }
        if let Patch::Present(dependencies) = depends_on {
            proof {
                repeats_of_values(dependencies@);
            }
            let dependencies = deduplicate(dependencies);
            if let Err(error) = self.validate_dependencies(id, &dependencies) {
                return Err(error);
            }
            if let Err(error) = self.validate_cycle(id, &dependencies) {
                return Err(error);
            }
            proof {
                lemma_sound_dependencies(self@, id, dependencies@);
                first_seen_keeps_each_once(changes.depends_on->0);
            }
            record.task.depends_on = dependencies;
        }
        if let Patch::Present(title) = title {
            record.task.title = title;
        }
        if let Patch::Present(description) = description {
            record.task.description = description;
        }
        if let Patch::Present(priority) = priority {
            record.task.priority = priority;
        }
        if let Patch::Present(inputs) = inputs {
            match validate_requirements(inputs) {
                Ok(list) => {
                    proof {
                        normalized_names_are_distinct(changes.requires->0);
                    }
                    record.task.requires = list;
                },
                Err(error) => {
                    return Err(error);
                },
            }
        }
        if let Patch::Present(metadata) = metadata {
            record.task.metadata = metadata;
        }
        assert(record.task@ == Board::patched_task(self@.task(id), changes));
        if let Err(error) = touch(&mut record, now) {
            return Err(error);
        }
        self.put(id, record);
        Ok(self.task_view(id))
    }

    /// Replaces the fields of a task that a change holds, now.
    pub fn patch(&mut self, id: Uuid, patch: PatchTask) -> (result: Result<TaskView, StoreError>)
        requires
            old(self).wf(),
        ensures
            final(self).wf(),
            exists|now: int|
                in_range(now) && #[trigger] answers(
                    result,
                    old(self)@,
                    final(self)@,
                    old(self)@.patch_fault(id, patch@),
                    old(self)@.patched(id, patch@, now),
                    id,
                ),
            result matches Ok(view) ==> {
                &&& patch.title matches Patch::Present(title) ==> view.task.title@ == title@
                &&& patch.description matches Patch::Present(description)
                    ==> view.task.description@ == description@
                &&& patch.priority matches Patch::Present(priority) ==> view.task.priority
                    == priority
                &&& patch.metadata matches Patch::Present(metadata) ==> view.task.metadata
                    == metadata
            },
    {
        let now = Timestamp::now();
        self.patch_at(id, patch, now)
    }

    /// Deletes a task that no other depends on, with its artifacts.
    pub fn delete(&mut self, id: Uuid) -> (result: Result<(), StoreError>)
        requires
            old(self).wf(),
        ensures
            final(self).wf(),
            reports(result, old(self)@.delete_fault(id)),
            match result {
                Ok(_) => final(self)@ == old(self)@.deleted(id),
                Err(_) => final(self)@ == old(self)@,
            },
    {
        if let Err(error) = self.read_record(id) {
            return Err(error);
        }
        let dependents = self.dependent_ids(id);
        if dependents.len() > 0 {
            return Err(
                StoreError::Conflict(
                    joined("task has dependents: ", join_ids(&dependents).as_str()),
                ),
            );
        }
        proof {
            lemma_deleted_valid(self@, id);
        }
        self.tasks.remove(&id);
        let keys = sorted_keys(&self.artifacts);
        let ghost kept = old(self).artifacts@;
        let mut i: usize = 0;
        while i < keys.len()
            invariant
                keys@.to_set() == kept.dom(),
                increasing(keys@),
                self.tasks@ == old(self).tasks@.remove(id),
                kept == old(self).artifacts@,
                i <= keys.len(),
                self.artifacts@.dom() =~= kept.dom().difference(
                    Set::new(
                        |a: Uuid|
                            kept.contains_key(a) && kept[a].artifact.task_id == id
                                && keys@.take(i as int).contains(a),
                    ),
                ),
                forall|a: Uuid| #[trigger]
                    self.artifacts@.contains_key(a) ==> self.artifacts@[a] == kept[a],
            decreases keys.len() - i,
        {
            let key: Uuid = keys[i];
            let ghost done = keys@.take(i as int);
            let ghost more = keys@.take(i + 1);
            assert(keys@.to_set().contains(key));
            assert(kept.contains_key(key));
            assert(!done.contains(key)) by {
                if done.contains(key) {
                    let k = choose|k: int| 0 <= k < done.len() && done[k] == key;
                    assert(keys@[k] < keys@[i as int]);
                }
            }
            assert(self.artifacts@.contains_key(key));
            assert forall|a: Uuid| more.contains(a) <==> done.contains(a) || a == key by {
                assert(more =~= done.push(key));
                if done.contains(a) {
                    let k = choose|k: int| 0 <= k < done.len() && done[k] == a;
                    assert(more[k] == a);
                }
                assert(more[i as int] == key);
            }
            if self.artifacts.get(&key).unwrap().artifact.task_id == id {
                self.artifacts.remove(&key);
            }
            i += 1;
        }
        proof {
            assert(keys@.take(keys@.len() as int) =~= keys@);
            assert forall|a: Uuid| keys@.contains(a) <==> kept.contains_key(a) by {
                assert(keys@.to_set().contains(a) <==> kept.dom().contains(a));
            }
            assert(self@.artifacts =~= old(self)@.deleted(id).artifacts);
            assert(self@.tasks =~= old(self)@.deleted(id).tasks);
        }
        Ok(())
    }
}

} // verus!
