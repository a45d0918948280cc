//! What every operation does to the board, mathematically: when it is refused,
//! and the board that it leaves.

use crate::board::{
    artifact_flaw, explanation, is_open, task_flaw, Board, FiledModel, RecordModel,
};
use crate::ids::{ascending, first_seen, first_such, joined_ids, uuid_text, Uuid};
use crate::model::{
    ArtifactModel, CreateModel, PatchModel, RequirementModel, Status, TaskModel,
};
use crate::rows::{columns_error, version_of, TaskColumnsModel};
use crate::rules::{
    action_fault, content_type_fault, description_fault, filename_fault, integer_fault, name_fault,
    normalized, owner_fault, requirements_fault, status_word, tidy_description, title_fault, Fault,
};
use crate::text::trimmed;
use crate::time::timestamp_text;
use serde_json::Value;
use vstd::prelude::*;

verus! {

/// What the owner of a task can do with it.
#[derive(Clone, Copy, Debug, PartialEq, Eq, Structural)]
pub enum OwnedAction {
    Release,
    Complete,
    Fail,
}

/// The word for an action.
pub open spec fn action_word(action: OwnedAction) -> Seq<char> {
    match action {
        OwnedAction::Release => "release"@,
        OwnedAction::Complete => "complete"@,
        OwnedAction::Fail => "fail"@,
    }
}

/// The status in which an action leaves a task.
pub open spec fn action_status(action: OwnedAction) -> Status {
    match action {
        OwnedAction::Release => Status::Todo,
        OwnedAction::Complete => Status::Done,
        OwnedAction::Fail => Status::Failed,
    }
}

/// A task that was changed at the given time.
pub open spec fn touched(task: TaskModel, now: int) -> TaskModel {
    TaskModel { updated_at: now, version: (task.version + 1) as u64, ..task }
}

/// The columns of a task that was changed at the given time.
pub open spec fn touched_columns(columns: TaskColumnsModel, now: int) -> TaskColumnsModel {
    TaskColumnsModel {
        updated_at: timestamp_text(now),
        version: (columns.version + 1) as i64,
        ..columns
    }
}

/// The version of a task as it is stored.
pub open spec fn stored_version(record: RecordModel) -> int {
    match record.raw {
        Some(columns) => columns.version as int,
        None => record.task.version as int,
    }
}

/// The refusal of a change beyond the last version.
pub open spec fn version_fault(task: TaskModel) -> Option<Fault> {
    integer_fault(task.version + 1, "task version"@)
}

/// The requirements with a new explanation for the given name.
pub open spec fn reworded(
    list: Seq<RequirementModel>,
    name: Seq<char>,
    description: Option<Seq<char>>,
) -> Seq<RequirementModel> {
    list.map_values(
        |requirement: RequirementModel|
            if requirement.name == name {
                RequirementModel { name, description }
            } else {
                requirement
            },
    )
}

/// The refusal of a change beyond the last stored version.
pub open spec fn count_fault(record: RecordModel) -> Option<Fault> {
    integer_fault(stored_version(record) + 1, "task version"@)
}

/// An artifact as it is stored.
pub open spec fn stored_artifact(artifact: ArtifactModel) -> ArtifactModel {
    ArtifactModel { filename: trimmed(artifact.filename), ..artifact }
}

impl Board {
    /// Why a task is not read.
    pub open spec fn read_fault(self, id: Uuid) -> Option<Fault> {
        if !self.has(id) {
            Some(Fault::NotFound)
        } else {
            match task_flaw(self.tasks[id]) {
                Some(text) => Some(Fault::Internal(text)),
                None => None,
            }
        }
    }

    /// Why the tasks are not listed.
    pub open spec fn list_fault(self) -> Option<Fault> {
        if exists|id: Uuid| self.is_first_flawed(id) {
            self.read_fault(choose|id: Uuid| self.is_first_flawed(id))
        } else {
            None
        }
    }

    /// Why an artifact of a task is not read.
    pub open spec fn artifact_read_fault(self, task_id: Uuid, id: Uuid) -> Option<Fault> {
        if !self.owns(task_id, id) {
            Some(Fault::NotFound)
        } else {
            match artifact_flaw(self.artifacts[id]) {
                Some(text) => Some(Fault::Internal(text)),
                None => None,
            }
        }
    }

    /// Why the artifacts of a task are not listed: the first of them that cannot be read.
    pub open spec fn artifacts_fault(self, task_id: Uuid) -> Option<Fault> {
        if self.read_fault(task_id) is Some {
            self.read_fault(task_id)
        } else if exists|id: Uuid| self.is_first_illegible(task_id, id) {
            self.artifact_read_fault(
                task_id,
                choose|id: Uuid| self.is_first_illegible(task_id, id),
            )
        } else {
            None
        }
    }

    /// Why the artifacts of closed tasks do not expire.
    pub open spec fn expiry_fault(self, cutoff: int) -> Option<Fault> {
        match first_such(
            ascending(self.expired(cutoff)),
            |id: Uuid| artifact_flaw(self.artifacts[id]) is Some,
        ) {
            Some(id) => Some(Fault::Internal(artifact_flaw(self.artifacts[id])->0)),
            None => None,
        }
    }

    /// Why a task may not have these dependencies.
    pub open spec fn dependency_fault(self, id: Uuid, dependencies: Seq<Uuid>) -> Option<Fault> {
        match self.existence_fault(id, dependencies) {
            Some(fault) => Some(fault),
            None => self.cycle_fault(id, dependencies),
        }
    }

    /// The refusal of a dependency on itself or on what does not exist.
    pub open spec fn existence_fault(self, id: Uuid, dependencies: Seq<Uuid>) -> Option<Fault> {
        if dependencies.contains(id) {
            Some(Fault::Invalid("task cannot depend on itself: "@ + uuid_text(id)))
        } else {
            match first_such(dependencies, |d: Uuid| !self.has(d)) {
                Some(d) => Some(Fault::Invalid("dependency does not exist: "@ + uuid_text(d))),
                None => None,
            }
        }
    }

    /// The refusal of a dependency that leads back to the task.
    pub open spec fn cycle_fault(self, id: Uuid, dependencies: Seq<Uuid>) -> Option<Fault> {
        match first_such(dependencies, |d: Uuid| self.reaches(d, id)) {
            Some(d) => Some(
                Fault::Conflict(
                    "dependency cycle involving: "@ + uuid_text(id) + ", "@ + uuid_text(d),
                ),
            ),
            None => None,
        }
    }

    /// Why a task may not be created.
    pub open spec fn create_fault(self, id: Uuid, request: CreateModel) -> Option<Fault> {
        if title_fault(request.title) is Some {
            title_fault(request.title)
        } else if requirements_fault(request.requires) is Some {
            requirements_fault(request.requires)
        } else if self.dependency_fault(id, first_seen(request.depends_on)) is Some {
            self.dependency_fault(id, first_seen(request.depends_on))
        } else if self.has(id) {
            Some(Fault::Internal("UNIQUE constraint failed: tasks.id"@))
        } else {
            None
        }
    }

    /// The board with a task created.
    pub open spec fn created(self, id: Uuid, request: CreateModel, now: int) -> Board {
        self.with(
            id,
            RecordModel {
                task: TaskModel {
                    id,
                    title: request.title,
                    description: request.description,
                    status: Status::Todo,
                    priority: request.priority,
                    requires: normalized(request.requires),
                    depends_on: first_seen(request.depends_on),
                    metadata: request.metadata,
                    claimed_by: None,
                    result: None,
                    created_at: now,
                    updated_at: now,
                    version: 1,
                },
                created: timestamp_text(now),
                updated: timestamp_text(now),
                closed_at: None,
                raw: None,
            },
        )
    }

    /// Why a task may not be changed.
    pub open spec fn patch_fault(self, id: Uuid, patch: PatchModel) -> Option<Fault> {
        if self.read_fault(id) is Some {
            self.read_fault(id)
        } else if patch.title matches Some(title) && title_fault(title) is Some {
            title_fault(patch.title->0)
        } else if patch.depends_on matches Some(dependencies) && self.dependency_fault(
            id,
            first_seen(dependencies),
        ) is Some {
            self.dependency_fault(id, first_seen(patch.depends_on->0))
        } else if patch.requires matches Some(inputs) && requirements_fault(inputs) is Some {
            requirements_fault(patch.requires->0)
        } else {
            version_fault(self.task(id))
        }
    }

    /// A task with the fields replaced that a change holds.
    pub open spec fn patched_task(task: TaskModel, patch: PatchModel) -> TaskModel {
        TaskModel {
            title: if patch.title is Some {
                patch.title->0
            } else {
                task.title
            },
            description: if patch.description is Some {
                patch.description->0
            } else {
                task.description
            },
            priority: if patch.priority is Some {
                patch.priority->0
            } else {
                task.priority
            },
            requires: if patch.requires is Some {
                normalized(patch.requires->0)
            } else {
                task.requires
            },
            depends_on: if patch.depends_on is Some {
                first_seen(patch.depends_on->0)
            } else {
                task.depends_on
            },
            metadata: if patch.metadata is Some {
                patch.metadata->0
            } else {
                task.metadata
            },
            ..task
        }
    }

    /// The board with a task changed.
    pub open spec fn patched(self, id: Uuid, patch: PatchModel, now: int) -> Board {
        self.with(
            id,
            RecordModel {
                task: touched(Board::patched_task(self.task(id), patch), now),
                updated: timestamp_text(now),
                ..self.tasks[id]
            },
        )
    }

    /// Why a task may not be deleted.
    pub open spec fn delete_fault(self, id: Uuid) -> Option<Fault> {
        if self.read_fault(id) is Some {
            self.read_fault(id)
        } else if self.dependents(id).len() > 0 {
            Some(Fault::Conflict("task has dependents: "@ + joined_ids(self.dependents(id))))
        } else {
            None
        }
    }

    /// The board without a task and its artifacts.
    pub open spec fn deleted(self, id: Uuid) -> Board {
        Board {
            tasks: self.tasks.remove(id),
            artifacts: self.artifacts.remove_keys(Set::new(|a: Uuid| self.owns(id, a))),
        }
    }

    /// Why a task may not be claimed.
    pub open spec fn claim_fault(self, id: Uuid) -> Option<Fault> {
        if self.read_fault(id) is Some {
            self.read_fault(id)
        } else if self.task(id).status != Status::Todo {
            Some(action_fault("claim"@, self.task(id).status))
        } else if self.blocked_by(id).len() > 0 {
            Some(Fault::Conflict("task is blocked by: "@ + joined_ids(self.blocked_by(id))))
        } else {
            version_fault(self.task(id))
        }
    }

    /// The board with a task claimed.
    pub open spec fn claimed(self, id: Uuid, agent: Seq<char>, now: int) -> Board {
        let task = self.task(id);
        self.with(
            id,
            RecordModel {
                task: touched(
                    TaskModel { status: Status::InProgress, claimed_by: Some(agent), ..task },
                    now,
                ),
                updated: timestamp_text(now),
                ..self.tasks[id]
            },
        )
    }

    /// Why an agent may not release, complete or fail a task.
    pub open spec fn transition_fault(
        self,
        id: Uuid,
        agent: Seq<char>,
        action: OwnedAction,
    ) -> Option<Fault> {
        if self.read_fault(id) is Some {
            self.read_fault(id)
        } else if self.task(id).status != Status::InProgress {
            Some(action_fault(action_word(action), self.task(id).status))
        } else if self.task(id).claimed_by != Some(agent) {
            Some(owner_fault(agent))
        } else {
            version_fault(self.task(id))
        }
    }

    /// The board with a task released, completed or failed.
    pub open spec fn transitioned(
        self,
        id: Uuid,
        action: OwnedAction,
        result: Option<Value>,
        now: int,
    ) -> Board {
        let task = self.task(id);
        self.with(
            id,
            RecordModel {
                task: touched(
                    TaskModel {
                        status: action_status(action),
                        claimed_by: if action == OwnedAction::Release {
                            None
                        } else {
                            task.claimed_by
                        },
                        result: if action == OwnedAction::Release {
                            task.result
                        } else {
                            result
                        },
                        ..task
                    },
                    now,
                ),
                updated: timestamp_text(now),
                closed_at: if action == OwnedAction::Complete {
                    Some(timestamp_text(now))
                } else {
                    self.tasks[id].closed_at
                },
                ..self.tasks[id]
            },
        )
    }

    /// Why a task may not be cancelled.
    pub open spec fn cancel_fault(self, id: Uuid) -> Option<Fault> {
        if self.read_fault(id) is Some {
            self.read_fault(id)
        } else if !is_open(self.task(id).status) {
            Some(action_fault("cancel"@, self.task(id).status))
        } else {
            version_fault(self.task(id))
        }
    }

    /// The board with a task cancelled.
    pub open spec fn cancelled(self, id: Uuid, now: int) -> Board {
        let task = self.task(id);
        self.with(
            id,
            RecordModel {
                task: touched(
                    TaskModel { status: Status::Cancelled, claimed_by: None, ..task },
                    now,
                ),
                updated: timestamp_text(now),
                closed_at: Some(timestamp_text(now)),
                ..self.tasks[id]
            },
        )
    }

    /// Why a task may not be tried again.
    pub open spec fn retry_fault(self, id: Uuid) -> Option<Fault> {
        if self.read_fault(id) is Some {
            self.read_fault(id)
        } else if self.task(id).status != Status::Failed && self.task(id).status
            != Status::Cancelled {
            Some(action_fault("retry"@, self.task(id).status))
        } else {
            version_fault(self.task(id))
        }
    }

    /// The board with a task to be tried again.
    pub open spec fn retried(self, id: Uuid, now: int) -> Board {
        let task = self.task(id);
        self.with(
            id,
            RecordModel {
                task: touched(
                    TaskModel { status: Status::Todo, claimed_by: None, result: None, ..task },
                    now,
                ),
                updated: timestamp_text(now),
                closed_at: None,
                ..self.tasks[id]
            },
        )
    }

    /// Whether a new explanation of a label changes a task.
    pub open spec fn is_reworded(
        self,
        id: Uuid,
        name: Seq<char>,
        description: Option<Seq<char>>,
    ) -> bool {
        self.carries(id, name) && explanation(self.task(id).requires, name) != description
    }

    /// Why a label may not be given an explanation.
    pub open spec fn relabel_fault(self, name: Seq<char>, description: Option<Seq<char>>) -> Option<
        Fault,
    > {
        if name_fault(trimmed(name), "label"@) is Some {
            name_fault(trimmed(name), "label"@)
        } else if description_fault(description) is Some {
            description_fault(description)
        } else if !self.in_use(trimmed(name)) {
            Some(Fault::NotFound)
        } else if exists|id: Uuid|
            #[trigger] self.is_reworded(id, trimmed(name), tidy_description(description))
                && count_fault(self.tasks[id]) is Some {
            Some(Fault::Internal("task version exceeds SQLite integer range"@))
        } else {
            None
        }
    }

    /// A task as a new explanation of a label leaves it.
    pub open spec fn reworded_record(
        self,
        id: Uuid,
        name: Seq<char>,
        description: Option<Seq<char>>,
        now: int,
    ) -> RecordModel {
        if self.is_reworded(id, name, description) {
            let record = self.tasks[id];
            let task = TaskModel {
                requires: reworded(record.task.requires, name, description),
                ..record.task
            };
            match record.raw {
                None => RecordModel {
                    task: touched(task, now),
                    updated: timestamp_text(now),
                    ..record
                },
                Some(columns) => {
                    let columns = touched_columns(columns, now);
                    RecordModel {
                        task: TaskModel {
                            updated_at: now,
                            version: version_of(columns.version),
                            ..task
                        },
                        updated: timestamp_text(now),
                        raw: if columns_error(columns) is Some {
                            Some(columns)
                        } else {
                            None
                        },
                        ..record
                    }
                },
            }
        } else {
            self.tasks[id]
        }
    }

    /// The board with a new explanation of a label on every open task that
    /// carries it.
    pub open spec fn relabelled(
        self,
        name: Seq<char>,
        description: Option<Seq<char>>,
        now: int,
    ) -> Board {
        Board {
            tasks: Map::new(
                |id: Uuid| self.has(id),
                |id: Uuid|
                    self.reworded_record(id, trimmed(name), tidy_description(description), now),
            ),
            ..self
        }
    }

    /// Why an agent may not add an artifact with these descriptions.
    pub open spec fn upload_fault(
        self,
        task_id: Uuid,
        agent: Seq<char>,
        filename: Seq<char>,
        content_type: Seq<char>,
    ) -> Option<Fault> {
        if self.ownership_fault(task_id, agent) is Some {
            self.ownership_fault(task_id, agent)
        } else if filename_fault(trimmed(filename)) is Some {
            filename_fault(trimmed(filename))
        } else {
            content_type_fault(content_type)
        }
    }

    /// Why an agent may not add artifacts to a task.
    pub open spec fn ownership_fault(self, task_id: Uuid, agent: Seq<char>) -> Option<Fault> {
        if self.read_fault(task_id) is Some {
            self.read_fault(task_id)
        } else if self.task(task_id).status != Status::InProgress {
            Some(
                Fault::Conflict(
                    "cannot add an artifact to a task in status "@ + status_word(
                        self.task(task_id).status,
                    ),
                ),
            )
        } else if self.task(task_id).claimed_by != Some(agent) {
            Some(owner_fault(agent))
        } else {
            None
        }
    }

    /// Why an artifact may not be added.
    pub open spec fn artifact_fault(self, agent: Seq<char>, artifact: ArtifactModel) -> Option<
        Fault,
    > {
        let upload_fault = self.upload_fault(
            artifact.task_id,
            agent,
            artifact.filename,
            artifact.content_type,
        );
        if upload_fault is Some {
            upload_fault
        } else if integer_fault(artifact.size_bytes as int, "artifact size"@) is Some {
            integer_fault(artifact.size_bytes as int, "artifact size"@)
        } else if self.artifacts.contains_key(artifact.id) {
            Some(Fault::Internal("UNIQUE constraint failed: artifacts.id"@))
        } else {
            None
        }
    }

    /// The board with an artifact added.
    pub open spec fn with_artifact(self, artifact: ArtifactModel) -> Board {
        Board {
            artifacts: self.artifacts.insert(
                artifact.id,
                FiledModel { artifact: stored_artifact(artifact), raw: None },
            ),
            ..self
        }
    }

    /// The board without an artifact.
    pub open spec fn without_artifact(self, id: Uuid) -> Board {
        Board { artifacts: self.artifacts.remove(id), ..self }
    }

    /// The board without the artifacts whose tasks were closed at or before the
    /// given time.
    pub open spec fn without_expired(self, cutoff: int) -> Board {
        Board { artifacts: self.artifacts.remove_keys(self.expired(cutoff)), ..self }
    }
}

} // verus!
