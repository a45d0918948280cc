//! The board as it is kept: tasks and artifacts by their identifiers, and the
//! operations on them.

pub mod artifacts;
pub mod changes;
pub mod dependencies;
pub mod keeping;
pub mod labels;
pub mod lifecycle;
pub mod loading;
pub mod saving;
pub mod views;

use crate::board::{
    artifact_date, artifact_flaw, task_flaw, Board, FiledModel, RecordModel,
};
use crate::ids::Uuid;
use crate::model::{copy_text, optional_text, Artifact, Task, TaskView};
use crate::rows::{
    copy_artifact_columns, copy_task_columns, file_flaw, parse_timestamp, read_columns, time_field,
    ArtifactColumns, ArtifactColumnsModel, TaskColumns, TaskColumnsModel,
};
use crate::rules::Fault;
use crate::steps::count_fault;
use crate::time::{follows_time, is_recent};
use std::collections::BTreeMap;
use vstd::prelude::*;

pub use crate::rules::StoreError;
pub use keeping::Rows;

verus! {

/// A task with the texts of the times at which it was created, changed and closed. The
/// columns of a task that cannot be read are kept as they are.
#[derive(Debug, PartialEq)]
pub struct Record {
    pub task: Task,
    pub created: String,
    pub updated: String,
    pub closed_at: Option<String>,
    pub raw: Option<TaskColumns>,
}

/// The optional columns of a task, mathematically.
pub open spec fn optional_columns(columns: Option<TaskColumns>) -> Option<TaskColumnsModel> {
    match columns {
        Some(columns) => Some(columns@),
        None => None,
    }
}

impl View for Record {
    type V = RecordModel;

    open spec fn view(&self) -> RecordModel {
        RecordModel {
            task: self.task@,
            created: self.created@,
            updated: self.updated@,
            closed_at: optional_text(self.closed_at),
            raw: optional_columns(self.raw),
        }
    }
}

impl Clone for Record {
    fn clone(&self) -> (result: Self)
        ensures
            result@ == self@,
    {
        Record {
            task: self.task.clone(),
            created: self.created.clone(),
            updated: self.updated.clone(),
            closed_at: copy_text(&self.closed_at),
            raw: match &self.raw {
                Some(columns) => Some(copy_task_columns(columns)),
                None => None,
            },
        }
    }
}

/// An artifact. Columns that are not as an artifact is written are kept as they are.
#[derive(Debug, PartialEq)]
pub struct Filed {
    pub artifact: Artifact,
    pub raw: Option<ArtifactColumns>,
}

/// The optional columns of an artifact, mathematically.
pub open spec fn optional_file(columns: Option<ArtifactColumns>) -> Option<ArtifactColumnsModel> {
    match columns {
        Some(columns) => Some(columns@),
        None => None,
    }
}

impl View for Filed {
    type V = FiledModel;

    open spec fn view(&self) -> FiledModel {
        FiledModel { artifact: self.artifact@, raw: optional_file(self.raw) }
    }
}

impl Clone for Filed {
    fn clone(&self) -> (result: Self)
        ensures
            result@ == self@,
    {
        Filed {
            artifact: self.artifact.clone(),
            raw: match &self.raw {
                Some(columns) => Some(copy_artifact_columns(columns)),
                None => None,
            },
        }
    }
}

impl Filed {
    /// Why the artifact cannot be read, where it cannot.
    pub fn flaw(&self) -> (flaw: Option<String>)
        ensures
            optional_text(flaw) == artifact_flaw(self@),
    {
        match &self.raw {
            Some(columns) => file_flaw(columns),
            None => None,
        }
    }

    /// The text of the time at which the artifact was added.
    pub fn date(&self) -> (text: String)
        ensures
            text@ == artifact_date(self@),
            self@.raw is None && is_recent(self@.artifact.created_at) ==> follows_time(
                text@,
                self@.artifact.created_at,
            ),
    {
        match &self.raw {
            Some(columns) => columns.created_at.clone(),
            None => self.artifact.created_at.to_text(),
        }
    }
}

impl Record {
    /// Why the task cannot be read, where it cannot.
    pub fn flaw(&self) -> (flaw: Option<String>)
        ensures
            optional_text(flaw) == task_flaw(self@),
    {
        match &self.raw {
            Some(columns) => read_columns(self.task.id, columns).1,
            None => None,
        }
    }
}

impl Record {
    /// Whether the time at which the task was created cannot be read.
    fn is_undated(&self) -> (undated: bool)
        ensures
            undated == (self@.raw matches Some(columns) && time_field(8, columns.created_at)
                is Err),
    {
        match &self.raw {
            Some(columns) => parse_timestamp(8, columns.created_at.as_str()).is_err(),
            None => false,
        }
    }

    /// Whether one more change of the task can be counted.
    fn can_count(&self) -> (countable: bool)
        ensures
            countable == (count_fault(self@) is None),
    {
        match &self.raw {
            Some(columns) => columns.version < i64::MAX,
            None => self.task.version < i64::MAX as u64,
        }
    }
}

/// A table of tasks, mathematically.
pub open spec fn record_models(table: Map<Uuid, Record>) -> Map<Uuid, RecordModel> {
    table.map_values(|record: Record| record@)
}

/// A table of artifacts, mathematically.
pub open spec fn artifact_models(table: Map<Uuid, Filed>) -> Map<Uuid, FiledModel> {
    table.map_values(|file: Filed| file@)
}

/// The tasks and artifacts of a board.
#[derive(Debug)]
pub struct Store {
    tasks: BTreeMap<Uuid, Record>,
    artifacts: BTreeMap<Uuid, Filed>,
}

impl View for Store {
    type V = Board;

    closed spec fn view(&self) -> Board {
        Board { tasks: record_models(self.tasks@), artifacts: artifact_models(self.artifacts@) }
    }
}

/// Whether an operation on one task was refused for the given reason and changed
/// nothing, or left the given board and answered with the task on it.
pub open spec fn answers(
    result: Result<TaskView, StoreError>,
    before: Board,
    after: Board,
    fault: Option<Fault>,
    target: Board,
    id: Uuid,
) -> bool {
    match result {
        Ok(view) => fault is None && after == target && view@ == target.view_of(id),
        Err(error) => fault == Some(error@) && after == before,
    }
}

impl Store {
    /// Whether the board is valid.
    pub open spec fn wf(&self) -> bool {
        self@.valid()
    }

    /// A board that holds nothing.
    pub fn in_memory() -> (store: Store)
        ensures
            store.wf(),
            store@ == Board::empty(),
    {
        let store = Store {
            tasks: BTreeMap::new(),
            artifacts: BTreeMap::new(),
        };
        assert(store@ =~= Board::empty());
        store
    }

    /// A task with the texts of its times, where it exists.
    pub fn record(&self, id: Uuid) -> (result: Option<&Record>)
        ensures
            match result {
                Some(record) => self@.has(id) && record@ == self@.tasks[id],
                None => !self@.has(id),
            },
    {
        self.tasks.get(&id)
    }

    /// A task that exists and can be read, with the texts of its times.
    fn read_record(&self, id: Uuid) -> (result: Result<&Record, StoreError>)
        ensures
            match result {
                Ok(record) => self@.read_fault(id) is None && record@ == self@.tasks[id],
                Err(error) => self@.read_fault(id) == Some(error@),
            },
    {
        match self.tasks.get(&id) {
            None => Err(StoreError::NotFound),
            Some(record) => match record.flaw() {
                Some(text) => Err(StoreError::Internal(text)),
                None => Ok(record),
            },
        }
    }
}

} // verus!
