//! The board, mathematically: its tasks and artifacts, and what follows from
//! them for a single task, a label or the whole list.

use crate::dates::dated_before;
use crate::ids::{ascending, Uuid};
use crate::model::{
    ArtifactModel, LabelModel, RequirementModel, Status, TaskModel, TaskViewModel,
};
use crate::rows::{
    columns_error, file_error, time_field, ArtifactColumnsModel, TaskColumnsModel,
};
use crate::rules::distinct_names;
use crate::text::precedes;
use crate::time::timestamp_text;
use vstd::prelude::*;

verus! {

/// A task with the texts of the times at which it was created, changed and closed. The
/// columns of a task that cannot be read are kept as they are.
pub struct RecordModel {
    pub task: TaskModel,
    pub created: Seq<char>,
    pub updated: Seq<char>,
    pub closed_at: Option<Seq<char>>,
    pub raw: Option<TaskColumnsModel>,
}

/// An artifact. Columns that are not as an artifact is written are kept as they are.
pub struct FiledModel {
    pub artifact: ArtifactModel,
    pub raw: Option<ArtifactColumnsModel>,
}

/// The tasks and the artifacts, by their identifiers.
#[verifier::ext_equal]
pub struct Board {
    pub tasks: Map<Uuid, RecordModel>,
    pub artifacts: Map<Uuid, FiledModel>,
}

/// Whether a task comes before another in lists and in claims: the higher
/// priority first, then the older, then the lower identifier.
pub open spec fn ranks_before(a: TaskModel, b: TaskModel) -> bool {
    a.priority > b.priority || (a.priority == b.priority && (a.created_at < b.created_at || (
    a.created_at == b.created_at && a.id < b.id)))
}

/// Whether a task in this status still counts for its labels.
pub open spec fn is_open(status: Status) -> bool {
    status == Status::Todo || status == Status::InProgress || status == Status::Failed
}

/// Whether a task in this status has come to its end.
pub open spec fn is_closed(status: Status) -> bool {
    status == Status::Done || status == Status::Cancelled
}

/// Whether one of the requirements has the given name.
pub open spec fn asks_for(list: Seq<RequirementModel>, name: Seq<char>) -> bool {
    exists|i: int| 0 <= i < list.len() && (#[trigger] list[i]).name == name
}

/// The explanation that the requirements hold for the given name.
pub open spec fn explanation(list: Seq<RequirementModel>, name: Seq<char>) -> Option<
    Seq<char>,
> {
    let i = choose|i: int| 0 <= i < list.len() && (#[trigger] list[i]).name == name;
    list[i].description
}

/// The text of the time at which an artifact was added.
pub open spec fn artifact_date(file: FiledModel) -> Seq<char> {
    match file.raw {
        Some(columns) => columns.created_at,
        None => timestamp_text(file.artifact.created_at),
    }
}

/// What an artifact is ordered by in the list of its task: the text of the time at
/// which it was added, then the identifier.
pub open spec fn artifact_key(file: FiledModel) -> (Seq<char>, Uuid) {
    (artifact_date(file), file.artifact.id)
}

/// Why an artifact cannot be read, where it cannot.
pub open spec fn artifact_flaw(file: FiledModel) -> Option<Seq<char>> {
    match file.raw {
        Some(columns) => file_error(columns),
        None => None,
    }
}

/// Why a task cannot be read, where it cannot.
pub open spec fn task_flaw(record: RecordModel) -> Option<Seq<char>> {
    match record.raw {
        Some(columns) => columns_error(columns),
        None => None,
    }
}

/// Whether a task was closed at or before the given time, as the texts of times are
/// compared.
pub open spec fn was_closed_by(record: RecordModel, cutoff: int) -> bool {
    record.closed_at matches Some(text) && !precedes(timestamp_text(cutoff), text)
}

impl Board {
    /// The board that holds nothing.
    pub open spec fn empty() -> Board {
        Board { tasks: Map::empty(), artifacts: Map::empty() }
    }

    /// Whether a task exists.
    pub open spec fn has(self, id: Uuid) -> bool {
        self.tasks.contains_key(id)
    }

    /// An artifact by its identifier.
    pub open spec fn file(self, id: Uuid) -> ArtifactModel {
        self.artifacts[id].artifact
    }

    /// A task by its identifier.
    pub open spec fn task(self, id: Uuid) -> TaskModel {
        self.tasks[id].task
    }

    /// The board with one task replaced or added.
    pub open spec fn with(self, id: Uuid, record: RecordModel) -> Board {
        Board { tasks: self.tasks.insert(id, record), ..self }
    }

    /// What holds of every board: tasks and artifacts stand under their own
    /// identifiers, dependencies exist and occur once, names of requirements
    /// occur once, artifacts belong to tasks that exist, and columns are kept of
    /// tasks that cannot be read alone.
    pub open spec fn valid(self) -> bool {
        &&& self.tasks.dom().finite()
        &&& self.artifacts.dom().finite()
        &&& forall|id: Uuid| #[trigger] self.has(id) ==> self.valid_record(id, self.tasks[id])
        &&& forall|id: Uuid| #[trigger]
            self.artifacts.contains_key(id) ==> self.file(id).id == id && self.has(
                self.file(id).task_id,
            )
    }

    /// Whether a task can stand under the given identifier.
    pub open spec fn valid_record(self, id: Uuid, record: RecordModel) -> bool {
        &&& record.task.id == id
        &&& record.task.depends_on.no_duplicates()
        &&& forall|d: Uuid| #[trigger] record.task.depends_on.contains(d) ==> self.has(d)
        &&& distinct_names(record.task.requires)
        &&& record.raw matches Some(columns) ==> columns_error(columns) is Some
    }

    /// Whether a task exists and cannot be read.
    pub open spec fn is_flawed(self, id: Uuid) -> bool {
        self.has(id) && task_flaw(self.tasks[id]) is Some
    }

    /// Whether the row of a task stands before that of another: the higher priority
    /// first, then by the text of the time at which it was created, then the lower
    /// identifier.
    pub open spec fn stands_before(self, id: Uuid, other: Uuid) -> bool {
        self.task(id).priority > self.task(other).priority || (self.task(id).priority == self.task(
            other,
        ).priority && dated_before(
            (self.tasks[id].created, id),
            (self.tasks[other].created, other),
        ))
    }

    /// Whether a task is the first that cannot be read.
    pub open spec fn is_first_flawed(self, id: Uuid) -> bool {
        &&& self.is_flawed(id)
        &&& forall|other: Uuid|
            other != id && #[trigger] self.is_flawed(other) ==> self.stands_before(id, other)
    }

    /// Whether a dependency is not done.
    pub open spec fn is_unmet(self, dependency: Uuid) -> bool {
        self.task(dependency).status != Status::Done
    }

    /// Those of the dependencies that are not done.
    pub open spec fn unmet(self, dependencies: Seq<Uuid>) -> Seq<Uuid> {
        dependencies.filter(|d: Uuid| self.is_unmet(d))
    }

    /// The dependencies of a task that are not done, in their order.
    pub open spec fn blocked_by(self, id: Uuid) -> Seq<Uuid> {
        self.unmet(self.task(id).depends_on)
    }

    /// Whether a task depends on another.
    pub open spec fn depends(self, id: Uuid, on: Uuid) -> bool {
        self.has(id) && self.task(id).depends_on.contains(on)
    }

    /// The tasks that depend on a task.
    pub open spec fn dependent_set(self, id: Uuid) -> Set<Uuid> {
        Set::new(|other: Uuid| self.depends(other, id))
    }

    /// The tasks that depend on a task, the lowest identifier first.
    pub open spec fn dependents(self, id: Uuid) -> Seq<Uuid> {
        ascending(self.dependent_set(id))
    }

    /// Whether work on a task can begin.
    pub open spec fn is_ready(self, id: Uuid) -> bool {
        self.task(id).status == Status::Todo && self.blocked_by(id).len() == 0
    }

    /// A task with what follows from the rest of the board.
    pub open spec fn view_of(self, id: Uuid) -> TaskViewModel {
        TaskViewModel {
            task: self.task(id),
            blocked_by: self.blocked_by(id),
            dependents: self.dependents(id),
            ready: self.is_ready(id),
        }
    }

    /// Whether these are all the tasks, each with what follows from the rest, in
    /// the order of lists.
    pub open spec fn is_listed_as(self, views: Seq<TaskViewModel>) -> bool {
        &&& forall|i: int, j: int|
            0 <= i < j < views.len() ==> ranks_before(views[i].task, views[j].task)
        &&& forall|i: int|
            0 <= i < views.len() ==> self.has((#[trigger] views[i]).task.id) && views[i]
                == self.view_of(views[i].task.id)
        &&& forall|id: Uuid| #[trigger]
            self.has(id) ==> exists|i: int| 0 <= i < views.len() && views[i].task.id == id
    }

    /// Whether `n` dependencies, one after the other, lead from a task to another.
    pub open spec fn leads(self, from: Uuid, to: Uuid, n: nat) -> bool
        decreases n,
    {
        if n == 0 {
            from == to
        } else {
            exists|mid: Uuid| #[trigger]
                self.depends(from, mid) && self.leads(mid, to, (n - 1) as nat)
        }
    }

    /// Whether a task is another, or depends on it through any number of others.
    pub open spec fn reaches(self, from: Uuid, to: Uuid) -> bool {
        exists|n: nat| self.leads(from, to, n)
    }

    /// Whether no task depends on itself, directly or through others.
    pub open spec fn acyclic(self) -> bool {
        forall|id: Uuid, n: nat| n > 0 ==> !#[trigger] self.leads(id, id, n)
    }

    /// Whether an agent with the given capabilities can be handed a task.
    pub open spec fn is_candidate(self, capabilities: Seq<Seq<char>>, id: Uuid) -> bool {
        &&& self.has(id)
        &&& self.is_ready(id)
        &&& forall|i: int|
            0 <= i < self.task(id).requires.len() ==> capabilities.contains(
                (#[trigger] self.task(id).requires[i]).name,
            )
    }

    /// Whether the time at which a task was created cannot be read.
    pub open spec fn is_undated(self, id: Uuid) -> bool {
        self.tasks[id].raw matches Some(columns) && time_field(8, columns.created_at) is Err
    }

    /// Whether the age of one of the tasks that an agent with the given capabilities can
    /// be handed is not known.
    pub open spec fn has_undated(self, capabilities: Seq<Seq<char>>) -> bool {
        exists|id: Uuid| #[trigger] self.is_candidate(capabilities, id) && self.is_undated(id)
    }

    /// Whether a task is handed out before another: the higher priority first, then the
    /// older, then the lower identifier. Where the age of one is not known, the texts of
    /// the times at which they were created count in its place.
    pub open spec fn is_ahead(self, capabilities: Seq<Seq<char>>, id: Uuid, other: Uuid) -> bool {
        if self.has_undated(capabilities) {
            self.stands_before(id, other)
        } else {
            ranks_before(self.task(id), self.task(other))
        }
    }

    /// Whether a task is the one that an agent with the given capabilities is
    /// handed.
    pub open spec fn is_best(self, capabilities: Seq<Seq<char>>, id: Uuid) -> bool {
        &&& self.is_candidate(capabilities, id)
        &&& forall|other: Uuid|
            other != id && #[trigger] self.is_candidate(capabilities, other) ==> self.is_ahead(
                capabilities,
                id,
                other,
            )
    }

    /// The task that an agent with the given capabilities is handed, where there
    /// is one.
    pub open spec fn next(self, capabilities: Seq<Seq<char>>) -> Option<Uuid> {
        if exists|id: Uuid| self.is_best(capabilities, id) {
            Some(choose|id: Uuid| self.is_best(capabilities, id))
        } else {
            None
        }
    }

    /// Whether an open task carries a label.
    pub open spec fn carries(self, id: Uuid, name: Seq<char>) -> bool {
        self.has(id) && is_open(self.task(id).status) && asks_for(self.task(id).requires, name)
    }

    /// The open tasks that carry a label.
    pub open spec fn carriers(self, name: Seq<char>) -> Set<Uuid> {
        Set::new(|id: Uuid| self.carries(id, name))
    }

    /// The ready tasks that carry a label.
    pub open spec fn ready_carriers(self, name: Seq<char>) -> Set<Uuid> {
        Set::new(|id: Uuid| self.carries(id, name) && self.is_ready(id))
    }

    /// Whether an open task explains a label.
    pub open spec fn explains(self, id: Uuid, name: Seq<char>) -> bool {
        self.carries(id, name) && explanation(self.task(id).requires, name) is Some
    }

    /// Whether a task was changed after another, as the texts of times are compared; of
    /// two changed at the same time the one with the higher identifier counts as the
    /// later.
    pub open spec fn is_later(self, id: Uuid, other: Uuid) -> bool {
        dated_before((self.tasks[other].updated, other), (self.tasks[id].updated, id))
    }

    /// Whether the explanation of a label is the one that a task holds.
    pub open spec fn speaks_for(self, id: Uuid, name: Seq<char>) -> bool {
        &&& self.explains(id, name)
        &&& forall|other: Uuid|
            other != id && #[trigger] self.explains(other, name) ==> self.is_later(id, other)
    }

    /// The explanation of a label: the one on the task that was changed last.
    pub open spec fn label_description(self, name: Seq<char>) -> Option<Seq<char>> {
        if exists|id: Uuid| self.speaks_for(id, name) {
            explanation(self.task(choose|id: Uuid| self.speaks_for(id, name)).requires, name)
        } else {
            None
        }
    }

    /// Whether a label is in use.
    pub open spec fn in_use(self, name: Seq<char>) -> bool {
        exists|id: Uuid| self.carries(id, name)
    }

    /// A label in use.
    pub open spec fn label(self, name: Seq<char>) -> LabelModel {
        LabelModel {
            name,
            description: self.label_description(name),
            open_tasks: self.carriers(name).len(),
            ready_tasks: self.ready_carriers(name).len(),
        }
    }

    /// Whether these are all the labels in use, by their names.
    pub open spec fn is_labelled_as(self, labels: Seq<LabelModel>) -> bool {
        &&& forall|i: int, j: int|
            0 <= i < j < labels.len() ==> precedes(labels[i].name, labels[j].name)
        &&& forall|i: int|
            0 <= i < labels.len() ==> self.in_use((#[trigger] labels[i]).name) && labels[i]
                == self.label(labels[i].name)
        &&& forall|name: Seq<char>| #[trigger]
            self.in_use(name) ==> exists|i: int| 0 <= i < labels.len() && labels[i].name == name
    }

    /// Whether an artifact belongs to a task.
    pub open spec fn owns(self, task_id: Uuid, id: Uuid) -> bool {
        self.artifacts.contains_key(id) && self.file(id).task_id == task_id
    }

    /// Whether an artifact comes before another in the list of its task.
    pub open spec fn is_filed_before(self, a: Uuid, b: Uuid) -> bool {
        dated_before(artifact_key(self.artifacts[a]), artifact_key(self.artifacts[b]))
    }

    /// Whether an artifact of a task cannot be read.
    pub open spec fn is_illegible(self, task_id: Uuid, id: Uuid) -> bool {
        self.owns(task_id, id) && artifact_flaw(self.artifacts[id]) is Some
    }

    /// Whether an artifact is the first of a task that cannot be read.
    pub open spec fn is_first_illegible(self, task_id: Uuid, id: Uuid) -> bool {
        &&& self.is_illegible(task_id, id)
        &&& forall|other: Uuid|
            other != id && #[trigger] self.is_illegible(task_id, other) ==> self.is_filed_before(
                id,
                other,
            )
    }

    /// Whether these are all the artifacts of a task, in the order of lists.
    pub open spec fn is_furnished_with(self, task_id: Uuid, list: Seq<ArtifactModel>) -> bool {
        &&& forall|i: int, j: int|
            0 <= i < j < list.len() ==> self.is_filed_before(list[i].id, list[j].id)
        &&& forall|i: int|
            0 <= i < list.len() ==> self.owns(task_id, (#[trigger] list[i]).id) && list[i]
                == self.file(list[i].id)
        &&& forall|id: Uuid| #[trigger]
            self.owns(task_id, id) ==> exists|i: int| 0 <= i < list.len() && list[i].id == id
    }

    /// Whether an artifact's task was closed at or before the given time.
    pub open spec fn is_expired(self, id: Uuid, cutoff: int) -> bool {
        &&& self.artifacts.contains_key(id)
        &&& self.has(self.file(id).task_id)
        &&& is_closed(self.task(self.file(id).task_id).status)
        &&& was_closed_by(self.tasks[self.file(id).task_id], cutoff)
    }

    /// The artifacts whose tasks were closed at or before the given time.
    pub open spec fn expired(self, cutoff: int) -> Set<Uuid> {
        Set::new(|id: Uuid| self.is_expired(id, cutoff))
    }
}

} // verus!
