//! The board's data: tasks, requests, labels and artifacts, and the mathematical
//! values that contracts speak of.

use crate::ids::Uuid;
use crate::json::copy_value;
use crate::time::Timestamp;
use serde_json::Value;
use vstd::prelude::*;

verus! {

/// Where a task stands in its life.
#[derive(Clone, Copy, Debug, PartialEq, Eq, Structural)]
pub enum Status {
    Todo,
    InProgress,
    Done,
    Failed,
    Cancelled,
}

/// A capability that a task asks for, by name, with an optional explanation.
#[derive(Debug, PartialEq, Eq)]
pub struct Requirement {
    pub name: String,
    pub description: Option<String>,
}

/// A capability as a request gives it: by its name alone, or in full.
#[derive(Clone, Debug, PartialEq, Eq)]
pub enum RequirementInput {
    Name(String),
    Full(Requirement),
}

/// A task as it is stored.
#[derive(Debug, PartialEq)]
pub struct Task {
    pub id: Uuid,
    pub title: String,
    pub description: String,
    pub status: Status,
    pub priority: i64,
    pub requires: Vec<Requirement>,
    pub depends_on: Vec<Uuid>,
    pub metadata: Value,
    pub claimed_by: Option<String>,
    pub result: Option<Value>,
    pub created_at: Timestamp,
    pub updated_at: Timestamp,
    pub version: u64,
}

/// A task with what follows from the rest of the board.
#[derive(Clone, Debug, PartialEq)]
pub struct TaskView {
    pub task: Task,
    pub blocked_by: Vec<Uuid>,
    pub dependents: Vec<Uuid>,
    pub ready: bool,
}

/// A request for a new task.
#[derive(Clone, Debug)]
pub struct CreateTask {
    pub title: String,
    pub description: String,
    pub priority: i64,
    pub requires: Vec<RequirementInput>,
    pub depends_on: Vec<Uuid>,
    pub metadata: Value,
}

/// A field of a change: absent, or present with a new value.
#[derive(Clone, Debug)]
pub enum Patch<T> {
    Missing,
    Present(T),
}

/// A request that replaces the fields that are present.
#[derive(Clone, Debug)]
pub struct PatchTask {
    pub title: Patch<String>,
    pub description: Patch<String>,
    pub priority: Patch<i64>,
    pub requires: Patch<Vec<RequirementInput>>,
    pub depends_on: Patch<Vec<Uuid>>,
    pub metadata: Patch<Value>,
}

/// A request that names the acting agent.
#[derive(Clone, Debug)]
pub struct AgentRequest {
    pub agent: String,
}

/// A request that names the acting agent and brings an outcome.
#[derive(Clone, Debug)]
pub struct ResultRequest {
    pub agent: String,
    pub result: Option<Value>,
}

/// A request for the best task that an agent can do.
#[derive(Clone, Debug)]
pub struct ClaimNextRequest {
    pub agent: String,
    pub capabilities: Vec<String>,
}

/// A request that holds nothing.
#[derive(Clone, Debug, Default)]
pub struct EmptyRequest {}

/// A request for a new explanation of a label.
#[derive(Clone, Debug)]
pub struct SetLabelDescription {
    pub description: Option<String>,
}

/// A label in use on open tasks.
#[derive(Clone, Debug, PartialEq, Eq)]
pub struct Label {
    pub name: String,
    pub description: Option<String>,
    pub open_tasks: u64,
    pub ready_tasks: u64,
}

/// The record of a file that belongs to a task.
#[derive(Debug, PartialEq, Eq)]
pub struct Artifact {
    pub id: Uuid,
    pub task_id: Uuid,
    pub filename: String,
    pub content_type: String,
    pub size_bytes: u64,
    pub created_at: Timestamp,
}

/// An optional text by its characters.
pub open spec fn optional_text(text: Option<String>) -> Option<Seq<char>> {
    match text {
        Some(inner) => Some(inner@),
        None => None,
    }
}

/// A list of texts by their characters.
pub open spec fn texts(list: Seq<String>) -> Seq<Seq<char>> {
    list.map_values(|text: String| text@)
}

/// A requirement, mathematically.
pub struct RequirementModel {
    pub name: Seq<char>,
    pub description: Option<Seq<char>>,
}

impl View for Requirement {
    type V = RequirementModel;

    open spec fn view(&self) -> RequirementModel {
        RequirementModel { name: self.name@, description: optional_text(self.description) }
    }
}

impl View for RequirementInput {
    type V = RequirementModel;

    open spec fn view(&self) -> RequirementModel {
        match *self {
            RequirementInput::Name(name) => RequirementModel { name: name@, description: None },
            RequirementInput::Full(requirement) => requirement@,
        }
    }
}

/// A list of requirements, mathematically.
pub open spec fn requirement_models(list: Seq<Requirement>) -> Seq<RequirementModel> {
    list.map_values(|requirement: Requirement| requirement@)
}

/// A list of requested requirements, mathematically.
pub open spec fn input_models(list: Seq<RequirementInput>) -> Seq<RequirementModel> {
    list.map_values(|input: RequirementInput| input@)
}

/// A task, mathematically. Times are in nanoseconds since the Unix epoch.
pub struct TaskModel {
    pub id: Uuid,
    pub title: Seq<char>,
    pub description: Seq<char>,
    pub status: Status,
    pub priority: i64,
    pub requires: Seq<RequirementModel>,
    pub depends_on: Seq<Uuid>,
    pub metadata: Value,
    pub claimed_by: Option<Seq<char>>,
    pub result: Option<Value>,
    pub created_at: int,
    pub updated_at: int,
    pub version: u64,
}

impl View for Task {
    type V = TaskModel;

    open spec fn view(&self) -> TaskModel {
        TaskModel {
            id: self.id,
            title: self.title@,
            description: self.description@,
            status: self.status,
            priority: self.priority,
            requires: requirement_models(self.requires@),
            depends_on: self.depends_on@,
            metadata: self.metadata,
            claimed_by: optional_text(self.claimed_by),
            result: self.result,
            created_at: self.created_at@,
            updated_at: self.updated_at@,
            version: self.version,
        }
    }
}

/// A task with what follows from the rest of the board, mathematically.
pub struct TaskViewModel {
    pub task: TaskModel,
    pub blocked_by: Seq<Uuid>,
    pub dependents: Seq<Uuid>,
    pub ready: bool,
}

impl View for TaskView {
    type V = TaskViewModel;

    open spec fn view(&self) -> TaskViewModel {
        TaskViewModel {
            task: self.task@,
            blocked_by: self.blocked_by@,
            dependents: self.dependents@,
            ready: self.ready,
        }
    }
}

/// A request for a new task, mathematically.
pub struct CreateModel {
    pub title: Seq<char>,
    pub description: Seq<char>,
    pub priority: i64,
    pub requires: Seq<RequirementModel>,
    pub depends_on: Seq<Uuid>,
    pub metadata: Value,
}

impl View for CreateTask {
    type V = CreateModel;

    open spec fn view(&self) -> CreateModel {
        CreateModel {
            title: self.title@,
            description: self.description@,
            priority: self.priority,
            requires: input_models(self.requires@),
            depends_on: self.depends_on@,
            metadata: self.metadata,
        }
    }
}

/// A change of a task, mathematically: `None` where the field is absent.
pub struct PatchModel {
    pub title: Option<Seq<char>>,
    pub description: Option<Seq<char>>,
    pub priority: Option<i64>,
    pub requires: Option<Seq<RequirementModel>>,
    pub depends_on: Option<Seq<Uuid>>,
    pub metadata: Option<Value>,
}

impl<T> Patch<T> {
    /// The new value, where one is present.
    pub open spec fn value(self) -> Option<T> {
        match self {
            Patch::Missing => None,
            Patch::Present(value) => Some(value),
        }
    }
}

impl View for PatchTask {
    type V = PatchModel;

    open spec fn view(&self) -> PatchModel {
        PatchModel {
            title: optional_text(self.title.value()),
            description: optional_text(self.description.value()),
            priority: self.priority.value(),
            requires: match self.requires {
                Patch::Missing => None,
                Patch::Present(list) => Some(input_models(list@)),
            },
            depends_on: match self.depends_on {
                Patch::Missing => None,
                Patch::Present(list) => Some(list@),
            },
            metadata: self.metadata.value(),
        }
    }
}

/// A label, mathematically.
pub struct LabelModel {
    pub name: Seq<char>,
    pub description: Option<Seq<char>>,
    pub open_tasks: nat,
    pub ready_tasks: nat,
}

impl View for Label {
    type V = LabelModel;

    open spec fn view(&self) -> LabelModel {
        LabelModel {
            name: self.name@,
            description: optional_text(self.description),
            open_tasks: self.open_tasks as nat,
            ready_tasks: self.ready_tasks as nat,
        }
    }
}

/// The record of a file, mathematically.
pub struct ArtifactModel {
    pub id: Uuid,
    pub task_id: Uuid,
    pub filename: Seq<char>,
    pub content_type: Seq<char>,
    pub size_bytes: u64,
    pub created_at: int,
}

impl View for Artifact {
    type V = ArtifactModel;

    open spec fn view(&self) -> ArtifactModel {
        ArtifactModel {
            id: self.id,
            task_id: self.task_id,
            filename: self.filename@,
            content_type: self.content_type@,
            size_bytes: self.size_bytes,
            created_at: self.created_at@,
        }
    }
}

impl<T> Default for Patch<T> {
    fn default() -> (result: Self)
        ensures
            result == Patch::<T>::Missing,
    {
        Patch::Missing
    }
}

impl Default for PatchTask {
    fn default() -> (result: Self)
        ensures
            result@ == (PatchModel {
                title: None,
                description: None,
                priority: None,
                requires: None,
                depends_on: None,
                metadata: None,
            }),
    {
        PatchTask {
            title: Patch::Missing,
            description: Patch::Missing,
            priority: Patch::Missing,
            requires: Patch::Missing,
            depends_on: Patch::Missing,
            metadata: Patch::Missing,
        }
    }
}

/// An optional text again.
pub fn copy_text(text: &Option<String>) -> (result: Option<String>)
    ensures
        optional_text(result) == optional_text(*text),
{
    match text {
        Some(inner) => Some(inner.clone()),
        None => None,
    }
}

/// A list of identifiers again.
pub fn copy_ids(ids: &Vec<Uuid>) -> (result: Vec<Uuid>)
    ensures
        result@ == ids@,
{
    let result = ids.clone();
    assert(result@ =~= ids@);
    result
}

impl Clone for Requirement {
    fn clone(&self) -> (result: Self)
        ensures
            result@ == self@,
    {
        Requirement { name: self.name.clone(), description: copy_text(&self.description) }
    }
}

/// A list of requirements again.
pub fn copy_requirements(list: &Vec<Requirement>) -> (result: Vec<Requirement>)
    ensures
        requirement_models(result@) == requirement_models(list@),
{
    let mut result: Vec<Requirement> = Vec::new();
    let mut i: usize = 0;
    while i < list.len()
        invariant
            i <= list.len(),
            result@.len() == i,
            forall|k: int| 0 <= k < i ==> (#[trigger] result@[k])@ == list@[k]@,
        decreases list.len() - i,
    {
        result.push(list[i].clone());
        i += 1;
    }
    assert(requirement_models(result@) =~= requirement_models(list@));
    result
}

impl Clone for Task {
    fn clone(&self) -> (result: Self)
        ensures
            result@ == self@,
    {
        Task {
            id: self.id,
            title: self.title.clone(),
            description: self.description.clone(),
            status: self.status,
            priority: self.priority,
            requires: copy_requirements(&self.requires),
            depends_on: copy_ids(&self.depends_on),
            metadata: self.metadata.clone(),
            claimed_by: copy_text(&self.claimed_by),
            result: copy_value(&self.result),
            created_at: self.created_at,
            updated_at: self.updated_at,
            version: self.version,
        }
    }
}

impl Clone for Artifact {
    fn clone(&self) -> (result: Self)
        ensures
            result@ == self@,
    {
        Artifact {
            id: self.id,
            task_id: self.task_id,
            filename: self.filename.clone(),
            content_type: self.content_type.clone(),
            size_bytes: self.size_bytes,
            created_at: self.created_at,
        }
    }
}

} // verus!
