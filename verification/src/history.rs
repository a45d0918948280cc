//! What holds of the board through all its operations, one after another.

use crate::board::{is_closed, is_open, Board, RecordModel};
use crate::graph::{edges_within, lemma_fewer_edges_acyclic, lemma_new_edges_acyclic};
use crate::ids::{first_seen, first_seen_keeps_each_once, Uuid};
use crate::model::{ArtifactModel, CreateModel, PatchModel, Status};
use crate::rules::{
    is_tidy, normalized_names_are_distinct, normalized_requirements_are_tidy, tidy_description,
    title_fault, Fault,
};
use crate::steps::{count_fault, reworded, stored_version, OwnedAction};
use crate::text::{trimmed, trimmed_is_idempotent};
use crate::time::in_range;
use crate::validity::{
    lemma_deleted_valid, lemma_fewer_artifacts, lemma_more_artifacts,
    lemma_relabelled_valid, lemma_same_shape_valid, lemma_sound_dependencies, lemma_with_valid,
};
use serde_json::Value;
use vstd::prelude::*;

verus! {

/// An operation on the board.
pub enum Step {
    Create { id: Uuid, request: CreateModel },
    Patch { id: Uuid, patch: PatchModel },
    Delete { id: Uuid },
    Claim { id: Uuid, agent: Seq<char> },
    Act { id: Uuid, agent: Seq<char>, action: OwnedAction, result: Option<Value> },
    Cancel { id: Uuid },
    Retry { id: Uuid },
    Relabel { name: Seq<char>, description: Option<Seq<char>> },
    AddArtifact { agent: Seq<char>, artifact: ArtifactModel },
    DeleteArtifact { task_id: Uuid, id: Uuid },
    Expire { cutoff: int },
}

impl Board {
    /// Why an operation is refused.
    pub open spec fn step_fault(self, step: Step) -> Option<Fault> {
        match step {
            Step::Create { id, request } => self.create_fault(id, request),
            Step::Patch { id, patch } => self.patch_fault(id, patch),
            Step::Delete { id } => self.delete_fault(id),
            Step::Claim { id, agent } => self.claim_fault(id),
            Step::Act { id, agent, action, result } => self.transition_fault(id, agent, action),
            Step::Cancel { id } => self.cancel_fault(id),
            Step::Retry { id } => self.retry_fault(id),
            Step::Relabel { name, description } => self.relabel_fault(name, description),
            Step::AddArtifact { agent, artifact } => self.artifact_fault(agent, artifact),
            Step::DeleteArtifact { task_id, id } => self.artifact_read_fault(task_id, id),
            Step::Expire { cutoff } => self.expiry_fault(cutoff),
        }
    }

    /// The board that an operation leaves.
    pub open spec fn stepped(self, step: Step, now: int) -> Board {
        match step {
            Step::Create { id, request } => self.created(id, request, now),
            Step::Patch { id, patch } => self.patched(id, patch, now),
            Step::Delete { id } => self.deleted(id),
            Step::Claim { id, agent } => self.claimed(id, agent, now),
            Step::Act { id, agent, action, result } => self.transitioned(id, action, result, now),
            Step::Cancel { id } => self.cancelled(id, now),
            Step::Retry { id } => self.retried(id, now),
            Step::Relabel { name, description } => self.relabelled(name, description, now),
            Step::AddArtifact { agent, artifact } => self.with_artifact(artifact),
            Step::DeleteArtifact { task_id, id } => self.without_artifact(id),
            Step::Expire { cutoff } => self.without_expired(cutoff),
        }
    }

    /// Whether every task has a title, tidy requirements and a version, and its other
    /// fields agree with its status: who holds it, whether it is closed, and whether
    /// it has a result.
    pub open spec fn orderly(self) -> bool {
        forall|id: Uuid| #[trigger] self.has(id) ==> orderly_record(self.tasks[id])
    }
}

/// Whether a task has a title, tidy requirements and a version, and its other fields
/// agree with its status.
pub open spec fn orderly_record(record: RecordModel) -> bool {
    let task = record.task;
    &&& stored_version(record) >= 1
    &&& title_fault(task.title) is None
    &&& forall|i: int| 0 <= i < task.requires.len() ==> is_tidy(#[trigger] task.requires[i])
    &&& record.closed_at is Some <==> is_closed(task.status)
    &&& task.claimed_by is None <==> task.status == Status::Todo || task.status
        == Status::Cancelled
    &&& task.status == Status::Todo || task.status == Status::InProgress ==> task.result is None
}

/// Every operation leaves a valid board.
pub proof fn every_step_keeps_the_board_valid(board: Board, step: Step, now: int)
    requires
        board.valid(),
        board.step_fault(step) is None,
    ensures
        board.stepped(step, now).valid(),
{
    let after = board.stepped(step, now);
    match step {
        Step::Create { id, request } => {
            lemma_sound_dependencies(board, id, first_seen(request.depends_on));
            first_seen_keeps_each_once(request.depends_on);
            normalized_names_are_distinct(request.requires);
            lemma_with_valid(board, id, after.tasks[id]);
        },
        Step::Patch { id, patch } => {
            if patch.depends_on is Some {
                lemma_sound_dependencies(board, id, first_seen(patch.depends_on->0));
                first_seen_keeps_each_once(patch.depends_on->0);
            }
            if patch.requires is Some {
                normalized_names_are_distinct(patch.requires->0);
            }
            lemma_with_valid(board, id, after.tasks[id]);
        },
        Step::Delete { id } => {
            lemma_deleted_valid(board, id);
        },
        Step::Claim { id, .. } | Step::Act { id, .. } | Step::Cancel { id } | Step::Retry {
            id,
        } => {
            assert(after.tasks.dom() =~= board.tasks.dom());
            lemma_same_shape_valid(board, after);
        },
        Step::Relabel { name, description } => {
            lemma_relabelled_valid(board, name, description, now);
        },
        Step::AddArtifact { agent, artifact } => {
            lemma_more_artifacts(board, artifact);
        },
        Step::DeleteArtifact { .. } => {
            lemma_fewer_artifacts(board, after);
        },
        Step::Expire { cutoff } => {
            lemma_fewer_artifacts(board, after);
        },
    }
}

/// No operation makes a task depend on itself, directly or through others.
pub proof fn no_step_closes_a_circle(board: Board, step: Step, now: int)
    requires
        board.valid(),
        board.acyclic(),
        board.step_fault(step) is None,
    ensures
        board.stepped(step, now).acyclic(),
{
    let after = board.stepped(step, now);
    match step {
        Step::Create { id, request } => {
            lemma_sound_dependencies(board, id, first_seen(request.depends_on));
            lemma_new_edges_acyclic(board, id, after.tasks[id]);
        },
        Step::Patch { id, patch } => {
            if patch.depends_on is Some {
                lemma_sound_dependencies(board, id, first_seen(patch.depends_on->0));
                lemma_new_edges_acyclic(board, id, after.tasks[id]);
            } else {
                lemma_fewer_edges_acyclic(after, board);
            }
        },
        _ => {
            assert(edges_within(after, board));
            lemma_fewer_edges_acyclic(after, board);
        },
    }
}

/// Every operation leaves tasks with a title, tidy requirements and a version, and
/// keeps their other fields in agreement with their status.
pub proof fn every_step_keeps_the_board_orderly(board: Board, step: Step, now: int)
    requires
        board.valid(),
        board.orderly(),
        board.step_fault(step) is None,
    ensures
        board.stepped(step, now).orderly(),
{
    let after = board.stepped(step, now);
    match step {
        Step::Create { request, .. } => {
            normalized_requirements_are_tidy(request.requires);
        },
        Step::Patch { patch, .. } => {
            if patch.requires is Some {
                normalized_requirements_are_tidy(patch.requires->0);
            }
        },
        _ => {},
    }
    assert forall|id: Uuid| #[trigger] after.has(id) implies orderly_record(after.tasks[id]) by {
        if board.has(id) {
            assert(orderly_record(board.tasks[id]));
            if let Step::Relabel { name, description } = step {
                let list = board.task(id).requires;
                let text = tidy_description(description);
                if let Some(given) = description {
                    trimmed_is_idempotent(given);
                }
                let words = reworded(list, trimmed(name), text);
                assert forall|i: int| 0 <= i < words.len() implies is_tidy(
                    #[trigger] words[i],
                ) by {
                    assert(is_tidy(list[i]));
                }
            }
        }
    }
}

/// Every change of a task counts one version, at the time of the change, and
/// leaves its identifier and the time of its creation.
pub proof fn every_change_counts_one_version(board: Board, step: Step, now: int, id: Uuid)
    requires
        board.valid(),
        board.step_fault(step) is None,
        board.has(id),
        board.stepped(step, now).has(id),
        board.stepped(step, now).tasks[id] != board.tasks[id],
    ensures
        stored_version(board.stepped(step, now).tasks[id]) == stored_version(board.tasks[id]) + 1,
        board.stepped(step, now).task(id).updated_at == now,
        board.stepped(step, now).task(id).id == board.task(id).id,
        board.stepped(step, now).task(id).created_at == board.task(id).created_at,
{
    match step {
        Step::Relabel { name, description } => {
            assert(board.is_reworded(id, trimmed(name), tidy_description(description)));
            assert(count_fault(board.tasks[id]) is None);
        },
        _ => {},
    }
}

/// The task that an operation is about.
pub open spec fn subject(step: Step) -> Option<Uuid> {
    match step {
        Step::Create { id, .. } => Some(id),
        Step::Patch { id, .. } => Some(id),
        Step::Delete { id } => Some(id),
        Step::Claim { id, .. } => Some(id),
        Step::Act { id, .. } => Some(id),
        Step::Cancel { id } => Some(id),
        Step::Retry { id } => Some(id),
        _ => None,
    }
}

/// An operation changes the task that it is about and no other, but for a new
/// explanation, which changes the open tasks that carry the label.
pub proof fn other_tasks_stay(board: Board, step: Step, now: int, id: Uuid)
    requires
        board.step_fault(step) is None,
        board.has(id),
        subject(step) != Some(id),
        step matches Step::Relabel { name, .. } ==> !board.carries(id, trimmed(name)),
    ensures
        board.stepped(step, now).has(id),
        board.stepped(step, now).tasks[id] == board.tasks[id],
{
}

/// A task that is done stays done, with its owner, its result and the time at
/// which it was closed, for as long as it exists.
pub proof fn done_is_terminal(board: Board, step: Step, now: int, id: Uuid)
    requires
        board.step_fault(step) is None,
        board.has(id),
        board.task(id).status == Status::Done,
        board.stepped(step, now).has(id),
    ensures
        board.stepped(step, now).task(id).status == Status::Done,
        board.stepped(step, now).task(id).claimed_by == board.task(id).claimed_by,
        board.stepped(step, now).task(id).result == board.task(id).result,
        board.stepped(step, now).tasks[id].closed_at == board.tasks[id].closed_at,
{
}

/// The changes of status that there are.
pub open spec fn is_transition(from: Status, to: Status) -> bool {
    match to {
        Status::Todo => from == Status::InProgress || from == Status::Failed || from
            == Status::Cancelled,
        Status::InProgress => from == Status::Todo,
        Status::Done => from == Status::InProgress,
        Status::Failed => from == Status::InProgress,
        Status::Cancelled => is_open(from),
    }
}

/// The status of a task changes along the transitions and in no other way.
pub proof fn status_changes_along_transitions(board: Board, step: Step, now: int, id: Uuid)
    requires
        board.step_fault(step) is None,
        board.has(id),
        board.stepped(step, now).has(id),
        board.stepped(step, now).task(id).status != board.task(id).status,
    ensures
        is_transition(board.task(id).status, board.stepped(step, now).task(id).status),
{
}

/// A claimed task stays with its agent until that agent releases, completes or
/// fails it, or until it is cancelled or deleted.
pub proof fn a_claim_lasts(board: Board, step: Step, now: int, id: Uuid, owner: Seq<char>)
    requires
        board.step_fault(step) is None,
        board.has(id),
        board.task(id).status == Status::InProgress,
        board.task(id).claimed_by == Some(owner),
    ensures
        ({
            let after = board.stepped(step, now);
            ||| after.has(id) && after.task(id).status == Status::InProgress && after.task(
                id,
            ).claimed_by == Some(owner)
            ||| step matches Step::Act { id: acted, agent, .. } && acted == id && agent == owner
            ||| step == Step::Cancel { id }
            ||| step == Step::Delete { id }
        }),
{
}

/// Only a task whose dependencies are all done is claimed.
pub proof fn only_ready_tasks_are_claimed(board: Board, step: Step, now: int, id: Uuid)
    requires
        board.step_fault(step) is None,
        board.has(id),
        board.task(id).status != Status::InProgress,
        board.stepped(step, now).has(id),
        board.stepped(step, now).task(id).status == Status::InProgress,
    ensures
        board.is_ready(id),
{
}

/// An artifact is added to a task in progress by its owner and by no one else.
pub proof fn artifacts_come_from_owners(board: Board, step: Step, now: int, id: Uuid)
    requires
        board.step_fault(step) is None,
        !board.artifacts.contains_key(id),
        board.stepped(step, now).artifacts.contains_key(id),
    ensures
        ({
            let owner = board.stepped(step, now).file(id).task_id;
            &&& board.has(owner)
            &&& board.task(owner).status == Status::InProgress
            &&& step matches Step::AddArtifact { agent, .. } && board.task(owner).claimed_by
                == Some(agent)
        }),
{
}

/// Expiry takes the artifacts of closed tasks, and never those of open ones.
pub proof fn only_artifacts_of_closed_tasks_expire(board: Board, cutoff: int, id: Uuid)
    requires
        board.valid(),
        board.artifacts.contains_key(id),
        is_open(board.task(board.file(id).task_id).status),
    ensures
        board.without_expired(cutoff).artifacts.contains_key(id),
        board.without_expired(cutoff).artifacts[id] == board.artifacts[id],
{
}

/// A change of a task leaves the time at which it was closed.
pub proof fn a_change_keeps_the_closing_time(board: Board, id: Uuid, patch: PatchModel, now: int)
    requires
        board.patch_fault(id, patch) is None,
    ensures
        board.patched(id, patch, now).tasks[id].closed_at == board.tasks[id].closed_at,
        board.patched(id, patch, now).task(id).status == board.task(id).status,
{
}

/// Whether each of the boards comes from the one before it by an operation, and
/// the first holds nothing.
pub open spec fn is_history(boards: Seq<Board>) -> bool {
    &&& boards.len() > 0
    &&& boards[0] == Board::empty()
    &&& forall|i: int| 0 < i < boards.len() ==> follows(boards[i - 1], #[trigger] boards[i])
}

/// Whether an operation leads from one board to another.
pub open spec fn follows(before: Board, after: Board) -> bool {
    exists|step: Step, now: int|
        in_range(now) && before.step_fault(step) is None && after == #[trigger] before.stepped(
            step,
            now,
        )
}

/// Every board that operations lead to from the empty one is valid, orderly and
/// free of circles.
pub proof fn all_boards_are_sound(boards: Seq<Board>, i: int)
    requires
        is_history(boards),
        0 <= i < boards.len(),
    ensures
        boards[i].valid(),
        boards[i].orderly(),
        boards[i].acyclic(),
    decreases i,
{
    if i == 0 {
        let empty = Board::empty();
        assert forall|id: Uuid, n: nat| n > 0 implies !#[trigger] empty.leads(id, id, n) by {
            if empty.leads(id, id, n) {
                let mid = choose|mid: Uuid| #[trigger]
                    empty.depends(id, mid) && empty.leads(mid, id, (n - 1) as nat);
                assert(empty.has(id));
            }
        }
    } else {
        all_boards_are_sound(boards, i - 1);
        let before = boards[i - 1];
        assert(follows(before, boards[i]));
        let (step, now) = choose|step: Step, now: int|
            in_range(now) && before.step_fault(step) is None && boards[i]
                == #[trigger] before.stepped(step, now);
        every_step_keeps_the_board_valid(before, step, now);
        every_step_keeps_the_board_orderly(before, step, now);
        no_step_closes_a_circle(before, step, now);
    }
}

} // verus!
