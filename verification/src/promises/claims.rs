//! What becomes of a task that is claimed, released, completed, failed, cancelled or
//! tried again, and which task an agent is handed.

use super::queries::says;
use super::reading::{lemma_shown, shows};
use super::requests::differs_only_at;
use crate::board::{ranks_before, Board, RecordModel};
use crate::ids::{joined_ids, Uuid};
use crate::laws::{
    a_candidate_is_always_found, blocked_by_holds_what_is_not_done,
    ready_means_todo_with_every_dependency_done,
};
use crate::model::{texts, PatchModel, Status, TaskView};
use crate::rules::{status_word, Fault, StoreError};
use crate::steps::OwnedAction;
use crate::store::answers;
use crate::store::lifecycle::hands_out;
use crate::text::precedes;
use crate::time::{parsed_timestamp, timestamp_text};
use serde_json::Value;
use vstd::prelude::*;

verus! {

/// Whether a task keeps what it is about: its identifier, title, description, priority,
/// requirements, dependencies, metadata and the time of its creation; and whether the
/// change counts one version, at the given time.
pub open spec fn moves_on(before: RecordModel, after: RecordModel, now: int) -> bool {
    &&& after.task.id == before.task.id
    &&& after.task.title == before.task.title
    &&& after.task.description == before.task.description
    &&& after.task.priority == before.task.priority
    &&& after.task.requires == before.task.requires
    &&& after.task.depends_on == before.task.depends_on
    &&& after.task.metadata == before.task.metadata
    &&& after.task.created_at == before.task.created_at
    &&& after.created == before.created
    &&& after.task.updated_at == now
    &&& after.updated == timestamp_text(now)
    &&& after.task.version == before.task.version + 1
    &&& after.raw == before.raw
}

/// Whether every dependency of a task is done.
pub open spec fn is_unblocked(board: Board, id: Uuid) -> bool {
    forall|d: Uuid| #[trigger]
        board.tasks[id].task.depends_on.contains(d) ==> board.tasks[d].task.status == Status::Done
}

/// The refusal of an action on a task in the given status tells both.
pub open spec fn is_refusal_of(fault: Fault, action: Seq<char>, status: Status) -> bool {
    exists|word: Seq<char>| #[trigger]
        says(word, status) && fault == Fault::Conflict(
            "cannot "@ + action + " a task in status "@ + word,
        )
}

proof fn lemma_word(status: Status)
    ensures
        says(status_word(status), status),
{
}

/// A claimed task is in progress and belongs to the agent; the rest of it stays.
pub proof fn a_claim_gives_the_task_to_the_agent(
    result: Result<TaskView, StoreError>,
    before: Board,
    after: Board,
    id: Uuid,
    agent: Seq<char>,
    now: int,
)
    requires
        answers(result, before, after, before.claim_fault(id), before.claimed(id, agent, now), id),
        result is Ok,
    ensures
        before.tasks.contains_key(id),
        before.tasks[id].task.status == Status::Todo,
        is_unblocked(before, id),
        after.tasks.contains_key(id),
        differs_only_at(before, after, id),
        moves_on(before.tasks[id], after.tasks[id], now),
        after.tasks[id].task.status == Status::InProgress,
        after.tasks[id].task.claimed_by == Some(agent),
        after.tasks[id].task.result == before.tasks[id].task.result,
        after.tasks[id].closed_at == before.tasks[id].closed_at,
        shows(result->Ok_0.task, after.tasks[id].task),
        !result->Ok_0.ready,
{
    lemma_shown(result->Ok_0.task, after.tasks[id].task);
    ready_means_todo_with_every_dependency_done(before, id);
    assert forall|d: Uuid| #[trigger]
        before.tasks[id].task.depends_on.contains(d) implies before.tasks[d].task.status
        == Status::Done by {
        assert(before.task(id).depends_on.contains(d));
        assert(before.task(d).status == Status::Done);
    }
}

/// A claim is refused for a task that is not there or cannot be read, for one that is
/// not to be done, and for one with a dependency that is not done, and for nothing else
/// while versions can be counted.
pub proof fn a_claim_needs_a_ready_task(board: Board, id: Uuid)
    ensures
        !board.tasks.contains_key(id) ==> board.claim_fault(id) == Some(Fault::NotFound),
        board.tasks.contains_key(id) && board.tasks[id].raw is None ==> {
            let task = board.tasks[id].task;
            &&& task.status == Status::Todo && is_unblocked(board, id) && task.version
                < 0x7fff_ffff_ffff_ffff <==> board.claim_fault(id) is None
            &&& task.status != Status::Todo ==> (board.claim_fault(id) matches Some(fault)
                && is_refusal_of(fault, "claim"@, task.status))
            &&& task.status == Status::Todo && !is_unblocked(board, id) ==> exists|
                blockers: Seq<Uuid>,
            |
                {
                    &&& board.claim_fault(id) == Some(
                        Fault::Conflict("task is blocked by: "@ + #[trigger] joined_ids(blockers)),
                    )
                    &&& forall|d: Uuid| #[trigger]
                        blockers.contains(d) <==> task.depends_on.contains(d)
                            && board.tasks[d].task.status != Status::Done
                }
        },
{
    lemma_word(board.tasks[id].task.status);
    ready_means_todo_with_every_dependency_done(board, id);
    assert(is_unblocked(board, id) <==> forall|d: Uuid| #[trigger]
        board.task(id).depends_on.contains(d) ==> board.task(d).status == Status::Done);
    let blockers = board.blocked_by(id);
    assert forall|d: Uuid| #[trigger]
        blockers.contains(d) <==> board.tasks[id].task.depends_on.contains(d)
            && board.tasks[d].task.status != Status::Done by {
        blocked_by_holds_what_is_not_done(board, id, d);
    }
    if blockers.len() == 0 {
        assert(is_unblocked(board, id)) by {
            assert forall|d: Uuid| #[trigger]
                board.tasks[id].task.depends_on.contains(d) implies board.tasks[d].task.status
                == Status::Done by {
                assert(!blockers.contains(d));
            }
        }
    } else {
        assert(blockers.contains(blockers[0]));
    }
    assert(joined_ids(blockers) == joined_ids(blockers));
}

/// A released task is to be done again and belongs to no one; a completed one is done,
/// and a failed one has failed, with the given result, and either still belongs to its
/// agent. Only a completed task is closed.
pub proof fn an_owner_moves_the_task_on(
    outcome: Result<TaskView, StoreError>,
    before: Board,
    after: Board,
    id: Uuid,
    agent: Seq<char>,
    action: OwnedAction,
    result: Option<Value>,
    now: int,
)
    requires
        answers(
            outcome,
            before,
            after,
            before.transition_fault(id, agent, action),
            before.transitioned(id, action, result, now),
            id,
        ),
        outcome is Ok,
    ensures
        before.tasks.contains_key(id),
        before.tasks[id].task.status == Status::InProgress,
        before.tasks[id].task.claimed_by == Some(agent),
        after.tasks.contains_key(id),
        differs_only_at(before, after, id),
        moves_on(before.tasks[id], after.tasks[id], now),
        ({
            let task = after.tasks[id].task;
            match action {
                OwnedAction::Release => {
                    &&& task.status == Status::Todo
                    &&& task.claimed_by is None
                    &&& task.result == before.tasks[id].task.result
                    &&& after.tasks[id].closed_at == before.tasks[id].closed_at
                },
                OwnedAction::Complete => {
                    &&& task.status == Status::Done
                    &&& task.claimed_by == Some(agent)
                    &&& task.result == result
                    &&& after.tasks[id].closed_at == Some(timestamp_text(now))
                },
                OwnedAction::Fail => {
                    &&& task.status == Status::Failed
                    &&& task.claimed_by == Some(agent)
                    &&& task.result == result
                    &&& after.tasks[id].closed_at == before.tasks[id].closed_at
                },
            }
        }),
        shows(outcome->Ok_0.task, after.tasks[id].task),
{
    lemma_shown(outcome->Ok_0.task, after.tasks[id].task);
}

/// Only the agent that holds a task in progress may release, complete or fail it; and
/// nothing else stands in the way while versions can be counted.
pub proof fn only_the_owner_moves_a_task_on(
    board: Board,
    id: Uuid,
    agent: Seq<char>,
    action: OwnedAction,
)
    ensures
        !board.tasks.contains_key(id) ==> board.transition_fault(id, agent, action) == Some(
            Fault::NotFound,
        ),
        board.tasks.contains_key(id) && board.tasks[id].raw is None ==> {
            let task = board.tasks[id].task;
            let word = match action {
                OwnedAction::Release => "release"@,
                OwnedAction::Complete => "complete"@,
                OwnedAction::Fail => "fail"@,
            };
            &&& board.transition_fault(id, agent, action) is None <==> task.status
                == Status::InProgress && task.claimed_by == Some(agent) && task.version
                < 0x7fff_ffff_ffff_ffff
            &&& task.status != Status::InProgress ==> (board.transition_fault(
                id,
                agent,
                action,
            ) matches Some(fault) && is_refusal_of(fault, word, task.status))
            &&& task.status == Status::InProgress && task.claimed_by != Some(agent)
                ==> board.transition_fault(id, agent, action) == Some(
                Fault::Conflict("task is not claimed by agent "@ + agent),
            )
        },
{
    lemma_word(board.tasks[id].task.status);
}

/// A cancelled task belongs to no one and is closed; its result stays.
pub proof fn a_cancelled_task_is_closed(
    result: Result<TaskView, StoreError>,
    before: Board,
    after: Board,
    id: Uuid,
    now: int,
)
    requires
        answers(result, before, after, before.cancel_fault(id), before.cancelled(id, now), id),
        result is Ok,
    ensures
        before.tasks.contains_key(id),
        after.tasks.contains_key(id),
        differs_only_at(before, after, id),
        moves_on(before.tasks[id], after.tasks[id], now),
        after.tasks[id].task.status == Status::Cancelled,
        after.tasks[id].task.claimed_by is None,
        after.tasks[id].task.result == before.tasks[id].task.result,
        after.tasks[id].closed_at == Some(timestamp_text(now)),
        shows(result->Ok_0.task, after.tasks[id].task),
{
    lemma_shown(result->Ok_0.task, after.tasks[id].task);
}

/// A task can be cancelled while it is to be done or in progress, and after it has
/// failed, whoever asks.
pub proof fn what_is_not_closed_can_be_cancelled(board: Board, id: Uuid)
    ensures
        !board.tasks.contains_key(id) ==> board.cancel_fault(id) == Some(Fault::NotFound),
        board.tasks.contains_key(id) && board.tasks[id].raw is None ==> {
            let task = board.tasks[id].task;
            let status = task.status;
            &&& board.cancel_fault(id) is None <==> (status == Status::Todo || status
                == Status::InProgress || status == Status::Failed) && task.version
                < 0x7fff_ffff_ffff_ffff
            &&& status == Status::Done || status == Status::Cancelled ==> (board.cancel_fault(
                id,
            ) matches Some(fault) && is_refusal_of(fault, "cancel"@, status))
        },
{
    lemma_word(board.tasks[id].task.status);
}

/// A task that is tried again is to be done, belongs to no one, has no result and is not
/// closed.
pub proof fn a_retried_task_starts_anew(
    result: Result<TaskView, StoreError>,
    before: Board,
    after: Board,
    id: Uuid,
    now: int,
)
    requires
        answers(result, before, after, before.retry_fault(id), before.retried(id, now), id),
        result is Ok,
    ensures
        before.tasks.contains_key(id),
        after.tasks.contains_key(id),
        differs_only_at(before, after, id),
        moves_on(before.tasks[id], after.tasks[id], now),
        after.tasks[id].task.status == Status::Todo,
        after.tasks[id].task.claimed_by is None,
        after.tasks[id].task.result is None,
        after.tasks[id].closed_at is None,
        shows(result->Ok_0.task, after.tasks[id].task),
{
    lemma_shown(result->Ok_0.task, after.tasks[id].task);
}

/// A task can be tried again exactly when it has failed or was cancelled.
pub proof fn what_failed_or_was_cancelled_can_be_retried(board: Board, id: Uuid)
    ensures
        !board.tasks.contains_key(id) ==> board.retry_fault(id) == Some(Fault::NotFound),
        board.tasks.contains_key(id) && board.tasks[id].raw is None ==> {
            let task = board.tasks[id].task;
            let status = task.status;
            &&& board.retry_fault(id) is None <==> (status == Status::Failed || status
                == Status::Cancelled) && task.version < 0x7fff_ffff_ffff_ffff
            &&& status != Status::Failed && status != Status::Cancelled ==> (board.retry_fault(
                id,
            ) matches Some(fault) && is_refusal_of(fault, "retry"@, status))
        },
{
    lemma_word(board.tasks[id].task.status);
}

/// Where the last version is reached, no change is counted and nothing is changed.
pub proof fn the_last_version_is_final(
    board: Board,
    id: Uuid,
    agent: Seq<char>,
    action: OwnedAction,
    patch: PatchModel,
)
    requires
        board.tasks.contains_key(id),
        board.tasks[id].raw is None,
        board.tasks[id].task.version >= 0x7fff_ffff_ffff_ffff,
    ensures
        board.claim_fault(id) is Some,
        board.transition_fault(id, agent, action) is Some,
        board.cancel_fault(id) is Some,
        board.retry_fault(id) is Some,
        board.patch_fault(id, patch) is Some,
        ({
            let task = board.tasks[id].task;
            let refusal = Some(
                Fault::Internal("task version"@ + " exceeds SQLite integer range"@),
            );
            &&& task.status == Status::Todo && is_unblocked(board, id) ==> board.claim_fault(id)
                == refusal
            &&& task.status == Status::InProgress && task.claimed_by == Some(agent)
                ==> board.transition_fault(id, agent, action) == refusal
            &&& task.status == Status::Failed ==> board.cancel_fault(id) == refusal
                && board.retry_fault(id) == refusal
            &&& patch.title is None && patch.depends_on is None && patch.requires is None
                ==> board.patch_fault(id, patch) == refusal
        }),
{
    ready_means_todo_with_every_dependency_done(board, id);
    assert(is_unblocked(board, id) <==> forall|d: Uuid| #[trigger]
        board.task(id).depends_on.contains(d) ==> board.task(d).status == Status::Done);
}

/// Whether an agent with the given capabilities could do a task now: it is to be done,
/// all its dependencies are done, and every requirement is one of the capabilities.
pub open spec fn could_do(board: Board, capabilities: Seq<String>, id: Uuid) -> bool {
    &&& board.tasks.contains_key(id)
    &&& board.tasks[id].task.status == Status::Todo
    &&& is_unblocked(board, id)
    &&& forall|i: int|
        0 <= i < board.tasks[id].task.requires.len() ==> has_capability(
            capabilities,
            (#[trigger] board.tasks[id].task.requires[i]).name,
        )
}

/// Whether a name is one of the capabilities.
pub open spec fn has_capability(capabilities: Seq<String>, name: Seq<char>) -> bool {
    exists|k: int| 0 <= k < capabilities.len() && (#[trigger] capabilities[k])@ == name
}

proof fn lemma_could_do(board: Board, capabilities: Seq<String>, id: Uuid)
    ensures
        board.is_candidate(texts(capabilities), id) <==> could_do(
            board,
            capabilities,
            id,
        ),
{
    let names = texts(capabilities);
    ready_means_todo_with_every_dependency_done(board, id);
    assert(is_unblocked(board, id) <==> forall|d: Uuid| #[trigger]
        board.task(id).depends_on.contains(d) ==> board.task(d).status == Status::Done);
    assert forall|name: Seq<char>| #[trigger] names.contains(name) <==> has_capability(
        capabilities,
        name,
    ) by {
        if names.contains(name) {
            let k = choose|k: int| 0 <= k < names.len() && names[k] == name;
            assert(capabilities[k]@ == name);
        }
        if has_capability(capabilities, name) {
            let k = choose|k: int|
                0 <= k < capabilities.len() && (#[trigger] capabilities[k])@ == name;
            assert(names[k] == name);
        }
    }
    if could_do(board, capabilities, id) {
        assert forall|i: int| 0 <= i < board.task(id).requires.len() implies names.contains(
            (#[trigger] board.task(id).requires[i]).name,
        ) by {
            assert(has_capability(capabilities, board.tasks[id].task.requires[i].name));
        }
    }
    if board.is_candidate(names, id) {
        assert forall|i: int|
            0 <= i < board.tasks[id].task.requires.len() implies has_capability(
            capabilities,
            (#[trigger] board.tasks[id].task.requires[i]).name,
        ) by {
            assert(names.contains(board.task(id).requires[i].name));
        }
    }
}

/// An agent is handed nothing exactly when there is nothing that it could do; and then
/// the board stays.
pub proof fn nothing_is_handed_out_only_where_nothing_fits(
    result: Result<Option<TaskView>, StoreError>,
    before: Board,
    after: Board,
    agent: Seq<char>,
    capabilities: Seq<String>,
    now: int,
)
    requires
        before.valid(),
        hands_out(result, before, after, agent, texts(capabilities), now),
    ensures
        result matches Ok(None) ==> after == before,
        result is Err ==> after == before && exists|id: Uuid| #[trigger]
            could_do(before, capabilities, id) && before.claim_fault(id) is Some,
        (result matches Ok(None)) <==> forall|id: Uuid| !#[trigger]
            could_do(before, capabilities, id),
{
    let names = texts(capabilities);
    assert forall|id: Uuid| #[trigger] could_do(before, capabilities, id) implies !(
    result matches Ok(None)) by {
        lemma_could_do(before, capabilities, id);
        a_candidate_is_always_found(before, names, id);
    }
    if before.next(names) is Some {
        let id = before.next(names)->0;
        lemma_could_do(before, capabilities, id);
        assert(could_do(before, capabilities, id));
    }
}

/// Whether the time at which a task was created cannot be read.
pub open spec fn has_no_age(board: Board, id: Uuid) -> bool {
    board.tasks[id].raw matches Some(columns) && parsed_timestamp(columns.created_at) is Err
}

/// The task that an agent is handed is one that it could do, and it is then in progress
/// and the agent's. No other that the agent could do has a higher priority; none of the
/// same priority is older; and none of the same priority and age has a lower identifier.
/// Where the age of one that the agent could do is not known, the texts of the times of
/// their creation count in place of ages.
pub proof fn the_best_task_is_handed_out(
    result: Result<Option<TaskView>, StoreError>,
    before: Board,
    after: Board,
    agent: Seq<char>,
    capabilities: Seq<String>,
    now: int,
    other: Uuid,
)
    requires
        before.valid(),
        hands_out(result, before, after, agent, texts(capabilities), now),
        result matches Ok(Some(_)),
    ensures
        ({
            let view = (result->Ok_0)->0;
            let id = view.task.id;
            let task = before.tasks[id].task;
            let rival = before.tasks[other].task;
            &&& could_do(before, capabilities, id)
            &&& differs_only_at(before, after, id)
            &&& moves_on(before.tasks[id], after.tasks[id], now)
            &&& after.tasks[id].task.status == Status::InProgress
            &&& after.tasks[id].task.claimed_by == Some(agent)
            &&& after.tasks[id].task.result == before.tasks[id].task.result
            &&& after.tasks[id].closed_at == before.tasks[id].closed_at
            &&& shows(view.task, after.tasks[id].task)
            &&& could_do(before, capabilities, other) && other != id ==> {
                &&& task.priority >= rival.priority
                &&& (forall|x: Uuid| #[trigger]
                    could_do(before, capabilities, x) ==> !has_no_age(before, x)) ==> {
                    ||| task.priority > rival.priority
                    ||| task.created_at < rival.created_at
                    ||| task.created_at == rival.created_at && id < other
                }
                &&& (exists|x: Uuid| #[trigger]
                    could_do(before, capabilities, x) && has_no_age(before, x)) ==> {
                    ||| task.priority > rival.priority
                    ||| precedes(before.tasks[id].created, before.tasks[other].created)
                    ||| before.tasks[id].created == before.tasks[other].created && id < other
                }
            }
        }),
{
    let names = texts(capabilities);
    let id = before.next(names)->0;
    let view = (result->Ok_0)->0;
    assert(before.has(id));
    assert(before.valid_record(id, before.tasks[id]));
    lemma_shown(view.task, after.tasks[id].task);
    assert(view.task.id == id);
    lemma_could_do(before, capabilities, id);
    lemma_could_do(before, capabilities, other);
    if could_do(before, capabilities, other) && other != id {
        assert(before.has(other));
        assert(before.valid_record(other, before.tasks[other]));
        assert(before.is_ahead(names, id, other));
        if forall|x: Uuid| #[trigger]
            could_do(before, capabilities, x) ==> !has_no_age(before, x) {
            if before.has_undated(names) {
                let x = choose|x: Uuid| #[trigger]
                    before.is_candidate(names, x) && before.is_undated(x);
                lemma_could_do(before, capabilities, x);
                assert(could_do(before, capabilities, x));
            }
            assert(ranks_before(before.task(id), before.task(other)));
        } else {
            let x = choose|x: Uuid| #[trigger]
                could_do(before, capabilities, x) && has_no_age(before, x);
            lemma_could_do(before, capabilities, x);
            assert(before.is_candidate(names, x) && before.is_undated(x));
            assert(before.stands_before(id, other));
        }
    }
}

} // verus!
