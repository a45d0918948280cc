//! What a task that is read tells, of itself and of the rest of the board.

use super::{keeps_the_order, lemma_picked};
use crate::board::{ranks_before, Board};
use crate::ids::{ascending_holds_all, Uuid};
use crate::laws::{
    blocked_by_holds_what_is_not_done, dependents_mirror_dependencies,
    ready_means_todo_with_every_dependency_done,
};
use crate::model::{
    PatchModel, Requirement, RequirementModel, Status, Task, TaskModel, TaskView,
};
use crate::rows::columns_error;
use crate::rules::Fault;
use crate::steps::OwnedAction;
use crate::store::views::view_models;
use crate::text::precedes;
use crate::validity::{lemma_rows_stand_in_order, lemma_rows_stand_transitively};
use vstd::prelude::*;
use vstd::set_lib::lemma_set_subset_finite;

verus! {

/// Whether a requirement that is sent is the given one.
pub open spec fn shows_requirement(sent: Requirement, stored: RequirementModel) -> bool {
    &&& sent.name@ == stored.name
    &&& match sent.description {
        Some(text) => stored.description == Some(text@),
        None => stored.description is None,
    }
}

/// Whether a task that is sent is the given one, field by field.
pub open spec fn shows(sent: Task, stored: TaskModel) -> bool {
    &&& sent.id == stored.id
    &&& sent.title@ == stored.title
    &&& sent.description@ == stored.description
    &&& sent.status == stored.status
    &&& sent.priority == stored.priority
    &&& sent.requires@.len() == stored.requires.len()
    &&& forall|i: int|
        0 <= i < sent.requires@.len() ==> shows_requirement(
            #[trigger] sent.requires@[i],
            stored.requires[i],
        )
    &&& sent.depends_on@ == stored.depends_on
    &&& sent.metadata == stored.metadata
    &&& match sent.claimed_by {
        Some(agent) => stored.claimed_by == Some(agent@),
        None => stored.claimed_by is None,
    }
    &&& sent.result == stored.result
    &&& sent.created_at@ == stored.created_at
    &&& sent.updated_at@ == stored.updated_at
    &&& sent.version == stored.version
}

/// A task that is read shows every field of the task on the board. What blocks it are
/// those of its dependencies that are not done, in their order; its dependents are the
/// tasks that depend on it, the lowest identifier first; and it is ready exactly when it
/// is to be done and nothing blocks it.
pub proof fn a_task_is_shown_as_it_stands(board: Board, id: Uuid, view: TaskView)
    requires
        board.valid(),
        board.tasks.contains_key(id),
        view@ == board.view_of(id),
    ensures
        shows(view.task, board.tasks[id].task),
        view.task.id == id,
        view.blocked_by@.no_duplicates(),
        forall|d: Uuid| #[trigger]
            view.blocked_by@.contains(d) <==> board.tasks[id].task.depends_on.contains(d)
                && board.tasks[d].task.status != Status::Done,
        keeps_the_order(view.blocked_by@, board.tasks[id].task.depends_on),
        forall|i: int, j: int|
            0 <= i < j < view.dependents@.len() ==> view.dependents@[i] < view.dependents@[j],
        forall|other: Uuid| #[trigger]
            view.dependents@.contains(other) <==> board.tasks.contains_key(other)
                && board.tasks[other].task.depends_on.contains(id),
        view.ready <==> board.tasks[id].task.status == Status::Todo && (forall|d: Uuid| #[trigger]
            board.tasks[id].task.depends_on.contains(d) ==> board.tasks[d].task.status
                == Status::Done),
{
    lemma_shown(view.task, board.tasks[id].task);
    assert(board.valid_record(id, board.tasks[id])) by {
        assert(board.has(id));
    }
    assert forall|d: Uuid| #[trigger]
        view.blocked_by@.contains(d) <==> board.tasks[id].task.depends_on.contains(d)
            && board.tasks[d].task.status != Status::Done by {
        blocked_by_holds_what_is_not_done(board, id, d);
    }
    lemma_picked(board.task(id).depends_on, |d: Uuid| board.is_unmet(d));
    assert forall|other: Uuid| #[trigger]
        view.dependents@.contains(other) <==> board.tasks.contains_key(other)
            && board.tasks[other].task.depends_on.contains(id) by {
        dependents_mirror_dependencies(board, id, other);
    }
    lemma_dependents_ascend(board, id);
    ready_means_todo_with_every_dependency_done(board, id);
}

/// A task whose mathematical value is given shows it.
pub proof fn lemma_shown(sent: Task, stored: TaskModel)
    requires
        sent@ == stored,
    ensures
        shows(sent, stored),
{
    assert forall|i: int| 0 <= i < sent.requires@.len() implies shows_requirement(
        #[trigger] sent.requires@[i],
        stored.requires[i],
    ) by {
        assert(stored.requires[i] == sent.requires@[i]@);
    }
}

/// The dependents of a task stand in the order of their identifiers.
pub proof fn lemma_dependents_ascend(board: Board, id: Uuid)
    requires
        board.valid(),
    ensures
        forall|i: int, j: int|
            0 <= i < j < board.dependents(id).len() ==> board.dependents(id)[i]
                < board.dependents(id)[j],
{
    let members = board.dependent_set(id);
    assert(members.subset_of(board.tasks.dom())) by {
        assert forall|x: Uuid| members.contains(x) implies board.tasks.dom().contains(x) by {
            assert(board.depends(x, id));
        }
    }
    lemma_set_subset_finite(board.tasks.dom(), members);
    ascending_holds_all(members);
}

/// A task is read exactly when it is on the board and legible: what is not there is not
/// found, and what the board itself wrote can be read.
pub proof fn what_exists_can_be_read(board: Board, id: Uuid)
    ensures
        board.read_fault(id) == Some(Fault::NotFound) <==> !board.tasks.contains_key(id),
        board.tasks.contains_key(id) && board.tasks[id].raw is None ==> board.read_fault(id)
            is None,
        board.read_fault(id) matches Some(fault) ==> fault == Fault::NotFound || fault is Internal,
{
}

/// A task that cannot be read is not read, changed, deleted or moved on: every operation
/// on it is refused for what is wrong with its first column that cannot be read.
pub proof fn what_cannot_be_read_is_left_alone(
    board: Board,
    id: Uuid,
    agent: Seq<char>,
    action: OwnedAction,
    patch: PatchModel,
    filename: Seq<char>,
    content_type: Seq<char>,
)
    requires
        board.valid(),
        board.tasks.contains_key(id),
        board.tasks[id].raw is Some,
    ensures
        ({
            let refusal = Some(Fault::Internal(columns_error(board.tasks[id].raw->0)->0));
            &&& columns_error(board.tasks[id].raw->0) is Some
            &&& board.read_fault(id) == refusal
            &&& board.patch_fault(id, patch) == refusal
            &&& board.delete_fault(id) == refusal
            &&& board.claim_fault(id) == refusal
            &&& board.transition_fault(id, agent, action) == refusal
            &&& board.cancel_fault(id) == refusal
            &&& board.retry_fault(id) == refusal
            &&& board.artifacts_fault(id) == refusal
            &&& board.upload_fault(id, agent, filename, content_type) == refusal
        }),
{
    assert(board.has(id));
    assert(board.valid_record(id, board.tasks[id]));
}

/// The tasks are listed exactly when each of them can be read. What is refused is refused
/// for the first that cannot: the one with the highest priority, then with the least text
/// of the time of its creation, then with the lowest identifier.
pub proof fn one_illegible_task_stops_the_list(board: Board)
    requires
        board.valid(),
    ensures
        board.list_fault() is None <==> forall|id: Uuid| #[trigger]
            board.tasks.contains_key(id) ==> board.tasks[id].raw is None,
        board.list_fault() matches Some(fault) ==> exists|id: Uuid|
            {
                &&& #[trigger] board.tasks.contains_key(id)
                &&& board.tasks[id].raw is Some
                &&& board.read_fault(id) == Some(fault)
                &&& fault is Internal
                &&& forall|other: Uuid|
                    other != id && #[trigger] board.tasks.contains_key(other)
                        && board.tasks[other].raw is Some ==> {
                        let a = board.tasks[id];
                        let b = board.tasks[other];
                        ||| a.task.priority > b.task.priority
                        ||| a.task.priority == b.task.priority && precedes(a.created, b.created)
                        ||| a.task.priority == b.task.priority && a.created == b.created && id
                            < other
                    }
            },
{
    let flawed = Set::new(|id: Uuid| board.is_flawed(id));
    assert(flawed.subset_of(board.tasks.dom())) by {
        assert forall|x: Uuid| flawed.contains(x) implies board.tasks.dom().contains(x) by {
            assert(board.is_flawed(x));
        }
    }
    lemma_set_subset_finite(board.tasks.dom(), flawed);
    assert forall|id: Uuid| #[trigger] board.is_flawed(id) <==> board.tasks.contains_key(id)
        && board.tasks[id].raw is Some by {
        if board.tasks.contains_key(id) {
            assert(board.has(id));
            assert(board.valid_record(id, board.tasks[id]));
        }
    }
    if exists|id: Uuid| #[trigger] board.is_flawed(id) {
        let one = choose|id: Uuid| #[trigger] board.is_flawed(id);
        assert(flawed.contains(one));
        let top = lemma_first_row(board, flawed);
        assert forall|other: Uuid|
            other != top && #[trigger] board.is_flawed(other) implies board.stands_before(
            top,
            other,
        ) by {
            assert(flawed.contains(other));
        }
        assert(flawed.contains(top));
        assert(board.is_first_flawed(top));
        let first = choose|id: Uuid| board.is_first_flawed(id);
        assert(board.is_first_flawed(first));
        assert(board.tasks.contains_key(first));
        assert forall|other: Uuid|
            other != first && #[trigger] board.tasks.contains_key(other) && board.tasks[other].raw
                is Some implies {
            let a = board.tasks[first];
            let b = board.tasks[other];
            ||| a.task.priority > b.task.priority
            ||| a.task.priority == b.task.priority && precedes(a.created, b.created)
            ||| a.task.priority == b.task.priority && a.created == b.created && first < other
        } by {
            assert(board.is_flawed(other));
            assert(board.stands_before(first, other));
        }
        assert(board.tasks.contains_key(one));
    } else {
        assert forall|id: Uuid| !board.is_first_flawed(id) by {
            assert(!board.is_flawed(id));
        }
        assert forall|id: Uuid| #[trigger] board.tasks.contains_key(id) implies board.tasks[id].raw
            is None by {
            assert(!board.is_flawed(id));
        }
    }
}

/// The member of a finite set of tasks whose row stands before the others.
proof fn lemma_first_row(board: Board, ids: Set<Uuid>) -> (top: Uuid)
    requires
        ids.finite(),
        ids.len() > 0,
    ensures
        ids.contains(top),
        forall|other: Uuid|
            other != top && #[trigger] ids.contains(other) ==> board.stands_before(top, other),
    decreases ids.len(),
{
    let one = ids.choose();
    let rest = ids.remove(one);
    if rest.len() == 0 {
        assert forall|other: Uuid|
            other != one && #[trigger] ids.contains(other) implies board.stands_before(
            one,
            other,
        ) by {
            assert(rest.contains(other));
        }
        one
    } else {
        let found = lemma_first_row(board, rest);
        lemma_rows_stand_in_order(board, one, found);
        if board.stands_before(one, found) {
            assert forall|other: Uuid|
                other != one && #[trigger] ids.contains(other) implies board.stands_before(
                one,
                other,
            ) by {
                assert(rest.contains(other));
                if other != found {
                    lemma_rows_stand_transitively(board, one, found, other);
                }
            }
            one
        } else {
            assert forall|other: Uuid|
                other != found && #[trigger] ids.contains(other) implies board.stands_before(
                found,
                other,
            ) by {
                if other != one {
                    assert(rest.contains(other));
                }
            }
            found
        }
    }
}

/// The list of all tasks holds every task of the board once, each as it is read by
/// itself: the higher priority first, then the older, then the lower identifier.
pub proof fn the_list_holds_every_task_once(board: Board, views: Seq<TaskView>)
    requires
        board.is_listed_as(view_models(views)),
    ensures
        forall|i: int|
            0 <= i < views.len() ==> board.tasks.contains_key((#[trigger] views[i]).task.id)
                && views[i]@ == board.view_of(views[i].task.id),
        forall|id: Uuid| #[trigger]
            board.tasks.contains_key(id) ==> exists|i: int|
                0 <= i < views.len() && (#[trigger] views[i]).task.id == id,
        forall|i: int, j: int|
            0 <= i < j < views.len() ==> {
                let a = (#[trigger] views[i]).task;
                let b = (#[trigger] views[j]).task;
                ||| a.priority > b.priority
                ||| a.priority == b.priority && a.created_at@ < b.created_at@
                ||| a.priority == b.priority && a.created_at@ == b.created_at@ && a.id < b.id
            },
{
    let models = view_models(views);
    assert forall|i: int| 0 <= i < views.len() implies board.tasks.contains_key(
        (#[trigger] views[i]).task.id,
    ) && views[i]@ == board.view_of(views[i].task.id) by {
        assert(models[i] == views[i]@);
        assert(board.has(models[i].task.id));
    }
    assert forall|id: Uuid| #[trigger] board.tasks.contains_key(id) implies exists|i: int|
        0 <= i < views.len() && (#[trigger] views[i]).task.id == id by {
        assert(board.has(id));
        let i = choose|i: int| 0 <= i < models.len() && models[i].task.id == id;
        assert(views[i].task.id == id);
    }
    assert forall|i: int, j: int| 0 <= i < j < views.len() implies {
        let a = (#[trigger] views[i]).task;
        let b = (#[trigger] views[j]).task;
        ||| a.priority > b.priority
        ||| a.priority == b.priority && a.created_at@ < b.created_at@
        ||| a.priority == b.priority && a.created_at@ == b.created_at@ && a.id < b.id
    } by {
        assert(models[i] == views[i]@ && models[j] == views[j]@);
        assert(ranks_before(models[i].task, models[j].task));
    }
}

} // verus!
