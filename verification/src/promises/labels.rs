//! What is told of labels, and what a new explanation of one changes.

use super::claims::is_unblocked;
use super::requests::{asked_name, requirements_are_stored_as_requested};
use crate::board::{asks_for, explanation, Board};
use crate::dates::{dates_are_ordered, dates_are_transitive};
use crate::ids::Uuid;
use crate::laws::{
    every_carrier_holds_the_explanation, ready_means_todo_with_every_dependency_done,
};
use crate::model::{CreateTask, Label, RequirementInput, RequirementModel, Status};
use crate::rows::{columns_error, TaskColumnsModel};
use crate::rules::{tidy_description, Fault, StoreError};
use crate::steps::{count_fault, reworded, OwnedAction};
use crate::store::labels::{label_models, relabels};
use crate::text::{precedes, trimmed, trimmed_is_idempotent};
use crate::time::timestamp_text;
use serde_json::Value;
use vstd::prelude::*;
use vstd::set_lib::lemma_set_subset_finite;

verus! {

/// Whether a task that is to be done, in progress or failed requires the given name.
pub open spec fn is_labelled(board: Board, id: Uuid, name: Seq<char>) -> bool {
    &&& board.tasks.contains_key(id)
    &&& {
        ||| board.tasks[id].task.status == Status::Todo
        ||| board.tasks[id].task.status == Status::InProgress
        ||| board.tasks[id].task.status == Status::Failed
    }
    &&& exists|i: int|
        0 <= i < board.tasks[id].task.requires.len() && (
        #[trigger] board.tasks[id].task.requires[i]).name == name
}

/// The tasks that are to be done, in progress or failed and require the given name.
pub open spec fn labelled(board: Board, name: Seq<char>) -> Set<Uuid> {
    Set::new(|id: Uuid| is_labelled(board, id, name))
}

/// Those of them that are to be done and whose dependencies are all done.
pub open spec fn labelled_ready(board: Board, name: Seq<char>) -> Set<Uuid> {
    Set::new(
        |id: Uuid|
            is_labelled(board, id, name) && board.tasks[id].task.status == Status::Todo
                && is_unblocked(board, id),
    )
}

/// The number of open tasks of a label is that of the tasks in status todo, in progress
/// or failed that require its name; the number of ready ones is that of those of them
/// that are to be done and that nothing blocks.
pub proof fn a_label_counts_its_tasks(board: Board, name: Seq<char>, label: Label)
    requires
        board.valid(),
        label@ == board.label(name),
    ensures
        label.name@ == name,
        labelled(board, name).finite(),
        label.open_tasks == labelled(board, name).len(),
        label.ready_tasks == labelled_ready(board, name).len(),
{
    lemma_counted(board, name);
}

proof fn lemma_counted(board: Board, name: Seq<char>)
    ensures
        board.carriers(name) == labelled(board, name),
        board.ready_carriers(name) == labelled_ready(board, name),
        board.tasks.dom().finite() ==> labelled(board, name).finite(),
        forall|id: Uuid| #[trigger]
            board.carries(id, name) <==> is_labelled(board, id, name),
{
    assert forall|id: Uuid| #[trigger] board.carries(id, name) <==> is_labelled(
        board,
        id,
        name,
    ) by {
        lemma_carried(board, id, name);
    }
    assert forall|id: Uuid| #[trigger]
        board.ready_carriers(name).contains(id) <==> labelled_ready(board, name).contains(id) by {
        lemma_carried(board, id, name);
        ready_means_todo_with_every_dependency_done(board, id);
        assert(is_unblocked(board, id) <==> forall|d: Uuid| #[trigger]
            board.task(id).depends_on.contains(d) ==> board.task(d).status == Status::Done);
    }
    assert(board.carriers(name) =~= labelled(board, name));
    assert(board.ready_carriers(name) =~= labelled_ready(board, name));
    if board.tasks.dom().finite() {
        assert(labelled(board, name).subset_of(board.tasks.dom()));
        lemma_set_subset_finite(board.tasks.dom(), labelled(board, name));
    }
}

proof fn lemma_carried(board: Board, id: Uuid, name: Seq<char>)
    ensures
        board.carries(id, name) <==> is_labelled(board, id, name),
{
    let list = board.task(id).requires;
    if asks_for(list, name) {
        let i = choose|i: int| 0 <= i < list.len() && (#[trigger] list[i]).name == name;
        assert(board.tasks[id].task.requires[i].name == name);
    }
    if is_labelled(board, id, name) {
        let i = choose|i: int|
            0 <= i < board.tasks[id].task.requires.len() && (
            #[trigger] board.tasks[id].task.requires[i]).name == name;
        assert(list[i].name == name);
    }
}

/// Completing a task takes it from each of its labels, and so does cancelling it;
/// failing, releasing and claiming it leaves it with them.
pub proof fn only_closing_a_task_lowers_a_count(
    board: Board,
    id: Uuid,
    agent: Seq<char>,
    result: Option<Value>,
    now: int,
    name: Seq<char>,
)
    requires
        board.valid(),
        is_labelled(board, id, name),
    ensures
        board.transition_fault(id, agent, OwnedAction::Complete) is None ==> board.transitioned(
            id,
            OwnedAction::Complete,
            result,
            now,
        ).label(name).open_tasks == board.label(name).open_tasks - 1,
        board.cancel_fault(id) is None ==> board.cancelled(id, now).label(name).open_tasks
            == board.label(name).open_tasks - 1,
        board.transition_fault(id, agent, OwnedAction::Fail) is None ==> board.transitioned(
            id,
            OwnedAction::Fail,
            result,
            now,
        ).label(name).open_tasks == board.label(name).open_tasks,
        board.transition_fault(id, agent, OwnedAction::Release) is None ==> board.transitioned(
            id,
            OwnedAction::Release,
            result,
            now,
        ).label(name).open_tasks == board.label(name).open_tasks,
        board.claim_fault(id) is None ==> board.claimed(id, agent, now).label(name).open_tasks
            == board.label(name).open_tasks,
        board.retry_fault(id) is None ==> board.retried(id, now).label(name).open_tasks
            == board.label(name).open_tasks,
        board.delete_fault(id) is None ==> board.deleted(id).label(name).open_tasks == board.label(
            name,
        ).open_tasks - 1,
{
    lemma_counted(board, name);
    let done = board.transitioned(id, OwnedAction::Complete, result, now);
    let failed = board.transitioned(id, OwnedAction::Fail, result, now);
    let released = board.transitioned(id, OwnedAction::Release, result, now);
    lemma_labels_after(board, done, id, name);
    lemma_labels_after(board, failed, id, name);
    lemma_labels_after(board, released, id, name);
    lemma_labels_after(board, board.cancelled(id, now), id, name);
    lemma_labels_after(board, board.claimed(id, agent, now), id, name);
    lemma_labels_after(board, board.retried(id, now), id, name);
    lemma_labels_after(board, board.deleted(id), id, name);
}

/// Where only one task may differ, only that task comes or goes.
proof fn lemma_labels_after(before: Board, after: Board, id: Uuid, name: Seq<char>)
    requires
        before.tasks.dom().finite(),
        is_labelled(before, id, name),
        forall|other: Uuid|
            other != id ==> (#[trigger] after.tasks.contains_key(other)
                <==> before.tasks.contains_key(other)),
        forall|other: Uuid|
            other != id && #[trigger] before.tasks.contains_key(other) ==> after.tasks[other]
                == before.tasks[other],
    ensures
        is_labelled(after, id, name) ==> after.label(name).open_tasks == before.label(
            name,
        ).open_tasks,
        !is_labelled(after, id, name) ==> after.label(name).open_tasks == before.label(
            name,
        ).open_tasks - 1,
        after.tasks.contains_key(id) && after.tasks[id].task.requires
            == before.tasks[id].task.requires ==> (is_labelled(after, id, name) <==> (
        after.tasks[id].task.status == Status::Todo || after.tasks[id].task.status
            == Status::InProgress || after.tasks[id].task.status == Status::Failed)),
{
    lemma_counted(before, name);
    lemma_counted(after, name);
    let a = labelled(before, name);
    let b = labelled(after, name);
    assert(a.contains(id));
    assert forall|x: Uuid| x != id implies (#[trigger] b.contains(x) <==> a.contains(x)) by {
        assert(after.tasks.contains_key(x) <==> before.tasks.contains_key(x));
        if before.tasks.contains_key(x) {
            assert(after.tasks[x] == before.tasks[x]);
        }
    }
    if is_labelled(after, id, name) {
        assert(b =~= a);
    } else {
        assert(b =~= a.remove(id));
    }
    if after.tasks.contains_key(id) && after.tasks[id].task.requires
        == before.tasks[id].task.requires {
        let i = choose|i: int|
            0 <= i < before.tasks[id].task.requires.len() && (
            #[trigger] before.tasks[id].task.requires[i]).name == name;
        assert(after.tasks[id].task.requires[i].name == name);
    }
}

/// Creating a task that requires a name adds one to the label of that name, and leaves
/// the labels of names that it does not require.
pub proof fn a_new_task_is_counted(
    board: Board,
    id: Uuid,
    request: CreateTask,
    now: int,
    name: Seq<char>,
)
    requires
        board.valid(),
        board.create_fault(id, request@) is None,
    ensures
        board.created(id, request@, now).label(name).open_tasks == board.label(name).open_tasks
            + if exists|k: int|
            0 <= k < request.requires@.len() && trimmed(
                asked_name(#[trigger] request.requires@[k]),
            ) == name {
            1int
        } else {
            0int
        },
{
    let after = board.created(id, request@, now);
    lemma_counted(board, name);
    lemma_counted(after, name);
    let a = labelled(board, name);
    let b = labelled(after, name);
    let stored = after.tasks[id].task.requires;
    requirements_are_stored_as_requested(request.requires@);
    let names = request.requires@.map_values(
        |input: RequirementInput| trimmed(asked_name(input)),
    );
    let kept = stored.map_values(
        |requirement: RequirementModel| requirement.name,
    );
    assert(kept.contains(name) <==> names.contains(name));
    assert(is_labelled(after, id, name) <==> kept.contains(name)) by {
        if is_labelled(after, id, name) {
            let i = choose|i: int|
                0 <= i < after.tasks[id].task.requires.len() && (
                #[trigger] after.tasks[id].task.requires[i]).name == name;
            assert(kept[i] == name);
        }
        if kept.contains(name) {
            let i = choose|i: int| 0 <= i < kept.len() && kept[i] == name;
            assert(after.tasks[id].task.requires[i].name == name);
        }
    }
    assert(names.contains(name) <==> exists|k: int|
        0 <= k < request.requires@.len() && trimmed(asked_name(#[trigger] request.requires@[k]))
            == name) by {
        if names.contains(name) {
            let k = choose|k: int| 0 <= k < names.len() && names[k] == name;
            assert(trimmed(asked_name(request.requires@[k])) == name);
        }
        if exists|k: int|
            0 <= k < request.requires@.len() && trimmed(
                asked_name(#[trigger] request.requires@[k]),
            ) == name {
            let k = choose|k: int|
                0 <= k < request.requires@.len() && trimmed(
                    asked_name(#[trigger] request.requires@[k]),
                ) == name;
            assert(names[k] == name);
        }
    }
    assert(!board.tasks.contains_key(id)) by {
        assert(!board.has(id));
    }
    assert forall|x: Uuid| x != id implies (#[trigger] b.contains(x) <==> a.contains(x)) by {}
    if is_labelled(after, id, name) {
        assert(b =~= a.insert(id));
    } else {
        assert(b =~= a);
    }
}

/// Whether an open task explains the label of the given name with the given text.
pub open spec fn explains_with(
    board: Board,
    id: Uuid,
    name: Seq<char>,
    text: Seq<char>,
) -> bool {
    &&& is_labelled(board, id, name)
    &&& exists|i: int|
        0 <= i < board.tasks[id].task.requires.len() && (
        #[trigger] board.tasks[id].task.requires[i]).name == name
            && board.tasks[id].task.requires[i].description == Some(text)
}

/// The explanation of a label is one that an open task holds: no other open task that
/// holds one was changed later, as the texts of times are compared, and of those that
/// were changed at the same time none has a higher identifier. A label has none exactly
/// when no open task holds one.
pub proof fn a_label_is_explained_by_the_last_change(board: Board, name: Seq<char>)
    requires
        board.valid(),
    ensures
        board.label(name).description is None <==> forall|id: Uuid, text: Seq<char>|
            !#[trigger] explains_with(board, id, name, text),
        board.label(name).description matches Some(text) ==> exists|id: Uuid|
            {
                &&& #[trigger] explains_with(board, id, name, text)
                &&& forall|other: Uuid, words: Seq<char>|
                    other != id && #[trigger] explains_with(board, other, name, words)
                        ==> precedes(board.tasks[other].updated, board.tasks[id].updated) || (
                    board.tasks[other].updated == board.tasks[id].updated && other < id)
            },
{
    let explainers = Set::new(|id: Uuid| board.explains(id, name));
    assert forall|id: Uuid, text: Seq<char>| #[trigger]
        explains_with(board, id, name, text) <==> board.explains(id, name) && explanation(
            board.task(id).requires,
            name,
        ) == Some(text) by {
        lemma_explained(board, id, name, text);
    }
    assert(explainers.subset_of(board.tasks.dom())) by {
        assert forall|x: Uuid| explainers.contains(x) implies board.tasks.dom().contains(x) by {
            assert(board.explains(x, name));
        }
    }
    lemma_set_subset_finite(board.tasks.dom(), explainers);
    if exists|id: Uuid| #[trigger] board.explains(id, name) {
        let some = choose|id: Uuid| #[trigger] board.explains(id, name);
        assert(explainers.contains(some));
        let top = lemma_latest(board, explainers);
        assert forall|other: Uuid|
            other != top && #[trigger] board.explains(other, name) implies board.is_later(
            top,
            other,
        ) by {
            assert(explainers.contains(other));
        }
        assert(explainers.contains(top));
        assert(board.explains(top, name));
        assert(board.speaks_for(top, name));
        let speaker = choose|id: Uuid| board.speaks_for(id, name);
        assert(board.speaks_for(speaker, name));
        let text = explanation(board.task(speaker).requires, name)->0;
        assert(board.label(name).description == Some(text));
        assert(explains_with(board, speaker, name, text));
        assert forall|other: Uuid, words: Seq<char>|
            other != speaker && #[trigger] explains_with(board, other, name, words) implies precedes(
            board.tasks[other].updated,
            board.tasks[speaker].updated,
        ) || (board.tasks[other].updated == board.tasks[speaker].updated && other < speaker) by {
            assert(board.explains(other, name));
            assert(board.is_later(speaker, other));
        }
    } else {
        assert forall|id: Uuid| !board.speaks_for(id, name) by {
            assert(!board.explains(id, name));
        }
    }
}

proof fn lemma_explained(board: Board, id: Uuid, name: Seq<char>, text: Seq<char>)
    requires
        board.valid(),
    ensures
        explains_with(board, id, name, text) <==> board.explains(id, name) && explanation(
            board.task(id).requires,
            name,
        ) == Some(text),
{
    lemma_carried(board, id, name);
    let list = board.task(id).requires;
    if board.carries(id, name) {
        assert(board.has(id));
        assert(board.valid_record(id, board.tasks[id]));
        let k = choose|k: int| 0 <= k < list.len() && (#[trigger] list[k]).name == name;
        assert(list[k].name == name);
        if explains_with(board, id, name, text) {
            let i = choose|i: int|
                0 <= i < board.tasks[id].task.requires.len() && (
                #[trigger] board.tasks[id].task.requires[i]).name == name
                    && board.tasks[id].task.requires[i].description == Some(text);
            assert(i == k) by {
                if i < k {
                    assert(list[i].name != list[k].name);
                } else if k < i {
                    assert(list[k].name != list[i].name);
                }
            }
        }
        if explanation(list, name) == Some(text) {
            assert(board.tasks[id].task.requires[k].name == name);
        }
    }
}

/// The member of a finite set of tasks that was changed after the others.
proof fn lemma_latest(board: Board, ids: Set<Uuid>) -> (top: Uuid)
    requires
        ids.finite(),
        ids.len() > 0,
    ensures
        ids.contains(top),
        forall|other: Uuid|
            other != top && #[trigger] ids.contains(other) ==> board.is_later(top, other),
    decreases ids.len(),
{
    let one = ids.choose();
    let rest = ids.remove(one);
    if rest.len() == 0 {
        assert forall|other: Uuid|
            other != one && #[trigger] ids.contains(other) implies board.is_later(one, other) by {
            assert(rest.contains(other));
        }
        one
    } else {
        let found = lemma_latest(board, rest);
        let a = (board.tasks[one].updated, one);
        let b = (board.tasks[found].updated, found);
        dates_are_ordered(a, b);
        if board.is_later(one, found) {
            assert forall|other: Uuid|
                other != one && #[trigger] ids.contains(other) implies board.is_later(
                one,
                other,
            ) by {
                assert(rest.contains(other));
                if other != found {
                    dates_are_transitive((board.tasks[other].updated, other), b, a);
                }
            }
            one
        } else {
            assert forall|other: Uuid|
                other != found && #[trigger] ids.contains(other) implies board.is_later(
                found,
                other,
            ) by {
                if other != one {
                    assert(rest.contains(other));
                }
            }
            found
        }
    }
}

/// The list of labels holds the name of every requirement of an open task, once, and no
/// other name, in the order of the names; each label is as it is told by itself.
pub proof fn the_labels_are_those_of_open_tasks(board: Board, labels: Seq<Label>)
    requires
        board.is_labelled_as(label_models(labels)),
    ensures
        forall|i: int|
            0 <= i < labels.len() ==> (exists|id: Uuid| #[trigger]
                is_labelled(board, id, (#[trigger] labels[i]).name@)) && labels[i]@ == board.label(
                labels[i].name@,
            ),
        forall|id: Uuid, name: Seq<char>| #[trigger]
            is_labelled(board, id, name) ==> exists|i: int|
                0 <= i < labels.len() && (#[trigger] labels[i]).name@ == name,
        forall|i: int, j: int|
            0 <= i < j < labels.len() ==> precedes(
                (#[trigger] labels[i]).name@,
                (#[trigger] labels[j]).name@,
            ),
{
    let models = label_models(labels);
    assert forall|i: int| 0 <= i < labels.len() implies (exists|id: Uuid| #[trigger]
        is_labelled(board, id, (#[trigger] labels[i]).name@)) && labels[i]@ == board.label(
        labels[i].name@,
    ) by {
        assert(models[i] == labels[i]@);
        assert(board.in_use(models[i].name));
        let id = choose|id: Uuid| board.carries(id, models[i].name);
        lemma_carried(board, id, models[i].name);
        assert(is_labelled(board, id, labels[i].name@));
    }
    assert forall|id: Uuid, name: Seq<char>| #[trigger]
        is_labelled(board, id, name) implies exists|i: int|
        0 <= i < labels.len() && (#[trigger] labels[i]).name@ == name by {
        lemma_carried(board, id, name);
        assert(board.carries(id, name));
        assert(board.in_use(name));
        let i = choose|i: int| 0 <= i < models.len() && models[i].name == name;
        assert(labels[i].name@ == name);
    }
    assert forall|i: int, j: int| 0 <= i < j < labels.len() implies precedes(
        (#[trigger] labels[i]).name@,
        (#[trigger] labels[j]).name@,
    ) by {
        assert(models[i] == labels[i]@ && models[j] == labels[j]@);
        assert(precedes(models[i].name, models[j].name));
    }
}

/// Whether an explanation as it is stored is the given one, trimmed, and none where
/// nothing but white space is given.
pub open spec fn is_stored_reason(
    stored: Option<Seq<char>>,
    given: Option<Seq<char>>,
) -> bool {
    match given {
        None => stored is None,
        Some(text) => if trimmed(text).len() == 0 {
            stored is None
        } else {
            stored == Some(trimmed(text))
        },
    }
}

/// After a new explanation of a label, every open task that requires its name holds that
/// explanation beside it, and its other requirements and everything else that it is about
/// stay. A task that did not hold it counts one version, at the time of the change. Every
/// other task, every artifact and the number of tasks stay.
pub proof fn a_new_explanation_reaches_every_open_task(
    result: Result<Label, StoreError>,
    before: Board,
    after: Board,
    name: Seq<char>,
    description: Option<Seq<char>>,
    now: int,
    id: Uuid,
)
    requires
        before.valid(),
        relabels(result, before, after, name, description, now),
        result is Ok,
        before.tasks.contains_key(id),
    ensures
        after.tasks.dom() == before.tasks.dom(),
        after.artifacts == before.artifacts,
        !is_labelled(before, id, trimmed(name)) ==> after.tasks[id] == before.tasks[id],
        is_labelled(before, id, trimmed(name)) ==> is_labelled(after, id, trimmed(name)),
        ({
            let old_task = before.tasks[id].task;
            let new_task = after.tasks[id].task;
            &&& new_task.requires.len() == old_task.requires.len()
            &&& forall|i: int|
                0 <= i < old_task.requires.len() ==> (#[trigger] new_task.requires[i]).name
                    == old_task.requires[i].name
            &&& forall|i: int|
                0 <= i < old_task.requires.len() && (#[trigger] new_task.requires[i]).name
                    != trimmed(name) ==> new_task.requires[i] == old_task.requires[i]
            &&& is_labelled(before, id, trimmed(name)) ==> forall|i: int|
                0 <= i < old_task.requires.len() && (#[trigger] new_task.requires[i]).name
                    == trimmed(name) ==> is_stored_reason(
                    new_task.requires[i].description,
                    description,
                )
            &&& new_task.id == old_task.id
            &&& new_task.title == old_task.title
            &&& new_task.description == old_task.description
            &&& new_task.status == old_task.status
            &&& new_task.priority == old_task.priority
            &&& new_task.depends_on == old_task.depends_on
            &&& new_task.metadata == old_task.metadata
            &&& new_task.claimed_by == old_task.claimed_by
            &&& new_task.result == old_task.result
            &&& new_task.created_at == old_task.created_at
            &&& after.tasks[id].created == before.tasks[id].created
            &&& after.tasks[id].closed_at == before.tasks[id].closed_at
            &&& new_task.requires == old_task.requires ==> after.tasks[id] == before.tasks[id]
            &&& new_task.requires != old_task.requires ==> {
                &&& new_task.updated_at == now
                &&& after.tasks[id].updated == timestamp_text(now)
                &&& before.tasks[id].raw is None ==> new_task.version == old_task.version + 1
                    && after.tasks[id].raw is None
                &&& before.tasks[id].raw matches Some(columns) ==> {
                    let counted = TaskColumnsModel {
                        updated_at: timestamp_text(now),
                        version: (columns.version + 1) as i64,
                        ..columns
                    };
                    &&& columns_error(counted) is Some ==> after.tasks[id].raw == Some(counted)
                    &&& columns_error(counted) is None ==> after.tasks[id].raw is None
                    &&& columns.version >= 0 ==> new_task.version == columns.version + 1
                }
            }
        }),
{
    let label = trimmed(name);
    let text = tidy_description(description);
    lemma_carried(before, id, label);
    assert(before.has(id));
    assert(before.valid_record(id, before.tasks[id]));
    assert(after.tasks.dom() =~= before.tasks.dom());
    let list = before.tasks[id].task.requires;
    let words = after.tasks[id].task.requires;
    assert(after.tasks[id] == before.reworded_record(id, label, text, now));
    if before.carries(id, label) {
        let k = choose|k: int| 0 <= k < list.len() && (#[trigger] list[k]).name == label;
        assert(explanation(list, label) == list[k].description);
        assert forall|i: int| 0 <= i < list.len() && i != k implies (#[trigger] list[i]).name
            != label by {
            if i < k {
                assert(list[i].name != list[k].name);
            } else {
                assert(list[k].name != list[i].name);
            }
        }
        if before.is_reworded(id, label, text) {
            assert(words == reworded(list, label, text));
            assert(words[k].description != list[k].description);
            assert(words[k].name == label);
            assert(after.tasks[id].task.requires[k].name == label);
            assert(count_fault(before.tasks[id]) is None);
        } else {
            assert(words == list);
            assert(after.tasks[id].task.requires[k].name == label);
        }
    }
}

/// A refused explanation changes nothing.
pub proof fn a_refused_explanation_changes_nothing(
    result: Result<Label, StoreError>,
    before: Board,
    after: Board,
    name: Seq<char>,
    description: Option<Seq<char>>,
    now: int,
)
    requires
        relabels(result, before, after, name, description, now),
    ensures
        result is Ok <==> before.relabel_fault(name, description) is None,
        result matches Err(error) ==> after == before && before.relabel_fault(name, description)
            == Some(error@),
{
}

/// The answer to a new explanation tells the label by its trimmed name, with that
/// explanation, and with as many tasks as before.
pub proof fn a_new_explanation_is_answered_with_the_label(
    result: Result<Label, StoreError>,
    before: Board,
    after: Board,
    name: Seq<char>,
    description: Option<Seq<char>>,
    now: int,
)
    requires
        before.valid(),
        after.valid(),
        relabels(result, before, after, name, description, now),
        result is Ok,
    ensures
        result->Ok_0.name@ == trimmed(name),
        is_stored_reason(
            match result->Ok_0.description {
                Some(text) => Some(text@),
                None => None,
            },
            description,
        ),
        result->Ok_0.open_tasks == labelled(before, trimmed(name)).len(),
        result->Ok_0.ready_tasks == labelled_ready(before, trimmed(name)).len(),
        labelled(before, trimmed(name)).len() > 0,
{
    let label = trimmed(name);
    let text = tidy_description(description);
    lemma_counted(before, label);
    lemma_counted(after, label);
    assert forall|id: Uuid| before.tasks.contains_key(id) implies {
        let old_task = (#[trigger] before.tasks[id]).task;
        let new_task = after.tasks[id].task;
        &&& new_task.status == old_task.status
        &&& new_task.depends_on == old_task.depends_on
        &&& is_labelled(after, id, label) <==> is_labelled(before, id, label)
    } by {
        a_new_explanation_reaches_every_open_task(
            result,
            before,
            after,
            name,
            description,
            now,
            id,
        );
    }
    assert(after.tasks.dom() =~= before.tasks.dom());
    assert forall|id: Uuid| #[trigger]
        labelled(after, label).contains(id) <==> labelled(before, label).contains(id) by {
        assert(before.tasks.contains_key(id) <==> after.tasks.contains_key(id));
        if before.tasks.contains_key(id) {
            let record = before.tasks[id];
        }
    }
    assert(labelled(after, label) =~= labelled(before, label));
    assert forall|id: Uuid| before.tasks.contains_key(id) implies (is_unblocked(
        before,
        id,
    ) <==> #[trigger] is_unblocked(after, id)) by {
        assert(before.has(id));
        assert(before.valid_record(id, before.tasks[id]));
        let old_task = before.tasks[id].task;
        let new_task = after.tasks[id].task;
        assert(new_task.depends_on == old_task.depends_on);
        assert forall|d: Uuid| #[trigger] old_task.depends_on.contains(d) implies after.tasks[
            d
        ].task.status == before.tasks[d].task.status by {
            assert(before.has(d));
            let record = before.tasks[d];
        }
    }
    assert(labelled_ready(after, label) =~= labelled_ready(before, label)) by {
        assert forall|id: Uuid| #[trigger]
            labelled_ready(after, label).contains(id) <==> labelled_ready(before, label).contains(
                id,
            ) by {
            assert(labelled(after, label).contains(id) <==> labelled(before, label).contains(id));
            if before.tasks.contains_key(id) {
                let record = before.tasks[id];
                assert(is_unblocked(before, id) <==> is_unblocked(after, id));
            }
        }
    }
    let id = choose|id: Uuid| before.carries(id, label);
    assert(before.carries(id, label));
    assert(labelled(before, label).contains(id));
    a_label_is_explained_by_the_last_change(after, label);
    assert(after.label(label).description == text) by {
        assert forall|x: Uuid, words: Seq<char>| #[trigger]
            explains_with(after, x, label, words) implies text == Some(words) by {
            lemma_explained(after, x, label, words);
            assert(before.tasks.contains_key(x));
            let record = before.tasks[x];
            assert(before.carries(x, label));
            every_carrier_holds_the_explanation(before, name, description, now, x);
        }
        if text is Some {
            every_carrier_holds_the_explanation(before, name, description, now, id);
            lemma_explained(after, id, label, text->0);
            assert(explains_with(after, id, label, text->0));
        }
    }
}

/// A new explanation is refused for a name without a character that is not white space or
/// with more than 100 characters, for an explanation of more than 1000 characters, both
/// once trimmed, and for a label that no open task carries.
pub proof fn a_new_explanation_needs_a_label_in_use(
    board: Board,
    name: Seq<char>,
    description: Option<Seq<char>>,
)
    requires
        forall|id: Uuid| #[trigger]
            board.tasks.contains_key(id) ==> board.tasks[id].raw is None
                && board.tasks[id].task.version < 0x7fff_ffff_ffff_ffff,
    ensures
        ({
            let fault = board.relabel_fault(name, description);
            let label = trimmed(name);
            let is_long = description matches Some(text) && trimmed(text).len() > 1000;
            let is_used = exists|id: Uuid| #[trigger] is_labelled(board, id, label);
            &&& fault is None <==> 0 < label.len() <= 100 && !is_long && is_used
            &&& label.len() == 0 ==> fault == Some(
                Fault::Invalid("invalid "@ + "label"@ + " name: must not be empty"@),
            )
            &&& label.len() > 100 ==> fault == Some(
                Fault::Invalid("invalid "@ + "label"@ + " name: must be at most 100 characters"@),
            )
            &&& 0 < label.len() <= 100 && is_long ==> fault == Some(
                Fault::Invalid("requirement description must be at most 1000 characters"@),
            )
            &&& 0 < label.len() <= 100 && !is_long && !is_used ==> fault == Some(Fault::NotFound)
        }),
{
    let label = trimmed(name);
    trimmed_is_idempotent(name);
    lemma_counted(board, label);
    if board.in_use(label) {
        let id = choose|id: Uuid| board.carries(id, label);
        assert(board.carries(id, label));
        assert(is_labelled(board, id, label));
    } else {
        assert forall|id: Uuid| !#[trigger] is_labelled(board, id, label) by {
            assert(!board.carries(id, label));
        }
    }
    let text = tidy_description(description);
    assert forall|id: Uuid| #[trigger]
        board.is_reworded(id, label, text) implies count_fault(
        board.tasks[id],
    ) is None by {
        assert(board.tasks.contains_key(id));
    }
}

/// A new explanation is given to all open tasks that carry the label or to none: it is
/// refused where one of them that does not hold it has reached the last version.
pub proof fn a_new_explanation_is_for_all_or_none(
    board: Board,
    name: Seq<char>,
    description: Option<Seq<char>>,
    id: Uuid,
    i: int,
)
    requires
        board.valid(),
        0 < trimmed(name).len() <= 100,
        description matches Some(text) ==> trimmed(text).len() <= 1000,
        is_labelled(board, id, trimmed(name)),
        board.tasks[id].raw is None,
        board.tasks[id].task.version >= 0x7fff_ffff_ffff_ffff,
        0 <= i < board.tasks[id].task.requires.len(),
        board.tasks[id].task.requires[i].name == trimmed(name),
        !is_stored_reason(board.tasks[id].task.requires[i].description, description),
    ensures
        board.relabel_fault(name, description) == Some(
            Fault::Internal("task version exceeds SQLite integer range"@),
        ),
{
    let label = trimmed(name);
    let list = board.task(id).requires;
    trimmed_is_idempotent(name);
    lemma_carried(board, id, label);
    assert(board.carries(id, label));
    assert(board.has(id));
    assert(board.valid_record(id, board.tasks[id]));
    let k = choose|k: int| 0 <= k < list.len() && (#[trigger] list[k]).name == label;
    assert(list[i].name == label);
    assert(i == k) by {
        if i < k {
            assert(list[i].name != list[k].name);
        } else if k < i {
            assert(list[k].name != list[i].name);
        }
    }
    assert(explanation(list, label) == list[i].description);
    assert(board.is_reworded(id, label, tidy_description(description)));
}

} // verus!
