//! What creating, changing and deleting a task leaves on the board.

use super::reading::{lemma_dependents_ascend, lemma_shown, shows};
use super::{is_each_once, lemma_each_once};
use crate::board::Board;
use crate::ids::{first_seen, joined_ids, Uuid};
use crate::laws::{dependents_mirror_dependencies, ready_means_todo_with_every_dependency_done};
use crate::model::{
    input_models, CreateTask, Patch, PatchTask, RequirementInput, RequirementModel, Status,
    TaskView,
};
use crate::rules::{
    first_description, normalized, reports, tidy, tidy_names, Fault, StoreError,
};
use crate::store::answers;
use crate::text::trimmed;
use crate::time::timestamp_text;
use crate::validity::lemma_sound_dependencies;
use vstd::prelude::*;

verus! {

/// The name that a request gives a requirement.
pub open spec fn asked_name(input: RequirementInput) -> Seq<char> {
    match input {
        RequirementInput::Name(name) => name@,
        RequirementInput::Full(requirement) => requirement.name@,
    }
}

/// Whether a request explains the requirement of the given name with the given text,
/// once both are trimmed.
pub open spec fn gives_reason(
    input: RequirementInput,
    name: Seq<char>,
    text: Seq<char>,
) -> bool {
    &&& input matches RequirementInput::Full(requirement)
    &&& trimmed(requirement.name@) == name
    &&& requirement.description matches Some(given)
    &&& trimmed(given@) == text
    &&& text.len() > 0
}

/// Whether a request explains the requirement of the given name.
pub open spec fn gives_any_reason(input: RequirementInput, name: Seq<char>) -> bool {
    exists|text: Seq<char>| gives_reason(input, name, text)
}

/// Whether requirements are the requested ones: their names are the requested ones,
/// trimmed, each once, where it is first seen, and each has the first explanation that is
/// given for its name, trimmed, where one is given.
pub open spec fn holds_requirements(
    stored: Seq<RequirementModel>,
    asked: Seq<RequirementInput>,
) -> bool {
    &&& is_each_once(
        stored.map_values(|requirement: RequirementModel| requirement.name),
        asked.map_values(|input: RequirementInput| trimmed(asked_name(input))),
    )
    &&& forall|i: int| 0 <= i < stored.len() ==> has_first_reason(#[trigger] stored[i], asked)
}

/// Whether a requirement has the first explanation that is given for its name.
pub open spec fn has_first_reason(
    stored: RequirementModel,
    asked: Seq<RequirementInput>,
) -> bool {
    match stored.description {
        None => forall|k: int|
            0 <= k < asked.len() ==> !gives_any_reason(#[trigger] asked[k], stored.name),
        Some(text) => exists|k: int|
            {
                &&& 0 <= k < asked.len()
                &&& gives_reason(#[trigger] asked[k], stored.name, text)
                &&& forall|j: int|
                    0 <= j < k ==> !gives_any_reason(#[trigger] asked[j], stored.name)
            },
    }
}

/// Requirements are stored as they are requested.
pub proof fn requirements_are_stored_as_requested(asked: Seq<RequirementInput>)
    ensures
        holds_requirements(normalized(input_models(asked)), asked),
{
    let models = input_models(asked);
    let stored = normalized(models);
    let names = asked.map_values(|input: RequirementInput| trimmed(asked_name(input)));
    assert(tidy_names(models) =~= names);
    lemma_each_once(names);
    assert(stored.map_values(|requirement: RequirementModel| requirement.name)
        =~= first_seen(names));
    assert forall|i: int| 0 <= i < stored.len() implies has_first_reason(
        #[trigger] stored[i],
        asked,
    ) by {
        lemma_first_reason(asked, stored[i].name);
    }
}

proof fn lemma_first_reason(asked: Seq<RequirementInput>, name: Seq<char>)
    ensures
        has_first_reason(
            RequirementModel {
                name,
                description: first_description(input_models(asked), name),
            },
            asked,
        ),
    decreases asked.len(),
{
    let models = input_models(asked);
    if asked.len() > 0 {
        let front = asked.drop_last();
        let last = asked.len() - 1;
        assert(models.drop_last() =~= input_models(front));
        assert(models.last() == asked[last]@);
        lemma_first_reason(front, name);
        let earlier = first_description(input_models(front), name);
        let found = first_description(models, name);
        assert forall|k: int| 0 <= k < last implies #[trigger] front[k] == asked[k] by {}
        match earlier {
            Some(text) => {
                let k = choose|k: int|
                    {
                        &&& 0 <= k < front.len()
                        &&& gives_reason(#[trigger] front[k], name, text)
                        &&& forall|j: int|
                            0 <= j < k ==> !gives_any_reason(#[trigger] front[j], name)
                    };
                assert(gives_reason(asked[k], name, text));
                assert forall|j: int| 0 <= j < k implies !gives_any_reason(
                    #[trigger] asked[j],
                    name,
                ) by {
                    assert(!gives_any_reason(front[j], name));
                }
            },
            None => {
                assert forall|j: int| 0 <= j < last implies !gives_any_reason(
                    #[trigger] asked[j],
                    name,
                ) by {
                    assert(!gives_any_reason(front[j], name));
                }
                match found {
                    Some(text) => {
                        assert(tidy(models.last()).name == name);
                        assert(gives_reason(asked[last], name, text));
                    },
                    None => {
                        assert(!gives_any_reason(asked[last], name)) by {
                            if gives_any_reason(asked[last], name) {
                                let text = choose|text: Seq<char>|
                                    gives_reason(asked[last], name, text);
                                assert(tidy(models.last()).description == Some(text));
                            }
                        }
                    },
                }
            },
        }
    }
}

/// Whether only the given task may differ between two boards, and no artifact does.
pub open spec fn differs_only_at(before: Board, after: Board, id: Uuid) -> bool {
    &&& forall|other: Uuid|
        other != id ==> (#[trigger] after.tasks.contains_key(other)
            <==> before.tasks.contains_key(other))
    &&& forall|other: Uuid|
        other != id && #[trigger] before.tasks.contains_key(other) ==> after.tasks[other]
            == before.tasks[other]
    &&& after.artifacts == before.artifacts
}

/// A created task is new and holds what was asked for: the title, the description, the
/// priority and the metadata of the request, its dependencies, each once, and its
/// requirements. It is to be done, belongs to no one, has no result, and has been changed
/// at no time but that of its creation. Nothing depends on it, and it is ready exactly
/// when all its dependencies are done. The rest of the board stays.
pub proof fn a_created_task_holds_what_was_asked_for(
    result: Result<TaskView, StoreError>,
    before: Board,
    after: Board,
    id: Uuid,
    request: CreateTask,
    now: int,
)
    requires
        before.valid(),
        after.valid(),
        answers(
            result,
            before,
            after,
            before.create_fault(id, request@),
            before.created(id, request@, now),
            id,
        ),
        result is Ok,
    ensures
        !before.tasks.contains_key(id),
        after.tasks.contains_key(id),
        differs_only_at(before, after, id),
        shows(result->Ok_0.task, after.tasks[id].task),
        ({
            let task = result->Ok_0.task;
            &&& task.id == id
            &&& task.title@ == request.title@
            &&& task.description@ == request.description@
            &&& task.priority == request.priority
            &&& task.metadata == request.metadata
            &&& task.status == Status::Todo
            &&& task.claimed_by is None
            &&& task.result is None
            &&& task.created_at@ == now
            &&& task.updated_at@ == now
            &&& task.version == 1
            &&& is_each_once(task.depends_on@, request.depends_on@)
        }),
        holds_requirements(after.tasks[id].task.requires, request.requires@),
        after.tasks[id].created == timestamp_text(now),
        after.tasks[id].updated == timestamp_text(now),
        after.tasks[id].closed_at is None,
        after.tasks[id].raw is None,
        result->Ok_0.dependents@.len() == 0,
        result->Ok_0.ready <==> forall|d: Uuid| #[trigger]
            request.depends_on@.contains(d) ==> before.tasks[d].task.status == Status::Done,
{
    let view = result->Ok_0;
    lemma_shown(view.task, after.tasks[id].task);
    lemma_each_once(request.depends_on@);
    requirements_are_stored_as_requested(request.requires@);
    assert(!before.has(id));
    ready_means_todo_with_every_dependency_done(after, id);
    lemma_sound_dependencies(before, id, first_seen(request.depends_on@));
    let depends_on = after.tasks[id].task.depends_on;
    assert forall|d: Uuid| #[trigger] depends_on.contains(d) implies after.tasks[d]
        == before.tasks[d] by {}
    if view.ready {
        assert forall|d: Uuid| #[trigger] request.depends_on@.contains(d) implies before.tasks[
            d
        ].task.status == Status::Done by {
            assert(depends_on.contains(d));
            assert(after.task(d).status == Status::Done);
        }
    }
    if forall|d: Uuid| #[trigger]
        request.depends_on@.contains(d) ==> before.tasks[d].task.status == Status::Done {
        assert forall|d: Uuid| #[trigger] after.task(id).depends_on.contains(d) implies after.task(
            d,
        ).status == Status::Done by {
            assert(request.depends_on@.contains(d));
        }
    }
    if view.dependents@.len() > 0 {
        let other = view.dependents@[0];
        assert(view.dependents@.contains(other));
        dependents_mirror_dependencies(after, id, other);
        assert(after.has(other));
        if other != id {
            assert(before.has(other));
            assert(before.valid_record(other, before.tasks[other]));
            assert(before.task(other).depends_on.contains(id));
        } else {
            assert(depends_on.contains(id));
        }
    }
}

/// After a change that is not refused, every field that the change holds has the given
/// value, and every other field stays. The change counts one version, at its time; the
/// status, the owner, the result and the times at which the task was created and closed
/// stay. The rest of the board stays.
pub proof fn a_changed_task_holds_what_was_given(
    result: Result<TaskView, StoreError>,
    before: Board,
    after: Board,
    id: Uuid,
    patch: PatchTask,
    now: int,
)
    requires
        answers(
            result,
            before,
            after,
            before.patch_fault(id, patch@),
            before.patched(id, patch@, now),
            id,
        ),
        result is Ok,
    ensures
        before.tasks.contains_key(id),
        after.tasks.contains_key(id),
        differs_only_at(before, after, id),
        shows(result->Ok_0.task, after.tasks[id].task),
        ({
            let old_task = before.tasks[id].task;
            let new_task = after.tasks[id].task;
            &&& match patch.title {
                Patch::Present(title) => new_task.title == title@,
                Patch::Missing => new_task.title == old_task.title,
            }
            &&& match patch.description {
                Patch::Present(description) => new_task.description == description@,
                Patch::Missing => new_task.description == old_task.description,
            }
            &&& match patch.priority {
                Patch::Present(priority) => new_task.priority == priority,
                Patch::Missing => new_task.priority == old_task.priority,
            }
            &&& match patch.metadata {
                Patch::Present(metadata) => new_task.metadata == metadata,
                Patch::Missing => new_task.metadata == old_task.metadata,
            }
            &&& match patch.depends_on {
                Patch::Present(dependencies) => is_each_once(
                    new_task.depends_on,
                    dependencies@,
                ),
                Patch::Missing => new_task.depends_on == old_task.depends_on,
            }
            &&& match patch.requires {
                Patch::Present(inputs) => holds_requirements(new_task.requires, inputs@),
                Patch::Missing => new_task.requires == old_task.requires,
            }
            &&& new_task.id == old_task.id
            &&& new_task.status == old_task.status
            &&& new_task.claimed_by == old_task.claimed_by
            &&& new_task.result == old_task.result
            &&& new_task.created_at == old_task.created_at
            &&& new_task.updated_at == now
            &&& new_task.version == old_task.version + 1
        }),
        after.tasks[id].updated == timestamp_text(now),
        after.tasks[id].created == before.tasks[id].created,
        after.tasks[id].closed_at == before.tasks[id].closed_at,
{
    let view = result->Ok_0;
    lemma_shown(view.task, after.tasks[id].task);
    if let Patch::Present(dependencies) = patch.depends_on {
        lemma_each_once(dependencies@);
    }
    if let Patch::Present(inputs) = patch.requires {
        requirements_are_stored_as_requested(inputs@);
    }
}

/// Two changes one after the other, of which the latter holds a field, leave what the
/// latter gives; and a field that neither holds is as it was.
pub proof fn the_later_change_counts(
    board: Board,
    id: Uuid,
    first: PatchTask,
    second: PatchTask,
    t: int,
    u: int,
)
    requires
        board.patch_fault(id, first@) is None,
        board.patched(id, first@, t).patch_fault(id, second@) is None,
    ensures
        ({
            let task = board.patched(id, first@, t).patched(id, second@, u).tasks[id].task;
            &&& second.title matches Patch::Present(title) ==> task.title == title@
            &&& second.title is Missing ==> (first.title matches Patch::Present(title)
                ==> task.title == title@)
            &&& second.priority matches Patch::Present(priority) ==> task.priority == priority
            &&& second.priority is Missing ==> (first.priority matches Patch::Present(priority)
                ==> task.priority == priority)
            &&& second.description matches Patch::Present(description) ==> task.description
                == description@
            &&& second.description is Missing ==> (first.description matches Patch::Present(
                description,
            ) ==> task.description == description@)
            &&& second.metadata matches Patch::Present(metadata) ==> task.metadata == metadata
            &&& second.metadata is Missing ==> (first.metadata matches Patch::Present(metadata)
                ==> task.metadata == metadata)
            &&& task.version == board.tasks[id].task.version + 2
        }),
{
}

/// A refused request leaves the board as it was.
pub proof fn a_refusal_changes_nothing(
    result: Result<TaskView, StoreError>,
    before: Board,
    after: Board,
    fault: Option<Fault>,
    target: Board,
    id: Uuid,
)
    requires
        answers(result, before, after, fault, target, id),
    ensures
        result is Err ==> after == before,
        result is Ok <==> fault is None,
        result is Ok ==> after == target && result->Ok_0@ == after.view_of(id),
        result matches Err(error) ==> fault == Some(error@),
{
}

/// A check passes exactly when there is nothing to report, and reports what there is.
pub proof fn a_check_reports_its_fault(result: Result<(), StoreError>, fault: Option<Fault>)
    requires
        reports(result, fault),
    ensures
        result is Ok <==> fault is None,
        result matches Err(error) ==> fault == Some(error@),
{
}

/// A refusal keeps its kind and its text.
pub proof fn a_refusal_keeps_its_text(error: StoreError)
    ensures
        match error {
            StoreError::NotFound => error@ == Fault::NotFound,
            StoreError::Invalid(text) => error@ == Fault::Invalid(text@),
            StoreError::Conflict(text) => error@ == Fault::Conflict(text@),
            StoreError::Internal(text) => error@ == Fault::Internal(text@),
        },
{
}

/// Deleting a task takes it and its artifacts from the board and nothing else. It is
/// refused for a task that is not there or cannot be read, and for one that another
/// depends on.
pub proof fn a_deleted_task_is_gone(board: Board, id: Uuid, other: Uuid, artifact: Uuid)
    requires
        board.valid(),
    ensures
        board.deleted(id).tasks.contains_key(other) <==> board.tasks.contains_key(other) && other
            != id,
        board.deleted(id).tasks.contains_key(other) ==> board.deleted(id).tasks[other]
            == board.tasks[other],
        board.deleted(id).artifacts.contains_key(artifact) <==> board.artifacts.contains_key(
            artifact,
        ) && board.artifacts[artifact].artifact.task_id != id,
        board.deleted(id).artifacts.contains_key(artifact) ==> board.deleted(
            id,
        ).artifacts[artifact] == board.artifacts[artifact],
        !board.tasks.contains_key(id) ==> board.delete_fault(id) == Some(Fault::NotFound),
        board.tasks.contains_key(id) && board.tasks[id].raw is None ==> {
            &&& board.delete_fault(id) is None <==> forall|x: Uuid| #[trigger]
                board.tasks.contains_key(x) ==> !board.tasks[x].task.depends_on.contains(id)
            &&& board.delete_fault(id) is Some ==> exists|dependents: Seq<Uuid>|
                {
                    &&& board.delete_fault(id) == Some(
                        Fault::Conflict(
                            "task has dependents: "@ + #[trigger] joined_ids(dependents),
                        ),
                    )
                    &&& forall|i: int, j: int|
                        0 <= i < j < dependents.len() ==> dependents[i] < dependents[j]
                    &&& forall|x: Uuid| #[trigger]
                        dependents.contains(x) <==> board.tasks.contains_key(x)
                            && board.tasks[x].task.depends_on.contains(id)
                }
        },
{
    let dependents = board.dependents(id);
    lemma_dependents_ascend(board, id);
    assert forall|x: Uuid| #[trigger] dependents.contains(x) <==> board.tasks.contains_key(x)
        && board.tasks[x].task.depends_on.contains(id) by {
        dependents_mirror_dependencies(board, id, x);
    }
    assert(joined_ids(dependents) == joined_ids(dependents));
    if dependents.len() > 0 {
        let x = dependents[0];
        assert(dependents.contains(x));
        dependents_mirror_dependencies(board, id, x);
        assert(board.tasks.contains_key(x));
    } else {
        assert forall|x: Uuid| #[trigger] board.tasks.contains_key(x) implies !board.tasks[
            x
        ].task.depends_on.contains(id) by {
            dependents_mirror_dependencies(board, id, x);
        }
    }
}

} // verus!
