//! The operations behind the routes: what they do to the board and what they
//! answer.

use super::{
    asked_for, error_of, field_models, fields_error, filters_of, is_asked_for, refusal, ApiError,
    CREATED, ErrorModel, Filters, Json, NO_CONTENT, NOT_FOUND, OK, Reply,
};
use crate::board::Board;
use crate::ids::{uuid_digit, Uuid};
use crate::model::{
    optional_text, texts, AgentRequest, ClaimNextRequest, CreateTask, Label, Patch, PatchTask,
    ResultRequest, SetLabelDescription, TaskView, TaskViewModel,
};
use crate::promises::labels::labelled;
use crate::rules::{Fault, StoreError};
use crate::steps::OwnedAction;
use crate::store::labels::{label_models, relabels};
use crate::store::lifecycle::hands_out;
use crate::store::views::view_models;
use crate::store::{answers, Store};
use crate::text::{trimmed, trimmed_is_idempotent};
use crate::time::in_range;
use vstd::prelude::*;

verus! {

/// Whether a request was refused for the given reason and changed nothing, or left
/// the given board and was answered with the task on it.
pub open spec fn replies(
    reply: Result<Reply<TaskView>, ApiError>,
    status: u16,
    before: Board,
    after: Board,
    fault: Option<Fault>,
    target: Board,
    id: Uuid,
) -> bool {
    match reply {
        Ok(reply) => fault is None && after == target && reply.status == status && reply.body.0@
            == target.view_of(id),
        Err(error) => fault matches Some(fault) && error@ == error_of(fault) && after == before,
    }
}

/// An outcome as an answer.
fn answered<T>(outcome: Result<T, StoreError>, status: u16) -> (reply: Result<Reply<T>, ApiError>)
    ensures
        match outcome {
            Ok(body) => reply matches Ok(reply) && reply.status == status && reply.body.0 == body,
            Err(error) => reply matches Err(answer) && answer@ == error_of(error@),
        },
{
    match outcome {
        Ok(body) => Ok(Reply { status, body: Json(body) }),
        Err(error) => Err(ApiError::from_store(error)),
    }
}

/// Creates a task.
pub fn create_task(store: &mut Store, request: Json<CreateTask>) -> (reply: Result<
    Reply<TaskView>,
    ApiError,
>)
    requires
        old(store).wf(),
    ensures
        final(store).wf(),
        exists|id: Uuid, now: int|
            in_range(now) && uuid_digit(id, 12) == 4 && 8 <= uuid_digit(id, 16) <= 11
                && #[trigger] replies(
                reply,
                CREATED,
                old(store)@,
                final(store)@,
                old(store)@.create_fault(id, request.0@),
                old(store)@.created(id, request.0@, now),
                id,
            ),
        reply matches Ok(reply) ==> reply.status == 201 && reply.body.0.task.title@
            == request.0.title@ && reply.body.0.task.description@ == request.0.description@
            && reply.body.0.task.priority == request.0.priority && reply.body.0.task.metadata
            == request.0.metadata,
{
    let ghost before = store@;
    let ghost wanted = request.0@;
    let outcome = store.create(request.0);
    let ghost (id, now) = choose|id: Uuid, now: int|
        in_range(now) && uuid_digit(id, 12) == 4 && 8 <= uuid_digit(id, 16) <= 11
            && #[trigger] answers(
            outcome,
            before,
            store@,
            before.create_fault(id, wanted),
            before.created(id, wanted, now),
            id,
        );
    let reply = answered(outcome, CREATED);
    assert(replies(
        reply,
        CREATED,
        before,
        store@,
        before.create_fault(id, wanted),
        before.created(id, wanted, now),
        id,
    ));
    reply
}

/// Whether an answer lists those of the tasks that query fields ask for, or tells
/// what is wrong with the fields or why the tasks are not listed.
pub open spec fn lists(
    reply: Result<Reply<Vec<TaskView>>, ApiError>,
    fields: Seq<(Seq<char>, Seq<char>)>,
    board: Board,
) -> bool {
    match reply {
        Ok(reply) => fields_error(fields) is None && board.list_fault() is None && reply.status
            == OK && exists|
            views: Seq<TaskViewModel>,
        |
            #[trigger] board.is_listed_as(views) && view_models(reply.body.0@) == asked_for(
                filters_of(fields),
                views,
            ),
        Err(error) => fields_error(fields) == Some(error@) || (fields_error(fields) is None
            && (board.list_fault() matches Some(fault) && error@ == error_of(fault))),
    }
}

/// Lists the tasks that a caller asks for.
pub fn list_tasks(store: &Store, parameters: Vec<(String, String)>) -> (reply: Result<
    Reply<Vec<TaskView>>,
    ApiError,
>)
    requires
        store.wf(),
    ensures
        lists(reply, field_models(parameters@), store@),
{
    let filters = match Filters::parse(parameters) {
        Ok(filters) => filters,
        Err(error) => {
            return Err(error);
        },
    };
    let views = match store.list() {
        Ok(views) => views,
        Err(error) => {
            return Err(ApiError::from_store(error));
        },
    };
    let ghost all = view_models(views@);
    let ghost wanted = |view: TaskViewModel| is_asked_for(filters@, view);
    let mut tasks: Vec<TaskView> = Vec::new();
    assert(view_models(tasks@) =~= all.take(0).filter(wanted)) by {
        reveal(Seq::filter);
    }
    for view in it: views
        invariant
            it.seq() == views@,
            all == view_models(views@),
            wanted == (|view: TaskViewModel| is_asked_for(filters@, view)),
            view_models(tasks@) == all.take(it.index() as int).filter(wanted),
    {
        let ghost i: int = it.index() as int;
        assert(all[i] == view@);
        proof {
            assert(all.take(i + 1) =~= all.take(i).push(all[i]));
            all.take(i).lemma_filter_push(all[i], wanted);
        }
        let ghost before = tasks@;
        if filters.matches(&view) {
            tasks.push(view);
            assert(view_models(tasks@) =~= view_models(before).push(all[i]));
        }
    }
    assert(all.take(all.len() as int) =~= all);
    assert(store@.is_listed_as(all) && view_models(tasks@) == asked_for(filters@, all));
    Ok(Reply { status: OK, body: Json(tasks) })
}

/// Gets a task.
pub fn get_task(store: &Store, id: Uuid) -> (reply: Result<Reply<TaskView>, ApiError>)
    requires
        store.wf(),
    ensures
        match reply {
            Ok(reply) => store@.read_fault(id) is None && reply.status == OK && reply.body.0@
                == store@.view_of(id),
            Err(error) => store@.read_fault(id) matches Some(fault) && error@ == error_of(fault),
        },
{
    answered(store.get(id), OK)
}

/// Changes a task.
pub fn patch_task(store: &mut Store, id: Uuid, request: Json<PatchTask>) -> (reply: Result<
    Reply<TaskView>,
    ApiError,
>)
    requires
        old(store).wf(),
    ensures
        final(store).wf(),
        exists|now: int|
            in_range(now) && #[trigger] replies(
                reply,
                OK,
                old(store)@,
                final(store)@,
                old(store)@.patch_fault(id, request.0@),
                old(store)@.patched(id, request.0@, now),
                id,
            ),
        reply matches Ok(reply) ==> {
            let task = reply.body.0.task;
            &&& reply.status == 200
            &&& request.0.title matches Patch::Present(title) ==> task.title@ == title@
            &&& request.0.description matches Patch::Present(description) ==> task.description@
                == description@
            &&& request.0.priority matches Patch::Present(priority) ==> task.priority == priority
            &&& request.0.metadata matches Patch::Present(metadata) ==> task.metadata == metadata
        },
{
    let ghost before = store@;
    let ghost wanted = request.0@;
    let outcome = store.patch(id, request.0);
    let ghost now = choose|now: int|
        in_range(now) && #[trigger] answers(
            outcome,
            before,
            store@,
            before.patch_fault(id, wanted),
            before.patched(id, wanted, now),
            id,
        );
    let reply = answered(outcome, OK);
    assert(replies(
        reply,
        OK,
        before,
        store@,
        before.patch_fault(id, wanted),
        before.patched(id, wanted, now),
        id,
    ));
    reply
}

/// Deletes a task.
pub fn delete_task(store: &mut Store, id: Uuid) -> (reply: Result<u16, ApiError>)
    requires
        old(store).wf(),
    ensures
        final(store).wf(),
        match reply {
            Ok(status) => old(store)@.delete_fault(id) is None && status == NO_CONTENT
                && final(store)@ == old(store)@.deleted(id),
            Err(error) => old(store)@.delete_fault(id) matches Some(fault) && error@ == error_of(
                fault,
            ) && final(store)@ == old(store)@,
        },
{
    match store.delete(id) {
        Ok(()) => Ok(NO_CONTENT),
        Err(error) => Err(ApiError::from_store(error)),
    }
}

/// Gives a task to an agent.
pub fn claim_task(store: &mut Store, id: Uuid, request: Json<AgentRequest>) -> (reply: Result<
    Reply<TaskView>,
    ApiError,
>)
    requires
        old(store).wf(),
    ensures
        final(store).wf(),
        exists|now: int|
            in_range(now) && #[trigger] replies(
                reply,
                OK,
                old(store)@,
                final(store)@,
                old(store)@.claim_fault(id),
                old(store)@.claimed(id, request.0.agent@, now),
                id,
            ),
{
    let ghost before = store@;
    let ghost agent = request.0.agent@;
    let outcome = store.claim(id, request.0.agent);
    let ghost now = choose|now: int|
        in_range(now) && #[trigger] answers(
            outcome,
            before,
            store@,
            before.claim_fault(id),
            before.claimed(id, agent, now),
            id,
        );
    let reply = answered(outcome, OK);
    assert(replies(
        reply,
        OK,
        before,
        store@,
        before.claim_fault(id),
        before.claimed(id, agent, now),
        id,
    ));
    reply
}

/// Whether nothing was handed out and there is nothing to send, or the best task
/// was claimed for the agent and is sent.
pub open spec fn hands_over(
    reply: Result<Option<Reply<TaskView>>, ApiError>,
    before: Board,
    after: Board,
    agent: Seq<char>,
    capabilities: Seq<Seq<char>>,
    now: int,
) -> bool {
    match before.next(capabilities) {
        None => (reply matches Ok(None)) && after == before && (forall|id: Uuid|
            !#[trigger] before.is_candidate(capabilities, id)),
        Some(id) => before.is_best(capabilities, id) && match reply {
            Ok(None) => false,
            Ok(Some(reply)) => before.claim_fault(id) is None && after == before.claimed(
                id,
                agent,
                now,
            ) && reply.status == OK && reply.body.0@ == after.view_of(id),
            Err(error) => before.claim_fault(id) matches Some(fault) && error@ == error_of(fault)
                && after == before,
        },
    }
}

/// Gives an agent the best task that it can do. Where there is none, there is
/// nothing to send.
pub fn claim_next(store: &mut Store, request: Json<ClaimNextRequest>) -> (reply: Result<
    Option<Reply<TaskView>>,
    ApiError,
>)
    requires
        old(store).wf(),
    ensures
        final(store).wf(),
        exists|now: int|
            in_range(now) && #[trigger] hands_over(
                reply,
                old(store)@,
                final(store)@,
                request.0.agent@,
                texts(request.0.capabilities@),
                now,
            ),
{
    let ghost before = store@;
    let ghost agent = request.0.agent@;
    let ghost capabilities = texts(request.0.capabilities@);
    let outcome = store.claim_next(request.0.agent, request.0.capabilities.as_slice());
    let ghost now = choose|now: int|
        in_range(now) && #[trigger] hands_out(outcome, before, store@, agent, capabilities, now);
    let reply = match outcome {
        Ok(Some(view)) => Ok(Some(Reply { status: OK, body: Json(view) })),
        Ok(None) => Ok(None),
        Err(error) => Err(ApiError::from_store(error)),
    };
    assert(hands_over(reply, before, store@, agent, capabilities, now));
    reply
}

/// Returns a claimed task to the others.
pub fn release_task(store: &mut Store, id: Uuid, request: Json<AgentRequest>) -> (reply: Result<
    Reply<TaskView>,
    ApiError,
>)
    requires
        old(store).wf(),
    ensures
        final(store).wf(),
        exists|now: int|
            in_range(now) && #[trigger] replies(
                reply,
                OK,
                old(store)@,
                final(store)@,
                old(store)@.transition_fault(id, request.0.agent@, OwnedAction::Release),
                old(store)@.transitioned(id, OwnedAction::Release, None, now),
                id,
            ),
{
    let ghost before = store@;
    let outcome = store.release(id, request.0.agent.as_str());
    let ghost now = choose|now: int|
        in_range(now) && #[trigger] answers(
            outcome,
            before,
            store@,
            before.transition_fault(id, request.0.agent@, OwnedAction::Release),
            before.transitioned(id, OwnedAction::Release, None, now),
            id,
        );
    let reply = answered(outcome, OK);
    assert(replies(
        reply,
        OK,
        before,
        store@,
        before.transition_fault(id, request.0.agent@, OwnedAction::Release),
        before.transitioned(id, OwnedAction::Release, None, now),
        id,
    ));
    reply
}

/// Completes a claimed task.
pub fn complete_task(store: &mut Store, id: Uuid, request: Json<ResultRequest>) -> (reply: Result<
    Reply<TaskView>,
    ApiError,
>)
    requires
        old(store).wf(),
    ensures
        final(store).wf(),
        exists|now: int|
            in_range(now) && #[trigger] replies(
                reply,
                OK,
                old(store)@,
                final(store)@,
                old(store)@.transition_fault(id, request.0.agent@, OwnedAction::Complete),
                old(store)@.transitioned(id, OwnedAction::Complete, request.0.result, now),
                id,
            ),
{
    let ghost before = store@;
    let ghost agent = request.0.agent@;
    let ghost result = request.0.result;
    let outcome = store.complete(id, request.0.agent.as_str(), request.0.result);
    let ghost now = choose|now: int|
        in_range(now) && #[trigger] answers(
            outcome,
            before,
            store@,
            before.transition_fault(id, agent, OwnedAction::Complete),
            before.transitioned(id, OwnedAction::Complete, result, now),
            id,
        );
    let reply = answered(outcome, OK);
    assert(replies(
        reply,
        OK,
        before,
        store@,
        before.transition_fault(id, agent, OwnedAction::Complete),
        before.transitioned(id, OwnedAction::Complete, result, now),
        id,
    ));
    reply
}

/// Fails a claimed task.
pub fn fail_task(store: &mut Store, id: Uuid, request: Json<ResultRequest>) -> (reply: Result<
    Reply<TaskView>,
    ApiError,
>)
    requires
        old(store).wf(),
    ensures
        final(store).wf(),
        exists|now: int|
            in_range(now) && #[trigger] replies(
                reply,
                OK,
                old(store)@,
                final(store)@,
                old(store)@.transition_fault(id, request.0.agent@, OwnedAction::Fail),
                old(store)@.transitioned(id, OwnedAction::Fail, request.0.result, now),
                id,
            ),
{
    let ghost before = store@;
    let ghost agent = request.0.agent@;
    let ghost result = request.0.result;
    let outcome = store.fail(id, request.0.agent.as_str(), request.0.result);
    let ghost now = choose|now: int|
        in_range(now) && #[trigger] answers(
            outcome,
            before,
            store@,
            before.transition_fault(id, agent, OwnedAction::Fail),
            before.transitioned(id, OwnedAction::Fail, result, now),
            id,
        );
    let reply = answered(outcome, OK);
    assert(replies(
        reply,
        OK,
        before,
        store@,
        before.transition_fault(id, agent, OwnedAction::Fail),
        before.transitioned(id, OwnedAction::Fail, result, now),
        id,
    ));
    reply
}

/// Cancels a task.
pub fn cancel_task(store: &mut Store, id: Uuid) -> (reply: Result<Reply<TaskView>, ApiError>)
    requires
        old(store).wf(),
    ensures
        final(store).wf(),
        exists|now: int|
            in_range(now) && #[trigger] replies(
                reply,
                OK,
                old(store)@,
                final(store)@,
                old(store)@.cancel_fault(id),
                old(store)@.cancelled(id, now),
                id,
            ),
{
    let ghost before = store@;
    let outcome = store.cancel(id);
    let ghost now = choose|now: int|
        in_range(now) && #[trigger] answers(
            outcome,
            before,
            store@,
            before.cancel_fault(id),
            before.cancelled(id, now),
            id,
        );
    let reply = answered(outcome, OK);
    assert(replies(
        reply,
        OK,
        before,
        store@,
        before.cancel_fault(id),
        before.cancelled(id, now),
        id,
    ));
    reply
}

/// Returns a failed or cancelled task to the others.
pub fn retry_task(store: &mut Store, id: Uuid) -> (reply: Result<Reply<TaskView>, ApiError>)
    requires
        old(store).wf(),
    ensures
        final(store).wf(),
        exists|now: int|
            in_range(now) && #[trigger] replies(
                reply,
                OK,
                old(store)@,
                final(store)@,
                old(store)@.retry_fault(id),
                old(store)@.retried(id, now),
                id,
            ),
{
    let ghost before = store@;
    let outcome = store.retry(id);
    let ghost now = choose|now: int|
        in_range(now) && #[trigger] answers(
            outcome,
            before,
            store@,
            before.retry_fault(id),
            before.retried(id, now),
            id,
        );
    let reply = answered(outcome, OK);
    assert(replies(
        reply,
        OK,
        before,
        store@,
        before.retry_fault(id),
        before.retried(id, now),
        id,
    ));
    reply
}

/// Lists the labels in use.
pub fn list_labels(store: &Store) -> (reply: Result<Reply<Vec<Label>>, ApiError>)
    requires
        store.wf(),
    ensures
        reply matches Ok(reply) && reply.status == OK && store@.is_labelled_as(
            label_models(reply.body.0@),
        ),
        forall|i: int|
            0 <= i < reply->Ok_0.body.0@.len() ==> (#[trigger] reply->Ok_0.body.0@[i]).open_tasks
                == labelled(store@, reply->Ok_0.body.0@[i].name@).len(),
{
    answered(store.labels(), OK)
}

/// The answer to a refused explanation of a label.
pub open spec fn label_error_of(fault: Fault) -> ErrorModel {
    if fault == Fault::NotFound {
        refusal(NOT_FOUND, "label not found"@)
    } else {
        error_of(fault)
    }
}

/// Whether a new explanation of a label was refused for the given reason and
/// changed nothing, or left the given board and was answered with the label on it.
pub open spec fn relabel_replies(
    reply: Result<Reply<Label>, ApiError>,
    before: Board,
    after: Board,
    name: Seq<char>,
    description: Option<Seq<char>>,
    now: int,
) -> bool {
    match reply {
        Ok(reply) => before.relabel_fault(name, description) is None && after == before.relabelled(
            name,
            description,
            now,
        ) && reply.status == OK && reply.body.0@ == after.label(trimmed(name)),
        Err(error) => before.relabel_fault(name, description) matches Some(fault) && error@
            == label_error_of(fault) && after == before,
    }
}

/// Gives a label an explanation.
pub fn set_label_description(
    store: &mut Store,
    name: &str,
    request: Json<SetLabelDescription>,
) -> (reply: Result<Reply<Label>, ApiError>)
    requires
        old(store).wf(),
    ensures
        final(store).wf(),
        exists|now: int|
            in_range(now) && #[trigger] relabel_replies(
                reply,
                old(store)@,
                final(store)@,
                name@,
                optional_text(request.0.description),
                now,
            ),
{
    let ghost before = store@;
    let ghost written = name@;
    let ghost description = optional_text(request.0.description);
    proof {
        trimmed_is_idempotent(name@);
    }
    let name = name.trim();
    let outcome = store.set_label_description(name, request.0.description);
    let ghost now = choose|now: int|
        in_range(now) && #[trigger] relabels(
            outcome,
            before,
            store@,
            name@,
            description,
            now,
        );
    let reply = match outcome {
        Ok(label) => Ok(Reply { status: OK, body: Json(label) }),
        Err(StoreError::NotFound) => Err(ApiError::not_found("label not found")),
        Err(error) => Err(ApiError::from_store(error)),
    };
    assert(relabel_replies(reply, before, store@, written, description, now));
    reply
}

} // verus!
