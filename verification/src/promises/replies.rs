//! What callers are told, by the status of the answer and its text.

use super::queries::says;
use crate::api::handlers::{hands_over, label_error_of, relabel_replies, replies};
use crate::api::{
    authorization, error_of, header_text, is_authorized, refusal, ApiError, Reply, BAD_REQUEST,
    CONFLICT, CREATED, INTERNAL_SERVER_ERROR, METHOD_NOT_ALLOWED, NOT_FOUND, NO_CONTENT, OK,
    UNAUTHORIZED, UNPROCESSABLE_ENTITY,
};
use crate::board::Board;
use crate::ids::{joined_ids, uuid_text, Uuid};
use crate::model::{Label, Status, TaskView};
use crate::rules::{status_of, status_word, status_words_are_distinct, Fault};
use crate::store::answers;
use crate::store::labels::relabels;
use crate::store::lifecycle::hands_out;
use vstd::prelude::*;

verus! {

/// The statuses of answers are those that the protocol gives these meanings.
pub proof fn answers_have_these_statuses()
    ensures
        OK == 200,
        CREATED == 201,
        NO_CONTENT == 204,
        BAD_REQUEST == 400,
        UNAUTHORIZED == 401,
        NOT_FOUND == 404,
        METHOD_NOT_ALLOWED == 405,
        CONFLICT == 409,
        UNPROCESSABLE_ENTITY == 422,
        INTERNAL_SERVER_ERROR == 500,
{
}

/// What a caller is told of a refusal: what does not exist is not found, what breaks a
/// rule on what may be written is a bad request, what breaks a rule of the board is a
/// conflict, each with the reason; and what goes wrong inside is told to no caller.
pub proof fn a_refusal_is_told_by_its_kind(fault: Fault)
    ensures
        match fault {
            Fault::NotFound => error_of(fault).status == 404 && error_of(fault).message
                == "task not found"@ && error_of(fault).cause is None,
            Fault::Invalid(message) => error_of(fault).status == 400 && error_of(fault).message
                == message && error_of(fault).cause is None,
            Fault::Conflict(message) => error_of(fault).status == 409 && error_of(fault).message
                == message && error_of(fault).cause is None,
            Fault::Internal(cause) => error_of(fault).status == 500 && error_of(fault).message
                == "internal error"@ && error_of(fault).cause == Some(cause),
        },
        label_error_of(fault) == if fault == Fault::NotFound {
            refusal(404, "label not found"@)
        } else {
            error_of(fault)
        },
{
}

/// A refusal holds the status and the text that it is made of, and no cause.
pub proof fn a_refusal_holds_its_text(status: u16, message: Seq<char>)
    ensures
        refusal(status, message).status == status,
        refusal(status, message).message == message,
        refusal(status, message).cause is None,
{
}

/// An operation that is carried out is answered with the given status and with what the
/// board answers; one that is refused changes nothing and is told by its kind.
pub proof fn a_reply_carries_the_answer(
    reply: Result<Reply<TaskView>, ApiError>,
    status: u16,
    before: Board,
    after: Board,
    fault: Option<Fault>,
    target: Board,
    id: Uuid,
)
    requires
        replies(reply, status, before, after, fault, target, id),
    ensures
        reply is Ok <==> fault is None,
        reply matches Ok(reply) ==> reply.status == status && answers(
            Ok(reply.body.0),
            before,
            after,
            fault,
            target,
            id,
        ),
        reply matches Err(error) ==> {
            &&& after == before
            &&& fault matches Some(Fault::NotFound) ==> error@ == refusal(404, "task not found"@)
            &&& fault matches Some(Fault::Invalid(message)) ==> error@ == refusal(400, message)
            &&& fault matches Some(Fault::Conflict(message)) ==> error@ == refusal(409, message)
            &&& fault matches Some(Fault::Internal(cause)) ==> error@.status == 500
                && error@.message == "internal error"@ && error@.cause == Some(cause)
        },
{
}

/// The answer to a request for the next task carries what the board hands out.
pub proof fn a_handed_over_task_is_the_one_handed_out(
    reply: Result<Option<Reply<TaskView>>, ApiError>,
    before: Board,
    after: Board,
    agent: Seq<char>,
    capabilities: Seq<Seq<char>>,
    now: int,
)
    requires
        hands_over(reply, before, after, agent, capabilities, now),
    ensures
        reply matches Ok(Some(reply)) ==> reply.status == 200 && hands_out(
            Ok(Some(reply.body.0)),
            before,
            after,
            agent,
            capabilities,
            now,
        ),
        reply matches Ok(None) ==> hands_out(Ok(None), before, after, agent, capabilities, now),
        reply matches Err(error) ==> after == before && exists|id: Uuid|
            {
                &&& #[trigger] before.is_best(capabilities, id)
                &&& before.claim_fault(id) matches Some(fault) && error@ == error_of(fault)
            },
{
    if reply is Err {
        let id = before.next(capabilities)->0;
        assert(before.is_best(capabilities, id));
    }
}

/// The answer to a new explanation of a label carries the label, or tells why it was
/// refused: a label that is not in use is not found.
pub proof fn a_relabelling_is_answered_as_it_went(
    reply: Result<Reply<Label>, ApiError>,
    before: Board,
    after: Board,
    name: Seq<char>,
    description: Option<Seq<char>>,
    now: int,
)
    requires
        relabel_replies(reply, before, after, name, description, now),
    ensures
        reply matches Ok(reply) ==> reply.status == 200 && relabels(
            Ok(reply.body.0),
            before,
            after,
            name,
            description,
            now,
        ),
        reply matches Err(error) ==> {
            let fault = before.relabel_fault(name, description);
            &&& after == before
            &&& fault == Some(Fault::NotFound) ==> error@ == refusal(404, "label not found"@)
            &&& fault matches Some(Fault::Invalid(message)) ==> error@ == refusal(400, message)
            &&& fault matches Some(Fault::Internal(cause)) ==> error@.status == 500
                && error@.message == "internal error"@
            &&& fault is Some
        },
{
}

/// Everyone may check the health and read the documentation; without a token nothing is
/// refused; and with one, everything else needs the header that holds it.
pub proof fn the_token_is_asked_for_everything_else(
    method: Seq<char>,
    path: Seq<char>,
    header: Option<&str>,
    token: Option<Seq<char>>,
)
    ensures
        is_authorized(method, path, header_text(header), authorization(token)) <==> {
            ||| method == "GET"@ && path == "/healthz"@
            ||| method == "GET"@ && path == "/docs.md"@
            ||| token is None
            ||| token matches Some(token) && (header matches Some(text) && text@ == "Bearer "@
                + token)
        },
{
}

/// The words for statuses are these, and no other word is one.
pub proof fn statuses_have_these_words(word: Seq<char>, status: Status)
    ensures
        status_of(word) == Some(status) <==> says(word, status),
        says(status_word(status), status),
        status_of(word) is None <==> word != "todo"@ && word != "in_progress"@ && word != "done"@
            && word != "failed"@ && word != "cancelled"@,
{
    status_words_are_distinct(Status::Todo);
    status_words_are_distinct(Status::InProgress);
    status_words_are_distinct(Status::Done);
    status_words_are_distinct(Status::Failed);
    status_words_are_distinct(Status::Cancelled);
}

/// A list of identifiers names each of them in its order, with a comma and a space
/// between two.
#[verifier::spinoff_prover]
pub proof fn every_identifier_is_named(ids: Seq<Uuid>, i: int)
    requires
        0 <= i < ids.len(),
    ensures
        joined_ids(ids).len() == 38 * ids.len() - 2,
        joined_ids(ids).subrange(38 * i, 38 * i + 36) == uuid_text(ids[i]),
        i + 1 < ids.len() ==> joined_ids(ids).subrange(38 * i + 36, 38 * i + 38) == ", "@,
    decreases ids.len(),
{
    let last = uuid_text(ids.last());
    lemma_length(ids.last());
    let text = joined_ids(ids);
    if ids.len() == 1 {
        assert(text.subrange(0, 36) == last) by {
            lemma_whole(text);
        }
    } else {
        let front = ids.drop_last();
        let head = joined_ids(front);
        every_identifier_is_named(front, 0);
        lemma_separator();
        lemma_joined(head, ", "@, last);
        if i < front.len() {
            every_identifier_is_named(front, i);
            let name = text.subrange(38 * i, 38 * i + 36);
            if i + 1 < front.len() {
                let gap = text.subrange(38 * i + 36, 38 * i + 38);
            }
        }
    }
}

proof fn lemma_length(id: Uuid)
    ensures
        uuid_text(id).len() == 36,
{
}

proof fn lemma_whole(text: Seq<char>)
    ensures
        text.subrange(0, text.len() as int) == text,
{
    assert(text.subrange(0, text.len() as int) =~= text);
}

proof fn lemma_separator()
    ensures
        ", "@.len() == 2,
{
    reveal_strlit(", ");
}

/// What stands where in three texts, one after the other.
proof fn lemma_joined(head: Seq<char>, mid: Seq<char>, tail: Seq<char>)
    ensures
        (head + mid + tail).len() == head.len() + mid.len() + tail.len(),
        forall|a: int, b: int|
            0 <= a <= b <= head.len() ==> #[trigger] (head + mid + tail).subrange(a, b)
                == head.subrange(a, b),
        (head + mid + tail).subrange(head.len() as int, (head.len() + mid.len()) as int) == mid,
        (head + mid + tail).subrange(
            (head.len() + mid.len()) as int,
            (head.len() + mid.len() + tail.len()) as int,
        ) == tail,
{
    let text = head + mid + tail;
    assert forall|a: int, b: int| 0 <= a <= b <= head.len() implies #[trigger] text.subrange(a, b)
        == head.subrange(a, b) by {
        assert(text.subrange(a, b) =~= head.subrange(a, b));
    }
    assert(text.subrange(head.len() as int, (head.len() + mid.len()) as int) =~= mid);
    assert(text.subrange((head.len() + mid.len()) as int, text.len() as int) =~= tail);
}

} // verus!
