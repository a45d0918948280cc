//! What a list of tasks holds, by the fields of the query.

use super::{has_before, keeps_the_order, lemma_picked};
use crate::api::handlers::lists;
use crate::api::{
    asked_for, field_error, field_models, fields_error, filters_of, is_asked_for, ApiError,
    Filters, Reply,
};
use crate::board::{asks_for, ranks_before, Board};
use crate::ids::Uuid;
use crate::model::{Status, TaskView, TaskViewModel};
use crate::store::views::view_models;
use vstd::prelude::*;

verus! {

/// Whether a word is that of a status.
pub open spec fn says(word: Seq<char>, status: Status) -> bool {
    ||| word == "todo"@ && status == Status::Todo
    ||| word == "in_progress"@ && status == Status::InProgress
    ||| word == "done"@ && status == Status::Done
    ||| word == "failed"@ && status == Status::Failed
    ||| word == "cancelled"@ && status == Status::Cancelled
}

/// Whether a query field is the last of its name.
pub open spec fn is_last(fields: Seq<(String, String)>, k: int, name: Seq<char>) -> bool {
    &&& 0 <= k < fields.len()
    &&& fields[k].0@ == name
    &&& forall|j: int| k < j < fields.len() ==> (#[trigger] fields[j]).0@ != name
}

/// Whether a query field has the given name and value.
pub open spec fn is_field(
    fields: Seq<(String, String)>,
    k: int,
    name: Seq<char>,
    value: Seq<char>,
) -> bool {
    0 <= k < fields.len() && fields[k].0@ == name && fields[k].1@ == value
}

/// Whether a text is one of a list.
pub open spec fn is_among(list: Seq<String>, text: Seq<char>) -> bool {
    exists|i: int| 0 <= i < list.len() && (#[trigger] list[i])@ == text
}

/// Whether a query field can be used: a status by its word, readiness by a truth value,
/// and any text as a requirement or as an agent.
pub open spec fn is_usable(field: (String, String)) -> bool {
    ||| field.0@ == "status"@ && exists|status: Status| says(field.1@, status)
    ||| field.0@ == "ready"@ && (field.1@ == "true"@ || field.1@ == "false"@)
    ||| field.0@ == "requires"@
    ||| field.0@ == "claimed_by"@
}

proof fn lemma_words()
    ensures
        "status"@ != "ready"@,
        "status"@ != "requires"@,
        "status"@ != "claimed_by"@,
        "ready"@ != "requires"@,
        "ready"@ != "claimed_by"@,
        "requires"@ != "claimed_by"@,
        "true"@ != "false"@,
        "todo"@ != "in_progress"@,
        "todo"@ != "done"@,
        "todo"@ != "failed"@,
        "todo"@ != "cancelled"@,
        "in_progress"@ != "done"@,
        "in_progress"@ != "failed"@,
        "in_progress"@ != "cancelled"@,
        "done"@ != "failed"@,
        "done"@ != "cancelled"@,
        "failed"@ != "cancelled"@,
{
    reveal_strlit("status");
    reveal_strlit("ready");
    reveal_strlit("requires");
    reveal_strlit("claimed_by");
    reveal_strlit("true");
    reveal_strlit("false");
    reveal_strlit("todo");
    reveal_strlit("in_progress");
    reveal_strlit("done");
    reveal_strlit("failed");
    reveal_strlit("cancelled");
    assert("status"@.len() == 6 && "ready"@.len() == 5 && "requires"@.len() == 8);
    assert("claimed_by"@.len() == 10 && "true"@.len() == 4 && "false"@.len() == 5);
    assert("todo"@.len() == 4 && "in_progress"@.len() == 11 && "done"@.len() == 4);
    assert("failed"@.len() == 6 && "cancelled"@.len() == 9);
    assert("todo"@[0] == 't' && "done"@[0] == 'd');
}

/// Query fields are taken exactly when each of them can be used. What is refused is
/// refused for the first field that cannot, as a malformed request that tells which.
pub proof fn the_first_wrong_field_is_refused(fields: Seq<(String, String)>)
    ensures
        fields_error(field_models(fields)) is None <==> forall|k: int|
            0 <= k < fields.len() ==> is_usable(#[trigger] fields[k]),
        fields_error(field_models(fields)) matches Some(error) ==> exists|k: int|
            {
                &&& 0 <= k < fields.len()
                &&& !is_usable(#[trigger] fields[k])
                &&& forall|j: int| 0 <= j < k ==> is_usable(#[trigger] fields[j])
                &&& error.status == 400
                &&& error.cause is None
                &&& error.message == if fields[k].0@ == "status"@ {
                    "invalid status filter: "@ + fields[k].1@
                } else if fields[k].0@ == "ready"@ {
                    "ready must be true or false"@
                } else {
                    "unknown query field: "@ + fields[k].0@
                }
            },
    decreases fields.len(),
{
    lemma_words();
    let models = field_models(fields);
    if fields.len() > 0 {
        let front = fields.drop_last();
        let last = fields.len() - 1;
        the_first_wrong_field_is_refused(front);
        assert(models.drop_last() =~= field_models(front));
        assert(models.last() == (fields[last].0@, fields[last].1@));
        assert(field_error(models.last()) is None <==> is_usable(fields[last])) by {
            let word = fields[last].1@;
            assert(says(word, Status::Todo) <==> word == "todo"@);
            assert(says(word, Status::InProgress) <==> word == "in_progress"@);
            assert(says(word, Status::Done) <==> word == "done"@);
            assert(says(word, Status::Failed) <==> word == "failed"@);
            assert(says(word, Status::Cancelled) <==> word == "cancelled"@);
        }
        assert forall|k: int| 0 <= k < front.len() implies #[trigger] front[k] == fields[k] by {}
        if fields_error(field_models(front)) is Some {
            let k = choose|k: int|
                0 <= k < front.len() && !is_usable(#[trigger] front[k]) && (forall|j: int|
                    0 <= j < k ==> is_usable(#[trigger] front[j])) && fields_error(
                    field_models(front),
                )->0.message == if front[k].0@ == "status"@ {
                    "invalid status filter: "@ + front[k].1@
                } else if front[k].0@ == "ready"@ {
                    "ready must be true or false"@
                } else {
                    "unknown query field: "@ + front[k].0@
                };
            assert(!is_usable(fields[k]));
            assert forall|j: int| 0 <= j < k implies is_usable(#[trigger] fields[j]) by {
                assert(is_usable(front[j]));
            }
        } else {
            assert forall|j: int| 0 <= j < last implies is_usable(#[trigger] fields[j]) by {
                assert(is_usable(front[j]));
            }
        }
    }
}

/// The filters hold what the query fields say: a status is asked for exactly when a
/// field names it, a requirement exactly when a field gives it, and readiness and the
/// agent are those of the last field of their name.
pub proof fn the_filters_hold_every_field(fields: Seq<(String, String)>, filters: Filters)
    requires
        fields_error(field_models(fields)) is None,
        filters@ == filters_of(field_models(fields)),
    ensures
        forall|status: Status| #[trigger]
            filters.statuses@.contains(status) <==> exists|k: int|
                0 <= k < fields.len() && (#[trigger] fields[k]).0@ == "status"@ && says(
                    fields[k].1@,
                    status,
                ),
        forall|text: Seq<char>|
            #[trigger] is_among(filters.requires@, text) <==> exists|k: int| #[trigger]
                is_field(fields, k, "requires"@, text),
        filters.ready is Some <==> exists|k: int| #[trigger] is_last(fields, k, "ready"@),
        forall|k: int| #[trigger]
            is_last(fields, k, "ready"@) ==> filters.ready == Some(fields[k].1@ == "true"@),
        filters.claimed_by is Some <==> exists|k: int| #[trigger]
            is_last(fields, k, "claimed_by"@),
        forall|k: int| #[trigger]
            is_last(fields, k, "claimed_by"@) ==> (filters.claimed_by matches Some(agent)
                && agent@ == fields[k].1@),
{
    lemma_filters(fields);
    let model = filters_of(field_models(fields));
    assert(filters.statuses@ == model.statuses);
    assert forall|text: Seq<char>|
        #[trigger] is_among(filters.requires@, text) <==> exists|k: int| #[trigger]
            is_field(fields, k, "requires"@, text) by {
        assert(model.requires.contains(text) <==> exists|k: int| #[trigger]
            is_field(fields, k, "requires"@, text));
        if model.requires.contains(text) {
            let i = choose|i: int| 0 <= i < model.requires.len() && model.requires[i] == text;
            assert(filters.requires@[i]@ == text);
        }
        if is_among(filters.requires@, text) {
            let i = choose|i: int|
                0 <= i < filters.requires@.len() && (#[trigger] filters.requires@[i])@ == text;
            assert(model.requires[i] == text);
        }
    }
}

proof fn lemma_filters(fields: Seq<(String, String)>)
    requires
        fields_error(field_models(fields)) is None,
    ensures
        ({
            let model = filters_of(field_models(fields));
            &&& forall|status: Status| #[trigger]
                model.statuses.contains(status) <==> exists|k: int|
                    0 <= k < fields.len() && (#[trigger] fields[k]).0@ == "status"@ && says(
                        fields[k].1@,
                        status,
                    )
            &&& forall|text: Seq<char>| #[trigger]
                model.requires.contains(text) <==> exists|k: int| #[trigger]
                    is_field(fields, k, "requires"@, text)
            &&& model.ready is Some <==> exists|k: int| #[trigger] is_last(fields, k, "ready"@)
            &&& forall|k: int| #[trigger]
                is_last(fields, k, "ready"@) ==> model.ready == Some(fields[k].1@ == "true"@)
            &&& model.claimed_by is Some <==> exists|k: int| #[trigger]
                is_last(fields, k, "claimed_by"@)
            &&& forall|k: int| #[trigger]
                is_last(fields, k, "claimed_by"@) ==> model.claimed_by == Some(fields[k].1@)
        }),
    decreases fields.len(),
{
    lemma_words();
    let models = field_models(fields);
    let model = filters_of(models);
    if fields.len() > 0 {
        let front = fields.drop_last();
        let last = fields.len() - 1;
        assert(models.drop_last() =~= field_models(front));
        assert(models.last() == (fields[last].0@, fields[last].1@));
        lemma_filters(front);
        let earlier = filters_of(field_models(front));
        let (name, value) = models.last();
        assert forall|k: int| 0 <= k < last implies #[trigger] front[k] == fields[k] by {}
        assert(field_error(models.last()) is None);
        assert forall|status: Status| #[trigger]
            model.statuses.contains(status) <==> exists|k: int|
                0 <= k < fields.len() && (#[trigger] fields[k]).0@ == "status"@ && says(
                    fields[k].1@,
                    status,
                ) by {
            if earlier.statuses.contains(status) {
                let i = choose|i: int|
                    0 <= i < earlier.statuses.len() && earlier.statuses[i] == status;
                assert(model.statuses[i] == status);
                let k = choose|k: int|
                    0 <= k < front.len() && (#[trigger] front[k]).0@ == "status"@ && says(
                        front[k].1@,
                        status,
                    );
                assert(fields[k].0@ == "status"@);
            }
            if name == "status"@ && says(value, status) {
                assert(model.statuses[earlier.statuses.len() as int] == status);
                assert(fields[last].0@ == "status"@);
            }
            if model.statuses.contains(status) && !earlier.statuses.contains(status) {
                let i = choose|i: int|
                    0 <= i < model.statuses.len() && model.statuses[i] == status;
                assert(i == earlier.statuses.len()) by {
                    if i < earlier.statuses.len() {
                        assert(earlier.statuses[i] == status);
                    }
                }
                assert(fields[last].0@ == "status"@ && says(fields[last].1@, status));
            }
            if exists|k: int|
                0 <= k < fields.len() && (#[trigger] fields[k]).0@ == "status"@ && says(
                    fields[k].1@,
                    status,
                ) {
                let k = choose|k: int|
                    0 <= k < fields.len() && (#[trigger] fields[k]).0@ == "status"@ && says(
                        fields[k].1@,
                        status,
                    );
                if k < last {
                    assert(front[k].0@ == "status"@);
                }
            }
        }
        assert forall|text: Seq<char>| #[trigger]
            model.requires.contains(text) <==> exists|k: int| #[trigger]
                is_field(fields, k, "requires"@, text) by {
            if earlier.requires.contains(text) {
                let i = choose|i: int|
                    0 <= i < earlier.requires.len() && earlier.requires[i] == text;
                assert(model.requires[i] == text);
                let k = choose|k: int| #[trigger] is_field(front, k, "requires"@, text);
                assert(is_field(fields, k, "requires"@, text));
            }
            if name == "requires"@ && value == text {
                assert(model.requires[earlier.requires.len() as int] == text);
                assert(is_field(fields, last, "requires"@, text));
            }
            if model.requires.contains(text) && !earlier.requires.contains(text) {
                let i = choose|i: int|
                    0 <= i < model.requires.len() && model.requires[i] == text;
                assert(i == earlier.requires.len()) by {
                    if i < earlier.requires.len() {
                        assert(earlier.requires[i] == text);
                    }
                }
                assert(is_field(fields, last, "requires"@, text));
            }
            if exists|k: int| #[trigger] is_field(fields, k, "requires"@, text) {
                let k = choose|k: int| #[trigger] is_field(fields, k, "requires"@, text);
                if k < last {
                    assert(is_field(front, k, "requires"@, text));
                }
            }
        }
        lemma_last_of(fields, "ready"@);
        lemma_last_of(fields, "claimed_by"@);
    }
}

proof fn lemma_last_of(fields: Seq<(String, String)>, name: Seq<char>)
    requires
        fields.len() > 0,
    ensures
        fields.last().0@ == name ==> is_last(fields, fields.len() - 1, name) && forall|k: int|
            #[trigger] is_last(fields, k, name) ==> k == fields.len() - 1,
        fields.last().0@ != name ==> forall|k: int| #[trigger]
            is_last(fields, k, name) <==> is_last(fields.drop_last(), k, name),
        fields.last().0@ != name ==> forall|k: int| #[trigger]
            is_last(fields.drop_last(), k, name) <==> is_last(fields, k, name),
{
    let front = fields.drop_last();
    let last = fields.len() - 1;
    assert forall|k: int| 0 <= k < last implies #[trigger] front[k] == fields[k] by {}
    if fields.last().0@ == name {
        assert forall|k: int| #[trigger] is_last(fields, k, name) implies k == last by {
            if k < last {
                assert(fields[last].0@ != name);
            }
        }
    } else {
        assert forall|k: int| #[trigger] is_last(fields, k, name) <==> is_last(
            front,
            k,
            name,
        ) by {
            if is_last(fields, k, name) {
                assert forall|j: int| k < j < front.len() implies (#[trigger] front[j]).0@
                    != name by {
                    assert(fields[j].0@ != name);
                }
            }
            if is_last(front, k, name) {
                assert forall|j: int| k < j < fields.len() implies (#[trigger] fields[j]).0@
                    != name by {
                    if j < last {
                        assert(front[j].0@ != name);
                    }
                }
            }
        }
    }
}

/// Whether a task fits query fields: its status is one that a field names, where any
/// does; it is ready or not as the last field on that says; it requires what every
/// field on that gives; and it is claimed by the agent of the last field on that.
pub open spec fn fits(fields: Seq<(String, String)>, view: TaskView) -> bool {
    &&& (exists|k: int| 0 <= k < fields.len() && (#[trigger] fields[k]).0@ == "status"@)
        ==> exists|k: int|
        0 <= k < fields.len() && (#[trigger] fields[k]).0@ == "status"@ && says(
            fields[k].1@,
            view.task.status,
        )
    &&& forall|k: int| #[trigger]
        is_last(fields, k, "ready"@) ==> view.ready == (fields[k].1@ == "true"@)
    &&& forall|k: int|
        0 <= k < fields.len() && (#[trigger] fields[k]).0@ == "requires"@ ==> exists|i: int|
            0 <= i < view.task.requires@.len() && (#[trigger] view.task.requires@[i]).name@
                == fields[k].1@
    &&& forall|k: int| #[trigger]
        is_last(fields, k, "claimed_by"@) ==> (view.task.claimed_by matches Some(agent) && agent@
            == fields[k].1@)
}

/// A task is asked for exactly when it fits the query fields.
pub proof fn asked_for_means_fitting(fields: Seq<(String, String)>, view: TaskView)
    requires
        fields_error(field_models(fields)) is None,
    ensures
        is_asked_for(filters_of(field_models(fields)), view@) <==> fits(fields, view),
{
    lemma_words();
    lemma_filters(fields);
    the_first_wrong_field_is_refused(fields);
    let model = filters_of(field_models(fields));
    let task = view@.task;
    assert(model.statuses.len() == 0 <==> !exists|k: int|
        0 <= k < fields.len() && (#[trigger] fields[k]).0@ == "status"@) by {
        if model.statuses.len() > 0 {
            assert(model.statuses.contains(model.statuses[0]));
        }
        if exists|k: int| 0 <= k < fields.len() && (#[trigger] fields[k]).0@ == "status"@ {
            let k = choose|k: int|
                0 <= k < fields.len() && (#[trigger] fields[k]).0@ == "status"@;
            assert(is_usable(fields[k]));
            let status = choose|status: Status| says(fields[k].1@, status);
            assert(model.statuses.contains(status));
        }
    }
    assert forall|name: Seq<char>| #[trigger] asks_for(task.requires, name) <==> exists|i: int|
        0 <= i < view.task.requires@.len() && (#[trigger] view.task.requires@[i]).name@ == name by {
        if asks_for(task.requires, name) {
            let i = choose|i: int|
                0 <= i < task.requires.len() && (#[trigger] task.requires[i]).name == name;
            assert(view.task.requires@[i].name@ == name);
        }
        if exists|i: int|
            0 <= i < view.task.requires@.len() && (#[trigger] view.task.requires@[i]).name@ == name {
            let i = choose|i: int|
                0 <= i < view.task.requires@.len() && (#[trigger] view.task.requires@[i]).name@
                    == name;
            assert(task.requires[i].name == name);
        }
    }
    assert((forall|i: int|
        0 <= i < model.requires.len() ==> asks_for(task.requires, #[trigger] model.requires[i]))
        <==> (forall|k: int|
        0 <= k < fields.len() && (#[trigger] fields[k]).0@ == "requires"@ ==> asks_for(
            task.requires,
            fields[k].1@,
        ))) by {
        if forall|i: int|
            0 <= i < model.requires.len() ==> asks_for(
                task.requires,
                #[trigger] model.requires[i],
            ) {
            assert forall|k: int|
                0 <= k < fields.len() && (#[trigger] fields[k]).0@
                    == "requires"@ implies asks_for(task.requires, fields[k].1@) by {
                assert(is_field(fields, k, "requires"@, fields[k].1@));
                assert(model.requires.contains(fields[k].1@));
            }
        }
        if forall|k: int|
            0 <= k < fields.len() && (#[trigger] fields[k]).0@ == "requires"@ ==> asks_for(
                task.requires,
                fields[k].1@,
            ) {
            assert forall|i: int| 0 <= i < model.requires.len() implies asks_for(
                task.requires,
                #[trigger] model.requires[i],
            ) by {
                let text = model.requires[i];
                assert(model.requires.contains(text));
                let k = choose|k: int| #[trigger] is_field(fields, k, "requires"@, text);
                assert(fields[k].0@ == "requires"@);
            }
        }
    }
    if model.ready is Some {
        let k = choose|k: int| #[trigger] is_last(fields, k, "ready"@);
        assert(model.ready == Some(fields[k].1@ == "true"@));
    }
    if model.claimed_by is Some {
        let k = choose|k: int| #[trigger] is_last(fields, k, "claimed_by"@);
        assert(model.claimed_by == Some(fields[k].1@));
    }
}

/// Whether a task comes before another in lists.
pub open spec fn comes_first(a: TaskView, b: TaskView) -> bool {
    ||| a.task.priority > b.task.priority
    ||| a.task.priority == b.task.priority && a.task.created_at@ < b.task.created_at@
    ||| a.task.priority == b.task.priority && a.task.created_at@ == b.task.created_at@ && a.task.id
        < b.task.id
}

/// All tasks of which a list holds those that are asked for.
proof fn lemma_listed(
    reply: Result<Reply<Vec<TaskView>>, ApiError>,
    fields: Seq<(String, String)>,
    board: Board,
) -> (views: Seq<TaskViewModel>)
    requires
        lists(reply, field_models(fields), board),
        reply is Ok,
    ensures
        board.is_listed_as(views),
        forall|view: TaskViewModel| #[trigger]
            view_models(reply->Ok_0.body.0@).contains(view) <==> views.contains(view)
                && is_asked_for(filters_of(field_models(fields)), view),
        keeps_the_order(view_models(reply->Ok_0.body.0@), views),
{
    let filters = filters_of(field_models(fields));
    let body = view_models(reply->Ok_0.body.0@);
    let views = choose|views: Seq<TaskViewModel>|
        #[trigger] board.is_listed_as(views) && body == asked_for(filters, views);
    let p = |view: TaskViewModel| is_asked_for(filters, view);
    lemma_picked(views, p);
    assert(asked_for(filters, views) == views.filter(p));
    views
}

/// A list holds tasks of the board that fit the query fields, each as it is read by
/// itself.
pub proof fn a_list_holds_what_fits(
    reply: Result<Reply<Vec<TaskView>>, ApiError>,
    fields: Seq<(String, String)>,
    board: Board,
    i: int,
)
    requires
        lists(reply, field_models(fields), board),
        reply is Ok,
        0 <= i < reply->Ok_0.body.0@.len(),
    ensures
        reply->Ok_0.status == 200,
        fits(fields, reply->Ok_0.body.0@[i]),
        board.tasks.contains_key(reply->Ok_0.body.0@[i].task.id),
        reply->Ok_0.body.0@[i]@ == board.view_of(reply->Ok_0.body.0@[i].task.id),
{
    let views = lemma_listed(reply, fields, board);
    let view = reply->Ok_0.body.0@[i];
    assert(view_models(reply->Ok_0.body.0@)[i] == view@);
    assert(view_models(reply->Ok_0.body.0@).contains(view@));
    let k = choose|k: int| 0 <= k < views.len() && views[k] == view@;
    assert(board.has(views[k].task.id));
    asked_for_means_fitting(fields, view);
}

/// A list misses no task of the board that fits the query fields.
pub proof fn a_list_misses_nothing(
    reply: Result<Reply<Vec<TaskView>>, ApiError>,
    fields: Seq<(String, String)>,
    board: Board,
    view: TaskView,
)
    requires
        lists(reply, field_models(fields), board),
        reply is Ok,
        board.tasks.contains_key(view.task.id),
        view@ == board.view_of(view.task.id),
        fits(fields, view),
    ensures
        exists|i: int|
            0 <= i < reply->Ok_0.body.0@.len() && (#[trigger] reply->Ok_0.body.0@[i])@ == view@,
{
    let views = lemma_listed(reply, fields, board);
    let body = view_models(reply->Ok_0.body.0@);
    asked_for_means_fitting(fields, view);
    assert(board.has(view.task.id));
    let k = choose|k: int| 0 <= k < views.len() && views[k].task.id == view.task.id;
    assert(views[k] == view@);
    assert(views.contains(view@));
    assert(body.contains(view@));
    let i = choose|i: int| 0 <= i < body.len() && body[i] == view@;
    assert(reply->Ok_0.body.0@[i]@ == view@);
}

/// In a list the higher priority comes first, then the older task, then the lower
/// identifier.
pub proof fn a_list_is_in_order(
    reply: Result<Reply<Vec<TaskView>>, ApiError>,
    fields: Seq<(String, String)>,
    board: Board,
    i: int,
    j: int,
)
    requires
        lists(reply, field_models(fields), board),
        reply is Ok,
        0 <= i < j < reply->Ok_0.body.0@.len(),
    ensures
        comes_first(reply->Ok_0.body.0@[i], reply->Ok_0.body.0@[j]),
{
    let views = lemma_listed(reply, fields, board);
    let body = view_models(reply->Ok_0.body.0@);
    assert(body[i] == reply->Ok_0.body.0@[i]@ && body[j] == reply->Ok_0.body.0@[j]@);
    assert(has_before(views, body[i], body[j]));
    let (a, b) = choose|a: int, b: int|
        0 <= a < b < views.len() && views[a] == body[i] && views[b] == body[j];
    assert(ranks_before(views[a].task, views[b].task));
}

/// A list is refused only for a query field that cannot be used, or for a task that
/// cannot be read.
pub proof fn a_list_is_refused_for_these_reasons_alone(
    reply: Result<Reply<Vec<TaskView>>, ApiError>,
    fields: Seq<(String, String)>,
    board: Board,
)
    requires
        lists(reply, field_models(fields), board),
        reply is Err,
    ensures
        (exists|k: int| 0 <= k < fields.len() && !is_usable(#[trigger] fields[k])) ==> reply->Err_0
            @.status == 400,
        (forall|k: int| 0 <= k < fields.len() ==> is_usable(#[trigger] fields[k])) ==> {
            &&& reply->Err_0@.status == 500
            &&& reply->Err_0@.message == "internal error"@
            &&& exists|id: Uuid| #[trigger]
                board.tasks.contains_key(id) && board.tasks[id].raw is Some
        },
{
    the_first_wrong_field_is_refused(fields);
    if fields_error(field_models(fields)) is None {
        let id = choose|id: Uuid| board.is_first_flawed(id);
        assert(board.is_first_flawed(id));
        assert(board.tasks.contains_key(id));
    }
}

} // verus!
