//! Which requests are refused, and what a caller is told.

use super::requests::asked_name;
use super::{has_until, is_trimmed_from, lemma_each_once};
use crate::board::Board;
use crate::graph::lemma_closed_set;
use crate::ids::{first_seen, first_such, lemma_first_such, lemma_none_such, uuid_text, Uuid};
use crate::model::{input_models, CreateTask, Patch, PatchTask, RequirementInput};
use crate::rules::{
    content_type_fault, description_fault, filename_fault, input_fault, integer_fault, name_fault,
    requirements_fault, tidy_description, title_fault, Fault,
};
use crate::text::{
    is_blank, is_control, is_white_space, lemma_trimmed_end_shape, lemma_trimmed_start_shape,
    precedes, trimmed, trimmed_is_empty_exactly_when_blank, trimmed_is_idempotent, trimmed_start,
};
use vstd::prelude::*;
use vstd::utf8::encode_utf8;

verus! {

/// Trimming takes the white space from both ends of a text and nothing else.
pub proof fn trimming_takes_white_space_from_both_ends(s: Seq<char>)
    ensures
        is_trimmed_from(trimmed(s), s),
{
    lemma_trimmed_start_shape(s);
    lemma_trimmed_end_shape(trimmed_start(s));
    let head = trimmed_start(s);
    let text = trimmed(s);
    let start = s.len() - head.len();
    assert(text =~= s.subrange(start, start + text.len()));
    assert forall|i: int| 0 <= i < start || start + text.len() <= i < s.len() implies is_white_space(
        #[trigger] s[i],
    ) by {
        if i >= start {
            assert(s[i] == head[i - start]);
        }
    }
    if text.len() > 0 {
        assert(text[0] == head[0]);
    }
}

/// Texts are compared character by character: one comes before another where it is a
/// proper beginning of it, or has the lower character at the first place at which they
/// differ.
pub proof fn texts_differ_at_one_place_first(a: Seq<char>, b: Seq<char>)
    ensures
        precedes(a, b) <==> exists|i: int|
            {
                &&& 0 <= i <= a.len()
                &&& i < b.len()
                &&& #[trigger] a.take(i) == b.take(i)
                &&& i < a.len() ==> (a[i] as int) < (b[i] as int)
            },
    decreases a.len(),
{
    if a.len() > 0 && b.len() > 0 && a[0] == b[0] {
        let x = a.drop_first();
        let y = b.drop_first();
        texts_differ_at_one_place_first(x, y);
        if precedes(x, y) {
            let i = choose|i: int|
                {
                    &&& 0 <= i <= x.len()
                    &&& i < y.len()
                    &&& #[trigger] x.take(i) == y.take(i)
                    &&& i < x.len() ==> (x[i] as int) < (y[i] as int)
                };
            assert(a.take(i + 1) =~= seq![a[0]] + x.take(i));
            assert(b.take(i + 1) =~= seq![b[0]] + y.take(i));
            assert(a.take(i + 1) == b.take(i + 1));
            if i + 1 < a.len() {
                assert(a[i + 1] == x[i] && b[i + 1] == y[i]);
            }
        }
        if exists|i: int|
            {
                &&& 0 <= i <= a.len()
                &&& i < b.len()
                &&& #[trigger] a.take(i) == b.take(i)
                &&& i < a.len() ==> (a[i] as int) < (b[i] as int)
            } {
            let i = choose|i: int|
                {
                    &&& 0 <= i <= a.len()
                    &&& i < b.len()
                    &&& #[trigger] a.take(i) == b.take(i)
                    &&& i < a.len() ==> (a[i] as int) < (b[i] as int)
                };
            assert(i > 0);
            assert(x.take(i - 1) =~= a.take(i).drop_first());
            assert(y.take(i - 1) =~= b.take(i).drop_first());
            assert(x.take(i - 1) == y.take(i - 1));
            if i < a.len() {
                assert(a[i] == x[i - 1] && b[i] == y[i - 1]);
            }
        }
    } else if b.len() > 0 {
        assert(a.take(0) =~= b.take(0));
        assert forall|i: int|
            0 < i <= a.len() && i < b.len() implies #[trigger] a.take(i) != b.take(i) by {
            assert(a.take(i)[0] == a[0]);
            assert(b.take(i)[0] == b[0]);
        }
    }
}

/// A title is taken exactly when it holds a character that is not white space and at most
/// 500 characters.
pub proof fn a_title_holds_something_and_is_not_long(title: Seq<char>)
    ensures
        title_fault(title) is None <==> !is_blank(title) && title.len() <= 500,
        is_blank(title) ==> title_fault(title) == Some(Fault::Invalid("title must not be empty"@)),
        !is_blank(title) && title.len() > 500 ==> title_fault(title) == Some(
            Fault::Invalid("title must be at most 500 characters"@),
        ),
{
    trimmed_is_empty_exactly_when_blank(title);
}

/// A name of any kind is taken exactly when it holds a character that is not white space
/// and at most 100 characters; what is refused tells the kind.
pub proof fn a_name_holds_something_and_is_not_long(name: Seq<char>, kind: Seq<char>)
    ensures
        name_fault(name, kind) is None <==> !is_blank(name) && name.len() <= 100,
        is_blank(name) ==> name_fault(name, kind) == Some(
            Fault::Invalid("invalid "@ + kind + " name: must not be empty"@),
        ),
        !is_blank(name) && name.len() > 100 ==> name_fault(name, kind) == Some(
            Fault::Invalid("invalid "@ + kind + " name: must be at most 100 characters"@),
        ),
{
    trimmed_is_empty_exactly_when_blank(name);
}

/// An explanation is kept trimmed, and not at all where it is blank; it is taken exactly
/// when it then holds at most 1000 characters.
pub proof fn an_explanation_is_kept_trimmed(description: Option<Seq<char>>)
    ensures
        description is None ==> tidy_description(description) is None && description_fault(
            description,
        ) is None,
        description matches Some(text) ==> {
            &&& is_blank(text) ==> tidy_description(description) is None && description_fault(
                description,
            ) is None
            &&& !is_blank(text) ==> tidy_description(description) == Some(trimmed(text))
            &&& trimmed(text).len() > 1000 <==> description_fault(description) is Some
            &&& trimmed(text).len() > 1000 ==> description_fault(description) == Some(
                Fault::Invalid("requirement description must be at most 1000 characters"@),
            )
        },
{
    if let Some(text) = description {
        trimmed_is_empty_exactly_when_blank(text);
    }
}

/// The name of a file is taken exactly when it holds 1 through 255 characters and no
/// control character, and a content type exactly when it takes 1 through 255 bytes.
pub proof fn file_names_and_content_types_are_short(name: Seq<char>, content_type: Seq<char>)
    ensures
        filename_fault(name) is None <==> 1 <= name.len() <= 255 && forall|i: int|
            0 <= i < name.len() ==> 0x20 <= #[trigger] name[i] as u32 && !(0x7f <= name[i] as u32
                <= 0x9f),
        name.len() == 0 ==> filename_fault(name) == Some(
            Fault::Invalid("artifact filename must not be empty"@),
        ),
        name.len() > 255 ==> filename_fault(name) == Some(
            Fault::Invalid("artifact filename must be at most 255 characters"@),
        ),
        content_type_fault(content_type) is None <==> 1 <= encode_utf8(content_type).len() <= 255,
        content_type_fault(content_type) is Some ==> content_type_fault(content_type) == Some(
            Fault::Invalid("artifact content type must contain 1 through 255 bytes"@),
        ),
{
    if filename_fault(name) is None {
        assert forall|i: int| 0 <= i < name.len() implies 0x20 <= #[trigger] name[i] as u32 && !(
        0x7f <= name[i] as u32 <= 0x9f) by {
            assert(!is_control(name[i]));
        }
    }
    if exists|i: int| 0 <= i < name.len() && is_control(#[trigger] name[i]) {
        let i = choose|i: int| 0 <= i < name.len() && is_control(#[trigger] name[i]);
        assert(!(0x20 <= name[i] as u32 && !(0x7f <= name[i] as u32 <= 0x9f)));
    }
}

/// A number fits a column exactly when it is at most the greatest signed one of 64 bits.
pub proof fn great_numbers_do_not_fit_a_column(value: int, description: Seq<char>)
    ensures
        integer_fault(value, description) is None <==> value <= 9_223_372_036_854_775_807,
        value > 9_223_372_036_854_775_807 ==> integer_fault(value, description) == Some(
            Fault::Internal(description + " exceeds SQLite integer range"@),
        ),
{
}

/// Whether a requested requirement can be kept: its trimmed name holds 1 through 100
/// characters, and its trimmed explanation, where there is one, at most 1000.
pub open spec fn can_be_kept(input: RequirementInput) -> bool {
    &&& 1 <= trimmed(asked_name(input)).len() <= 100
    &&& input matches RequirementInput::Full(requirement) ==> (
    requirement.description matches Some(text) ==> trimmed(text@).len() <= 1000)
}

/// What is told of a requested requirement that cannot be kept.
pub open spec fn is_told_of(fault: Fault, input: RequirementInput) -> bool {
    let length = trimmed(asked_name(input)).len();
    if length == 0 {
        fault == Fault::Invalid("invalid "@ + "requirement"@ + " name: must not be empty"@)
    } else if length > 100 {
        fault == Fault::Invalid(
            "invalid "@ + "requirement"@ + " name: must be at most 100 characters"@,
        )
    } else {
        fault == Fault::Invalid("requirement description must be at most 1000 characters"@)
    }
}

/// Requested requirements are taken exactly when each of them can be kept, and refused
/// for the first that cannot.
pub proof fn the_first_wrong_requirement_is_refused(asked: Seq<RequirementInput>)
    ensures
        requirements_fault(input_models(asked)) is None <==> forall|k: int|
            0 <= k < asked.len() ==> can_be_kept(#[trigger] asked[k]),
        requirements_fault(input_models(asked)) matches Some(fault) ==> exists|k: int|
            {
                &&& 0 <= k < asked.len()
                &&& !can_be_kept(#[trigger] asked[k])
                &&& forall|j: int| 0 <= j < k ==> can_be_kept(#[trigger] asked[j])
                &&& is_told_of(fault, asked[k])
            },
    decreases asked.len(),
{
    let models = input_models(asked);
    if asked.len() > 0 {
        let front = asked.drop_last();
        let last = asked.len() - 1;
        assert(models.drop_last() =~= input_models(front));
        assert(models.last() == asked[last]@);
        the_first_wrong_requirement_is_refused(front);
        trimmed_is_idempotent(asked_name(asked[last]));
        assert(input_fault(models.last()) is None <==> can_be_kept(asked[last]));
        assert(input_fault(models.last()) matches Some(fault) ==> is_told_of(fault, asked[last]));
        assert forall|k: int| 0 <= k < last implies #[trigger] front[k] == asked[k] by {}
        if requirements_fault(input_models(front)) is Some {
            let fault = requirements_fault(input_models(front))->0;
            let k = choose|k: int|
                {
                    &&& 0 <= k < front.len()
                    &&& !can_be_kept(#[trigger] front[k])
                    &&& forall|j: int| 0 <= j < k ==> can_be_kept(#[trigger] front[j])
                    &&& is_told_of(fault, front[k])
                };
            assert(!can_be_kept(asked[k]));
            assert forall|j: int| 0 <= j < k implies can_be_kept(#[trigger] asked[j]) by {
                assert(can_be_kept(front[j]));
            }
        } else {
            assert forall|j: int| 0 <= j < last implies can_be_kept(#[trigger] asked[j]) by {
                assert(can_be_kept(front[j]));
            }
        }
    }
}

/// Whether each of these tasks depends on the next.
pub open spec fn is_path(board: Board, path: Seq<Uuid>) -> bool {
    &&& path.len() > 0
    &&& forall|i: int|
        0 <= i < path.len() - 1 ==> board.tasks.contains_key(#[trigger] path[i])
            && board.tasks[path[i]].task.depends_on.contains(path[i + 1])
}

/// Whether one task depends on another through any number of others, or is the other.
pub open spec fn leads_to(board: Board, from: Uuid, to: Uuid) -> bool {
    exists|path: Seq<Uuid>| #[trigger]
        is_path(board, path) && path[0] == from && path.last() == to
}

/// A task reaches another exactly when dependencies lead from the one to the other.
pub proof fn reaching_is_following_dependencies(board: Board, from: Uuid, to: Uuid)
    ensures
        board.reaches(from, to) <==> leads_to(board, from, to),
{
    if board.reaches(from, to) {
        let n = choose|n: nat| board.leads(from, to, n);
        let path = lemma_path(board, from, to, n);
    }
    if leads_to(board, from, to) {
        let path = choose|path: Seq<Uuid>| #[trigger]
            is_path(board, path) && path[0] == from && path.last() == to;
        lemma_led(board, path);
    }
}

proof fn lemma_path(board: Board, from: Uuid, to: Uuid, n: nat) -> (path: Seq<Uuid>)
    requires
        board.leads(from, to, n),
    ensures
        is_path(board, path),
        path[0] == from,
        path.last() == to,
    decreases n,
{
    if n == 0 {
        seq![from]
    } else {
        let mid = choose|mid: Uuid| #[trigger]
            board.depends(from, mid) && board.leads(mid, to, (n - 1) as nat);
        let rest = lemma_path(board, mid, to, (n - 1) as nat);
        let path = seq![from] + rest;
        assert(path.last() == rest.last());
        assert forall|i: int| 0 <= i < path.len() - 1 implies board.tasks.contains_key(
            #[trigger] path[i],
        ) && board.tasks[path[i]].task.depends_on.contains(path[i + 1]) by {
            if i == 0 {
                assert(path[1] == rest[0]);
            } else {
                assert(path[i] == rest[i - 1] && path[i + 1] == rest[i]);
            }
        }
        path
    }
}

proof fn lemma_led(board: Board, path: Seq<Uuid>)
    requires
        is_path(board, path),
    ensures
        board.reaches(path[0], path.last()),
    decreases path.len(),
{
    if path.len() == 1 {
        assert(board.leads(path[0], path.last(), 0));
    } else {
        let rest = path.drop_first();
        assert forall|i: int| 0 <= i < rest.len() - 1 implies board.tasks.contains_key(
            #[trigger] rest[i],
        ) && board.tasks[rest[i]].task.depends_on.contains(rest[i + 1]) by {
            assert(rest[i] == path[i + 1] && rest[i + 1] == path[i + 2]);
        }
        lemma_led(board, rest);
        assert(path[1] == rest[0]);
        assert(rest.last() == path.last());
        let n = choose|n: nat| board.leads(rest[0], rest.last(), n);
        assert(board.tasks.contains_key(path[0]));
        assert(board.depends(path[0], rest[0]));
        assert(board.leads(path[0], path.last(), n + 1));
    }
}

/// The first member of a sequence that fits is also the first among its members, each
/// taken once.
proof fn lemma_first_of_each(s: Seq<Uuid>, p: spec_fn(Uuid) -> bool)
    ensures
        first_such(first_seen(s), p) == first_such(s, p),
{
    let once = first_seen(s);
    lemma_each_once(s);
    lemma_none_such(once, p);
    lemma_none_such(s, p);
    if exists|k: int| 0 <= k < s.len() && p(#[trigger] s[k]) {
        let k = lemma_earliest(s, p);
        assert(s.contains(s[k]));
        assert(once.contains(s[k]));
        let i = choose|i: int| 0 <= i < once.len() && once[i] == s[k];
        assert forall|m: int| 0 <= m < i implies !p(#[trigger] once[m]) by {
            assert(has_until(s, once[m], k));
            let a = choose|a: int| 0 <= a < k && s[a] == once[m];
            assert(!p(s[a]));
        }
        lemma_first_such(once, p, i);
        lemma_first_such(s, p, k);
    } else {
        assert forall|m: int| 0 <= m < once.len() implies !p(#[trigger] once[m]) by {
            assert(once.contains(once[m]));
            let k = choose|k: int| 0 <= k < s.len() && s[k] == once[m];
            assert(!p(s[k]));
        }
    }
}

/// The first place at which a member fits.
proof fn lemma_earliest(s: Seq<Uuid>, p: spec_fn(Uuid) -> bool) -> (k: int)
    requires
        exists|k: int| 0 <= k < s.len() && p(#[trigger] s[k]),
    ensures
        0 <= k < s.len(),
        p(s[k]),
        forall|j: int| 0 <= j < k ==> !p(#[trigger] s[j]),
    decreases s.len(),
{
    let front = s.drop_last();
    if exists|k: int| 0 <= k < front.len() && p(#[trigger] front[k]) {
        let k = lemma_earliest(front, p);
        assert forall|j: int| 0 <= j < k implies !p(#[trigger] s[j]) by {
            assert(!p(front[j]));
        }
        assert(s[k] == front[k]);
        k
    } else {
        let k = s.len() - 1;
        assert forall|j: int| 0 <= j < k implies !p(#[trigger] s[j]) by {
            assert(!p(front[j]));
        }
        let found = choose|k: int| 0 <= k < s.len() && p(#[trigger] s[k]);
        assert(found == k);
        k
    }
}

/// Whether the dependencies that are asked for are refused as they should be: for the
/// task itself among them, else for the first that does not exist, else for the first
/// from which dependencies lead back to the task.
pub open spec fn dependencies_are_judged(
    board: Board,
    id: Uuid,
    asked: Seq<Uuid>,
    fault: Option<Fault>,
) -> bool {
    &&& fault is None <==> forall|k: int|
        0 <= k < asked.len() ==> (#[trigger] asked[k]) != id && board.tasks.contains_key(asked[k])
            && !leads_to(board, asked[k], id)
    &&& asked.contains(id) ==> fault == Some(
        Fault::Invalid("task cannot depend on itself: "@ + uuid_text(id)),
    )
    &&& forall|k: int|
        !asked.contains(id) && 0 <= k < asked.len() && !board.tasks.contains_key(
            #[trigger] asked[k],
        ) && (forall|j: int| 0 <= j < k ==> board.tasks.contains_key(#[trigger] asked[j]))
            ==> fault == Some(
            Fault::Invalid("dependency does not exist: "@ + uuid_text(asked[k])),
        )
    &&& forall|k: int|
        !asked.contains(id) && 0 <= k < asked.len() && (forall|j: int|
            0 <= j < asked.len() ==> board.tasks.contains_key(#[trigger] asked[j])) && leads_to(
            board,
            #[trigger] asked[k],
            id,
        ) && (forall|j: int| 0 <= j < k ==> !leads_to(board, #[trigger] asked[j], id)) ==> fault
            == Some(
            Fault::Conflict(
                "dependency cycle involving: "@ + uuid_text(id) + ", "@ + uuid_text(asked[k]),
            ),
        )
}

/// Dependencies are taken exactly when they exist, none is the task itself, and from none
/// of them dependencies lead back to the task; what is refused tells the first that is
/// wrong.
pub proof fn dependencies_exist_and_do_not_lead_back(board: Board, id: Uuid, asked: Seq<Uuid>)
    ensures
        dependencies_are_judged(
            board,
            id,
            asked,
            board.dependency_fault(id, first_seen(asked)),
        ),
{
    let once = first_seen(asked);
    let fault = board.dependency_fault(id, once);
    let is_missing = |d: Uuid| !board.has(d);
    let is_back = |d: Uuid| board.reaches(d, id);
    lemma_each_once(asked);
    assert(once.contains(id) <==> asked.contains(id));
    lemma_first_of_each(asked, is_missing);
    lemma_first_of_each(asked, is_back);
    lemma_none_such(asked, is_missing);
    lemma_none_such(asked, is_back);
    assert forall|d: Uuid| #[trigger] board.reaches(d, id) <==> leads_to(board, d, id) by {
        reaching_is_following_dependencies(board, d, id);
    }
    assert forall|d: Uuid| #[trigger] leads_to(board, d, id) <==> board.reaches(d, id) by {
        reaching_is_following_dependencies(board, d, id);
    }
    assert forall|k: int|
        !asked.contains(id) && 0 <= k < asked.len() && !board.tasks.contains_key(
            #[trigger] asked[k],
        ) && (forall|j: int|
            0 <= j < k ==> board.tasks.contains_key(#[trigger] asked[j])) implies fault == Some(
        Fault::Invalid("dependency does not exist: "@ + uuid_text(asked[k])),
    ) by {
        assert forall|j: int| 0 <= j < k implies !is_missing(#[trigger] asked[j]) by {}
        lemma_first_such(asked, is_missing, k);
    }
    assert forall|k: int|
        !asked.contains(id) && 0 <= k < asked.len() && (forall|j: int|
            0 <= j < asked.len() ==> board.tasks.contains_key(#[trigger] asked[j])) && leads_to(
            board,
            #[trigger] asked[k],
            id,
        ) && (forall|j: int| 0 <= j < k ==> !leads_to(board, #[trigger] asked[j], id)) implies fault
        == Some(
        Fault::Conflict(
            "dependency cycle involving: "@ + uuid_text(id) + ", "@ + uuid_text(asked[k]),
        ),
    ) by {
        assert forall|j: int| 0 <= j < k implies !is_back(#[trigger] asked[j]) by {
            assert(!leads_to(board, asked[j], id));
        }
        assert forall|j: int| 0 <= j < asked.len() implies !is_missing(#[trigger] asked[j]) by {}
        lemma_first_such(asked, is_back, k);
    }
    if fault is None {
        assert forall|k: int| 0 <= k < asked.len() implies (#[trigger] asked[k]) != id
            && board.tasks.contains_key(asked[k]) && !leads_to(board, asked[k], id) by {
            assert(asked.contains(asked[k]));
            assert(!is_missing(asked[k]));
            assert(!is_back(asked[k]));
        }
    }
    if forall|k: int|
        0 <= k < asked.len() ==> (#[trigger] asked[k]) != id && board.tasks.contains_key(asked[k])
            && !leads_to(board, asked[k], id) {
        assert forall|k: int| 0 <= k < asked.len() implies !is_missing(#[trigger] asked[k]) by {}
        assert forall|k: int| 0 <= k < asked.len() implies !is_back(#[trigger] asked[k]) by {}
    }
}

/// A creation is refused for its title, then for its requirements, then for its
/// dependencies, then for an identifier that is taken, and for nothing else.
pub proof fn a_creation_is_refused_for_these_reasons_alone(
    board: Board,
    id: Uuid,
    request: CreateTask,
)
    requires
        board.valid(),
    ensures
        ({
            let fault = board.create_fault(id, request@);
            let is_titled = !is_blank(request.title@) && request.title@.len() <= 500;
            let is_skilled = forall|k: int|
                0 <= k < request.requires@.len() ==> can_be_kept(#[trigger] request.requires@[k]);
            &&& fault is None <==> is_titled && is_skilled && (forall|k: int|
                0 <= k < request.depends_on@.len() ==> (#[trigger] request.depends_on@[k]) != id
                    && board.tasks.contains_key(request.depends_on@[k]))
                && !board.tasks.contains_key(id)
            &&& is_blank(request.title@) ==> fault == Some(
                Fault::Invalid("title must not be empty"@),
            )
            &&& !is_blank(request.title@) && request.title@.len() > 500 ==> fault == Some(
                Fault::Invalid("title must be at most 500 characters"@),
            )
            &&& is_titled && !is_skilled ==> fault == requirements_fault(
                input_models(request.requires@),
            )
            &&& is_titled && is_skilled && fault is Some && !board.tasks.contains_key(id)
                ==> dependencies_are_judged(board, id, request.depends_on@, fault)
            &&& is_titled && is_skilled && board.tasks.contains_key(id) && (forall|k: int|
                0 <= k < request.depends_on@.len() ==> (#[trigger] request.depends_on@[k]) != id
                    && board.tasks.contains_key(request.depends_on@[k]) && !leads_to(
                    board,
                    request.depends_on@[k],
                    id,
                )) ==> fault == Some(Fault::Internal("UNIQUE constraint failed: tasks.id"@))
        }),
{
    let asked = request.depends_on@;
    a_title_holds_something_and_is_not_long(request.title@);
    the_first_wrong_requirement_is_refused(request.requires@);
    dependencies_exist_and_do_not_lead_back(board, id, asked);
    if !board.tasks.contains_key(id) {
        assert forall|d: Uuid| board.tasks.contains_key(d) implies !#[trigger] leads_to(
            board,
            d,
            id,
        ) by {
            reaching_is_following_dependencies(board, d, id);
            if board.reaches(d, id) {
                let n = choose|n: nat| board.leads(d, id, n);
                assert forall|a: Uuid, b: Uuid|
                    board.tasks.dom().contains(a) && #[trigger] board.depends(
                        a,
                        b,
                    ) implies board.tasks.dom().contains(b) by {
                    assert(board.has(a));
                    assert(board.valid_record(a, board.tasks[a]));
                    assert(board.has(b));
                }
                lemma_closed_set(board, board.tasks.dom(), d, id, n);
            }
        }
    }
}

/// A change is refused for a task that is not there or cannot be read, then for its title,
/// then for its dependencies, then for its requirements, as far as it holds them, and for
/// nothing else while versions can be counted.
pub proof fn a_change_is_refused_for_these_reasons_alone(
    board: Board,
    id: Uuid,
    patch: PatchTask,
)
    ensures
        !board.tasks.contains_key(id) ==> board.patch_fault(id, patch@) == Some(Fault::NotFound),
        board.tasks.contains_key(id) && board.tasks[id].raw is None ==> {
            let fault = board.patch_fault(id, patch@);
            let is_titled = patch.title matches Patch::Present(title) ==> !is_blank(title@)
                && title@.len() <= 500;
            let is_linked = patch.depends_on matches Patch::Present(asked) ==> forall|k: int|
                0 <= k < asked@.len() ==> (#[trigger] asked@[k]) != id && board.tasks.contains_key(
                    asked@[k],
                ) && !leads_to(board, asked@[k], id);
            let is_skilled = patch.requires matches Patch::Present(inputs) ==> forall|k: int|
                0 <= k < inputs@.len() ==> can_be_kept(#[trigger] inputs@[k]);
            &&& fault is None <==> is_titled && is_linked && is_skilled
                && board.tasks[id].task.version < 0x7fff_ffff_ffff_ffff
            &&& patch.title matches Patch::Present(title) ==> {
                &&& is_blank(title@) ==> fault == Some(
                    Fault::Invalid("title must not be empty"@),
                )
                &&& !is_blank(title@) && title@.len() > 500 ==> fault == Some(
                    Fault::Invalid("title must be at most 500 characters"@),
                )
            }
            &&& is_titled && !is_linked ==> (patch.depends_on matches Patch::Present(asked)
                && dependencies_are_judged(board, id, asked@, fault))
            &&& is_titled && is_linked && !is_skilled ==> (
            patch.requires matches Patch::Present(inputs) && fault == requirements_fault(
                input_models(inputs@),
            ))
        },
{
    if let Patch::Present(title) = patch.title {
        a_title_holds_something_and_is_not_long(title@);
    }
    if let Patch::Present(asked) = patch.depends_on {
        dependencies_exist_and_do_not_lead_back(board, id, asked@);
    }
    if let Patch::Present(inputs) = patch.requires {
        the_first_wrong_requirement_is_refused(inputs@);
    }
}

} // verus!
