//! What becomes of the records of artifacts.

use super::queries::says;
use crate::board::{artifact_flaw, artifact_key, Board};
use crate::dates::{dates_are_ordered, dates_are_transitive};
use crate::ids::{ascending, ascending_holds_all, first_such, lemma_none_such, Uuid};
use crate::model::{Artifact, ArtifactModel, Status};
use crate::rules::{status_word, Fault};
use crate::steps::stored_artifact;
use crate::store::artifacts::{
    are_listed_by_age, artifact_list, expires_in_time, has_age,
};
use crate::text::{is_control, precedes, trimmed};
use crate::time::{is_recent, parsed_timestamp, timestamp_text};
use vstd::prelude::*;
use vstd::set_lib::lemma_set_subset_finite;
use vstd::utf8::encode_utf8;

verus! {

/// Whether an artifact that is sent is the given one, field by field.
pub open spec fn shows_artifact(sent: Artifact, stored: ArtifactModel) -> bool {
    &&& sent.id == stored.id
    &&& sent.task_id == stored.task_id
    &&& sent.filename@ == stored.filename
    &&& sent.content_type@ == stored.content_type
    &&& sent.size_bytes == stored.size_bytes
    &&& sent.created_at@ == stored.created_at
}

/// An added artifact is new and is kept as it was given, under its trimmed file name; the
/// answer shows it. Every task and every other artifact stays.
pub proof fn an_added_artifact_is_kept_as_given(
    before: Board,
    after: Board,
    agent: Seq<char>,
    artifact: Artifact,
    stored: Artifact,
)
    requires
        before.artifact_fault(agent, artifact@) is None,
        stored@ == stored_artifact(artifact@),
        after == before.with_artifact(artifact@),
    ensures
        stored.id == artifact.id,
        stored.task_id == artifact.task_id,
        stored.filename@ == trimmed(artifact.filename@),
        stored.content_type@ == artifact.content_type@,
        stored.size_bytes == artifact.size_bytes,
        stored.created_at@ == artifact.created_at@,
        !before.artifacts.contains_key(artifact.id),
        after.artifacts.contains_key(artifact.id),
        shows_artifact(stored, after.artifacts[artifact.id].artifact),
        after.artifacts[artifact.id].raw is None,
        after.tasks == before.tasks,
        forall|other: Uuid|
            other != artifact.id ==> (#[trigger] after.artifacts.contains_key(other)
                <==> before.artifacts.contains_key(other)),
        forall|other: Uuid|
            other != artifact.id && #[trigger] before.artifacts.contains_key(other)
                ==> after.artifacts[other] == before.artifacts[other],
{
}

/// Whether the file name of an artifact can be kept: once trimmed, it holds 1 through 255
/// characters and no control character.
pub open spec fn is_file_name(name: Seq<char>) -> bool {
    &&& 1 <= trimmed(name).len() <= 255
    &&& forall|i: int|
        0 <= i < trimmed(name).len() ==> !((#[trigger] trimmed(name)[i]) as u32 <= 0x1f || 0x7f
            <= trimmed(name)[i] as u32 <= 0x9f)
}

/// An artifact is taken exactly from the agent that holds the task in progress, with a
/// file name and a content type that can be kept, a size that can be counted, and an
/// identifier that is new.
pub proof fn artifacts_are_taken_from_the_owner(board: Board, agent: Seq<char>, artifact: Artifact)
    ensures
        ({
            let task_id = artifact.task_id;
            let fault = board.artifact_fault(agent, artifact@);
            let task = board.tasks[task_id].task;
            &&& !board.tasks.contains_key(task_id) ==> fault == Some(Fault::NotFound)
            &&& board.tasks.contains_key(task_id) && board.tasks[task_id].raw is None ==> {
                &&& fault is None <==> task.status == Status::InProgress && task.claimed_by
                    == Some(agent) && is_file_name(artifact.filename@) && 1 <= encode_utf8(
                    artifact.content_type@,
                ).len() <= 255 && artifact.size_bytes <= 0x7fff_ffff_ffff_ffff
                    && !board.artifacts.contains_key(artifact.id)
                &&& task.status != Status::InProgress ==> exists|word: Seq<char>| #[trigger]
                    says(word, task.status) && fault == Some(
                        Fault::Conflict("cannot add an artifact to a task in status "@ + word),
                    )
                &&& task.status == Status::InProgress && task.claimed_by != Some(agent) ==> fault
                    == Some(Fault::Conflict("task is not claimed by agent "@ + agent))
                &&& task.status == Status::InProgress && task.claimed_by == Some(agent)
                    && is_file_name(artifact.filename@) && 1 <= encode_utf8(
                    artifact.content_type@,
                ).len() <= 255 ==> {
                    &&& artifact.size_bytes > 0x7fff_ffff_ffff_ffff ==> fault == Some(
                        Fault::Internal("artifact size"@ + " exceeds SQLite integer range"@),
                    )
                    &&& artifact.size_bytes <= 0x7fff_ffff_ffff_ffff
                        && board.artifacts.contains_key(artifact.id) ==> fault == Some(
                        Fault::Internal("UNIQUE constraint failed: artifacts.id"@),
                    )
                }
            }
            &&& board.upload_fault(
                task_id,
                agent,
                artifact.filename@,
                artifact.content_type@,
            ) matches Some(cause) ==> fault == Some(cause)
        }),
{
    lemma_upload(board, artifact.task_id, agent, artifact.filename@, artifact.content_type@);
}

proof fn lemma_upload(
    board: Board,
    task_id: Uuid,
    agent: Seq<char>,
    filename: Seq<char>,
    content_type: Seq<char>,
)
    ensures
        upload_is_judged(board, task_id, agent, filename, content_type),
{
    let name = trimmed(filename);
    assert(says(status_word(board.tasks[task_id].task.status), board.tasks[task_id].task.status));
    if exists|i: int| 0 <= i < name.len() && is_control(#[trigger] name[i]) {
        let i = choose|i: int| 0 <= i < name.len() && is_control(#[trigger] name[i]);
        assert(trimmed(filename)[i] as u32 <= 0x1f || 0x7f <= trimmed(filename)[i] as u32 <= 0x9f);
    } else if name.len() <= 255 && name.len() > 0 {
        assert forall|i: int| 0 <= i < trimmed(filename).len() implies !((
        #[trigger] trimmed(filename)[i]) as u32 <= 0x1f || 0x7f <= trimmed(filename)[i] as u32
            <= 0x9f) by {
            assert(!is_control(name[i]));
        }
    }
}

/// Whether an upload is accepted or refused as it should be.
pub open spec fn upload_is_judged(
    board: Board,
    task_id: Uuid,
    agent: Seq<char>,
    filename: Seq<char>,
    content_type: Seq<char>,
) -> bool {
    let fault = board.upload_fault(task_id, agent, filename, content_type);
    let task = board.tasks[task_id].task;
    let is_owned = task.status == Status::InProgress && task.claimed_by == Some(agent);
    &&& !board.tasks.contains_key(task_id) ==> fault == Some(Fault::NotFound)
    &&& board.tasks.contains_key(task_id) && board.tasks[task_id].raw is None ==> {
        &&& fault is None <==> is_owned && is_file_name(filename) && 1 <= encode_utf8(
            content_type,
        ).len() <= 255
        &&& task.status != Status::InProgress ==> exists|word: Seq<char>| #[trigger]
            says(word, task.status) && fault == Some(
                Fault::Conflict("cannot add an artifact to a task in status "@ + word),
            )
        &&& task.status == Status::InProgress && task.claimed_by != Some(agent) ==> fault == Some(
            Fault::Conflict("task is not claimed by agent "@ + agent),
        )
        &&& is_owned && trimmed(filename).len() == 0 ==> fault == Some(
            Fault::Invalid("artifact filename must not be empty"@),
        )
        &&& is_owned && trimmed(filename).len() > 255 ==> fault == Some(
            Fault::Invalid("artifact filename must be at most 255 characters"@),
        )
        &&& is_owned && 1 <= trimmed(filename).len() <= 255 && !is_file_name(filename) ==> fault
            == Some(Fault::Invalid("artifact filename must not contain control characters"@))
        &&& is_owned && is_file_name(filename) && !(1 <= encode_utf8(content_type).len() <= 255)
            ==> fault == Some(
            Fault::Invalid("artifact content type must contain 1 through 255 bytes"@),
        )
    }
}

/// An upload is accepted exactly from the agent that holds the task in progress, with a
/// file name and a content type that can be kept.
pub proof fn uploads_are_taken_from_the_owner(
    board: Board,
    task_id: Uuid,
    agent: Seq<char>,
    filename: Seq<char>,
    content_type: Seq<char>,
)
    ensures
        upload_is_judged(board, task_id, agent, filename, content_type),
{
    lemma_upload(board, task_id, agent, filename, content_type);
}

/// The artifacts of a task are listed all of them, each once and as it is kept, and no
/// other: those that the board wrote in years that are not negative by the time at which
/// they were added, and by the identifier where that is the same.
pub proof fn all_artifacts_of_a_task_are_listed(
    board: Board,
    task_id: Uuid,
    list: Seq<Artifact>,
)
    requires
        board.valid(),
        board.is_furnished_with(task_id, artifact_list(list)),
        are_listed_by_age(board, artifact_list(list)),
    ensures
        forall|i: int|
            0 <= i < list.len() ==> {
                let id = (#[trigger] list[i]).id;
                &&& board.artifacts.contains_key(id)
                &&& list[i].task_id == task_id
                &&& shows_artifact(list[i], board.artifacts[id].artifact)
            },
        forall|id: Uuid| #[trigger]
            board.artifacts.contains_key(id) && board.artifacts[id].artifact.task_id == task_id
                ==> exists|i: int| 0 <= i < list.len() && (#[trigger] list[i]).id == id,
        forall|i: int, j: int|
            0 <= i < j < list.len() ==> (#[trigger] list[i]).id != (#[trigger] list[j]).id,
        forall|i: int, j: int|
            #![trigger list[i], list[j]]
            0 <= i < j < list.len() && (forall|id: Uuid| #[trigger]
                board.artifacts.contains_key(id) ==> board.artifacts[id].raw is None && is_recent(
                    board.artifacts[id].artifact.created_at,
                )) ==> list[i].created_at@ < list[j].created_at@ || (list[i].created_at@
                == list[j].created_at@ && list[i].id < list[j].id),
{
    let models = artifact_list(list);
    assert forall|i: int| 0 <= i < list.len() implies {
        let id = (#[trigger] list[i]).id;
        &&& board.artifacts.contains_key(id)
        &&& list[i].task_id == task_id
        &&& shows_artifact(list[i], board.artifacts[id].artifact)
    } by {
        assert(models[i] == list[i]@);
        assert(board.owns(task_id, models[i].id));
    }
    assert forall|id: Uuid| #[trigger]
        board.artifacts.contains_key(id) && board.artifacts[id].artifact.task_id
            == task_id implies exists|i: int|
        0 <= i < list.len() && (#[trigger] list[i]).id == id by {
        assert(board.owns(task_id, id));
        let i = choose|i: int| 0 <= i < models.len() && models[i].id == id;
        assert(list[i].id == id);
    }
    assert forall|i: int, j: int| 0 <= i < j < list.len() implies (#[trigger] list[i]).id != (
    #[trigger] list[j]).id by {
        assert(models[i] == list[i]@ && models[j] == list[j]@);
        assert(board.is_filed_before(models[i].id, models[j].id));
        dates_are_ordered(
            artifact_key(board.artifacts[models[i].id]),
            artifact_key(board.artifacts[models[j].id]),
        );
    }
    assert forall|i: int, j: int|
        #![trigger list[i], list[j]]
        0 <= i < j < list.len() && (forall|id: Uuid| #[trigger]
            board.artifacts.contains_key(id) ==> board.artifacts[id].raw is None && is_recent(
                board.artifacts[id].artifact.created_at,
            )) implies list[i].created_at@ < list[j].created_at@ || (list[i].created_at@
        == list[j].created_at@ && list[i].id < list[j].id) by {
        assert(models[i] == list[i]@ && models[j] == list[j]@);
        assert(board.artifacts.contains_key(list[i].id));
        assert(board.artifacts.contains_key(list[j].id));
        assert(has_age(board, models[i].id));
        assert(has_age(board, models[j].id));
    }
}

/// The artifacts of a task are listed wherever the task and they can be read, and an
/// artifact is read exactly under the task that it belongs to.
pub proof fn an_artifact_is_found_under_its_task(board: Board, task_id: Uuid, id: Uuid)
    ensures
        board.artifact_read_fault(task_id, id) == Some(Fault::NotFound) <==> !(
        board.artifacts.contains_key(id) && board.artifacts[id].artifact.task_id == task_id),
        board.artifacts.contains_key(id) && board.artifacts[id].artifact.task_id == task_id
            && board.artifacts[id].raw is None ==> board.artifact_read_fault(task_id, id) is None,
        !board.tasks.contains_key(task_id) ==> board.artifacts_fault(task_id) == Some(
            Fault::NotFound,
        ),
        board.tasks.contains_key(task_id) && board.tasks[task_id].raw is None && (forall|
            a: Uuid,
        | #[trigger]
            board.artifacts.contains_key(a) ==> board.artifacts[a].raw is None)
            ==> board.artifacts_fault(task_id) is None,
{
    if exists|a: Uuid| board.is_first_illegible(task_id, a) {
        let a = choose|a: Uuid| board.is_first_illegible(task_id, a);
        assert(board.is_first_illegible(task_id, a));
        assert(board.artifacts.contains_key(a));
    }
}

/// A deleted artifact is gone; every task and every other artifact stays.
pub proof fn a_deleted_artifact_is_gone(board: Board, id: Uuid, other: Uuid)
    ensures
        board.without_artifact(id).tasks == board.tasks,
        board.without_artifact(id).artifacts.contains_key(other) <==> board.artifacts.contains_key(
            other,
        ) && other != id,
        other != id && board.artifacts.contains_key(other) ==> board.without_artifact(
            id,
        ).artifacts[other] == board.artifacts[other],
{
}

/// Whether an artifact is due: its task is done or cancelled and was closed no later than
/// the given time, as the texts of times are compared.
pub open spec fn is_due(board: Board, id: Uuid, cutoff: int) -> bool {
    let record = board.tasks[board.artifacts[id].artifact.task_id];
    &&& board.artifacts.contains_key(id)
    &&& board.tasks.contains_key(board.artifacts[id].artifact.task_id)
    &&& record.task.status == Status::Done || record.task.status == Status::Cancelled
    &&& record.closed_at matches Some(text) && !precedes(timestamp_text(cutoff), text)
}

/// Expiry takes the artifacts that are due and no other, and answers with each of them
/// once, the lowest identifier first; every task stays.
pub proof fn what_is_due_expires(
    before: Board,
    after: Board,
    cutoff: int,
    list: Seq<Artifact>,
)
    requires
        before.valid(),
        after == before.without_expired(cutoff),
        artifact_list(list) == ascending(before.expired(cutoff)).map_values(
            |id: Uuid| before.file(id),
        ),
    ensures
        after.tasks == before.tasks,
        forall|id: Uuid| #[trigger]
            after.artifacts.contains_key(id) <==> before.artifacts.contains_key(id) && !is_due(
                before,
                id,
                cutoff,
            ),
        forall|id: Uuid| #[trigger]
            after.artifacts.contains_key(id) ==> after.artifacts[id] == before.artifacts[id],
        forall|id: Uuid| #[trigger]
            is_due(before, id, cutoff) <==> exists|i: int|
                0 <= i < list.len() && (#[trigger] list[i]).id == id,
        forall|i: int|
            0 <= i < list.len() ==> shows_artifact(
                #[trigger] list[i],
                before.artifacts[list[i].id].artifact,
            ),
        forall|i: int, j: int|
            0 <= i < j < list.len() ==> (#[trigger] list[i]).id < (#[trigger] list[j]).id,
{
    let due = before.expired(cutoff);
    assert forall|id: Uuid| #[trigger] is_due(before, id, cutoff) <==> due.contains(id) by {
        assert(due.contains(id) <==> before.is_expired(id, cutoff));
        if before.artifacts.contains_key(id) {
            assert(before.has(before.file(id).task_id) <==> before.tasks.contains_key(
                before.artifacts[id].artifact.task_id,
            ));
        }
    }
    assert(due.subset_of(before.artifacts.dom())) by {
        assert forall|x: Uuid| due.contains(x) implies before.artifacts.dom().contains(x) by {
            assert(before.is_expired(x, cutoff));
        }
    }
    lemma_set_subset_finite(before.artifacts.dom(), due);
    ascending_holds_all(due);
    let ids = ascending(due);
    let models = artifact_list(list);
    assert(models == ids.map_values(|id: Uuid| before.file(id)));
    assert(models.len() == list.len());
    assert forall|i: int| 0 <= i < list.len() implies (#[trigger] list[i]).id == ids[i]
        && shows_artifact(list[i], before.artifacts[list[i].id].artifact) by {
        assert(models[i] == list[i]@);
        assert(models[i] == before.file(ids[i]));
        assert(ids.to_set().contains(ids[i]));
        assert(before.artifacts.contains_key(ids[i]));
    }
    assert forall|id: Uuid| #[trigger] is_due(before, id, cutoff) implies exists|i: int|
        0 <= i < list.len() && (#[trigger] list[i]).id == id by {
        assert(ids.to_set().contains(id));
        let i = choose|i: int| 0 <= i < ids.len() && ids[i] == id;
        assert(list[i].id == id);
    }
    assert forall|id: Uuid| (exists|i: int| 0 <= i < list.len() && (#[trigger] list[i]).id == id)
        implies #[trigger] is_due(before, id, cutoff) by {
        let i = choose|i: int| 0 <= i < list.len() && (#[trigger] list[i]).id == id;
        assert(ids[i] == id);
        assert(ids.to_set().contains(id));
    }
}

/// A task that the board closed at a point in time in a year that is not negative loses
/// its artifacts at every such time from then on, and at none before.
pub proof fn artifacts_last_until_the_closing_time(
    board: Board,
    id: Uuid,
    closed: int,
    cutoff: int,
)
    requires
        board.valid(),
        board.artifacts.contains_key(id),
        expires_in_time(board, id, cutoff),
        is_recent(closed),
        is_recent(cutoff),
        ({
            let record = board.tasks[board.artifacts[id].artifact.task_id];
            &&& record.task.status == Status::Done || record.task.status == Status::Cancelled
            &&& record.closed_at == Some(timestamp_text(closed))
        }),
    ensures
        is_due(board, id, cutoff) <==> closed <= cutoff,
        board.expired(cutoff).contains(id) <==> closed <= cutoff,
{
    assert(board.tasks[board.file(id).task_id].closed_at == Some(timestamp_text(closed)));
    assert(board.has(board.file(id).task_id));
}

/// Whether an artifact can be read: the board wrote it, or its size is not negative and
/// its time can be parsed.
pub open spec fn is_legible_file(board: Board, id: Uuid) -> bool {
    board.artifacts[id].raw matches Some(columns) ==> columns.size_bytes >= 0 && parsed_timestamp(
        columns.created_at,
    ) is Ok
}

/// An artifact is read under its task exactly when it can be read; and expiry is refused
/// exactly when an artifact that is due cannot be, for what is wrong inside.
pub proof fn one_illegible_artifact_stops_expiry(
    board: Board,
    cutoff: int,
    task_id: Uuid,
    id: Uuid,
)
    requires
        board.valid(),
    ensures
        board.artifacts.contains_key(id) && board.artifacts[id].artifact.task_id == task_id ==> (
        board.artifact_read_fault(task_id, id) is None <==> is_legible_file(board, id)),
        board.expiry_fault(cutoff) is None <==> forall|a: Uuid| #[trigger]
            is_due(board, a, cutoff) ==> is_legible_file(board, a),
        board.expiry_fault(cutoff) matches Some(fault) ==> fault is Internal,
{
    let due = board.expired(cutoff);
    let ids = ascending(due);
    let is_flawed = |a: Uuid| artifact_flaw(board.artifacts[a]) is Some;
    assert(due.subset_of(board.artifacts.dom())) by {
        assert forall|x: Uuid| due.contains(x) implies board.artifacts.dom().contains(x) by {
            assert(board.is_expired(x, cutoff));
        }
    }
    lemma_set_subset_finite(board.artifacts.dom(), due);
    ascending_holds_all(due);
    lemma_none_such(ids, is_flawed);
    assert forall|a: Uuid| #[trigger] is_due(board, a, cutoff) <==> ids.contains(a) by {
        assert(due.contains(a) <==> board.is_expired(a, cutoff));
        assert(ids.to_set().contains(a) <==> due.contains(a));
        if board.artifacts.contains_key(a) {
            assert(board.has(board.file(a).task_id));
        }
    }
    if first_such(ids, is_flawed) is None {
        assert forall|a: Uuid| #[trigger] is_due(board, a, cutoff) implies is_legible_file(
            board,
            a,
        ) by {
            let k = choose|k: int| 0 <= k < ids.len() && ids[k] == a;
            assert(!is_flawed(ids[k]));
        }
    } else {
        let k = choose|k: int| 0 <= k < ids.len() && is_flawed(#[trigger] ids[k]);
        assert(ids.contains(ids[k]));
        assert(is_due(board, ids[k], cutoff));
    }
}

/// The artifacts of a task that can be read are listed exactly when each of them can be.
pub proof fn one_illegible_artifact_stops_the_list(board: Board, task_id: Uuid)
    requires
        board.valid(),
        board.tasks.contains_key(task_id),
        board.tasks[task_id].raw is None,
    ensures
        board.artifacts_fault(task_id) is None <==> forall|id: Uuid| #[trigger]
            board.artifacts.contains_key(id) && board.artifacts[id].artifact.task_id == task_id
                ==> is_legible_file(board, id),
        board.artifacts_fault(task_id) matches Some(fault) ==> fault is Internal,
{
    let bad = Set::new(|id: Uuid| board.is_illegible(task_id, id));
    assert(bad.subset_of(board.artifacts.dom())) by {
        assert forall|x: Uuid| bad.contains(x) implies board.artifacts.dom().contains(x) by {
            assert(board.is_illegible(task_id, x));
        }
    }
    lemma_set_subset_finite(board.artifacts.dom(), bad);
    if exists|id: Uuid| #[trigger] board.is_illegible(task_id, id) {
        let one = choose|id: Uuid| #[trigger] board.is_illegible(task_id, id);
        assert(bad.contains(one));
        let top = lemma_first_file(board, bad);
        assert(bad.contains(top));
        assert forall|other: Uuid|
            other != top && #[trigger] board.is_illegible(
                task_id,
                other,
            ) implies board.is_filed_before(top, other) by {
            assert(bad.contains(other));
        }
        assert(board.is_first_illegible(task_id, top));
        let first = choose|id: Uuid| board.is_first_illegible(task_id, id);
        assert(board.is_first_illegible(task_id, first));
        assert(board.artifacts.contains_key(one));
    } else {
        assert forall|id: Uuid| !board.is_first_illegible(task_id, id) by {
            assert(!board.is_illegible(task_id, id));
        }
        assert forall|id: Uuid| #[trigger]
            board.artifacts.contains_key(id) && board.artifacts[id].artifact.task_id
                == task_id implies is_legible_file(board, id) by {
            assert(!board.is_illegible(task_id, id));
        }
    }
}

/// The member of a finite set of artifacts that comes before the others in lists.
proof fn lemma_first_file(board: Board, ids: Set<Uuid>) -> (top: Uuid)
    requires
        board.valid(),
        ids.finite(),
        ids.len() > 0,
        ids.subset_of(board.artifacts.dom()),
    ensures
        ids.contains(top),
        forall|other: Uuid|
            other != top && #[trigger] ids.contains(other) ==> board.is_filed_before(top, other),
    decreases ids.len(),
{
    let one = ids.choose();
    let rest = ids.remove(one);
    assert(ids.contains(one));
    assert(board.artifacts.contains_key(one));
    if rest.len() == 0 {
        assert forall|other: Uuid|
            other != one && #[trigger] ids.contains(other) implies board.is_filed_before(
            one,
            other,
        ) by {
            assert(rest.contains(other));
        }
        one
    } else {
        let found = lemma_first_file(board, rest);
        assert(board.artifacts.contains_key(found));
        assert(board.file(one).id == one && board.file(found).id == found);
        let a = artifact_key(board.artifacts[one]);
        let b = artifact_key(board.artifacts[found]);
        dates_are_ordered(a, b);
        if board.is_filed_before(one, found) {
            assert forall|other: Uuid|
                other != one && #[trigger] ids.contains(other) implies board.is_filed_before(
                one,
                other,
            ) by {
                assert(rest.contains(other));
                if other != found {
                    dates_are_transitive(a, b, artifact_key(board.artifacts[other]));
                }
            }
            one
        } else {
            assert forall|other: Uuid|
                other != found && #[trigger] ids.contains(other) implies board.is_filed_before(
                found,
                other,
            ) by {
                if other != one {
                    assert(rest.contains(other));
                }
            }
            found
        }
    }
}

} // verus!
