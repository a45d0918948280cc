//! Why the operations leave a valid board.

use crate::board::{Board, RecordModel};
use crate::dates::{dates_are_ordered, dates_are_transitive};
use crate::ids::{ascending, ascending_holds_all, lemma_none_such, Uuid};
use crate::model::ArtifactModel;
use crate::rules::tidy_description;
use crate::steps::reworded;
use crate::text::trimmed;
use vstd::prelude::*;
use vstd::set_lib::lemma_set_subset_finite;

verus! {

/// A valid task can be replaced or added.
pub proof fn lemma_with_valid(board: Board, id: Uuid, record: RecordModel)
    requires
        board.valid(),
        board.valid_record(id, record),
    ensures
        board.with(id, record).valid(),
{
    let after = board.with(id, record);
    assert forall|other: Uuid| #[trigger] after.has(other) implies after.valid_record(
        other,
        after.tasks[other],
    ) by {
        if other != id {
            assert(board.has(other));
        }
        assert forall|d: Uuid| #[trigger]
            after.tasks[other].task.depends_on.contains(d) implies after.has(d) by {
            assert(board.has(d));
        }
    }
}

/// Dependencies without a fault exist, and none of them leads back.
pub proof fn lemma_sound_dependencies(board: Board, id: Uuid, dependencies: Seq<Uuid>)
    requires
        board.dependency_fault(id, dependencies) is None,
    ensures
        forall|d: Uuid| #[trigger]
            dependencies.contains(d) ==> d != id && board.has(d) && !board.reaches(d, id),
{
    lemma_none_such(dependencies, |d: Uuid| !board.has(d));
    lemma_none_such(dependencies, |d: Uuid| board.reaches(d, id));
    assert forall|d: Uuid| #[trigger] dependencies.contains(d) implies d != id && board.has(d)
        && !board.reaches(d, id) by {
        let k = choose|k: int| 0 <= k < dependencies.len() && dependencies[k] == d;
        let missing = |d: Uuid| !board.has(d);
        let returns_to = |d: Uuid| board.reaches(d, id);
        assert(!missing(dependencies[k]));
        assert(!returns_to(dependencies[k]));
    }
}

/// A board stays valid without a task that nothing depends on.
pub proof fn lemma_deleted_valid(board: Board, id: Uuid)
    requires
        board.valid(),
        board.has(id),
        board.dependents(id).len() == 0,
    ensures
        board.deleted(id).valid(),
{
    let after = board.deleted(id);
    lemma_no_dependents(board, id);
    assert forall|other: Uuid| #[trigger] after.has(other) implies after.valid_record(
        other,
        after.tasks[other],
    ) by {
        assert(board.has(other));
        assert forall|d: Uuid| #[trigger]
            after.tasks[other].task.depends_on.contains(d) implies after.has(d) by {
            assert(board.has(d));
            if d == id {
                assert(board.depends(other, id));
            }
        }
    }
    assert(after.artifacts.dom().subset_of(board.artifacts.dom()));
    lemma_set_subset_finite(board.artifacts.dom(), after.artifacts.dom());
}

/// Where the list of dependents is empty, nothing depends on the task.
pub proof fn lemma_no_dependents(board: Board, id: Uuid)
    requires
        board.valid(),
        board.dependents(id).len() == 0,
    ensures
        forall|other: Uuid| !#[trigger] board.depends(other, id),
{
    let members = board.dependent_set(id);
    assert(members.subset_of(board.tasks.dom())) by {
        assert forall|x: Uuid| members.contains(x) implies board.tasks.dom().contains(x) by {
            assert(board.depends(x, id));
        }
    }
    lemma_set_subset_finite(board.tasks.dom(), members);
    ascending_holds_all(members);
    assert forall|other: Uuid| !#[trigger] board.depends(other, id) by {
        if board.depends(other, id) {
            assert(members.contains(other));
            assert(ascending(members).to_set().contains(other));
        }
    }
}

/// A new explanation leaves a valid task.
pub proof fn lemma_reworded_valid(
    board: Board,
    id: Uuid,
    name: Seq<char>,
    description: Option<Seq<char>>,
    now: int,
)
    requires
        board.valid(),
        board.has(id),
    ensures
        board.valid_record(id, board.reworded_record(id, name, description, now)),
{
    let list = board.task(id).requires;
    let after = reworded(list, name, description);
    assert forall|i: int, j: int| 0 <= i < j < after.len() implies after[i].name
        != after[j].name by {
        assert(after[i].name == list[i].name && after[j].name == list[j].name);
    }
}

/// A board stays valid without some of its artifacts.
pub proof fn lemma_fewer_artifacts(before: Board, after: Board)
    requires
        before.valid(),
        after.tasks == before.tasks,
        after.artifacts.dom().subset_of(before.artifacts.dom()),
        forall|id: Uuid| #[trigger]
            after.artifacts.contains_key(id) ==> after.artifacts[id] == before.artifacts[id],
    ensures
        after.valid(),
{
    lemma_set_subset_finite(before.artifacts.dom(), after.artifacts.dom());
    assert forall|id: Uuid| #[trigger] after.has(id) implies after.valid_record(
        id,
        after.tasks[id],
    ) by {
        assert(before.has(id));
        assert forall|d: Uuid| #[trigger] after.tasks[id].task.depends_on.contains(d) implies
            after.has(d) by {
            assert(before.has(d));
        }
    }
    assert forall|id: Uuid| #[trigger] after.artifacts.contains_key(id) implies
        after.file(id).id == id && after.has(after.file(id).task_id) by {
        assert(before.artifacts.contains_key(id));
        assert(before.has(before.file(id).task_id));
    }
}

/// The tasks that both boards hold differ in nothing that dependencies and
/// requirements are checked for.
pub open spec fn same_shape(before: Board, after: Board) -> bool {
    &&& after.tasks.dom() == before.tasks.dom()
    &&& forall|id: Uuid| #[trigger]
        before.has(id) ==> after.task(id).id == before.task(id).id && after.task(id).depends_on
            == before.task(id).depends_on && after.task(id).requires == before.task(id).requires
            && after.tasks[id].raw == before.tasks[id].raw
}

/// A board stays valid where nothing changes that dependencies and requirements
/// are checked for.
pub proof fn lemma_same_shape_valid(before: Board, after: Board)
    requires
        before.valid(),
        same_shape(before, after),
        after.artifacts == before.artifacts,
    ensures
        after.valid(),
{
    assert forall|id: Uuid| #[trigger] after.has(id) implies after.valid_record(
        id,
        after.tasks[id],
    ) by {
        assert(before.has(id));
        assert forall|d: Uuid| #[trigger] after.tasks[id].task.depends_on.contains(d) implies
            after.has(d) by {
            assert(before.has(d));
        }
    }
    assert forall|id: Uuid| #[trigger] after.artifacts.contains_key(id) implies
        after.file(id).id == id && after.has(after.file(id).task_id) by {
        assert(before.has(before.file(id).task_id));
    }
}

/// New explanations leave a valid board.
pub proof fn lemma_relabelled_valid(
    board: Board,
    name: Seq<char>,
    description: Option<Seq<char>>,
    now: int,
)
    requires
        board.valid(),
    ensures
        board.relabelled(name, description, now).valid(),
{
    let after = board.relabelled(name, description, now);
    let label = trimmed(name);
    let text = tidy_description(description);
    assert(after.tasks.dom() =~= board.tasks.dom());
    assert forall|id: Uuid| #[trigger] after.has(id) implies after.valid_record(
        id,
        after.tasks[id],
    ) by {
        assert(board.has(id));
        let list = board.task(id).requires;
        let words = reworded(list, label, text);
        assert forall|i: int, j: int| 0 <= i < j < words.len() implies words[i].name
            != words[j].name by {
            assert(words[i].name == list[i].name && words[j].name == list[j].name);
        }
        assert forall|d: Uuid| #[trigger] after.tasks[id].task.depends_on.contains(d) implies
            after.has(d) by {
            assert(board.has(d));
        }
    }
    assert forall|id: Uuid| #[trigger] after.artifacts.contains_key(id) implies
        after.file(id).id == id && after.has(after.file(id).task_id) by {
        assert(board.has(board.file(id).task_id));
    }
}

/// A board stays valid with one more artifact of a task that exists.
pub proof fn lemma_more_artifacts(board: Board, artifact: ArtifactModel)
    requires
        board.valid(),
        board.has(artifact.task_id),
    ensures
        board.with_artifact(artifact).valid(),
{
    let after = board.with_artifact(artifact);
    assert forall|id: Uuid| #[trigger] after.has(id) implies after.valid_record(
        id,
        after.tasks[id],
    ) by {
        assert(board.has(id));
        assert forall|d: Uuid| #[trigger] after.tasks[id].task.depends_on.contains(d) implies
            after.has(d) by {
            assert(board.has(d));
        }
    }
    assert forall|id: Uuid| #[trigger] after.artifacts.contains_key(id) implies
        after.file(id).id == id && after.has(after.file(id).task_id) by {
        if id != artifact.id {
            assert(board.artifacts.contains_key(id));
            assert(board.has(board.file(id).task_id));
        }
    }
}

/// Of two rows one stands before the other, and not both.
pub proof fn lemma_rows_stand_in_order(board: Board, a: Uuid, b: Uuid)
    ensures
        !(board.stands_before(a, b) && board.stands_before(b, a)),
        a != b ==> board.stands_before(a, b) || board.stands_before(b, a),
{
    dates_are_ordered((board.tasks[a].created, a), (board.tasks[b].created, b));
}

/// A row that stands before one that stands before a third stands before the third.
pub proof fn lemma_rows_stand_transitively(board: Board, a: Uuid, b: Uuid, c: Uuid)
    requires
        board.stands_before(a, b),
        board.stands_before(b, c),
    ensures
        board.stands_before(a, c),
{
    if board.task(a).priority == board.task(b).priority && board.task(b).priority == board.task(
        c,
    ).priority {
        dates_are_transitive(
            (board.tasks[a].created, a),
            (board.tasks[b].created, b),
            (board.tasks[c].created, c),
        );
    }
}

/// Of two tasks one is handed out before the other, and not both.
pub proof fn lemma_ahead_in_order(board: Board, capabilities: Seq<Seq<char>>, a: Uuid, b: Uuid)
    requires
        board.valid(),
        board.has(a),
        board.has(b),
    ensures
        !(board.is_ahead(capabilities, a, b) && board.is_ahead(capabilities, b, a)),
        a != b ==> board.is_ahead(capabilities, a, b) || board.is_ahead(capabilities, b, a),
{
    lemma_rows_stand_in_order(board, a, b);
    assert(board.valid_record(a, board.tasks[a]) && board.valid_record(b, board.tasks[b]));
}

/// A task that is handed out before one that is handed out before a third is handed out
/// before the third.
pub proof fn lemma_ahead_transitively(
    board: Board,
    capabilities: Seq<Seq<char>>,
    a: Uuid,
    b: Uuid,
    c: Uuid,
)
    requires
        board.is_ahead(capabilities, a, b),
        board.is_ahead(capabilities, b, c),
    ensures
        board.is_ahead(capabilities, a, c),
{
    if board.has_undated(capabilities) {
        lemma_rows_stand_transitively(board, a, b, c);
    }
}

} // verus!
