//! What the answers of the board promise: readiness, order, and which
//! operations undo which.

use crate::board::{artifact_key, ranks_before, Board, RecordModel};
use crate::dates::dates_are_ordered;
use crate::ids::{ascending_holds_all, first_seen, Uuid};
use crate::model::{
    ArtifactModel, CreateModel, LabelModel, PatchModel, Status, TaskModel, TaskViewModel,
};
use crate::rules::tidy_description;
use crate::steps::{reworded, stored_artifact, touched, OwnedAction};
use crate::text::{precedes, precedes_is_irreflexive, precedes_is_transitive, trimmed};
use crate::validity::{
    lemma_ahead_in_order, lemma_ahead_transitively, lemma_no_dependents, lemma_sound_dependencies,
};
use serde_json::Value;
use crate::time::{follows_time, is_recent, timestamp_text};
use vstd::prelude::*;
use vstd::set_lib::lemma_set_subset_finite;

verus! {

/// A task is blocked by exactly those of its dependencies that are not done.
pub proof fn blocked_by_holds_what_is_not_done(board: Board, id: Uuid, dependency: Uuid)
    ensures
        board.blocked_by(id).contains(dependency) <==> board.task(id).depends_on.contains(
            dependency,
        ) && board.task(dependency).status != Status::Done,
{
    lemma_unmet_members(board, board.task(id).depends_on, dependency);
}

proof fn lemma_unmet_members(board: Board, dependencies: Seq<Uuid>, dependency: Uuid)
    ensures
        board.unmet(dependencies).contains(dependency) <==> dependencies.contains(dependency)
            && board.is_unmet(dependency),
    decreases dependencies.len(),
{
    reveal(Seq::filter);
    if dependencies.len() > 0 {
        let front = dependencies.drop_last();
        let last = dependencies.last();
        lemma_unmet_members(board, front, dependency);
        let kept = board.unmet(front);
        let all = board.unmet(dependencies);
        if front.contains(dependency) {
            let k = choose|k: int| 0 <= k < front.len() && front[k] == dependency;
            assert(dependencies[k] == dependency);
        }
        if dependencies.contains(dependency) && dependency != last {
            let k = choose|k: int|
                0 <= k < dependencies.len() && dependencies[k] == dependency;
            assert(front[k] == dependency);
        }
        assert(dependencies[dependencies.len() - 1] == last);
        if board.is_unmet(last) {
            assert(all == kept.push(last));
            assert(all[kept.len() as int] == last);
            if kept.contains(dependency) {
                let k = choose|k: int| 0 <= k < kept.len() && kept[k] == dependency;
                assert(all[k] == dependency);
            }
            if all.contains(dependency) && dependency != last {
                let k = choose|k: int| 0 <= k < all.len() && all[k] == dependency;
                assert(kept[k] == dependency);
            }
        }
    }
}

/// A task is ready exactly when its status is todo and every dependency is done.
pub proof fn ready_means_todo_with_every_dependency_done(board: Board, id: Uuid)
    ensures
        board.is_ready(id) <==> board.task(id).status == Status::Todo && (forall|d: Uuid|
            #[trigger]
            board.task(id).depends_on.contains(d) ==> board.task(d).status == Status::Done),
{
    let blocked = board.blocked_by(id);
    if blocked.len() == 0 {
        assert forall|d: Uuid| #[trigger] board.task(id).depends_on.contains(d) implies board.task(
            d,
        ).status == Status::Done by {
            blocked_by_holds_what_is_not_done(board, id, d);
        }
    } else {
        blocked_by_holds_what_is_not_done(board, id, blocked[0]);
        assert(blocked.contains(blocked[0]));
    }
}

/// The dependents of a task are exactly the tasks that depend on it.
pub proof fn dependents_mirror_dependencies(board: Board, id: Uuid, other: Uuid)
    requires
        board.valid(),
    ensures
        board.dependents(id).contains(other) <==> board.depends(other, id),
{
    let members = board.dependent_set(id);
    assert(members.subset_of(board.tasks.dom())) by {
        assert forall|x: Uuid| members.contains(x) implies board.tasks.dom().contains(x) by {
            assert(board.depends(x, id));
        }
    }
    lemma_set_subset_finite(board.tasks.dom(), members);
    ascending_holds_all(members);
    assert(board.dependents(id).to_set().contains(other) <==> members.contains(other));
}

/// Completing the last dependency that is not done makes a waiting task ready.
pub proof fn completion_unblocks(
    board: Board,
    id: Uuid,
    dependency: Uuid,
    agent: Seq<char>,
    result: Option<Value>,
    now: int,
)
    requires
        board.transition_fault(dependency, agent, OwnedAction::Complete) is None,
        id != dependency,
        board.task(id).status == Status::Todo,
        forall|d: Uuid| #[trigger]
            board.task(id).depends_on.contains(d) && d != dependency ==> board.task(d).status
                == Status::Done,
    ensures
        board.transitioned(dependency, OwnedAction::Complete, result, now).is_ready(id),
{
    let after = board.transitioned(dependency, OwnedAction::Complete, result, now);
    ready_means_todo_with_every_dependency_done(after, id);
}

/// Two sequences that a strict order puts in order and that have the same
/// members are the same.
proof fn lemma_one_order<T>(a: Seq<T>, b: Seq<T>, before: spec_fn(T, T) -> bool)
    requires
        forall|i: int, j: int| 0 <= i < j < a.len() ==> #[trigger] before(a[i], a[j]),
        forall|i: int, j: int| 0 <= i < j < b.len() ==> #[trigger] before(b[i], b[j]),
        forall|x: T, y: T| #[trigger] before(x, y) ==> !before(y, x),
        forall|x: T| #[trigger] a.contains(x) <==> b.contains(x),
    ensures
        a == b,
    decreases a.len(),
{
    if a.len() == 0 {
        if b.len() > 0 {
            assert(b.contains(b[0]));
            assert(a.contains(b[0]));
        }
        assert(a =~= b);
    } else {
        assert(a.contains(a[0]));
        assert(b.contains(a[0]));
        let j = choose|j: int| 0 <= j < b.len() && b[j] == a[0];
        assert(b.contains(b[0]));
        assert(a.contains(b[0]));
        let i = choose|i: int| 0 <= i < a.len() && a[i] == b[0];
        if i > 0 && j > 0 {
            assert(before(a[0], a[i]));
            assert(before(b[0], b[j]));
        }
        assert(a[0] == b[0]);
        let x = a.drop_first();
        let y = b.drop_first();
        assert forall|m: int, n: int| 0 <= m < n < x.len() implies #[trigger] before(
            x[m],
            x[n],
        ) by {
            assert(before(a[m + 1], a[n + 1]));
        }
        assert forall|m: int, n: int| 0 <= m < n < y.len() implies #[trigger] before(
            y[m],
            y[n],
        ) by {
            assert(before(b[m + 1], b[n + 1]));
        }
        assert forall|t: T| #[trigger] x.contains(t) <==> y.contains(t) by {
            if x.contains(t) {
                let m = choose|m: int| 0 <= m < x.len() && x[m] == t;
                assert(a[m + 1] == t);
                assert(a.contains(t));
                assert(before(a[0], a[m + 1]));
                assert(b.contains(t));
                let n = choose|n: int| 0 <= n < b.len() && b[n] == t;
                assert(y[n - 1] == t);
            }
            if y.contains(t) {
                let m = choose|m: int| 0 <= m < y.len() && y[m] == t;
                assert(b[m + 1] == t);
                assert(b.contains(t));
                assert(before(b[0], b[m + 1]));
                assert(a.contains(t));
                let n = choose|n: int| 0 <= n < a.len() && a[n] == t;
                assert(x[n - 1] == t);
            }
        }
        lemma_one_order(x, y, before);
        assert(a =~= seq![a[0]] + x);
        assert(b =~= seq![b[0]] + y);
    }
}

/// A board has one list of its tasks.
pub proof fn there_is_one_list(board: Board, a: Seq<TaskViewModel>, b: Seq<TaskViewModel>)
    requires
        board.is_listed_as(a),
        board.is_listed_as(b),
    ensures
        a == b,
{
    let before = |x: TaskViewModel, y: TaskViewModel| ranks_before(x.task, y.task);
    assert forall|v: TaskViewModel| #[trigger] a.contains(v) <==> b.contains(v) by {
        if a.contains(v) {
            let i = choose|i: int| 0 <= i < a.len() && a[i] == v;
            assert(board.has(a[i].task.id));
            let j = choose|j: int| 0 <= j < b.len() && b[j].task.id == v.task.id;
            assert(b[j] == board.view_of(b[j].task.id));
            assert(b[j] == v);
        }
        if b.contains(v) {
            let i = choose|i: int| 0 <= i < b.len() && b[i] == v;
            assert(board.has(b[i].task.id));
            let j = choose|j: int| 0 <= j < a.len() && a[j].task.id == v.task.id;
            assert(a[j] == board.view_of(a[j].task.id));
            assert(a[j] == v);
        }
    }
    lemma_one_order(a, b, before);
}

/// A board has one list of its labels.
pub proof fn there_is_one_list_of_labels(board: Board, a: Seq<LabelModel>, b: Seq<LabelModel>)
    requires
        board.is_labelled_as(a),
        board.is_labelled_as(b),
    ensures
        a == b,
{
    let before = |x: LabelModel, y: LabelModel| precedes(x.name, y.name);
    assert forall|x: LabelModel, y: LabelModel| #[trigger] before(x, y) implies !before(y, x) by {
        if precedes(y.name, x.name) {
            precedes_is_transitive(x.name, y.name, x.name);
            precedes_is_irreflexive(x.name);
        }
    }
    assert forall|v: LabelModel| #[trigger] a.contains(v) <==> b.contains(v) by {
        if a.contains(v) {
            let i = choose|i: int| 0 <= i < a.len() && a[i] == v;
            assert(board.in_use(a[i].name));
            let j = choose|j: int| 0 <= j < b.len() && b[j].name == v.name;
            assert(b[j] == v);
        }
        if b.contains(v) {
            let i = choose|i: int| 0 <= i < b.len() && b[i] == v;
            assert(board.in_use(b[i].name));
            let j = choose|j: int| 0 <= j < a.len() && a[j].name == v.name;
            assert(a[j] == v);
        }
    }
    lemma_one_order(a, b, before);
}

/// A task has one list of its artifacts.
pub proof fn there_is_one_list_of_artifacts(
    board: Board,
    task_id: Uuid,
    a: Seq<ArtifactModel>,
    b: Seq<ArtifactModel>,
)
    requires
        board.is_furnished_with(task_id, a),
        board.is_furnished_with(task_id, b),
    ensures
        a == b,
{
    let before = |x: ArtifactModel, y: ArtifactModel| board.is_filed_before(x.id, y.id);
    assert forall|x: ArtifactModel, y: ArtifactModel| #[trigger] before(x, y) implies !before(
        y,
        x,
    ) by {
        dates_are_ordered(artifact_key(board.artifacts[x.id]), artifact_key(board.artifacts[y.id]));
    }
    assert forall|v: ArtifactModel| #[trigger] a.contains(v) <==> b.contains(v) by {
        if a.contains(v) {
            let i = choose|i: int| 0 <= i < a.len() && a[i] == v;
            assert(board.owns(task_id, a[i].id));
            let j = choose|j: int| 0 <= j < b.len() && b[j].id == v.id;
            assert(b[j] == v);
        }
        if b.contains(v) {
            let i = choose|i: int| 0 <= i < b.len() && b[i] == v;
            assert(board.owns(task_id, b[i].id));
            let j = choose|j: int| 0 <= j < a.len() && a[j].id == v.id;
            assert(a[j] == v);
        }
    }
    lemma_one_order(a, b, before);
}

/// Where an agent can be handed a task, there is a best one, and only one.
pub proof fn a_candidate_is_always_found(board: Board, capabilities: Seq<Seq<char>>, id: Uuid)
    requires
        board.valid(),
        board.is_candidate(capabilities, id),
    ensures
        board.next(capabilities) matches Some(best) && board.is_best(capabilities, best) && (
        forall|other: Uuid| #[trigger] board.is_best(capabilities, other) ==> other == best),
{
    let candidates = Set::new(|x: Uuid| board.is_candidate(capabilities, x));
    assert(candidates.subset_of(board.tasks.dom())) by {
        assert forall|x: Uuid| candidates.contains(x) implies board.tasks.dom().contains(x) by {
            assert(board.is_candidate(capabilities, x));
        }
    }
    lemma_set_subset_finite(board.tasks.dom(), candidates);
    assert(candidates.contains(id));
    let top = lemma_first_of(board, capabilities, candidates);
    assert forall|other: Uuid|
        other != top && #[trigger] board.is_candidate(capabilities, other) implies board.is_ahead(
        capabilities,
        top,
        other,
    ) by {
        assert(candidates.contains(other));
    }
    assert(board.is_best(capabilities, top));
    let best = board.next(capabilities)->0;
    assert forall|other: Uuid| #[trigger] board.is_best(capabilities, other) implies other
        == best by {
        if other != best {
            assert(board.is_ahead(capabilities, best, other));
            assert(board.is_ahead(capabilities, other, best));
            lemma_ahead_in_order(board, capabilities, best, other);
        }
    }
}

/// The member of a finite set of tasks that is handed out before the others.
proof fn lemma_first_of(board: Board, capabilities: Seq<Seq<char>>, ids: Set<Uuid>) -> (top: Uuid)
    requires
        board.valid(),
        ids.finite(),
        ids.len() > 0,
        ids.subset_of(board.tasks.dom()),
    ensures
        ids.contains(top),
        forall|x: Uuid| x != top && #[trigger] ids.contains(x) ==> board.is_ahead(
            capabilities,
            top,
            x,
        ),
    decreases ids.len(),
{
    let one = ids.choose();
    let rest = ids.remove(one);
    assert(ids.contains(one));
    if rest.len() == 0 {
        assert forall|x: Uuid| x != one && #[trigger] ids.contains(x) implies board.is_ahead(
            capabilities,
            one,
            x,
        ) by {
            assert(rest.contains(x));
        }
        one
    } else {
        let other = lemma_first_of(board, capabilities, rest);
        assert(board.has(one) && board.has(other)) by {
            assert(ids.contains(other));
        }
        lemma_ahead_in_order(board, capabilities, one, other);
        let top = if board.is_ahead(capabilities, one, other) {
            one
        } else {
            other
        };
        assert forall|x: Uuid| x != top && #[trigger] ids.contains(x) implies board.is_ahead(
            capabilities,
            top,
            x,
        ) by {
            if x != one {
                assert(rest.contains(x));
                if x != other {
                    assert(board.is_ahead(capabilities, other, x));
                    if top == one {
                        lemma_ahead_transitively(board, capabilities, one, other, x);
                    }
                }
            }
        }
        top
    }
}

/// The task that an agent is handed can be claimed, but for the last version and
/// unless it cannot be read.
pub proof fn the_next_task_can_be_claimed(board: Board, capabilities: Seq<Seq<char>>, id: Uuid)
    requires
        board.next(capabilities) == Some(id),
        board.task(id).version < i64::MAX,
        !board.is_flawed(id),
    ensures
        board.claim_fault(id) is None,
{
    assert(board.is_best(capabilities, id));
}

/// Releasing a task undoes its claim, but for the time of the last change and two
/// versions.
pub proof fn release_undoes_a_claim(board: Board, id: Uuid, agent: Seq<char>, t: int, u: int)
    requires
        board.claim_fault(id) is None,
        board.task(id).claimed_by is None,
        board.task(id).version + 2 <= i64::MAX,
    ensures
        board.claimed(id, agent, t).transition_fault(id, agent, OwnedAction::Release) is None,
        board.claimed(id, agent, t).transitioned(id, OwnedAction::Release, None, u) == board.with(
            id,
            RecordModel {
                task: TaskModel {
                    updated_at: u,
                    version: (board.task(id).version + 2) as u64,
                    ..board.task(id)
                },
                updated: timestamp_text(u),
                ..board.tasks[id]
            },
        ),
{
    let claimed = board.claimed(id, agent, t);
    let released = claimed.transitioned(id, OwnedAction::Release, None, u);
    let expected = board.with(
        id,
        RecordModel {
            task: TaskModel {
                updated_at: u,
                version: (board.task(id).version + 2) as u64,
                ..board.task(id)
            },
            updated: timestamp_text(u),
            ..board.tasks[id]
        },
    );
    assert(released.tasks =~= expected.tasks);
}

/// A failed or cancelled task that is tried again is free, and ready as soon as
/// its dependencies are done.
pub proof fn retry_frees_a_task(board: Board, id: Uuid, now: int)
    requires
        board.retry_fault(id) is None,
        forall|d: Uuid| #[trigger]
            board.task(id).depends_on.contains(d) ==> d != id && board.task(d).status
                == Status::Done,
    ensures
        board.retried(id, now).is_ready(id),
        board.retried(id, now).task(id).claimed_by is None,
        board.retried(id, now).task(id).result is None,
        board.retried(id, now).tasks[id].closed_at is None,
{
    let after = board.retried(id, now);
    ready_means_todo_with_every_dependency_done(after, id);
}

/// Deleting a task undoes its creation.
pub proof fn delete_undoes_a_creation(board: Board, id: Uuid, request: CreateModel, now: int)
    requires
        board.valid(),
        board.create_fault(id, request) is None,
    ensures
        board.created(id, request, now).delete_fault(id) is None,
        board.created(id, request, now).deleted(id) == board,
{
    let created = board.created(id, request, now);
    let deleted = created.deleted(id);
    lemma_sound_dependencies(board, id, first_seen(request.depends_on));
    let members = created.dependent_set(id);
    assert forall|other: Uuid| !members.contains(other) by {
        if created.depends(other, id) {
            if other != id {
                assert(board.has(other));
                assert(board.task(other).depends_on.contains(id));
            }
        }
    }
    assert(members =~= Set::empty());
    ascending_holds_all(members);
    if created.dependents(id).len() > 0 {
        assert(created.dependents(id).to_set().contains(created.dependents(id)[0]));
    }
    assert(deleted.tasks =~= board.tasks);
    assert forall|a: Uuid| board.artifacts.contains_key(a) implies !created.owns(id, a) by {
        assert(board.has(board.file(a).task_id));
    }
    assert(deleted.artifacts =~= board.artifacts);
    assert(deleted =~= board);
}

/// After a task is deleted no task depends on it and no artifact belongs to it.
pub proof fn nothing_points_at_a_deleted_task(board: Board, id: Uuid, other: Uuid, artifact: Uuid)
    requires
        board.valid(),
        board.delete_fault(id) is None,
    ensures
        !board.deleted(id).has(id),
        !board.deleted(id).depends(other, id),
        !board.deleted(id).owns(id, artifact),
{
    lemma_no_dependents(board, id);
    assert(!board.depends(other, id));
}

/// Removing an artifact undoes its addition.
pub proof fn removal_undoes_an_addition(board: Board, agent: Seq<char>, artifact: ArtifactModel)
    requires
        board.artifact_fault(agent, artifact) is None,
    ensures
        board.with_artifact(artifact).owns(artifact.task_id, artifact.id),
        board.with_artifact(artifact).file(artifact.id) == stored_artifact(artifact),
        board.with_artifact(artifact).without_artifact(artifact.id) == board,
{
    assert(board.with_artifact(artifact).without_artifact(artifact.id).artifacts
        =~= board.artifacts);
    assert(board.with_artifact(artifact).without_artifact(artifact.id) =~= board);
}

/// A second expiry at the same time takes nothing.
pub proof fn expiry_is_idempotent(board: Board, cutoff: int)
    ensures
        board.without_expired(cutoff).expired(cutoff) == Set::<Uuid>::empty(),
        board.without_expired(cutoff).without_expired(cutoff) == board.without_expired(cutoff),
{
    let once = board.without_expired(cutoff);
    assert forall|id: Uuid| !once.expired(cutoff).contains(id) by {
        if once.is_expired(id, cutoff) {
            assert(board.is_expired(id, cutoff));
        }
    }
    assert(once.expired(cutoff) =~= Set::empty());
    assert(once.without_expired(cutoff).artifacts =~= once.artifacts);
    assert(once.without_expired(cutoff) =~= once);
}

/// A change that holds no field counts a version and changes nothing else.
pub proof fn an_empty_change_only_counts(board: Board, id: Uuid, now: int)
    requires
        board.has(id),
    ensures
        board.patched(
            id,
            PatchModel {
                title: None,
                description: None,
                priority: None,
                requires: None,
                depends_on: None,
                metadata: None,
            },
            now,
        ) == board.with(
            id,
            RecordModel {
                task: touched(board.task(id), now),
                updated: timestamp_text(now),
                ..board.tasks[id]
            },
        ),
{
}

/// Giving a label the explanation that it has changes nothing.
pub proof fn the_same_explanation_changes_nothing(
    board: Board,
    name: Seq<char>,
    description: Option<Seq<char>>,
    t: int,
    u: int,
)
    requires
        board.valid(),
    ensures
        board.relabelled(name, description, t).relabelled(name, description, u)
            == board.relabelled(name, description, t),
{
    let once = board.relabelled(name, description, t);
    let twice = once.relabelled(name, description, u);
    let label = trimmed(name);
    let text = tidy_description(description);
    assert forall|id: Uuid| board.has(id) implies #[trigger] twice.tasks[id] == once.tasks[id] by {
        lemma_reworded_once(board, id, label, text, t);
        assert(once.tasks[id] == board.reworded_record(id, label, text, t));
        assert(!once.is_reworded(id, label, text));
    }
    assert(twice.tasks =~= once.tasks);
    assert(twice =~= once);
}

/// After a new explanation of a label every open task that carries it holds that
/// explanation.
pub proof fn every_carrier_holds_the_explanation(
    board: Board,
    name: Seq<char>,
    description: Option<Seq<char>>,
    now: int,
    id: Uuid,
)
    requires
        board.valid(),
        board.carries(id, trimmed(name)),
    ensures
        ({
            let after = board.relabelled(name, description, now);
            after.carries(id, trimmed(name)) && crate::board::explanation(
                after.task(id).requires,
                trimmed(name),
            ) == tidy_description(description)
        }),
{
    lemma_reworded_once(board, id, trimmed(name), tidy_description(description), now);
}

proof fn lemma_reworded_once(
    board: Board,
    id: Uuid,
    name: Seq<char>,
    description: Option<Seq<char>>,
    now: int,
)
    requires
        board.valid(),
        board.has(id),
    ensures
        ({
            let record = board.reworded_record(id, name, description, now);
            &&& record.task.status == board.task(id).status
            &&& crate::board::asks_for(record.task.requires, name) == crate::board::asks_for(
                board.task(id).requires,
                name,
            )
            &&& board.carries(id, name) ==> crate::board::explanation(record.task.requires, name)
                == description
        }),
{
    let list = board.task(id).requires;
    let words = reworded(list, name, description);
    assert forall|k: int| 0 <= k < list.len() implies (#[trigger] words[k]).name
        == list[k].name by {}
    if crate::board::asks_for(list, name) {
        let k = choose|k: int| 0 <= k < list.len() && (#[trigger] list[k]).name == name;
        assert(words[k].name == name);
        let m = choose|m: int| 0 <= m < words.len() && (#[trigger] words[m]).name == name;
        assert(words[m].description == description);
    }
}

/// No more tasks are ready for a label than carry it.
pub proof fn ready_tasks_are_open_tasks(board: Board, name: Seq<char>)
    requires
        board.valid(),
    ensures
        board.label(name).ready_tasks <= board.label(name).open_tasks,
{
    let open = board.carriers(name);
    let ready = board.ready_carriers(name);
    assert(open.subset_of(board.tasks.dom())) by {
        assert forall|x: Uuid| open.contains(x) implies board.tasks.dom().contains(x) by {
            assert(board.carries(x, name));
        }
    }
    lemma_set_subset_finite(board.tasks.dom(), open);
    assert(ready.subset_of(open));
    vstd::set_lib::lemma_len_subset(ready, open);
}

/// The explanation of a label is the one on the task that was changed last, where the
/// texts of the times of the changes follow these times.
pub proof fn the_last_change_explains_a_label(board: Board, name: Seq<char>, id: Uuid, other: Uuid)
    requires
        board.speaks_for(id, name),
        board.explains(other, name),
        is_recent(board.task(other).updated_at),
        board.tasks[other].updated == timestamp_text(board.task(other).updated_at),
        follows_time(board.tasks[id].updated, board.task(id).updated_at),
    ensures
        board.task(other).updated_at <= board.task(id).updated_at,
{
    if other != id {
        assert(board.is_later(id, other));
        precedes_is_irreflexive(board.tasks[id].updated);
        if precedes(board.tasks[id].updated, board.tasks[other].updated) {
            precedes_is_transitive(
                board.tasks[other].updated,
                board.tasks[id].updated,
                board.tasks[other].updated,
            );
            precedes_is_irreflexive(board.tasks[other].updated);
        }
    }
}

} // verus!
