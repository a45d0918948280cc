//! Reading tasks: what blocks them, what waits for them, and the list of all.

use super::{Store, StoreError};
use crate::board::{ranks_before, Board};
use crate::dates::is_dated_before;
use crate::ids::{contains_id, increasing, lemma_ascending_filter, Uuid};
use crate::model::{Status, TaskView, TaskViewModel};
use crate::tables::{sort_ranks, sorted_keys, Rank};
use std::collections::BTreeMap;
use crate::validity::{lemma_rows_stand_in_order, lemma_rows_stand_transitively};
use vstd::prelude::*;

verus! {

/// Those of the tasks that depend on a task.
spec fn dependents_among(board: Board, ids: Seq<Uuid>, on: Uuid) -> Seq<Uuid> {
    ids.filter(|id: Uuid| board.depends(id, on))
}

/// Whether a rank is what a task is ordered by in lists.
spec fn is_rank(board: Board, id: Uuid, rank: Rank) -> bool {
    rank.0 == -board.task(id).priority && rank.1 == board.task(id).created_at && rank.2 == id
}

/// A list of tasks, mathematically.
pub open spec fn view_models(views: Seq<TaskView>) -> Seq<TaskViewModel> {
    views.map_values(|view: TaskView| view@)
}

/// Those of all the tasks that depend on a task are its dependents.
proof fn lemma_dependents(board: Board, ids: Seq<Uuid>, on: Uuid)
    requires
        increasing(ids),
        ids.to_set() == board.tasks.dom(),
    ensures
        dependents_among(board, ids, on) == board.dependents(on),
{
    let p = |id: Uuid| board.depends(id, on);
    assert forall|x: Uuid| #[trigger]
        board.dependent_set(on).contains(x) <==> ids.contains(x) && p(x) by {
        assert(ids.to_set().contains(x) <==> board.has(x));
    }
    lemma_ascending_filter(ids, p, board.dependent_set(on));
}

/// One task is the first that cannot be read.
proof fn lemma_first_flawed(board: Board, id: Uuid)
    requires
        board.is_first_flawed(id),
    ensures
        board.list_fault() == board.read_fault(id),
{
    let chosen = choose|id: Uuid| board.is_first_flawed(id);
    if chosen != id {
        assert(board.stands_before(id, chosen));
        assert(board.stands_before(chosen, id));
        lemma_rows_stand_in_order(board, id, chosen);
    }
}

impl Store {
    /// The identifiers of all tasks, the lowest first.
    pub(super) fn keys(&self) -> (keys: Vec<Uuid>)
        ensures
            increasing(keys@),
            keys@.to_set() == self@.tasks.dom(),
    {
        let keys = sorted_keys(&self.tasks);
        assert(self@.tasks.dom() =~= self.tasks@.dom());
        keys
    }

    /// The dependencies of a task that are not done, in their order.
    pub(super) fn blocked_ids(&self, id: Uuid) -> (blocked: Vec<Uuid>)
        requires
            self.wf(),
            self@.has(id),
        ensures
            blocked@ == self@.blocked_by(id),
    {
        let task = &self.tasks.get(&id).unwrap().task;
        let mut blocked: Vec<Uuid> = Vec::new();
        let mut i: usize = 0;
        let ghost all = task.depends_on@;
        assert(self@.unmet(all.take(0)) =~= blocked@) by {
            reveal(Seq::filter);
        }
        while i < task.depends_on.len()
            invariant
                self.wf(),
                self@.has(id),
                all == task.depends_on@,
                all == self@.task(id).depends_on,
                i <= all.len(),
                blocked@ == self@.unmet(all.take(i as int)),
            decreases all.len() - i,
        {
            let dependency: Uuid = task.depends_on[i];
            assert(all.contains(dependency));
            assert(self@.has(dependency));
            proof {
                assert(all.take(i + 1) =~= all.take(i as int).push(dependency));
                all.take(i as int).lemma_filter_push(dependency, |d: Uuid| self@.is_unmet(d));
            }
            if self.tasks.get(&dependency).unwrap().task.status != Status::Done {
                blocked.push(dependency);
            }
            i += 1;
        }
        assert(all.take(all.len() as int) =~= all);
        blocked
    }

    /// The tasks that depend on a task, the lowest identifier first.
    pub(super) fn dependent_ids(&self, id: Uuid) -> (dependents: Vec<Uuid>)
        requires
            self.wf(),
        ensures
            dependents@ == self@.dependents(id),
    {
        let keys = self.keys();
        let mut dependents: Vec<Uuid> = Vec::new();
        let mut i: usize = 0;
        assert(dependents_among(self@, keys@.take(0), id) =~= dependents@) by {
            reveal(Seq::filter);
        }
        while i < keys.len()
            invariant
                keys@.to_set() == self@.tasks.dom(),
                i <= keys.len(),
                dependents@ == dependents_among(self@, keys@.take(i as int), id),
            decreases keys.len() - i,
        {
            let other: Uuid = keys[i];
            assert(keys@.to_set().contains(other));
            proof {
                assert(keys@.take(i + 1) =~= keys@.take(i as int).push(other));
                keys@.take(i as int).lemma_filter_push(other, |o: Uuid| self@.depends(o, id));
            }
            if contains_id(&self.tasks.get(&other).unwrap().task.depends_on, id) {
                dependents.push(other);
            }
            i += 1;
        }
        assert(keys@.take(keys@.len() as int) =~= keys@);
        proof {
            lemma_dependents(self@, keys@, id);
        }
        dependents
    }

    /// A task with what follows from the rest of the board.
    pub(super) fn task_view(&self, id: Uuid) -> (view: TaskView)
        requires
            self.wf(),
            self@.has(id),
        ensures
            view@ == self@.view_of(id),
    {
        let task = self.tasks.get(&id).unwrap().task.clone();
        let blocked_by = self.blocked_ids(id);
        let dependents = self.dependent_ids(id);
        let ready = task.status == Status::Todo && blocked_by.len() == 0;
        TaskView { task, blocked_by, dependents, ready }
    }

    /// A task with what follows from the rest of the board, where it exists and can be
    /// read.
    pub fn get(&self, id: Uuid) -> (result: Result<TaskView, StoreError>)
        requires
            self.wf(),
        ensures
            match result {
                Ok(view) => self@.read_fault(id) is None && view@ == self@.view_of(id),
                Err(error) => self@.read_fault(id) == Some(error@),
            },
    {
        match self.read_record(id) {
            Ok(_) => Ok(self.task_view(id)),
            Err(error) => Err(error),
        }
    }

    /// For every task the tasks that depend on it, found in one pass over all
    /// dependencies.
    fn dependents_table(&self, keys: &Vec<Uuid>) -> (table: BTreeMap<Uuid, Vec<Uuid>>)
        requires
            self.wf(),
            increasing(keys@),
            keys@.to_set() == self@.tasks.dom(),
        ensures
            forall|id: Uuid| #[trigger]
                self@.has(id) ==> table@.contains_key(id) && table@[id]@ == self@.dependents(id),
    {
        let mut table: BTreeMap<Uuid, Vec<Uuid>> = BTreeMap::new();
        let mut i: usize = 0;
        while i < keys.len()
            invariant
                i <= keys.len(),
                forall|k: int| 0 <= k < i ==> table@.contains_key(#[trigger] keys@[k]),
                forall|id: Uuid| #[trigger]
                    table@.contains_key(id) ==> table@[id]@ == Seq::<Uuid>::empty(),
            decreases keys.len() - i,
        {
            let none: Vec<Uuid> = Vec::new();
            assert(none@ =~= Seq::<Uuid>::empty());
            table.insert(keys[i], none);
            i += 1;
        }
        assert forall|id: Uuid| #[trigger] self@.has(id) implies table@.contains_key(id)
            && table@[id]@ == dependents_among(self@, keys@.take(0), id) by {
            assert(keys@.to_set().contains(id));
            let k = choose|k: int| 0 <= k < keys@.len() && keys@[k] == id;
            assert(table@.contains_key(keys@[k]));
            reveal(Seq::filter);
            assert(dependents_among(self@, keys@.take(0), id) =~= Seq::<Uuid>::empty());
        }
        i = 0;
        while i < keys.len()
            invariant
                self.wf(),
                keys@.to_set() == self@.tasks.dom(),
                i <= keys.len(),
                forall|id: Uuid| #[trigger]
                    self@.has(id) ==> table@.contains_key(id) && table@[id]@ == dependents_among(
                        self@,
                        keys@.take(i as int),
                        id,
                    ),
            decreases keys.len() - i,
        {
            let waiting: Uuid = keys[i];
            assert(keys@.to_set().contains(waiting));
            assert(self@.has(waiting));
            let task = &self.tasks.get(&waiting).unwrap().task;
            let ghost edges = task.depends_on@;
            let ghost before = keys@.take(i as int);
            let mut j: usize = 0;
            while j < task.depends_on.len()
                invariant
                    self.wf(),
                    self@.has(waiting),
                    edges == task.depends_on@,
                    edges == self@.task(waiting).depends_on,
                    j <= edges.len(),
                    forall|id: Uuid| #[trigger]
                        self@.has(id) ==> table@.contains_key(id) && table@[id]@ == (
                        if edges.take(j as int).contains(id) {
                            dependents_among(self@, before, id).push(waiting)
                        } else {
                            dependents_among(self@, before, id)
                        }),
                decreases edges.len() - j,
            {
                let dependency: Uuid = task.depends_on[j];
                assert(edges.contains(dependency));
                assert(self@.has(dependency));
                let ghost earlier = table@;
                let mut list = table.remove(&dependency).unwrap();
                list.push(waiting);
                table.insert(dependency, list);
                assert forall|id: Uuid| #[trigger] self@.has(id) implies table@.contains_key(id)
                    && table@[id]@ == (if edges.take(j + 1).contains(id) {
                    dependents_among(self@, before, id).push(waiting)
                } else {
                    dependents_among(self@, before, id)
                }) by {
                    assert(earlier.contains_key(id));
                    assert(edges.take(j + 1) =~= edges.take(j as int).push(dependency));
                    if id == dependency {
                        assert(edges.take(j + 1)[j as int] == dependency);
                        assert(!edges.take(j as int).contains(dependency)) by {
                            if edges.take(j as int).contains(dependency) {
                                let k = choose|k: int|
                                    0 <= k < j && edges.take(j as int)[k] == dependency;
                                assert(edges[k] == edges[j as int]);
                            }
                        }
                    } else {
                        if edges.take(j as int).contains(id) {
                            let k = choose|k: int| 0 <= k < j && edges.take(j as int)[k] == id;
                            assert(edges.take(j + 1)[k] == id);
                        }
                        if edges.take(j + 1).contains(id) {
                            let more = edges.take(j + 1);
                            let k = choose|k: int| 0 <= k < more.len() && more[k] == id;
                            assert(edges.take(j as int)[k] == id);
                        }
                    }
                }
                j += 1;
            }
            assert(edges.take(edges.len() as int) =~= edges);
            assert(keys@.take(i + 1) =~= before.push(waiting));
            assert forall|id: Uuid| #[trigger] self@.has(id) implies table@.contains_key(id)
                && table@[id]@ == dependents_among(self@, keys@.take(i + 1), id) by {
                before.lemma_filter_push(waiting, |o: Uuid| self@.depends(o, id));
                assert(self@.depends(waiting, id) <==> edges.contains(id));
            }
            i += 1;
        }
        assert(keys@.take(keys@.len() as int) =~= keys@);
        assert forall|id: Uuid| #[trigger] self@.has(id) implies table@.contains_key(id)
            && table@[id]@ == self@.dependents(id) by {
            lemma_dependents(self@, keys@, id);
        }
        table
    }

    /// The identifiers of all tasks, in the order of lists.
    fn ranked_ids(&self, keys: &Vec<Uuid>) -> (ids: Vec<Uuid>)
        requires
            self.wf(),
            keys@.to_set() == self@.tasks.dom(),
        ensures
            forall|i: int, j: int|
                0 <= i < j < ids@.len() ==> ranks_before(self@.task(ids@[i]), self@.task(ids@[j])),
            ids@.to_set() == self@.tasks.dom(),
    {
        let mut ranks: Vec<Rank> = Vec::new();
        let mut i: usize = 0;
        while i < keys.len()
            invariant
                self.wf(),
                keys@.to_set() == self@.tasks.dom(),
                i <= keys.len(),
                ranks@.len() == i,
                forall|k: int| 0 <= k < i ==> is_rank(self@, keys@[k], #[trigger] ranks@[k]),
            decreases keys.len() - i,
        {
            let id: Uuid = keys[i];
            assert(keys@.to_set().contains(id));
            assert(self@.has(id));
            let task = &self.tasks.get(&id).unwrap().task;
            ranks.push((-(task.priority as i128), task.created_at.as_nanosecond(), id));
            i += 1;
        }
        let sorted = sort_ranks(&ranks);
        assert forall|k: int| 0 <= k < sorted@.len() implies self@.has((#[trigger] sorted@[k]).2)
            && is_rank(self@, sorted@[k].2, sorted@[k]) by {
            assert(sorted@.to_set().contains(sorted@[k]));
            let m = choose|m: int| 0 <= m < ranks@.len() && ranks@[m] == sorted@[k];
            assert(keys@.to_set().contains(keys@[m]));
        }
        let mut ids: Vec<Uuid> = Vec::new();
        i = 0;
        while i < sorted.len()
            invariant
                i <= sorted.len(),
                ids@.len() == i,
                forall|k: int| 0 <= k < i ==> #[trigger] ids@[k] == sorted@[k].2,
            decreases sorted.len() - i,
        {
            ids.push(sorted[i].2);
            i += 1;
        }
        assert forall|id: Uuid| #[trigger]
            ids@.to_set().contains(id) <==> self@.tasks.dom().contains(id) by {
            if ids@.contains(id) {
                let k = choose|k: int| 0 <= k < ids@.len() && ids@[k] == id;
                assert(self@.has(sorted@[k].2));
            }
            if self@.tasks.dom().contains(id) {
                assert(keys@.to_set().contains(id));
                let m = choose|m: int| 0 <= m < keys@.len() && keys@[m] == id;
                assert(is_rank(self@, id, ranks@[m]));
                assert(ranks@.to_set().contains(ranks@[m]));
                assert(sorted@.to_set().contains(ranks@[m]));
                let k = choose|k: int| 0 <= k < sorted@.len() && sorted@[k] == ranks@[m];
                assert(ids@[k] == id);
            }
        }
        assert(ids@.to_set() =~= self@.tasks.dom());
        assert forall|a: int, b: int| 0 <= a < b < ids@.len() implies ranks_before(
            self@.task(ids@[a]),
            self@.task(ids@[b]),
        ) by {
            assert(crate::tables::rank_before(sorted@[a], sorted@[b]));
        }
        ids
    }

    /// Whether the row of a task stands before that of another.
    pub(super) fn stands_before(&self, id: Uuid, other: Uuid) -> (before: bool)
        requires
            self@.has(id),
            self@.has(other),
        ensures
            before == self@.stands_before(id, other),
    {
        let record = self.tasks.get(&id).unwrap();
        let against = self.tasks.get(&other).unwrap();
        assert(record@ == self@.tasks[id] && against@ == self@.tasks[other]);
        if record.task.priority != against.task.priority {
            return record.task.priority > against.task.priority;
        }
        is_dated_before(record.created.as_str(), id, against.created.as_str(), other)
    }

    /// The first task that cannot be read.
    fn first_flawed(&self, keys: &Vec<Uuid>) -> (result: Option<Uuid>)
        requires
            keys@.to_set() == self@.tasks.dom(),
        ensures
            match result {
                Some(id) => self@.is_first_flawed(id),
                None => forall|id: Uuid| !#[trigger] self@.is_flawed(id),
            },
    {
        let mut first: Option<Uuid> = None;
        let mut i: usize = 0;
        while i < keys.len()
            invariant
                keys@.to_set() == self@.tasks.dom(),
                i <= keys.len(),
                match first {
                    Some(id) => self@.is_flawed(id) && forall|k: int|
                        0 <= k < i && #[trigger] keys@[k] != id && self@.is_flawed(keys@[k])
                            ==> self@.stands_before(id, keys@[k]),
                    None => forall|k: int| 0 <= k < i ==> !self@.is_flawed(#[trigger] keys@[k]),
                },
            decreases keys.len() - i,
        {
            let id: Uuid = keys[i];
            assert(keys@.to_set().contains(id));
            assert(self@.has(id));
            let record = self.tasks.get(&id).unwrap();
            assert(record@ == self@.tasks[id]);
            if record.flaw().is_some() {
                match first {
                    None => {
                        first = Some(id);
                    },
                    Some(other) => {
                        if other != id && self.stands_before(id, other) {
                            proof {
                                assert forall|k: int|
                                    0 <= k < i + 1 && #[trigger] keys@[k] != id && self@.is_flawed(
                                        keys@[k],
                                    ) implies self@.stands_before(id, keys@[k]) by {
                                    if keys@[k] != other {
                                        lemma_rows_stand_transitively(self@, id, other, keys@[k]);
                                    }
                                }
                            }
                            first = Some(id);
                        } else if other != id {
                            proof {
                                lemma_rows_stand_in_order(self@, id, other);
                            }
                        }
                    },
                }
            }
            i += 1;
        }
        proof {
            assert forall|id: Uuid| #[trigger] self@.is_flawed(id) implies keys@.contains(id) by {
                assert(keys@.to_set().contains(id));
            }
            match first {
                Some(id) => {
                    assert forall|other: Uuid|
                        other != id && #[trigger] self@.is_flawed(other) implies self@.stands_before(
                        id,
                        other,
                    ) by {
                        let k = choose|k: int| 0 <= k < keys@.len() && keys@[k] == other;
                        assert(self@.is_flawed(keys@[k]));
                    }
                },
                None => {
                    assert forall|id: Uuid| !#[trigger] self@.is_flawed(id) by {
                        if self@.is_flawed(id) {
                            let k = choose|k: int| 0 <= k < keys@.len() && keys@[k] == id;
                            assert(!self@.is_flawed(keys@[k]));
                        }
                    }
                },
            }
        }
        first
    }

    /// All tasks, each with what follows from the rest of the board, in the order
    /// of lists, where all can be read.
    pub fn list(&self) -> (result: Result<Vec<TaskView>, StoreError>)
        requires
            self.wf(),
        ensures
            match result {
                Ok(views) => self@.list_fault() is None && self@.is_listed_as(view_models(views@)),
                Err(error) => self@.list_fault() == Some(error@),
            },
    {
        let keys = self.keys();
        if let Some(id) = self.first_flawed(&keys) {
            proof {
                lemma_first_flawed(self@, id);
            }
            if let Err(error) = self.read_record(id) {
                return Err(error);
            }
        }
        let mut table = self.dependents_table(&keys);
        let ids = self.ranked_ids(&keys);
        let mut views: Vec<TaskView> = Vec::new();
        let mut i: usize = 0;
        assert forall|k: int| 0 <= k < ids@.len() implies table@.contains_key(#[trigger] ids@[k])
            && table@[ids@[k]]@ == self@.dependents(ids@[k]) by {
            assert(ids@.to_set().contains(ids@[k]));
            assert(self@.has(ids@[k]));
        }
        while i < ids.len()
            invariant
                self.wf(),
                ids@.to_set() == self@.tasks.dom(),
                forall|a: int, b: int|
                    0 <= a < b < ids@.len() ==> ranks_before(
                        self@.task(ids@[a]),
                        self@.task(ids@[b]),
                    ),
                i <= ids.len(),
                views@.len() == i,
                forall|k: int|
                    0 <= k < i ==> (#[trigger] views@[k])@ == self@.view_of(ids@[k]),
                forall|k: int|
                    i <= k < ids@.len() ==> table@.contains_key(#[trigger] ids@[k])
                        && table@[ids@[k]]@ == self@.dependents(ids@[k]),
            decreases ids.len() - i,
        {
            let id: Uuid = ids[i];
            assert(ids@.to_set().contains(id));
            assert(self@.has(id));
            let task = self.tasks.get(&id).unwrap().task.clone();
            let blocked_by = self.blocked_ids(id);
            let dependents = table.remove(&id).unwrap();
            let ready = task.status == Status::Todo && blocked_by.len() == 0;
            views.push(TaskView { task, blocked_by, dependents, ready });
            assert forall|k: int| i < k < ids@.len() implies #[trigger] ids@[k] != id by {
                assert(ranks_before(self@.task(ids@[i as int]), self@.task(ids@[k])));
            }
            i += 1;
        }
        proof {
            assert forall|id: Uuid| !self@.is_first_flawed(id) by {
                assert(!self@.is_flawed(id));
            }
        }
        proof {
            let models = view_models(views@);
            assert forall|k: int| 0 <= k < models.len() implies self@.has(
                (#[trigger] models[k]).task.id,
            ) && models[k] == self@.view_of(models[k].task.id) && models[k].task.id == ids@[k] by {
                assert(models[k] == views@[k]@);
                assert(ids@.to_set().contains(ids@[k]));
                assert(self@.has(ids@[k]));
            }
            assert forall|id: Uuid| #[trigger] self@.has(id) implies exists|k: int|
                0 <= k < models.len() && models[k].task.id == id by {
                assert(ids@.to_set().contains(id));
                let k = choose|k: int| 0 <= k < ids@.len() && ids@[k] == id;
                assert(models[k].task.id == id);
            }
        }
        Ok(views)
    }
}

} // verus!
