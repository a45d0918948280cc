//! Checking dependencies: that they exist and that none leads back.

use super::{Store, StoreError};
use crate::graph::{lemma_closed_set, lemma_reaches_itself, lemma_reaches_on};
use crate::ids::{contains_id, lemma_first_such, lemma_none_such, print_uuid, Uuid};
use crate::rules::{joined, reports};
use std::collections::HashSet;
use vstd::prelude::*;
use vstd::set_lib::lemma_len_subset;

verus! {

impl Store {
    /// A task must not depend on itself, nor on a task that does not exist.
    pub(super) fn validate_dependencies(&self, id: Uuid, dependencies: &Vec<Uuid>) -> (result:
        Result<(), StoreError>)
        ensures
            reports(result, self@.existence_fault(id, dependencies@)),
    {
        if contains_id(dependencies, id) {
            return Err(
                StoreError::Invalid(
                    joined("task cannot depend on itself: ", print_uuid(id).as_str()),
                ),
            );
        }
        let ghost missing = |d: Uuid| !self@.has(d);
        let mut i: usize = 0;
        while i < dependencies.len()
            invariant
                !dependencies@.contains(id),
                missing == (|d: Uuid| !self@.has(d)),
                i <= dependencies.len(),
                forall|k: int| 0 <= k < i ==> !missing(#[trigger] dependencies@[k]),
            decreases dependencies.len() - i,
        {
            let dependency: Uuid = dependencies[i];
            if !self.tasks.contains_key(&dependency) {
                proof {
                    lemma_first_such(dependencies@, missing, i as int);
                }
                return Err(
                    StoreError::Invalid(
                        joined("dependency does not exist: ", print_uuid(dependency).as_str()),
                    ),
                );
            }
            i += 1;
        }
        proof {
            lemma_none_such(dependencies@, missing);
        }
        Ok(())
    }

    /// Whether a task is another, or depends on it through any number of others.
    pub(super) fn can_reach(&self, from: Uuid, to: Uuid) -> (found: bool)
        requires
            self.wf(),
        ensures
            found == self@.reaches(from, to),
    {
        let ghost board = self@;
        let ghost universe = board.tasks.dom().insert(from);
        let mut seen: HashSet<Uuid> = HashSet::new();
        let mut open: Vec<Uuid> = Vec::new();
        seen.insert(from);
        open.push(from);
        proof {
            lemma_reaches_itself(board, from);
            assert(open@[0] == from);
        }
        while open.len() > 0
            invariant
                self.wf(),
                board == self@,
                universe == board.tasks.dom().insert(from),
                universe.finite(),
                seen@.contains(from),
                seen@.subset_of(universe),
                forall|a: Uuid| #[trigger] seen@.contains(a) ==> board.reaches(from, a),
                forall|k: int| 0 <= k < open@.len() ==> seen@.contains(#[trigger] open@[k]),
                forall|a: Uuid|
                    #[trigger] seen@.contains(a) && !open@.contains(a) ==> a != to && (forall|b: Uuid|
                        #[trigger] board.depends(a, b) ==> seen@.contains(b)),
            decreases universe.len() - seen@.len(), open.len(),
        {
            let ghost waiting = open@;
            let current: Uuid = open.pop().unwrap();
            assert(current == waiting.last());
            assert(seen@.contains(waiting[waiting.len() - 1]));
            if current == to {
                return true;
            }
            let ghost seen_before = seen@;
            let ghost open_before = open@;
            proof {
                lemma_len_subset(seen@, universe);
            }
            if let Some(record) = self.tasks.get(&current) {
                let task = &record.task;
                let ghost edges = task.depends_on@;
                let mut i: usize = 0;
                while i < task.depends_on.len()
                    invariant
                        self.wf(),
                        board == self@,
                        board.has(current),
                        edges == task.depends_on@,
                        edges == board.task(current).depends_on,
                        universe == board.tasks.dom().insert(from),
                        universe.finite(),
                        i <= edges.len(),
                        board.reaches(from, current),
                        seen_before.subset_of(seen@),
                        seen_before.finite(),
                        seen_before.len() <= seen@.len(),
                        seen@.subset_of(universe),
                        seen@ == seen_before ==> open@ == open_before,
                        seen@ != seen_before ==> seen_before.len() < seen@.len(),
                        forall|a: Uuid| #[trigger] seen@.contains(a) ==> board.reaches(from, a),
                        forall|k: int|
                            0 <= k < open@.len() ==> seen@.contains(#[trigger] open@[k]),
                        forall|a: Uuid| #[trigger] open_before.contains(a) ==> open@.contains(a),
                        forall|a: Uuid| #[trigger] seen@.contains(a) && !seen_before.contains(a)
                            ==> open@.contains(a),
                        forall|k: int| 0 <= k < i ==> seen@.contains(#[trigger] edges[k]),
                    decreases edges.len() - i,
                {
                    let dependency: Uuid = task.depends_on[i];
                    assert(edges.contains(dependency));
                    assert(board.depends(current, dependency));
                    if !seen.contains(&dependency) {
                        proof {
                            lemma_reaches_on(board, from, current, dependency);
                        }
                        let ghost open_now = open@;
                        seen.insert(dependency);
                        open.push(dependency);
                        assert(open@[open_now.len() as int] == dependency);
                        assert forall|a: Uuid| open_now.contains(a) implies #[trigger]
                            open@.contains(a) by {
                            let k = choose|k: int| 0 <= k < open_now.len() && open_now[k] == a;
                            assert(open@[k] == a);
                        }
                        assert(seen@.contains(dependency) && !seen_before.contains(dependency));
                    }
                    i += 1;
                }
                assert forall|b: Uuid| #[trigger] board.depends(current, b) implies seen@.contains(
                    b,
                ) by {
                    let k = choose|k: int| 0 <= k < edges.len() && edges[k] == b;
                    assert(seen@.contains(edges[k]));
                }
            }
            proof {
                lemma_len_subset(seen@, universe);
                assert forall|a: Uuid| #[trigger] seen@.contains(a) && !open@.contains(a) implies a
                    != to && (forall|b: Uuid| #[trigger] board.depends(a, b) ==> seen@.contains(b)) by {
                    if a != current {
                        assert(seen_before.contains(a));
                        assert(!open_before.contains(a));
                        assert(!waiting.contains(a)) by {
                            if waiting.contains(a) {
                                let k = choose|k: int| 0 <= k < waiting.len() && waiting[k] == a;
                                assert(open_before[k] == a);
                            }
                        }
                    }
                }
            }
        }
        proof {
            if board.reaches(from, to) {
                let n = choose|n: nat| board.leads(from, to, n);
                lemma_closed_set(board, seen@, from, to, n);
            }
        }
        false
    }

    /// No dependency may lead back to the task.
    pub(super) fn validate_cycle(&self, id: Uuid, dependencies: &Vec<Uuid>) -> (result: Result<
        (),
        StoreError,
    >)
        requires
            self.wf(),
        ensures
            reports(result, self@.cycle_fault(id, dependencies@)),
    {
        let ghost returns_to = |d: Uuid| self@.reaches(d, id);
        let mut i: usize = 0;
        while i < dependencies.len()
            invariant
                self.wf(),
                returns_to == (|d: Uuid| self@.reaches(d, id)),
                i <= dependencies.len(),
                forall|k: int| 0 <= k < i ==> !returns_to(#[trigger] dependencies@[k]),
            decreases dependencies.len() - i,
        {
            let dependency: Uuid = dependencies[i];
            if self.can_reach(dependency, id) {
                proof {
                    lemma_first_such(dependencies@, returns_to, i as int);
                }
                let mut text = joined("dependency cycle involving: ", print_uuid(id).as_str());
                text.append(", ");
                text.append(print_uuid(dependency).as_str());
                return Err(StoreError::Conflict(text));
            }
            i += 1;
        }
        proof {
            lemma_none_such(dependencies@, returns_to);
        }
        Ok(())
    }
}

} // verus!
