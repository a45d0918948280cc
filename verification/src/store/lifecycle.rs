//! The life of a task: claims, and what follows them.

use super::changes::touch;
use super::{answers, Store, StoreError};
use crate::board::{ranks_before, Board};
use crate::ids::{increasing, join_ids, Uuid};
use crate::model::{texts, Requirement, Status, Task, TaskView};
use crate::rules::{action_conflict, joined, owner_conflict};
use crate::steps::{action_status, action_word, OwnedAction};
use crate::text::same;
use crate::time::{in_range, Timestamp};
use serde_json::Value;
use crate::validity::{lemma_ahead_in_order, lemma_ahead_transitively};
use vstd::prelude::*;

verus! {

impl OwnedAction {
    /// The word for the action.
    pub fn label(self) -> (word: &'static str)
        ensures
            word@ == action_word(self),
    {
        match self {
            OwnedAction::Release => "release",
            OwnedAction::Complete => "complete",
            OwnedAction::Fail => "fail",
        }
    }

    /// The status in which the action leaves a task.
    pub fn status(self) -> (status: Status)
        ensures
            status == action_status(self),
    {
        match self {
            OwnedAction::Release => Status::Todo,
            OwnedAction::Complete => Status::Done,
            OwnedAction::Fail => Status::Failed,
        }
    }
}

/// Whether a task is claimed by the given agent.
pub(super) fn is_claimed_by(task: &Task, agent: &str) -> (claimed: bool)
    ensures
        claimed == (task@.claimed_by == Some(agent@)),
{
    match &task.claimed_by {
        Some(owner) => same(owner.as_str(), agent),
        None => false,
    }
}

/// Whether all the requirements are among the capabilities.
fn covers(capabilities: &[String], list: &Vec<Requirement>) -> (covered: bool)
    ensures
        covered == forall|i: int|
            0 <= i < list@.len() ==> texts(capabilities@).contains((#[trigger] list@[i]).name@),
{
    let mut i: usize = 0;
    while i < list.len()
        invariant
            i <= list.len(),
            forall|k: int|
                0 <= k < i ==> texts(capabilities@).contains((#[trigger] list@[k]).name@),
        decreases list.len() - i,
    {
        if !holds_text(capabilities, list[i].name.as_str()) {
            return false;
        }
        i += 1;
    }
    true
}

/// Whether a text is one of a list.
pub(crate) fn holds_text(list: &[String], text: &str) -> (found: bool)
    ensures
        found == texts(list@).contains(text@),
{
    let mut i: usize = 0;
    while i < list.len()
        invariant
            i <= list.len(),
            forall|k: int| 0 <= k < i ==> (#[trigger] list@[k])@ != text@,
        decreases list.len() - i,
    {
        if same(list[i].as_str(), text) {
            assert(texts(list@)[i as int] == text@);
            return true;
        }
        i += 1;
    }
    assert(!texts(list@).contains(text@)) by {
        if texts(list@).contains(text@) {
            let k = choose|k: int| 0 <= k < texts(list@).len() && texts(list@)[k] == text@;
            assert(list@[k]@ == text@);
        }
    }
    false
}

/// Whether a task comes before another in claims.
fn outranks(a: &Task, b: &Task) -> (before: bool)
    ensures
        before == ranks_before(a@, b@),
{
    let older: i128 = a.created_at.as_nanosecond();
    let newer: i128 = b.created_at.as_nanosecond();
    a.priority > b.priority || (a.priority == b.priority && (older < newer || (older == newer
        && a.id < b.id)))
}

impl Store {
    /// Gives a ready task to an agent, at the given time.
    pub fn claim_at(&mut self, id: Uuid, agent: String, now: Timestamp) -> (result: Result<
        TaskView,
        StoreError,
    >)
        requires
            old(self).wf(),
        ensures
            final(self).wf(),
            answers(
                result,
                old(self)@,
                final(self)@,
                old(self)@.claim_fault(id),
                old(self)@.claimed(id, agent@, now@),
                id,
            ),
    {
        let mut record = match self.read_record(id) {
            Ok(record) => record.clone(),
            Err(error) => {
                return Err(error);
            },
        };
        if record.task.status != Status::Todo {
            return Err(action_conflict("claim", record.task.status));
        }
        let blocked_by = self.blocked_ids(id);
        if blocked_by.len() > 0 {
            return Err(
                StoreError::Conflict(joined("task is blocked by: ", join_ids(&blocked_by).as_str())),
            );
        }
        record.task.status = Status::InProgress;
        record.task.claimed_by = Some(agent);
        if let Err(error) = touch(&mut record, now) {
            return Err(error);
        }
        self.put(id, record);
        Ok(self.task_view(id))
    }

    /// Gives a ready task to an agent, now.
    pub fn claim(&mut self, id: Uuid, agent: String) -> (result: Result<TaskView, StoreError>)
        requires
            old(self).wf(),
        ensures
            final(self).wf(),
            exists|now: int|
                in_range(now) && #[trigger] answers(
                    result,
                    old(self)@,
                    final(self)@,
                    old(self)@.claim_fault(id),
                    old(self)@.claimed(id, agent@, now),
                    id,
                ),
    {
        let now = Timestamp::now();
        self.claim_at(id, agent, now)
    }

    /// Whether an agent with the given capabilities can be handed a task.
    fn is_candidate(&self, capabilities: &[String], id: Uuid) -> (fits: bool)
        requires
            self.wf(),
            self@.has(id),
        ensures
            fits == self@.is_candidate(texts(capabilities@), id),
    {
        let task = &self.tasks.get(&id).unwrap().task;
        if task.status != Status::Todo {
            return false;
        }
        if self.blocked_ids(id).len() > 0 {
            return false;
        }
        let fits = covers(capabilities, &task.requires);
        proof {
            let list = self@.task(id).requires;
            assert(list.len() == task.requires@.len());
            assert forall|i: int| 0 <= i < list.len() implies (#[trigger] list[i]).name
                == task.requires@[i].name@ by {}
            if fits {
                assert forall|i: int| 0 <= i < list.len() implies texts(capabilities@).contains(
                    (#[trigger] list[i]).name,
                ) by {
                    assert(texts(capabilities@).contains(task.requires@[i].name@));
                }
            } else {
                let i = choose|i: int|
                    0 <= i < task.requires@.len() && !texts(capabilities@).contains(
                        (#[trigger] task.requires@[i]).name@,
                    );
                assert(!texts(capabilities@).contains(list[i].name));
            }
        }
        fits
    }

    /// Whether the age of one of the tasks that an agent with the given capabilities can
    /// be handed is not known.
    fn has_undated(&self, capabilities: &[String], keys: &Vec<Uuid>) -> (undated: bool)
        requires
            self.wf(),
            keys@.to_set() == self@.tasks.dom(),
        ensures
            undated == self@.has_undated(texts(capabilities@)),
    {
        let ghost wanted = texts(capabilities@);
        let mut i: usize = 0;
        while i < keys.len()
            invariant
                self.wf(),
                wanted == texts(capabilities@),
                keys@.to_set() == self@.tasks.dom(),
                i <= keys.len(),
                forall|k: int|
                    0 <= k < i && self@.is_candidate(wanted, #[trigger] keys@[k])
                        ==> !self@.is_undated(keys@[k]),
            decreases keys.len() - i,
        {
            let id: Uuid = keys[i];
            assert(keys@.to_set().contains(id));
            assert(self@.has(id));
            let record = self.tasks.get(&id).unwrap();
            assert(record@ == self@.tasks[id]);
            if record.is_undated() && self.is_candidate(capabilities, id) {
                assert(self@.is_candidate(wanted, id) && self@.is_undated(id));
                return true;
            }
            i += 1;
        }
        proof {
            assert forall|id: Uuid| #[trigger] self@.is_candidate(
                wanted,
                id,
            ) implies !self@.is_undated(id) by {
                assert(keys@.to_set().contains(id));
                let k = choose|k: int| 0 <= k < keys@.len() && keys@[k] == id;
                assert(self@.is_candidate(wanted, keys@[k]));
            }
        }
        false
    }

    /// The task that an agent with the given capabilities is handed, where there
    /// is one.
    fn next(&self, capabilities: &[String]) -> (next: Option<Uuid>)
        requires
            self.wf(),
        ensures
            next == self@.next(texts(capabilities@)),
            match next {
                Some(id) => self@.is_best(texts(capabilities@), id),
                None => forall|id: Uuid| !#[trigger] self@.is_candidate(texts(capabilities@), id),
            },
    {
        let ghost wanted = texts(capabilities@);
        let keys = self.keys();
        let undated = self.has_undated(capabilities, &keys);
        let mut best: Option<Uuid> = None;
        let mut i: usize = 0;
        while i < keys.len()
            invariant
                self.wf(),
                wanted == texts(capabilities@),
                undated == self@.has_undated(wanted),
                increasing(keys@),
                keys@.to_set() == self@.tasks.dom(),
                i <= keys.len(),
                match best {
                    Some(id) => self@.is_candidate(wanted, id) && (exists|k: int|
                        0 <= k < i && keys@[k] == id) && (forall|k: int|
                        0 <= k < i && keys@[k] != id && self@.is_candidate(
                            wanted,
                            #[trigger] keys@[k],
                        ) ==> self@.is_ahead(wanted, id, keys@[k])),
                    None => forall|k: int|
                        0 <= k < i ==> !self@.is_candidate(wanted, #[trigger] keys@[k]),
                },
            decreases keys.len() - i,
        {
            let id: Uuid = keys[i];
            assert(keys@.to_set().contains(id));
            assert(self@.has(id));
            if self.is_candidate(capabilities, id) {
                match best {
                    None => {
                        best = Some(id);
                    },
                    Some(current) => {
                        let ahead = if undated {
                            self.stands_before(id, current)
                        } else {
                            outranks(
                                &self.tasks.get(&id).unwrap().task,
                                &self.tasks.get(&current).unwrap().task,
                            )
                        };
                        proof {
                            let k = choose|k: int| 0 <= k < i && keys@[k] == current;
                            assert(keys@[k] < keys@[i as int]);
                            lemma_ahead_in_order(self@, wanted, id, current);
                            if ahead {
                                assert forall|k: int|
                                    0 <= k < i && self@.is_candidate(
                                        wanted,
                                        #[trigger] keys@[k],
                                    ) implies self@.is_ahead(wanted, id, keys@[k]) by {
                                    if keys@[k] != current {
                                        lemma_ahead_transitively(
                                            self@,
                                            wanted,
                                            id,
                                            current,
                                            keys@[k],
                                        );
                                    }
                                }
                            }
                        }
                        if ahead {
                            best = Some(id);
                        }
                    },
                }
            }
            i += 1;
        }
        proof {
            assert forall|other: Uuid| #[trigger]
                self@.is_candidate(wanted, other) implies exists|k: int|
                0 <= k < keys@.len() && keys@[k] == other by {
                assert(keys@.to_set().contains(other));
            }
            match best {
                Some(id) => {
                    assert(self@.is_best(wanted, id)) by {
                        assert forall|other: Uuid|
                            other != id && #[trigger] self@.is_candidate(
                                wanted,
                                other,
                            ) implies self@.is_ahead(wanted, id, other) by {
                            let k = choose|k: int| 0 <= k < keys@.len() && keys@[k] == other;
                            assert(self@.is_candidate(wanted, keys@[k]));
                        }
                    }
                    let chosen = choose|id: Uuid| self@.is_best(wanted, id);
                    if chosen != id {
                        lemma_ahead_in_order(self@, wanted, id, chosen);
                    }
                },
                None => {
                    assert forall|id: Uuid| !#[trigger] self@.is_candidate(wanted, id) by {
                        if self@.is_candidate(wanted, id) {
                            let k = choose|k: int| 0 <= k < keys@.len() && keys@[k] == id;
                            assert(!self@.is_candidate(wanted, keys@[k]));
                        }
                    }
                },
            }
        }
        best
    }

    /// Gives an agent the best task that it can do, at the given time.
    pub fn claim_next_at(&mut self, agent: String, capabilities: &[String], now: Timestamp) -> (result:
        Result<Option<TaskView>, StoreError>)
        requires
            old(self).wf(),
        ensures
            final(self).wf(),
            hands_out(
                result,
                old(self)@,
                final(self)@,
                agent@,
                texts(capabilities@),
                now@,
            ),
    {
        match self.next(capabilities) {
            None => Ok(None),
            Some(id) => match self.claim_at(id, agent, now) {
                Ok(view) => Ok(Some(view)),
                Err(error) => Err(error),
            },
        }
    }

    /// Gives an agent the best task that it can do, now.
    pub fn claim_next(&mut self, agent: String, capabilities: &[String]) -> (result: Result<
        Option<TaskView>,
        StoreError,
    >)
        requires
            old(self).wf(),
        ensures
            final(self).wf(),
            exists|now: int|
                in_range(now) && #[trigger] hands_out(
                    result,
                    old(self)@,
                    final(self)@,
                    agent@,
                    texts(capabilities@),
                    now,
                ),
    {
        let now = Timestamp::now();
        self.claim_next_at(agent, capabilities, now)
    }

    /// Releases, completes or fails a task for its owner, at the given time.
    pub fn transition_owned_at(
        &mut self,
        id: Uuid,
        agent: &str,
        action: OwnedAction,
        result: Option<Value>,
        now: Timestamp,
    ) -> (outcome: Result<TaskView, StoreError>)
        requires
            old(self).wf(),
        ensures
            final(self).wf(),
            answers(
                outcome,
                old(self)@,
                final(self)@,
                old(self)@.transition_fault(id, agent@, action),
                old(self)@.transitioned(id, action, result, now@),
                id,
            ),
    {
        let mut record = match self.read_record(id) {
            Ok(record) => record.clone(),
            Err(error) => {
                return Err(error);
            },
        };
        if record.task.status != Status::InProgress {
            return Err(action_conflict(action.label(), record.task.status));
        }
        if !is_claimed_by(&record.task, agent) {
            return Err(owner_conflict(agent));
        }
        record.task.status = action.status();
        match action {
            OwnedAction::Release => {
                record.task.claimed_by = None;
            },
            OwnedAction::Complete => {
                record.task.result = result;
                record.closed_at = Some(now.to_text());
            },
            OwnedAction::Fail => {
                record.task.result = result;
            },
        }
        if let Err(error) = touch(&mut record, now) {
            return Err(error);
        }
        self.put(id, record);
        Ok(self.task_view(id))
    }

    /// Returns a claimed task to the others, now.
    pub fn release(&mut self, id: Uuid, agent: &str) -> (result: Result<TaskView, StoreError>)
        requires
            old(self).wf(),
        ensures
            final(self).wf(),
            exists|now: int|
                in_range(now) && #[trigger] answers(
                    result,
                    old(self)@,
                    final(self)@,
                    old(self)@.transition_fault(id, agent@, OwnedAction::Release),
                    old(self)@.transitioned(id, OwnedAction::Release, None, now),
                    id,
                ),
    {
        let now = Timestamp::now();
        self.transition_owned_at(id, agent, OwnedAction::Release, None, now)
    }

    /// Completes a claimed task with its result, now.
    pub fn complete(&mut self, id: Uuid, agent: &str, result: Option<Value>) -> (outcome: Result<
        TaskView,
        StoreError,
    >)
        requires
            old(self).wf(),
        ensures
            final(self).wf(),
            exists|now: int|
                in_range(now) && #[trigger] answers(
                    outcome,
                    old(self)@,
                    final(self)@,
                    old(self)@.transition_fault(id, agent@, OwnedAction::Complete),
                    old(self)@.transitioned(id, OwnedAction::Complete, result, now),
                    id,
                ),
    {
        let now = Timestamp::now();
        self.transition_owned_at(id, agent, OwnedAction::Complete, result, now)
    }

    /// Fails a claimed task with its result, now.
    pub fn fail(&mut self, id: Uuid, agent: &str, result: Option<Value>) -> (outcome: Result<
        TaskView,
        StoreError,
    >)
        requires
            old(self).wf(),
        ensures
            final(self).wf(),
            exists|now: int|
                in_range(now) && #[trigger] answers(
                    outcome,
                    old(self)@,
                    final(self)@,
                    old(self)@.transition_fault(id, agent@, OwnedAction::Fail),
                    old(self)@.transitioned(id, OwnedAction::Fail, result, now),
                    id,
                ),
    {
        let now = Timestamp::now();
        self.transition_owned_at(id, agent, OwnedAction::Fail, result, now)
    }

    /// Cancels a task, at the given time.
    pub fn cancel_at(&mut self, id: Uuid, now: Timestamp) -> (result: Result<TaskView, StoreError>)
        requires
            old(self).wf(),
        ensures
            final(self).wf(),
            answers(
                result,
                old(self)@,
                final(self)@,
                old(self)@.cancel_fault(id),
                old(self)@.cancelled(id, now@),
                id,
            ),
    {
        let mut record = match self.read_record(id) {
            Ok(record) => record.clone(),
            Err(error) => {
                return Err(error);
            },
        };
        match record.task.status {
            Status::Todo | Status::InProgress | Status::Failed => {},
            status => {
                return Err(action_conflict("cancel", status));
            },
        }
        record.task.status = Status::Cancelled;
        record.task.claimed_by = None;
        record.closed_at = Some(now.to_text());
        if let Err(error) = touch(&mut record, now) {
            return Err(error);
        }
        self.put(id, record);
        Ok(self.task_view(id))
    }

    /// Cancels a task, now.
    pub fn cancel(&mut self, id: Uuid) -> (result: Result<TaskView, StoreError>)
        requires
            old(self).wf(),
        ensures
            final(self).wf(),
            exists|now: int|
                in_range(now) && #[trigger] answers(
                    result,
                    old(self)@,
                    final(self)@,
                    old(self)@.cancel_fault(id),
                    old(self)@.cancelled(id, now),
                    id,
                ),
    {
        let now = Timestamp::now();
        self.cancel_at(id, now)
    }

    /// Returns a failed or cancelled task to the others, at the given time.
    pub fn retry_at(&mut self, id: Uuid, now: Timestamp) -> (result: Result<TaskView, StoreError>)
        requires
            old(self).wf(),
        ensures
            final(self).wf(),
            answers(
                result,
                old(self)@,
                final(self)@,
                old(self)@.retry_fault(id),
                old(self)@.retried(id, now@),
                id,
            ),
    {
        let mut record = match self.read_record(id) {
            Ok(record) => record.clone(),
            Err(error) => {
                return Err(error);
            },
        };
        match record.task.status {
            Status::Failed | Status::Cancelled => {},
            status => {
                return Err(action_conflict("retry", status));
            },
        }
        record.task.status = Status::Todo;
        record.task.claimed_by = None;
        record.task.result = None;
        record.closed_at = None;
        if let Err(error) = touch(&mut record, now) {
            return Err(error);
        }
        self.put(id, record);
        Ok(self.task_view(id))
    }

    /// Returns a failed or cancelled task to the others, now.
    pub fn retry(&mut self, id: Uuid) -> (result: Result<TaskView, StoreError>)
        requires
            old(self).wf(),
        ensures
            final(self).wf(),
            exists|now: int|
                in_range(now) && #[trigger] answers(
                    result,
                    old(self)@,
                    final(self)@,
                    old(self)@.retry_fault(id),
                    old(self)@.retried(id, now),
                    id,
                ),
    {
        let now = Timestamp::now();
        self.retry_at(id, now)
    }
}

/// Whether nothing was handed out, where an agent with the given capabilities
/// can be handed nothing, or the best task was claimed for it.
pub open spec fn hands_out(
    result: Result<Option<TaskView>, StoreError>,
    before: Board,
    after: Board,
    agent: Seq<char>,
    capabilities: Seq<Seq<char>>,
    now: int,
) -> bool {
    match before.next(capabilities) {
        None => (result matches Ok(None)) && after == before && (forall|id: Uuid|
            !#[trigger] before.is_candidate(capabilities, id)),
        Some(id) => before.is_best(capabilities, id) && match result {
            Ok(None) => false,
            Ok(Some(view)) => before.claim_fault(id) is None && after == before.claimed(
                id,
                agent,
                now,
            ) && view@ == after.view_of(id),
            Err(error) => before.claim_fault(id) == Some(error@) && after == before,
        },
    }
}

} // verus!
