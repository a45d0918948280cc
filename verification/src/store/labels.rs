//! Labels: the names that open tasks ask for, with counts and explanations.

use super::changes::touch;
use super::{Record, Store, StoreError};
use crate::board::{asks_for, explanation, is_open, Board};
use crate::dates::{dates_are_ordered, dates_are_transitive, is_dated_before};
use crate::ids::{increasing, Uuid};
use crate::model::{
    copy_text, optional_text, requirement_models, texts, Label, LabelModel, Requirement,
    RequirementModel, Status,
};
use crate::promises::labels::{a_label_counts_its_tasks, labelled, labelled_ready};
use crate::rules::{
    distinct_names, joined, position, validate_label_name, validate_requirement_description,
};
use crate::rows::{parse_count, read_columns};
use crate::steps::{count_fault, reworded};
use crate::tables::lemma_to_set_push;
use crate::text::{is_before, precedes, precedes_is_total, precedes_is_transitive, same, trimmed};
use crate::time::{in_range, Timestamp};
use crate::validity::lemma_reworded_valid;
use vstd::prelude::*;

verus! {

/// A list of labels, mathematically.
pub open spec fn label_models(labels: Seq<Label>) -> Seq<LabelModel> {
    labels.map_values(|label: Label| label@)
}

/// Whether a new explanation of a label was refused for the given reason and
/// changed nothing, or left the given board and answered with the label on it.
pub open spec fn relabels(
    result: Result<Label, StoreError>,
    before: Board,
    after: Board,
    name: Seq<char>,
    description: Option<Seq<char>>,
    now: int,
) -> bool {
    match result {
        Ok(label) => before.relabel_fault(name, description) is None && after == before.relabelled(
            name,
            description,
            now,
        ) && label@ == after.label(trimmed(name)),
        Err(error) => before.relabel_fault(name, description) == Some(error@) && after == before,
    }
}

/// Whether a task in this status still counts for its labels.
fn counts(status: Status) -> (open: bool)
    ensures
        open == is_open(status),
{
    match status {
        Status::Todo | Status::InProgress | Status::Failed => true,
        Status::Done | Status::Cancelled => false,
    }
}

/// Whether two optional texts hold the same characters.
fn same_text(left: &Option<String>, right: &Option<String>) -> (equal: bool)
    ensures
        equal == (optional_text(*left) == optional_text(*right)),
{
    match (left, right) {
        (None, None) => true,
        (Some(a), Some(b)) => same(a.as_str(), b.as_str()),
        _ => false,
    }
}

/// Where every name occurs once, the explanation of a name is the one beside it.
proof fn lemma_explanation(list: Seq<RequirementModel>, k: int)
    requires
        distinct_names(list),
        0 <= k < list.len(),
    ensures
        asks_for(list, list[k].name),
        explanation(list, list[k].name) == list[k].description,
{
    let name = list[k].name;
    let i = choose|i: int| 0 <= i < list.len() && (#[trigger] list[i]).name == name;
    assert(list[k].name == name);
    if i < k {
        assert(list[i].name != list[k].name);
    } else if k < i {
        assert(list[k].name != list[i].name);
    }
}

/// Whether each text comes before those after it.
spec fn in_order(names: Seq<Seq<char>>) -> bool {
    forall|i: int, j: int| 0 <= i < j < names.len() ==> precedes(names[i], names[j])
}

/// Puts a text in its place among others, unless it is there.
fn insert_name(names: &mut Vec<String>, name: &str)
    requires
        in_order(texts(old(names)@)),
    ensures
        in_order(texts(final(names)@)),
        forall|text: Seq<char>| #[trigger]
            texts(final(names)@).contains(text) <==> texts(old(names)@).contains(text) || text
                == name@,
{
    let ghost before = texts(names@);
    let mut i: usize = 0;
    while i < names.len() && is_before(names[i].as_str(), name)
        invariant
            names@ == old(names)@,
            before == texts(names@),
            i <= names.len(),
            forall|k: int| 0 <= k < i ==> precedes(#[trigger] before[k], name@),
        decreases names.len() - i,
    {
        assert(before[i as int] == names@[i as int]@);
        i += 1;
    }
    if i < names.len() {
        assert(before[i as int] == names@[i as int]@);
        if same(names[i].as_str(), name) {
            assert(before.contains(name@));
            return;
        }
    }
    names.insert(i, name.to_owned());
    let ghost after = texts(names@);
    proof {
        assert(after =~= before.insert(i as int, name@));
        if i < before.len() {
            precedes_is_total(before[i as int], name@);
        }
        assert forall|a: int, b: int| 0 <= a < b < after.len() implies precedes(
            after[a],
            after[b],
        ) by {
            if a == i {
                assert(after[b] == before[b - 1]);
                if b - 1 > i {
                    assert(precedes(before[i as int], before[b - 1]));
                    precedes_is_transitive(name@, before[i as int], before[b - 1]);
                }
            } else if b == i {
                assert(after[a] == before[a]);
            } else {
                let x = if a < i {
                    a
                } else {
                    a - 1
                };
                let y = if b < i {
                    b
                } else {
                    b - 1
                };
                assert(after[a] == before[x] && after[b] == before[y]);
            }
        }
        assert forall|text: Seq<char>| #[trigger] after.contains(text) <==> before.contains(text)
            || text == name@ by {
            if before.contains(text) {
                let k = choose|k: int| 0 <= k < before.len() && before[k] == text;
                if k < i {
                    assert(after[k] == text);
                } else {
                    assert(after[k + 1] == text);
                }
            }
            assert(after[i as int] == name@);
            if after.contains(text) && text != name@ {
                let k = choose|k: int| 0 <= k < after.len() && after[k] == text;
                if k < i {
                    assert(before[k] == text);
                } else {
                    assert(before[k - 1] == text);
                }
            }
        }
    }
}

/// The explanation of a label is the one on the task that speaks for it.
proof fn lemma_speaker(board: Board, id: Uuid, name: Seq<char>)
    requires
        board.speaks_for(id, name),
    ensures
        board.label_description(name) == explanation(board.task(id).requires, name),
{
    let chosen = choose|id: Uuid| board.speaks_for(id, name);
    if chosen != id {
        assert(board.is_later(id, chosen));
        assert(board.is_later(chosen, id));
        dates_are_ordered((board.tasks[id].updated, id), (board.tasks[chosen].updated, chosen));
    }
}

impl Store {
    /// Where an open task asks for a name, the place of that requirement.
    fn carried_at(&self, id: Uuid, name: &str) -> (place: Option<usize>)
        requires
            self.wf(),
            self@.has(id),
        ensures
            match place {
                Some(k) => self@.carries(id, name@) && k < self@.task(id).requires.len()
                    && self@.task(id).requires[k as int].name == name@
                    && self@.task(id).requires[k as int].description == explanation(
                    self@.task(id).requires,
                    name@,
                ),
                None => !self@.carries(id, name@),
            },
    {
        let task = &self.tasks.get(&id).unwrap().task;
        if !counts(task.status) {
            return None;
        }
        let ghost list = self@.task(id).requires;
        assert(list == requirement_models(task.requires@));
        match position(&task.requires, name) {
            Some(k) => {
                assert(list[k as int].name == name@);
                proof {
                    lemma_explanation(list, k as int);
                }
                Some(k)
            },
            None => {
                assert forall|k: int| 0 <= k < list.len() implies (#[trigger] list[k]).name
                    != name@ by {
                    assert(list[k].name == task.requires@[k].name@);
                }
                None
            },
        }
    }

    /// A label, where it is in use.
    fn read_label(&self, name: &str) -> (result: Option<Label>)
        requires
            self.wf(),
        ensures
            match result {
                Some(label) => self@.in_use(name@) && label@ == self@.label(name@),
                None => !self@.in_use(name@),
            },
    {
        let ghost board = self@;
        let keys = self.keys();
        let ghost mut open_set = Set::<Uuid>::empty();
        let ghost mut ready_set = Set::<Uuid>::empty();
        let mut open_tasks: u64 = 0;
        let mut ready_tasks: u64 = 0;
        let mut speaker: Option<(Uuid, usize)> = None;
        let mut i: usize = 0;
        while i < keys.len()
            invariant
                self.wf(),
                board == self@,
                increasing(keys@),
                keys@.to_set() == board.tasks.dom(),
                i <= keys.len(),
                open_tasks <= i,
                ready_tasks <= i,
                open_set.finite(),
                ready_set.finite(),
                open_set.len() == open_tasks,
                ready_set.len() == ready_tasks,
                forall|id: Uuid| #[trigger]
                    open_set.contains(id) <==> board.carries(id, name@) && keys@.take(
                        i as int,
                    ).contains(id),
                forall|id: Uuid| #[trigger]
                    ready_set.contains(id) <==> board.carries(id, name@) && board.is_ready(id)
                        && keys@.take(i as int).contains(id),
                match speaker {
                    Some((id, k)) => board.explains(id, name@) && board.has(id) && keys@.take(
                        i as int,
                    ).contains(id) && k < board.task(id).requires.len()
                        && board.task(id).requires[k as int].description == explanation(
                        board.task(id).requires,
                        name@,
                    ) && (forall|m: int|
                        0 <= m < i && keys@[m] != id && board.explains(
                            #[trigger] keys@[m],
                            name@,
                        ) ==> board.is_later(id, keys@[m])),
                    None => forall|m: int|
                        0 <= m < i ==> !board.explains(#[trigger] keys@[m], name@),
                },
            decreases keys.len() - i,
        {
            let id: Uuid = keys[i];
            let ghost done = keys@.take(i as int);
            let ghost more = keys@.take(i + 1);
            assert(keys@.to_set().contains(id));
            assert(board.has(id));
            proof {
                assert(more =~= done.push(id));
                lemma_to_set_push(done, id);
                assert forall|x: Uuid| #[trigger] more.contains(x) <==> done.contains(x) || x
                    == id by {
                    assert(more.to_set().contains(x) <==> done.to_set().insert(id).contains(x));
                }
                if done.contains(id) {
                    let k = choose|k: int| 0 <= k < done.len() && done[k] == id;
                    assert(keys@[k] < keys@[i as int]);
                }
            }
            if let Some(k) = self.carried_at(id, name) {
                open_tasks = open_tasks + 1;
                proof {
                    open_set = open_set.insert(id);
                }
                let task = &self.tasks.get(&id).unwrap().task;
                if task.status == Status::Todo && self.blocked_ids(id).len() == 0 {
                    ready_tasks = ready_tasks + 1;
                    proof {
                        ready_set = ready_set.insert(id);
                    }
                }
                assert(board.task(id).requires[k as int] == task.requires@[k as int]@);
                if task.requires[k].description.is_some() {
                    let latest = match speaker {
                        None => true,
                        Some((other, _)) => {
                            proof {
                                let m = choose|m: int| 0 <= m < done.len() && done[m] == other;
                                assert(keys@[m] < keys@[i as int]);
                            }
                            is_dated_before(
                                self.tasks.get(&other).unwrap().updated.as_str(),
                                other,
                                self.tasks.get(&id).unwrap().updated.as_str(),
                                id,
                            )
                        },
                    };
                    if latest {
                        proof {
                            if let Some((other, _)) = speaker {
                                assert forall|m: int|
                                    0 <= m < i && board.explains(
                                        #[trigger] keys@[m],
                                        name@,
                                    ) implies board.is_later(id, keys@[m]) by {
                                    if keys@[m] != other {
                                        assert(board.is_later(other, keys@[m]));
                                        dates_are_transitive(
                                            (board.tasks[keys@[m]].updated, keys@[m]),
                                            (board.tasks[other].updated, other),
                                            (board.tasks[id].updated, id),
                                        );
                                    }
                                }
                            }
                        }
                        speaker = Some((id, k));
                    } else {
                        proof {
                            if let Some((other, _)) = speaker {
                                dates_are_ordered(
                                    (board.tasks[id].updated, id),
                                    (board.tasks[other].updated, other),
                                );
                            }
                        }
                    }
                }
            }
            i += 1;
        }
        proof {
            assert(keys@.take(keys@.len() as int) =~= keys@);
            assert forall|id: Uuid| board.has(id) implies keys@.contains(id) by {
                assert(keys@.to_set().contains(id));
            }
            assert(open_set =~= board.carriers(name@));
            assert(ready_set =~= board.ready_carriers(name@));
        }
        if open_tasks == 0 {
            proof {
                assert forall|id: Uuid| !board.carries(id, name@) by {
                    if board.carries(id, name@) {
                        assert(open_set.contains(id));
                        assert(open_set.len() > 0);
                    }
                }
            }
            return None;
        }
        proof {
            let some = open_set.choose();
            assert(open_set.contains(some));
            assert(board.carries(some, name@));
        }
        let description = match speaker {
            Some((id, k)) => {
                proof {
                    assert(board.speaks_for(id, name@)) by {
                        assert forall|other: Uuid|
                            other != id && #[trigger] board.explains(
                                other,
                                name@,
                            ) implies board.is_later(id, other) by {
                            assert(keys@.contains(other));
                            let m = choose|m: int| 0 <= m < keys@.len() && keys@[m] == other;
                            assert(board.explains(keys@[m], name@));
                        }
                    }
                    lemma_speaker(board, id, name@);
                }
                let task = &self.tasks.get(&id).unwrap().task;
                assert(board.task(id).requires[k as int] == task.requires@[k as int]@);
                copy_text(&task.requires[k].description)
            },
            None => {
                proof {
                    assert forall|id: Uuid| !board.speaks_for(id, name@) by {
                        if board.speaks_for(id, name@) {
                            assert(keys@.contains(id));
                            let m = choose|m: int| 0 <= m < keys@.len() && keys@[m] == id;
                            assert(!board.explains(keys@[m], name@));
                        }
                    }
                }
                None
            },
        };
        Some(Label { name: name.to_owned(), description, open_tasks, ready_tasks })
    }

    /// The names that open tasks ask for, in order.
    fn label_names(&self) -> (names: Vec<String>)
        requires
            self.wf(),
        ensures
            in_order(texts(names@)),
            forall|name: Seq<char>| #[trigger]
                texts(names@).contains(name) <==> self@.in_use(name),
    {
        let ghost board = self@;
        let keys = self.keys();
        let mut names: Vec<String> = Vec::new();
        let mut i: usize = 0;
        while i < keys.len()
            invariant
                self.wf(),
                board == self@,
                keys@.to_set() == board.tasks.dom(),
                i <= keys.len(),
                in_order(texts(names@)),
                forall|name: Seq<char>| #[trigger]
                    texts(names@).contains(name) ==> board.in_use(name),
                forall|k: int, name: Seq<char>|
                    0 <= k < i && #[trigger] board.carries(keys@[k], name) ==> texts(
                        names@,
                    ).contains(name),
            decreases keys.len() - i,
        {
            let id: Uuid = keys[i];
            assert(keys@.to_set().contains(id));
            assert(board.has(id));
            let task = &self.tasks.get(&id).unwrap().task;
            let ghost list = board.task(id).requires;
            assert(list == requirement_models(task.requires@));
            if counts(task.status) {
                let mut j: usize = 0;
                while j < task.requires.len()
                    invariant
                        self.wf(),
                        board == self@,
                        board.has(id),
                        is_open(board.task(id).status),
                        list == board.task(id).requires,
                        list == requirement_models(task.requires@),
                        j <= task.requires.len(),
                        i < keys.len(),
                        keys@[i as int] == id,
                        in_order(texts(names@)),
                        forall|name: Seq<char>| #[trigger]
                            texts(names@).contains(name) ==> board.in_use(name),
                        forall|k: int, name: Seq<char>|
                            0 <= k < i && #[trigger] board.carries(keys@[k], name) ==> texts(
                                names@,
                            ).contains(name),
                        forall|k: int|
                            0 <= k < j ==> texts(names@).contains((#[trigger] list[k]).name),
                    decreases task.requires.len() - j,
                {
                    assert(list[j as int].name == task.requires@[j as int].name@);
                    assert(board.carries(id, list[j as int].name));
                    insert_name(&mut names, task.requires[j].name.as_str());
                    j += 1;
                }
            }
            assert forall|name: Seq<char>| #[trigger] board.carries(id, name) implies texts(
                names@,
            ).contains(name) by {
                let k = choose|k: int| 0 <= k < list.len() && (#[trigger] list[k]).name == name;
                assert(texts(names@).contains(list[k].name));
            }
            i += 1;
        }
        assert forall|name: Seq<char>| #[trigger] board.in_use(name) implies texts(
            names@,
        ).contains(name) by {
            let id = choose|id: Uuid| board.carries(id, name);
            assert(keys@.to_set().contains(id));
            let k = choose|k: int| 0 <= k < keys@.len() && keys@[k] == id;
            assert(board.carries(keys@[k], name));
        }
        names
    }

    /// All labels in use, by their names.
    pub fn labels(&self) -> (result: Result<Vec<Label>, StoreError>)
        requires
            self.wf(),
        ensures
            result matches Ok(labels) && self@.is_labelled_as(label_models(labels@)),
            forall|i: int|
                0 <= i < result->Ok_0@.len() ==> {
                    let label = #[trigger] result->Ok_0@[i];
                    &&& label.open_tasks == labelled(self@, label.name@).len()
                    &&& label.ready_tasks == labelled_ready(self@, label.name@).len()
                },
    {
        let names = self.label_names();
        let mut labels: Vec<Label> = Vec::new();
        let mut i: usize = 0;
        while i < names.len()
            invariant
                self.wf(),
                forall|name: Seq<char>| #[trigger]
                    texts(names@).contains(name) <==> self@.in_use(name),
                i <= names.len(),
                labels@.len() == i,
                forall|k: int|
                    0 <= k < i ==> (#[trigger] labels@[k])@ == self@.label(names@[k]@),
            decreases names.len() - i,
        {
            assert(texts(names@)[i as int] == names@[i as int]@);
            assert(texts(names@).contains(names@[i as int]@));
            let label = self.read_label(names[i].as_str()).unwrap();
            labels.push(label);
            i += 1;
        }
        proof {
            let models = label_models(labels@);
            assert forall|k: int| 0 <= k < models.len() implies models[k] == self@.label(
                texts(names@)[k],
            ) && self@.in_use((#[trigger] models[k]).name) by {
                assert(models[k] == labels@[k]@);
                assert(texts(names@).contains(texts(names@)[k]));
            }
            assert forall|name: Seq<char>| #[trigger] self@.in_use(name) implies exists|k: int|
                0 <= k < models.len() && models[k].name == name by {
                assert(texts(names@).contains(name));
                let k = choose|k: int| 0 <= k < texts(names@).len() && texts(names@)[k] == name;
                assert(models[k].name == name);
            }
            assert forall|k: int| 0 <= k < labels@.len() implies {
                let label = #[trigger] labels@[k];
                &&& label.open_tasks == labelled(self@, label.name@).len()
                &&& label.ready_tasks == labelled_ready(self@, label.name@).len()
            } by {
                a_label_counts_its_tasks(self@, names@[k]@, labels@[k]);
            }
        }
        Ok(labels)
    }

    /// Where a new explanation of a label changes a task, the place of that
    /// requirement.
    fn reworded_at(&self, id: Uuid, name: &str, description: &Option<String>) -> (place: Option<
        usize,
    >)
        requires
            self.wf(),
            self@.has(id),
        ensures
            match place {
                Some(k) => self@.is_reworded(id, name@, optional_text(*description)) && k
                    < self@.task(id).requires.len() && self@.task(id).requires[k as int].name
                    == name@,
                None => !self@.is_reworded(id, name@, optional_text(*description)),
            },
    {
        match self.carried_at(id, name) {
            None => None,
            Some(k) => {
                let task = &self.tasks.get(&id).unwrap().task;
                assert(self@.task(id).requires[k as int] == task.requires@[k as int]@);
                if same_text(&task.requires[k].description, description) {
                    None
                } else {
                    Some(k)
                }
            },
        }
    }

    /// Whether a label is in use, and whether every task that a new explanation
    /// changes can count one more change.
    fn can_reword(&self, name: &str, description: &Option<String>) -> (result: (bool, bool))
        requires
            self.wf(),
        ensures
            result.0 == self@.in_use(name@),
            result.1 == !exists|id: Uuid|
                #[trigger] self@.is_reworded(id, name@, optional_text(*description))
                    && count_fault(self@.tasks[id]) is Some,
    {
        let ghost board = self@;
        let ghost text = optional_text(*description);
        let keys = self.keys();
        let mut in_use = false;
        let mut i: usize = 0;
        while i < keys.len()
            invariant
                self.wf(),
                board == self@,
                text == optional_text(*description),
                keys@.to_set() == board.tasks.dom(),
                i <= keys.len(),
                in_use ==> board.in_use(name@),
                !in_use ==> forall|k: int|
                    0 <= k < i ==> !board.carries(#[trigger] keys@[k], name@),
            decreases keys.len() - i,
        {
            let id: Uuid = keys[i];
            assert(keys@.to_set().contains(id));
            assert(board.has(id));
            if self.carried_at(id, name).is_some() {
                in_use = true;
            }
            i += 1;
        }
        proof {
            assert forall|id: Uuid| board.has(id) implies keys@.contains(id) by {
                assert(keys@.to_set().contains(id));
            }
            if board.in_use(name@) && !in_use {
                let id = choose|id: Uuid| board.carries(id, name@);
                let k = choose|k: int| 0 <= k < keys@.len() && keys@[k] == id;
                assert(!board.carries(keys@[k], name@));
            }
        }
        i = 0;
        while i < keys.len()
            invariant
                self.wf(),
                board == self@,
                text == optional_text(*description),
                keys@.to_set() == board.tasks.dom(),
                in_use == board.in_use(name@),
                i <= keys.len(),
                forall|k: int|
                    0 <= k < i && board.is_reworded(#[trigger] keys@[k], name@, text)
                        ==> count_fault(board.tasks[keys@[k]]) is None,
            decreases keys.len() - i,
        {
            let id: Uuid = keys[i];
            assert(keys@.to_set().contains(id));
            assert(board.has(id));
            if self.reworded_at(id, name, description).is_some() {
                if !self.tasks.get(&id).unwrap().can_count() {
                    assert(board.is_reworded(id, name@, text) && count_fault(board.tasks[id]) is Some);
                    return (in_use, false);
                }
            }
            i += 1;
        }
        proof {
            assert forall|id: Uuid| #[trigger] board.is_reworded(id, name@, text) implies
                count_fault(board.tasks[id]) is None by {
                assert(keys@.contains(id));
                let k = choose|k: int| 0 <= k < keys@.len() && keys@[k] == id;
                assert(board.is_reworded(keys@[k], name@, text));
            }
        }
        (in_use, true)
    }

    /// A task as a new explanation of a label leaves it.
    fn reworded_record(&self, id: Uuid, k: usize, description: &Option<String>, now: Timestamp) -> (record:
        Record)
        requires
            self.wf(),
            self@.has(id),
            k < self@.task(id).requires.len(),
            self@.is_reworded(
                id,
                self@.task(id).requires[k as int].name,
                optional_text(*description),
            ),
            count_fault(self@.tasks[id]) is None,
        ensures
            record@ == self@.reworded_record(
                id,
                self@.task(id).requires[k as int].name,
                optional_text(*description),
                now@,
            ),
    {
        let mut record = self.tasks.get(&id).unwrap().clone();
        let ghost before = record.task@;
        let ghost name = before.requires[k as int].name;
        let ghost text = optional_text(*description);
        assert(before.requires[k as int] == record.task.requires@[k as int]@);
        let renewed = Requirement {
            name: record.task.requires[k].name.clone(),
            description: copy_text(description),
        };
        record.task.requires.set(k, renewed);
        assert(record.task@.requires =~= reworded(before.requires, name, text)) by {
            assert forall|m: int| 0 <= m < before.requires.len() && m != k implies
                before.requires[m].name != name by {
                if m < k {
                    assert(before.requires[m].name != before.requires[k as int].name);
                } else {
                    assert(before.requires[k as int].name != before.requires[m].name);
                }
            }
        }
        match record.raw {
            None => {
                let outcome = touch(&mut record, now);
                assert(outcome is Ok);
            },
            Some(columns) => {
                let mut columns = columns;
                columns.updated_at = now.to_text();
                columns.version = columns.version + 1;
                record.task.updated_at = now;
                record.task.version = match parse_count(10, columns.version) {
                    Ok(version) => version,
                    Err(_) => 0,
                };
                record.updated = now.to_text();
                record.raw = match read_columns(id, &columns).1 {
                    Some(_) => Some(columns),
                    None => None,
                };
            },
        }
        record
    }

    /// Gives a label a new explanation on every open task that carries it, at the
    /// given time.
    pub fn set_label_description_at(
        &mut self,
        name: &str,
        description: Option<String>,
        now: Timestamp,
    ) -> (result: Result<Label, StoreError>)
        requires
            old(self).wf(),
        ensures
            final(self).wf(),
            relabels(
                result,
                old(self)@,
                final(self)@,
                name@,
                optional_text(description),
                now@,
            ),
    {
        let ghost before = self@;
        let ghost written = name@;
        let ghost label = trimmed(written);
        let ghost given = optional_text(description);
        let name = name.trim();
        if let Err(error) = validate_label_name(name) {
            return Err(error);
        }
        let description = match validate_requirement_description(description) {
            Ok(description) => description,
            Err(error) => {
                return Err(error);
            },
        };
        let ghost text = optional_text(description);
        let (in_use, countable) = self.can_reword(name, &description);
        if !in_use {
            return Err(StoreError::NotFound);
        }
        if !countable {
            assert("task version"@ + " exceeds SQLite integer range"@
                =~= "task version exceeds SQLite integer range"@) by {
                reveal_strlit("task version");
                reveal_strlit(" exceeds SQLite integer range");
                reveal_strlit("task version exceeds SQLite integer range");
            }
            return Err(StoreError::Internal(joined("task version", " exceeds SQLite integer range")));
        }
        let keys = self.keys();
        let ghost target = before.relabelled(written, given, now@);
        let mut i: usize = 0;
        while i < keys.len()
            invariant
                self.wf(),
                before.valid(),
                increasing(keys@),
                keys@.to_set() == before.tasks.dom(),
                name@ == label,
                optional_text(description) == text,
                forall|id: Uuid| #[trigger]
                    before.is_reworded(id, label, text) ==> count_fault(before.tasks[id]) is None,
                i <= keys.len(),
                self@.artifacts == before.artifacts,
                self@.tasks.dom() == before.tasks.dom(),
                forall|k: int|
                    0 <= k < i ==> self@.tasks[#[trigger] keys@[k]] == before.reworded_record(
                        keys@[k],
                        label,
                        text,
                        now@,
                    ),
                forall|k: int|
                    i <= k < keys@.len() ==> self@.tasks[#[trigger] keys@[k]]
                        == before.tasks[keys@[k]],
            decreases keys.len() - i,
        {
            let id: Uuid = keys[i];
            assert(keys@.to_set().contains(id));
            assert(before.has(id));
            assert(self@.has(id));
            assert(self@.tasks[id] == before.tasks[id]);
            let ghost current = self@;
            assert(self@.carries(id, label) == before.carries(id, label));
            if let Some(k) = self.reworded_at(id, name, &description) {
                let record = self.reworded_record(id, k, &description, now);
                proof {
                    lemma_reworded_valid(current, id, label, text, now@);
                }
                self.put(id, record);
                assert forall|m: int| 0 <= m < keys@.len() && m != i implies #[trigger] keys@[m]
                    != id by {
                    if m < i {
                        assert(keys@[m] < keys@[i as int]);
                    } else {
                        assert(keys@[i as int] < keys@[m]);
                    }
                }
                assert(self@.tasks.dom() =~= before.tasks.dom());
            }
            i += 1;
        }
        proof {
            assert forall|id: Uuid| before.has(id) implies self@.tasks[id] == target.tasks[id] by {
                assert(keys@.to_set().contains(id));
                let k = choose|k: int| 0 <= k < keys@.len() && keys@[k] == id;
                assert(self@.tasks[keys@[k]] == before.reworded_record(keys@[k], label, text, now@));
            }
            assert(self@ =~= target);
        }
        match self.read_label(name) {
            Some(label) => Ok(label),
            None => {
                proof {
                    let id = choose|id: Uuid| before.carries(id, label);
                    lemma_still_carried(before, id, label, text, now@);
                    assert(self@.carries(id, label));
                }
                Err(StoreError::NotFound)
            },
        }
    }

    /// Gives a label a new explanation on every open task that carries it, now.
    pub fn set_label_description(&mut self, name: &str, description: Option<String>) -> (result:
        Result<Label, StoreError>)
        requires
            old(self).wf(),
        ensures
            final(self).wf(),
            exists|now: int|
                in_range(now) && #[trigger] relabels(
                    result,
                    old(self)@,
                    final(self)@,
                    name@,
                    optional_text(description),
                    now,
                ),
    {
        let now = Timestamp::now();
        self.set_label_description_at(name, description, now)
    }
}

/// A new explanation takes no label from a task.
proof fn lemma_still_carried(
    board: Board,
    id: Uuid,
    name: Seq<char>,
    description: Option<Seq<char>>,
    now: int,
)
    requires
        board.carries(id, name),
    ensures
        ({
            let record = board.reworded_record(id, name, description, now);
            is_open(record.task.status) && asks_for(record.task.requires, name)
        }),
{
    let list = board.task(id).requires;
    let k = choose|k: int| 0 <= k < list.len() && (#[trigger] list[k]).name == name;
    let after = reworded(list, name, description);
    assert(after[k].name == name);
}

} // verus!
