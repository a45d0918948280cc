//! Taking up a board from the rows that were kept of it.

use super::{Filed, Record, Store};
use crate::board::{Board, FiledModel, RecordModel};
use crate::ids::Uuid;
use crate::model::{requirement_models, Requirement};
use crate::rules::distinct_names;
use crate::tables::sorted_keys;
use crate::text::same;
use std::collections::BTreeMap;
use vstd::prelude::*;

verus! {

/// A list of tasks with the texts of their times, mathematically.
pub open spec fn record_list(list: Seq<Record>) -> Seq<RecordModel> {
    list.map_values(|record: Record| record@)
}

/// A list of artifacts, mathematically.
pub open spec fn file_list(list: Seq<Filed>) -> Seq<FiledModel> {
    list.map_values(|file: Filed| file@)
}

/// Whether one of the rows is a task with the given identifier.
pub open spec fn has_record(records: Seq<RecordModel>, id: Uuid) -> bool {
    exists|i: int| 0 <= i < records.len() && (#[trigger] records[i]).task.id == id
}

/// Whether one of the rows is an artifact with the given identifier.
pub open spec fn has_artifact(artifacts: Seq<FiledModel>, id: Uuid) -> bool {
    exists|i: int| 0 <= i < artifacts.len() && (#[trigger] artifacts[i]).artifact.id == id
}

/// The board that rows make.
pub open spec fn loaded(records: Seq<RecordModel>, artifacts: Seq<FiledModel>) -> Board {
    Board {
        tasks: Map::new(
            |id: Uuid| has_record(records, id),
            |id: Uuid|
                records[choose|i: int|
                    0 <= i < records.len() && (#[trigger] records[i]).task.id == id],
        ),
        artifacts: Map::new(
            |id: Uuid| has_artifact(artifacts, id),
            |id: Uuid|
                artifacts[choose|i: int|
                    0 <= i < artifacts.len() && (#[trigger] artifacts[i]).artifact.id == id],
        ),
    }
}

/// Whether rows make a board: every identifier occurs once, and the board is
/// valid.
pub open spec fn loadable(records: Seq<RecordModel>, artifacts: Seq<FiledModel>) -> bool {
    &&& forall|i: int, j: int|
        0 <= i < j < records.len() ==> records[i].task.id != records[j].task.id
    &&& forall|i: int, j: int|
        0 <= i < j < artifacts.len() ==> artifacts[i].artifact.id != artifacts[j].artifact.id
    &&& loaded(records, artifacts).valid()
}

/// Whether no two of the requirements have the same name.
fn names_differ(list: &Vec<Requirement>) -> (differ: bool)
    ensures
        differ == distinct_names(requirement_models(list@)),
{
    let ghost models = requirement_models(list@);
    let mut i: usize = 0;
    while i < list.len()
        invariant
            models == requirement_models(list@),
            i <= list.len(),
            forall|a: int, b: int| 0 <= a < b < i ==> models[a].name != models[b].name,
        decreases list.len() - i,
    {
        let mut j: usize = 0;
        while j < i
            invariant
                models == requirement_models(list@),
                j <= i < list.len(),
                forall|a: int| 0 <= a < j ==> (#[trigger] models[a]).name != models[i as int].name,
            decreases i - j,
        {
            assert(models[j as int].name == list@[j as int].name@);
            assert(models[i as int].name == list@[i as int].name@);
            if same(list[j].name.as_str(), list[i].name.as_str()) {
                return false;
            }
            j += 1;
        }
        i += 1;
    }
    true
}

/// Whether no identifier occurs twice.
fn ids_differ(ids: &Vec<Uuid>) -> (differ: bool)
    ensures
        differ == ids@.no_duplicates(),
{
    let mut i: usize = 0;
    while i < ids.len()
        invariant
            i <= ids.len(),
            forall|a: int, b: int| 0 <= a < b < i ==> ids@[a] != ids@[b],
        decreases ids.len() - i,
    {
        let mut j: usize = 0;
        while j < i
            invariant
                j <= i < ids.len(),
                forall|a: int| 0 <= a < j ==> ids@[a] != ids@[i as int],
            decreases i - j,
        {
            if ids[j] == ids[i] {
                return false;
            }
            j += 1;
        }
        i += 1;
    }
    true
}

/// Where every identifier occurs once, the board has each row under its own.
pub proof fn lemma_loaded(records: Seq<RecordModel>, artifacts: Seq<FiledModel>)
    ensures
        (forall|i: int, j: int|
            0 <= i < j < records.len() ==> records[i].task.id != records[j].task.id) ==> forall|
            i: int,
        |
            0 <= i < records.len() ==> loaded(records, artifacts).tasks[(
            #[trigger] records[i]).task.id] == records[i],
        (forall|i: int, j: int|
            0 <= i < j < artifacts.len() ==> artifacts[i].artifact.id != artifacts[j].artifact.id)
            ==> forall|i: int|
            0 <= i < artifacts.len() ==> loaded(records, artifacts).artifacts[(
            #[trigger] artifacts[i]).artifact.id] == artifacts[i],
{
    let board = loaded(records, artifacts);
    if forall|i: int, j: int|
        0 <= i < j < records.len() ==> records[i].task.id != records[j].task.id {
        assert forall|i: int| 0 <= i < records.len() implies board.tasks[(
        #[trigger] records[i]).task.id] == records[i] by {
            let id = records[i].task.id;
            assert(has_record(records, id));
            let k = choose|k: int| 0 <= k < records.len() && (#[trigger] records[k]).task.id == id;
            if k < i {
                assert(records[k].task.id != records[i].task.id);
            } else if i < k {
                assert(records[i].task.id != records[k].task.id);
            }
        }
    }
    if forall|i: int, j: int|
        0 <= i < j < artifacts.len() ==> artifacts[i].artifact.id != artifacts[j].artifact.id {
        assert forall|i: int| 0 <= i < artifacts.len() implies board.artifacts[(
        #[trigger] artifacts[i]).artifact.id] == artifacts[i] by {
            let id = artifacts[i].artifact.id;
            assert(has_artifact(artifacts, id));
            let k = choose|k: int| 0 <= k < artifacts.len() && (#[trigger] artifacts[k]).artifact.id == id;
            if k < i {
                assert(artifacts[k].artifact.id != artifacts[i].artifact.id);
            } else if i < k {
                assert(artifacts[i].artifact.id != artifacts[k].artifact.id);
            }
        }
    }
}

impl Store {
    /// The board that rows make, where they make one.
    pub(crate) fn load(records: Vec<Record>, artifacts: Vec<Filed>) -> (result: Option<Store>)
        ensures
            match result {
                Some(store) => loadable(record_list(records@), file_list(artifacts@))
                    && store.wf() && store@ == loaded(
                    record_list(records@),
                    file_list(artifacts@),
                ),
                None => !loadable(record_list(records@), file_list(artifacts@)),
            },
    {
        let ghost rows = record_list(records@);
        let ghost files = file_list(artifacts@);
        let ghost board = loaded(rows, files);
        proof {
            lemma_loaded(rows, files);
        }
        let mut tasks: BTreeMap<Uuid, Record> = BTreeMap::new();
        for record in it: records
            invariant
                it.seq() == records@,
                rows == record_list(records@),
                forall|a: int, b: int|
                    0 <= a < b < it.index() ==> rows[a].task.id != rows[b].task.id,
                forall|a: int|
                    0 <= a < it.index() ==> tasks@.contains_key((#[trigger] rows[a]).task.id)
                        && tasks@[rows[a].task.id]@ == rows[a],
                forall|id: Uuid| #[trigger]
                    tasks@.contains_key(id) ==> exists|a: int|
                        0 <= a < it.index() && (#[trigger] rows[a]).task.id == id,
        {
            let ghost i: int = it.index() as int;
            let ghost before = tasks@;
            assert(rows[i] == record@);
            let id: Uuid = record.task.id;
            if tasks.contains_key(&id) {
                proof {
                    let a = choose|a: int| 0 <= a < i && (#[trigger] rows[a]).task.id == id;
                    assert(rows[a].task.id == rows[i].task.id);
                }
                return None;
            }
            tasks.insert(id, record);
            assert forall|key: Uuid| #[trigger] tasks@.contains_key(key) implies exists|a: int|
                0 <= a < i + 1 && (#[trigger] rows[a]).task.id == key by {
                if key == id {
                    assert(rows[i].task.id == key);
                } else {
                    assert(before.contains_key(key));
                    let a = choose|a: int| 0 <= a < i && (#[trigger] rows[a]).task.id == key;
                    assert(rows[a].task.id == key);
                }
            }
        }
        let keys = sorted_keys(&tasks);
        proof {
            assert forall|id: Uuid| #[trigger] tasks@.contains_key(id) <==> board.has(id) by {
                if tasks@.contains_key(id) {
                    let a = choose|a: int| 0 <= a < rows.len() && (#[trigger] rows[a]).task.id == id;
                    assert(has_record(rows, id));
                }
                if board.has(id) {
                    let a = choose|a: int| 0 <= a < rows.len() && (#[trigger] rows[a]).task.id == id;
                    assert(tasks@.contains_key(rows[a].task.id));
                }
            }
            assert forall|id: Uuid| #[trigger] tasks@.contains_key(id) implies tasks@[id]@
                == board.tasks[id] && board.tasks[id].task.id == id by {
                let a = choose|a: int| 0 <= a < rows.len() && (#[trigger] rows[a]).task.id == id;
                assert(board.tasks[rows[a].task.id] == rows[a]);
            }
            assert(board.tasks.dom() =~= tasks@.dom());
            vstd::seq_lib::seq_to_set_is_finite(keys@);
        }
        let mut i: usize = 0;
        while i < keys.len()
            invariant
                board == loaded(rows, files),
                keys@.to_set() == tasks@.dom(),
                board.tasks.dom() == tasks@.dom(),
                forall|id: Uuid| #[trigger]
                    tasks@.contains_key(id) ==> tasks@[id]@ == board.tasks[id]
                        && board.tasks[id].task.id == id,
                rows == record_list(records@),
                files == file_list(artifacts@),
                i <= keys.len(),
                forall|k: int|
                    0 <= k < i ==> board.valid_record(
                        #[trigger] keys@[k],
                        board.tasks[keys@[k]],
                    ),
            decreases keys.len() - i,
        {
            let id: Uuid = keys[i];
            assert(keys@.to_set().contains(id));
            assert(tasks@.contains_key(id));
            assert(board.has(id));
            let task = &tasks.get(&id).unwrap().task;
            assert(board.tasks[id].task == task@);
            if !names_differ(&task.requires) || !ids_differ(&task.depends_on) {
                return None;
            }
            let record = tasks.get(&id).unwrap();
            assert(record@ == board.tasks[id]);
            if record.raw.is_some() && record.flaw().is_none() {
                return None;
            }
            let mut j: usize = 0;
            while j < task.depends_on.len()
                invariant
                    board == loaded(rows, files),
                    board.tasks.dom() == tasks@.dom(),
                    board.has(id),
                    board.tasks[id].task == task@,
                    rows == record_list(records@),
                    files == file_list(artifacts@),
                    j <= task.depends_on.len(),
                    forall|k: int| 0 <= k < j ==> board.has(#[trigger] task.depends_on@[k]),
                decreases task.depends_on.len() - j,
            {
                let dependency: Uuid = task.depends_on[j];
                if !tasks.contains_key(&dependency) {
                    proof {
                        assert(task@.depends_on.contains(dependency));
                        assert(!board.has(dependency));
                        assert(!board.valid_record(id, board.tasks[id]));
                    }
                    return None;
                }
                j += 1;
            }
            assert forall|d: Uuid| #[trigger] board.tasks[id].task.depends_on.contains(
                d,
            ) implies board.has(d) by {
                let k = choose|k: int|
                    0 <= k < task.depends_on@.len() && task.depends_on@[k] == d;
                assert(board.has(task.depends_on@[k]));
            }
            i += 1;
        }
        assert forall|id: Uuid| #[trigger] board.has(id) implies board.valid_record(
            id,
            board.tasks[id],
        ) by {
            assert(keys@.to_set().contains(id));
            let k = choose|k: int| 0 <= k < keys@.len() && keys@[k] == id;
            assert(board.valid_record(keys@[k], board.tasks[keys@[k]]));
        }
        let mut table: BTreeMap<Uuid, Filed> = BTreeMap::new();
        for artifact in it: artifacts
            invariant
                it.seq() == artifacts@,
                files == file_list(artifacts@),
                rows == record_list(records@),
                board == loaded(rows, files),
                board.tasks.dom() == tasks@.dom(),
                (forall|a: int, b: int|
                    0 <= a < b < files.len() ==> files[a].artifact.id != files[b].artifact.id)
                    ==> forall|a: int|
                    0 <= a < files.len() ==> board.artifacts[(#[trigger] files[a]).artifact.id] == files[a],
                forall|a: int, b: int|
                    0 <= a < b < it.index() ==> files[a].artifact.id != files[b].artifact.id,
                forall|a: int|
                    0 <= a < it.index() ==> table@.contains_key((#[trigger] files[a]).artifact.id)
                        && table@[files[a].artifact.id]@ == files[a] && board.has(
                        files[a].artifact.task_id,
                    ),
                forall|id: Uuid| #[trigger]
                    table@.contains_key(id) ==> exists|a: int|
                        0 <= a < it.index() && (#[trigger] files[a]).artifact.id == id,
        {
            let ghost i: int = it.index() as int;
            let ghost before = table@;
            assert(files[i] == artifact@);
            let id: Uuid = artifact.artifact.id;
            if table.contains_key(&id) {
                proof {
                    let a = choose|a: int| 0 <= a < i && (#[trigger] files[a]).artifact.id == id;
                    assert(files[a].artifact.id == files[i].artifact.id);
                }
                return None;
            }
            if !tasks.contains_key(&artifact.artifact.task_id) {
                proof {
                    if loadable(rows, files) {
                        assert(has_artifact(files, files[i].artifact.id));
                        assert(board.artifacts.contains_key(id));
                        assert(board.artifacts[files[i].artifact.id] == files[i]);
                        assert(board.has(files[i].artifact.task_id));
                    }
                }
                return None;
            }
            table.insert(id, artifact);
            assert forall|key: Uuid| #[trigger] table@.contains_key(key) implies exists|a: int|
                0 <= a < i + 1 && (#[trigger] files[a]).artifact.id == key by {
                if key == id {
                    assert(files[i].artifact.id == key);
                } else {
                    assert(before.contains_key(key));
                    let a = choose|a: int| 0 <= a < i && (#[trigger] files[a]).artifact.id == key;
                    assert(files[a].artifact.id == key);
                }
            }
        }
        let file_keys = sorted_keys(&table);
        proof {
            assert forall|id: Uuid| #[trigger] table@.contains_key(id)
                <==> board.artifacts.contains_key(id) by {
                if table@.contains_key(id) {
                    let a = choose|a: int| 0 <= a < files.len() && (#[trigger] files[a]).artifact.id == id;
                    assert(has_artifact(files, id));
                }
                if board.artifacts.contains_key(id) {
                    let a = choose|a: int| 0 <= a < files.len() && (#[trigger] files[a]).artifact.id == id;
                    assert(table@.contains_key(files[a].artifact.id));
                }
            }
            assert forall|id: Uuid| #[trigger] table@.contains_key(id) implies table@[id]@
                == board.artifacts[id] && board.file(id).id == id && board.has(
                board.file(id).task_id,
            ) by {
                let a = choose|a: int| 0 <= a < files.len() && (#[trigger] files[a]).artifact.id == id;
                assert(board.artifacts[files[a].artifact.id] == files[a]);
            }
            assert(board.artifacts.dom() =~= table@.dom());
            vstd::seq_lib::seq_to_set_is_finite(file_keys@);
        }
        let store = Store { tasks, artifacts: table };
        proof {
            assert(store@.tasks =~= board.tasks);
            assert(store@.artifacts =~= board.artifacts);
            assert(store@ =~= board);
        }
        Some(store)
    }
}

} // verus!
