//! What the rows of the database hold of the board, and what is read back of them.

use super::queries::says;
use super::replies::statuses_have_these_words;
use crate::board::Board;
use crate::ids::{ascending, ascending_holds_all, parsed_uuid, uuid_error_text, Uuid};
use crate::json::{json_error_text, json_text, null, parsed_json};
use crate::model::{Artifact, RequirementModel, Status, Task};
use crate::rows::{
    artifact_columns, artifact_row_error, columns_error, decimal_text, dependency_rows_of,
    encode_fault, file_error, is_durable, range_error_text, record_columns,
    requirement_row_models, requirement_rows_of, row_artifact, row_record, survives,
    task_row_error, ArtifactColumns, ArtifactRow, DependencyRow, RequirementRow,
    RequirementRowModel, TaskColumns, TaskRow,
};
use crate::steps::stored_version;
use crate::store::keeping::{
    assembled, dependencies_for, file_fault, first_encode_fault, first_size_fault,
    is_durable_board, keep_fault, meets_schema, read_files, requirements_for, restored, Rows,
};
use crate::store::loading::{has_artifact, has_record, lemma_loaded};
use crate::store::saving::{
    changed_tasks, new_artifacts, removed_artifacts, removed_tasks, Changes,
};
use crate::store::Record;
use crate::time::{
    in_range, parsed_timestamp, time_error_text, timestamp_text, MIN_NANOSECOND,
};
use serde_json::Value;
use vstd::prelude::*;
use vstd::set_lib::lemma_set_subset_finite;
use vstd::std_specs::convert::TryFromSpec;

verus! {

/// Whether an optional text is the given one.
pub open spec fn same_optional(a: Option<String>, b: Option<String>) -> bool {
    match (a, b) {
        (Some(x), Some(y)) => x@ == y@,
        (None, None) => true,
        _ => false,
    }
}

/// The row of a task that can be read holds in every column the field of that name: the
/// status by its word, JSON values by their texts, and times as they are written.
pub proof fn a_row_holds_every_field(record: Record, columns: TaskColumns)
    requires
        record.raw is None,
        encode_fault(record@) is None,
        columns@ == record_columns(record@),
    ensures
        columns.title@ == record.task.title@,
        columns.description@ == record.task.description@,
        says(columns.status@, record.task.status),
        columns.priority == record.task.priority,
        json_text(record.task.metadata) matches Ok(text) && columns.metadata@ == text,
        same_optional(columns.claimed_by, record.task.claimed_by),
        match record.task.result {
            None => columns.result is None,
            Some(value) => columns.result matches Some(column) && (json_text(value) matches Ok(text)
                && column@ == text),
        },
        columns.created_at@ == record.created@,
        columns.updated_at@ == record.updated@,
        columns.version == record.task.version,
        same_optional(columns.closed_at, record.closed_at),
{
    statuses_have_these_words(columns.status@, record.task.status);
}

/// Whether every column of a task can be read: the status is the word of one, the JSON
/// values and the times can be parsed, and the version is not negative.
pub open spec fn is_legible(columns: TaskColumns) -> bool {
    &&& exists|status: Status| says(columns.status@, status)
    &&& parsed_json(columns.metadata@) is Ok
    &&& columns.result matches Some(text) ==> parsed_json(text@) is Ok
    &&& parsed_timestamp(columns.created_at@) is Ok
    &&& parsed_timestamp(columns.updated_at@) is Ok
    &&& columns.version >= 0
}

/// A row is read exactly when every column can be. What is read holds every column: the
/// status of the word, the values of the JSON texts and the times.
pub proof fn a_row_is_read_column_by_column(id: Uuid, columns: TaskColumns, record: Record)
    requires
        record@ == row_record(id, columns@),
    ensures
        columns_error(columns@) is None <==> is_legible(columns),
        record.task.id == id,
        record.task.title@ == columns.title@,
        record.task.description@ == columns.description@,
        record.task.priority == columns.priority,
        same_optional(record.task.claimed_by, columns.claimed_by),
        record.created@ == columns.created_at@,
        record.updated@ == columns.updated_at@,
        is_legible(columns) ==> {
            &&& says(columns.status@, record.task.status)
            &&& parsed_json(columns.metadata@) == Ok::<Value, serde_json::Error>(
                record.task.metadata,
            )
            &&& match columns.result {
                None => record.task.result is None,
                Some(text) => record.task.result matches Some(value) && parsed_json(text@) == Ok::<
                    Value,
                    serde_json::Error,
                >(value),
            }
            &&& parsed_timestamp(columns.created_at@) matches Ok(n) && record.task.created_at@ == n
            &&& parsed_timestamp(columns.updated_at@) matches Ok(n) && record.task.updated_at@ == n
            &&& record.task.version == columns.version
            &&& same_optional(record.closed_at, columns.closed_at)
            &&& record.raw is None
        },
        !is_legible(columns) ==> record.raw is Some && record@.raw == Some(columns@),
{
    let word = columns.status@;
    statuses_have_these_words(word, Status::Todo);
    statuses_have_these_words(word, Status::InProgress);
    statuses_have_these_words(word, Status::Done);
    statuses_have_these_words(word, Status::Failed);
    statuses_have_these_words(word, Status::Cancelled);
    statuses_have_these_words(word, record.task.status);
}

/// Whether an error tells that a column of the given number could not be read as the given
/// type.
pub open spec fn tells_column(
    error: Seq<char>,
    number: Seq<char>,
    kind: Seq<char>,
    message: Seq<char>,
) -> bool {
    error == "Conversion error from type "@ + kind + " at index: "@ + number + ", "@ + message
}

proof fn lemma_numbers()
    ensures
        decimal_text(0) == "0"@,
        decimal_text(1) == "1"@,
        decimal_text(3) == "3"@,
        decimal_text(4) == "4"@,
        decimal_text(5) == "5"@,
        decimal_text(7) == "7"@,
        decimal_text(8) == "8"@,
        decimal_text(9) == "9"@,
        decimal_text(10) == "10"@,
{
    reveal_strlit("0");
    reveal_strlit("1");
    reveal_strlit("3");
    reveal_strlit("4");
    reveal_strlit("5");
    reveal_strlit("7");
    reveal_strlit("8");
    reveal_strlit("9");
    reveal_strlit("10");
    assert(decimal_text(0) =~= "0"@);
    assert(decimal_text(1) =~= "1"@);
    assert(decimal_text(3) =~= "3"@);
    assert(decimal_text(4) =~= "4"@);
    assert(decimal_text(5) =~= "5"@);
    assert(decimal_text(7) =~= "7"@);
    assert(decimal_text(8) =~= "8"@);
    assert(decimal_text(9) =~= "9"@);
    assert(decimal_text(10) =~= decimal_text(1) + seq!['0']);
    assert(decimal_text(10) =~= "10"@);
}

/// A task is refused for the first of its columns that cannot be read, by the number of
/// that column: a status that is none, metadata or a result that is no JSON, a time that
/// is none, and a version that is negative.
pub proof fn the_first_wrong_column_is_told(columns: TaskColumns)
    requires
        !is_legible(columns),
    ensures
        columns_error(columns@) is Some,
        ({
            let error = columns_error(columns@)->0;
            if forall|status: Status| !says(columns.status@, status) {
                tells_column(
                    error,
                    "3"@,
                    "Text"@,
                    "invalid task status: "@ + columns.status@,
                )
            } else if parsed_json(columns.metadata@) is Err {
                tells_column(
                    error,
                    "5"@,
                    "Text"@,
                    json_error_text(parsed_json(columns.metadata@)->Err_0),
                )
            } else if columns.result matches Some(text) && parsed_json(text@) is Err {
                tells_column(
                    error,
                    "7"@,
                    "Text"@,
                    json_error_text(parsed_json((columns.result->0)@)->Err_0),
                )
            } else if parsed_timestamp(columns.created_at@) is Err {
                tells_column(
                    error,
                    "8"@,
                    "Text"@,
                    time_error_text(parsed_timestamp(columns.created_at@)->Err_0),
                )
            } else if parsed_timestamp(columns.updated_at@) is Err {
                tells_column(
                    error,
                    "9"@,
                    "Text"@,
                    time_error_text(parsed_timestamp(columns.updated_at@)->Err_0),
                )
            } else {
                exists|message: Seq<char>| tells_column(error, "10"@, "Integer"@, message)
            }
        }),
{
    let word = columns.status@;
    lemma_numbers();
    statuses_have_these_words(word, Status::Todo);
    statuses_have_these_words(word, Status::InProgress);
    statuses_have_these_words(word, Status::Done);
    statuses_have_these_words(word, Status::Failed);
    statuses_have_these_words(word, Status::Cancelled);
    if forall|status: Status| !says(word, status) {
        assert(!says(word, Status::Todo));
        assert(!says(word, Status::InProgress));
        assert(!says(word, Status::Done));
        assert(!says(word, Status::Failed));
        assert(!says(word, Status::Cancelled));
    } else if parsed_json(columns.metadata@) is Ok && !(columns.result matches Some(text)
        && parsed_json(text@) is Err) && parsed_timestamp(columns.created_at@) is Ok
        && parsed_timestamp(columns.updated_at@) is Ok {
        assert(columns.version < 0);
        let converted = u64::try_from_spec(columns.version);
        let message = range_error_text(converted->Err_0);
        assert(tells_column(columns_error(columns@)->0, "10"@, "Integer"@, message));
    }
}

/// An identifier that is none is told by the number of its column, in the row of a task
/// and in that of an artifact, before anything else.
pub proof fn a_wrong_identifier_is_told_first(task: TaskRow, artifact: ArtifactRow)
    ensures
        parsed_uuid(task.id@) matches Err(error) ==> (task_row_error(task@) matches Some(text)
            && tells_column(text, "0"@, "Text"@, uuid_error_text(error))),
        parsed_uuid(task.id@) is Ok ==> task_row_error(task@) == columns_error(task.columns@),
        parsed_uuid(artifact.id@) matches Err(error) ==> (artifact_row_error(
            artifact@,
        ) matches Some(text) && tells_column(text, "0"@, "Text"@, uuid_error_text(error))),
        parsed_uuid(artifact.id@) is Ok ==> (parsed_uuid(artifact.task_id@) matches Err(error) ==> (
        artifact_row_error(artifact@) matches Some(text) && tells_column(
            text,
            "1"@,
            "Text"@,
            uuid_error_text(error),
        ))),
        parsed_uuid(artifact.id@) is Ok && parsed_uuid(artifact.task_id@) is Ok ==> {
            let columns = artifact.columns;
            let error = artifact_row_error(artifact@);
            &&& error is None <==> columns.size_bytes >= 0 && parsed_timestamp(
                columns.created_at@,
            ) is Ok
            &&& columns.size_bytes < 0 ==> error is Some && exists|message: Seq<char>|
                tells_column(error->0, "4"@, "Integer"@, message)
            &&& columns.size_bytes >= 0 ==> (parsed_timestamp(columns.created_at@) matches Err(
                cause,
            ) ==> (error matches Some(text) && tells_column(
                text,
                "5"@,
                "Text"@,
                time_error_text(cause),
            )))
        },
{
    lemma_numbers();
    if parsed_uuid(artifact.id@) is Ok && parsed_uuid(artifact.task_id@) is Ok
        && artifact.columns.size_bytes < 0 {
        let converted = u64::try_from_spec(artifact.columns.size_bytes);
        let message = range_error_text(converted->Err_0);
        assert(tells_column(artifact_row_error(artifact@)->0, "4"@, "Integer"@, message));
    }
}

/// The requirements of a task are kept one row each, in their order, and so are its
/// dependencies.
pub proof fn lists_are_kept_row_by_row(
    task: Task,
    requirements: Seq<RequirementRow>,
    dependencies: Seq<DependencyRow>,
)
    requires
        requirement_row_models(requirements) == requirement_rows_of(task@),
        dependencies == dependency_rows_of(task@),
    ensures
        requirements.len() == task.requires@.len(),
        forall|i: int|
            0 <= i < requirements.len() ==> {
                &&& (#[trigger] requirements[i]).task_id == task.id
                &&& requirements[i].name@ == task.requires@[i].name@
                &&& same_optional(requirements[i].description, task.requires@[i].description)
            },
        dependencies.len() == task.depends_on@.len(),
        forall|i: int|
            0 <= i < dependencies.len() ==> (#[trigger] dependencies[i]).task_id == task.id
                && dependencies[i].depends_on == task.depends_on@[i],
{
    let models = requirement_row_models(requirements);
    assert(models.len() == task@.requires.len());
    assert forall|i: int| 0 <= i < requirements.len() implies {
        &&& (#[trigger] requirements[i]).task_id == task.id
        &&& requirements[i].name@ == task.requires@[i].name@
        &&& same_optional(requirements[i].description, task.requires@[i].description)
    } by {
        assert(models[i] == requirements[i]@);
        assert(models[i] == requirement_rows_of(task@)[i]);
        assert(task@.requires[i] == task.requires@[i]@);
    }
}

/// What is read back for a task are the rows that name it, in their order.
pub proof fn lists_are_read_row_by_row(
    requirements: Seq<RequirementRowModel>,
    dependencies: Seq<DependencyRow>,
    id: Uuid,
)
    ensures
        requirements_for(requirements, id) == requirements.filter(
            |row: RequirementRowModel| row.task_id == id,
        ).map_values(|row: RequirementRowModel| row.requirement),
        dependencies_for(dependencies, id) == dependencies.filter(
            |row: DependencyRow| row.task_id == id,
        ).map_values(|row: DependencyRow| row.depends_on),
{
    lemma_requirement_rows(requirements, id);
    lemma_dependency_rows(dependencies, id);
}

proof fn lemma_requirement_rows(rows: Seq<RequirementRowModel>, id: Uuid)
    ensures
        requirements_for(rows, id) == rows.filter(
            |row: RequirementRowModel| row.task_id == id,
        ).map_values(|row: RequirementRowModel| row.requirement),
    decreases rows.len(),
{
    reveal(Seq::filter);
    let p = |row: RequirementRowModel| row.task_id == id;
    let f = |row: RequirementRowModel| row.requirement;
    if rows.len() == 0 {
        assert(rows.filter(p).map_values(f) =~= Seq::<RequirementModel>::empty());
    } else {
        let front = rows.drop_last();
        lemma_requirement_rows(front, id);
        if rows.last().task_id == id {
            assert(rows.filter(p) == front.filter(p).push(rows.last()));
            assert(rows.filter(p).map_values(f) =~= front.filter(p).map_values(f).push(
                rows.last().requirement,
            ));
        } else {
            assert(rows.filter(p) == front.filter(p));
        }
    }
}

proof fn lemma_dependency_rows(rows: Seq<DependencyRow>, id: Uuid)
    ensures
        dependencies_for(rows, id) == rows.filter(
            |row: DependencyRow| row.task_id == id,
        ).map_values(|row: DependencyRow| row.depends_on),
    decreases rows.len(),
{
    reveal(Seq::filter);
    let p = |row: DependencyRow| row.task_id == id;
    let f = |row: DependencyRow| row.depends_on;
    if rows.len() == 0 {
        assert(rows.filter(p).map_values(f) =~= Seq::<Uuid>::empty());
    } else {
        let front = rows.drop_last();
        lemma_dependency_rows(front, id);
        if rows.last().task_id == id {
            assert(rows.filter(p) == front.filter(p).push(rows.last()));
            assert(rows.filter(p).map_values(f) =~= front.filter(p).map_values(f).push(
                rows.last().depends_on,
            ));
        } else {
            assert(rows.filter(p) == front.filter(p));
        }
    }
}

/// The row of an artifact holds in every column the field of that name, and what is read
/// of a row that can be read holds every column.
pub proof fn the_row_of_an_artifact_holds_every_field(
    artifact: Artifact,
    columns: ArtifactColumns,
    id: Uuid,
    task_id: Uuid,
)
    ensures
        columns@ == artifact_columns(artifact@) && artifact.size_bytes <= 0x7fff_ffff_ffff_ffff
            ==> {
            &&& columns.filename@ == artifact.filename@
            &&& columns.content_type@ == artifact.content_type@
            &&& columns.size_bytes == artifact.size_bytes
            &&& columns.created_at@ == timestamp_text(artifact.created_at@)
        },
        artifact@ == row_artifact(id, task_id, columns@) ==> {
            &&& artifact.id == id
            &&& artifact.task_id == task_id
            &&& artifact.filename@ == columns.filename@
            &&& artifact.content_type@ == columns.content_type@
            &&& columns.size_bytes >= 0 ==> artifact.size_bytes == columns.size_bytes
            &&& parsed_timestamp(columns.created_at@) matches Ok(n) ==> artifact.created_at@ == n
        },
        file_error(columns@) is None <==> columns.size_bytes >= 0 && parsed_timestamp(
            columns.created_at@,
        ) is Ok,
{
}

/// The board that rows are read back as has the tasks of the rows, each with the rows of
/// requirements and dependencies that name it.
pub proof fn every_row_comes_back(rows: Rows, k: int)
    requires
        meets_schema(rows@),
        0 <= k < rows.tasks@.len(),
    ensures
        ({
            let id = rows.tasks@[k].id;
            let record = restored(rows@).tasks[id];
            &&& restored(rows@).tasks.contains_key(id)
            &&& record.task.id == id
            &&& record.task.title == rows.tasks@[k].columns.title@
            &&& record.task.description == rows.tasks@[k].columns.description@
            &&& record.task.priority == rows.tasks@[k].columns.priority
            &&& record.task.depends_on == rows.dependencies@.filter(
                |row: DependencyRow| row.task_id == id,
            ).map_values(|row: DependencyRow| row.depends_on)
            &&& record.task.requires == requirement_row_models(rows.requirements@).filter(
                |row: RequirementRowModel| row.task_id == id,
            ).map_values(|row: RequirementRowModel| row.requirement)
        }),
        forall|id: Uuid| #[trigger]
            restored(rows@).tasks.contains_key(id) <==> exists|i: int|
                0 <= i < rows.tasks@.len() && (#[trigger] rows.tasks@[i]).id == id,
{
    let id = rows.tasks@[k].id;
    let all = assembled(rows@);
    assert(rows@.tasks[k] == rows.tasks@[k]@);
    assert(all[k].task.id == id);
    assert(has_record(all, id));
    lemma_loaded(all, read_files(rows@));
    assert(restored(rows@).tasks[all[k].task.id] == all[k]);
    lists_are_read_row_by_row(rows@.requirements, rows@.dependencies, id);
    assert forall|id: Uuid| #[trigger]
        restored(rows@).tasks.contains_key(id) <==> exists|i: int|
            0 <= i < rows.tasks@.len() && (#[trigger] rows.tasks@[i]).id == id by {
        if has_record(all, id) {
            let i = choose|i: int| 0 <= i < all.len() && (#[trigger] all[i]).task.id == id;
            assert(rows@.tasks[i] == rows.tasks@[i]@);
            assert(rows.tasks@[i].id == id);
        }
        if exists|i: int| 0 <= i < rows.tasks@.len() && (#[trigger] rows.tasks@[i]).id == id {
            let i = choose|i: int| 0 <= i < rows.tasks@.len() && (#[trigger] rows.tasks@[i]).id
                == id;
            assert(rows@.tasks[i] == rows.tasks@[i]@);
            assert(all[i].task.id == id);
        }
    }
}

/// A board lasts, so that the rows that it is kept as are read back as that board, where
/// its times are points in time and their texts are those that are written of them, its
/// numbers fit a column, and its JSON values read back as themselves.
pub proof fn what_is_written_in_full_lasts(board: Board)
    requires
        forall|id: Uuid| #[trigger]
            board.tasks.contains_key(id) ==> {
                let record = board.tasks[id];
                &&& record.raw is None
                &&& in_range(record.task.created_at)
                &&& record.created == timestamp_text(record.task.created_at)
                &&& in_range(record.task.updated_at)
                &&& record.updated == timestamp_text(record.task.updated_at)
                &&& record.task.version <= 0x7fff_ffff_ffff_ffff
                &&& survives(record.task.metadata)
                &&& record.task.result matches Some(value) ==> survives(value)
            },
        forall|id: Uuid| #[trigger]
            board.artifacts.contains_key(id) ==> {
                let file = board.artifacts[id];
                &&& file.raw is None
                &&& in_range(file.artifact.created_at)
                &&& file.artifact.size_bytes <= 0x7fff_ffff_ffff_ffff
            },
    ensures
        is_durable_board(board),
        forall|id: Uuid| #[trigger]
            board.tasks.contains_key(id) ==> encode_fault(board.tasks[id]) is None,
{
    assert forall|id: Uuid| #[trigger] board.has(id) implies is_durable(board.tasks[id]) by {
        assert(board.tasks.contains_key(id));
    }
}

/// What is to be written of a board after a change is every task that is new or has
/// another version, as it stands, and every new artifact; what is to be removed is every
/// task and every artifact that is no longer there.
pub proof fn every_change_is_written(before: Board, after: Board, changes: Changes, id: Uuid)
    requires
        before.valid(),
        after.valid(),
        changes.tasks@.map_values(|record: Record| record@) == ascending(
            changed_tasks(before, after),
        ).map_values(|id: Uuid| after.tasks[id]),
        changes.removed_tasks@ == ascending(removed_tasks(before, after)),
        changes.artifacts@.map_values(|artifact: Artifact| artifact@) == ascending(
            new_artifacts(before, after),
        ).map_values(|id: Uuid| after.file(id)),
        changes.removed_artifacts@ == ascending(removed_artifacts(before, after)),
    ensures
        (exists|i: int|
            0 <= i < changes.tasks@.len() && (#[trigger] changes.tasks@[i])@ == after.tasks[id]
                && changes.tasks@[i].task.id == id) <==> after.tasks.contains_key(id) && (
        !before.tasks.contains_key(id) || stored_version(before.tasks[id]) != stored_version(
            after.tasks[id],
        )),
        changes.removed_tasks@.contains(id) <==> before.tasks.contains_key(id)
            && !after.tasks.contains_key(id),
        (exists|i: int|
            0 <= i < changes.artifacts@.len() && (#[trigger] changes.artifacts@[i])@
                == after.artifacts[id].artifact && changes.artifacts@[i].id == id)
            <==> after.artifacts.contains_key(id) && !before.artifacts.contains_key(id),
        changes.removed_artifacts@.contains(id) <==> before.artifacts.contains_key(id)
            && !after.artifacts.contains_key(id),
{
    let changed = changed_tasks(before, after);
    let removed = removed_tasks(before, after);
    let added = new_artifacts(before, after);
    let lost = removed_artifacts(before, after);
    assert(changed.subset_of(after.tasks.dom()));
    assert(removed.subset_of(before.tasks.dom()));
    assert(added.subset_of(after.artifacts.dom()));
    assert(lost.subset_of(before.artifacts.dom()));
    lemma_set_subset_finite(after.tasks.dom(), changed);
    lemma_set_subset_finite(before.tasks.dom(), removed);
    lemma_set_subset_finite(after.artifacts.dom(), added);
    lemma_set_subset_finite(before.artifacts.dom(), lost);
    ascending_holds_all(changed);
    ascending_holds_all(removed);
    ascending_holds_all(added);
    ascending_holds_all(lost);
    let ids = ascending(changed);
    let records = changes.tasks@.map_values(|record: Record| record@);
    assert(records.len() == ids.len());
    assert forall|i: int| 0 <= i < ids.len() implies (#[trigger] changes.tasks@[i])@
        == after.tasks[ids[i]] && changes.tasks@[i].task.id == ids[i] by {
        assert(records[i] == changes.tasks@[i]@);
        assert(ids.to_set().contains(ids[i]));
        assert(after.has(ids[i]));
        assert(after.valid_record(ids[i], after.tasks[ids[i]]));
    }
    assert(changed.contains(id) <==> ids.to_set().contains(id));
    if changed.contains(id) {
        let i = choose|i: int| 0 <= i < ids.len() && ids[i] == id;
        assert(changes.tasks@[i]@ == after.tasks[id]);
    }
    if exists|i: int|
        0 <= i < changes.tasks@.len() && (#[trigger] changes.tasks@[i])@ == after.tasks[id]
            && changes.tasks@[i].task.id == id {
        let i = choose|i: int|
            0 <= i < changes.tasks@.len() && (#[trigger] changes.tasks@[i])@ == after.tasks[id]
                && changes.tasks@[i].task.id == id;
        assert(ids[i] == id);
        assert(ids.contains(id));
    }
    let keys = ascending(added);
    let files = changes.artifacts@.map_values(|artifact: Artifact| artifact@);
    assert(files.len() == keys.len());
    assert forall|i: int| 0 <= i < keys.len() implies (#[trigger] changes.artifacts@[i])@
        == after.artifacts[keys[i]].artifact && changes.artifacts@[i].id == keys[i] by {
        assert(files[i] == changes.artifacts@[i]@);
        assert(files[i] == after.file(keys[i]));
        assert(keys.to_set().contains(keys[i]));
        assert(after.artifacts.contains_key(keys[i]));
    }
    assert(added.contains(id) <==> keys.to_set().contains(id));
    if added.contains(id) {
        let i = choose|i: int| 0 <= i < keys.len() && keys[i] == id;
        assert(changes.artifacts@[i]@ == after.artifacts[id].artifact);
    }
    if exists|i: int|
        0 <= i < changes.artifacts@.len() && (#[trigger] changes.artifacts@[i])@
            == after.artifacts[id].artifact && changes.artifacts@[i].id == id {
        let i = choose|i: int|
            0 <= i < changes.artifacts@.len() && (#[trigger] changes.artifacts@[i])@
                == after.artifacts[id].artifact && changes.artifacts@[i].id == id;
        assert(keys[i] == id);
        assert(keys.contains(id));
    }
    assert(removed.contains(id) <==> ascending(removed).to_set().contains(id));
    assert(lost.contains(id) <==> ascending(lost).to_set().contains(id));
}

/// For what cannot be read of a row stands what counts for nothing: a status that is
/// neither open nor done, closed at no time; no value; the first point in time; no version.
pub proof fn what_cannot_be_read_counts_for_nothing(
    id: Uuid,
    columns: TaskColumns,
    record: Record,
)
    requires
        record@ == row_record(id, columns@),
    ensures
        (forall|status: Status| !says(columns.status@, status)) ==> record.task.status
            == Status::Cancelled && record.closed_at is None,
        (exists|status: Status| says(columns.status@, status)) ==> says(
            columns.status@,
            record.task.status,
        ) && same_optional(record.closed_at, columns.closed_at),
        parsed_json(columns.metadata@) is Err ==> record.task.metadata == null(),
        columns.result matches Some(text) && parsed_json(text@) is Err ==> record.task.result
            is None,
        parsed_timestamp(columns.created_at@) is Err ==> record.task.created_at@
            == MIN_NANOSECOND,
        parsed_timestamp(columns.updated_at@) is Err ==> record.task.updated_at@
            == MIN_NANOSECOND,
        columns.version < 0 ==> record.task.version == 0,
        columns.version >= 0 ==> record.task.version == columns.version,
{
    let word = columns.status@;
    statuses_have_these_words(word, Status::Todo);
    statuses_have_these_words(word, Status::InProgress);
    statuses_have_these_words(word, Status::Done);
    statuses_have_these_words(word, Status::Failed);
    statuses_have_these_words(word, Status::Cancelled);
    statuses_have_these_words(word, record.task.status);
    assert(says(word, Status::Todo) ==> exists|status: Status| says(word, status));
    if forall|status: Status| !says(word, status) {
        assert(!says(word, Status::Todo));
        assert(!says(word, Status::InProgress));
        assert(!says(word, Status::Done));
        assert(!says(word, Status::Failed));
        assert(!says(word, Status::Cancelled));
    }
}

/// A board can be kept exactly when each of its tasks and artifacts that can be read can
/// be written.
pub proof fn a_board_is_kept_whole(board: Board)
    requires
        board.valid(),
    ensures
        keep_fault(board) is None <==> {
            &&& forall|id: Uuid| #[trigger]
                board.tasks.contains_key(id) && board.tasks[id].raw is None ==> {
                    let task = board.tasks[id].task;
                    &&& json_text(task.metadata) is Ok
                    &&& task.result matches Some(value) ==> json_text(value) is Ok
                    &&& task.version <= 0x7fff_ffff_ffff_ffff
                }
            &&& forall|id: Uuid| #[trigger]
                board.artifacts.contains_key(id) && board.artifacts[id].raw is None
                    ==> board.artifacts[id].artifact.size_bytes <= 0x7fff_ffff_ffff_ffff
        },
{
    let ids = ascending(board.tasks.dom());
    let keys = ascending(board.artifacts.dom());
    ascending_holds_all(board.tasks.dom());
    ascending_holds_all(board.artifacts.dom());
    lemma_no_encode_fault(board, ids);
    lemma_no_size_fault(board, keys);
    assert forall|id: Uuid| #[trigger] board.tasks.contains_key(id) <==> ids.contains(id) by {
        assert(ids.to_set().contains(id) <==> board.tasks.dom().contains(id));
    }
    assert forall|id: Uuid| #[trigger] board.artifacts.contains_key(id) <==> keys.contains(
        id,
    ) by {
        assert(keys.to_set().contains(id) <==> board.artifacts.dom().contains(id));
    }
    if keep_fault(board) is None {
        assert forall|id: Uuid| #[trigger]
            board.tasks.contains_key(id) && board.tasks[id].raw is None implies {
            let task = board.tasks[id].task;
            &&& json_text(task.metadata) is Ok
            &&& task.result matches Some(value) ==> json_text(value) is Ok
            &&& task.version <= 0x7fff_ffff_ffff_ffff
        } by {
            let k = choose|k: int| 0 <= k < ids.len() && ids[k] == id;
            assert(encode_fault(board.tasks[ids[k]]) is None);
        }
        assert forall|id: Uuid| #[trigger]
            board.artifacts.contains_key(id) && board.artifacts[id].raw
                is None implies board.artifacts[id].artifact.size_bytes
            <= 0x7fff_ffff_ffff_ffff by {
            let k = choose|k: int| 0 <= k < keys.len() && keys[k] == id;
            assert(file_fault(board.artifacts[keys[k]]) is None);
        }
    } else {
        if first_encode_fault(board, ids) is Some {
            let k = choose|k: int|
                0 <= k < ids.len() && encode_fault(board.tasks[#[trigger] ids[k]]) is Some;
            assert(ids.contains(ids[k]));
            assert(board.tasks.contains_key(ids[k]));
        } else {
            let k = choose|k: int|
                0 <= k < keys.len() && file_fault(board.artifacts[#[trigger] keys[k]]) is Some;
            assert(keys.contains(keys[k]));
            assert(board.artifacts.contains_key(keys[k]));
        }
    }
}

proof fn lemma_no_encode_fault(board: Board, ids: Seq<Uuid>)
    ensures
        first_encode_fault(board, ids) is None <==> forall|k: int|
            0 <= k < ids.len() ==> encode_fault(board.tasks[#[trigger] ids[k]]) is None,
    decreases ids.len(),
{
    if ids.len() > 0 {
        let front = ids.drop_last();
        lemma_no_encode_fault(board, front);
        assert forall|k: int| 0 <= k < front.len() implies #[trigger] front[k] == ids[k] by {}
        if first_encode_fault(board, ids) is None {
            assert forall|k: int| 0 <= k < ids.len() implies encode_fault(
                board.tasks[#[trigger] ids[k]],
            ) is None by {
                if k < front.len() {
                    assert(encode_fault(board.tasks[front[k]]) is None);
                }
            }
        } else if first_encode_fault(board, front) is Some {
            let k = choose|k: int|
                0 <= k < front.len() && encode_fault(board.tasks[#[trigger] front[k]]) is Some;
            assert(encode_fault(board.tasks[ids[k]]) is Some);
        } else {
            assert(encode_fault(board.tasks[ids[ids.len() - 1]]) is Some);
        }
    }
}

proof fn lemma_no_size_fault(board: Board, ids: Seq<Uuid>)
    ensures
        first_size_fault(board, ids) is None <==> forall|k: int|
            0 <= k < ids.len() ==> file_fault(board.artifacts[#[trigger] ids[k]]) is None,
    decreases ids.len(),
{
    if ids.len() > 0 {
        let front = ids.drop_last();
        lemma_no_size_fault(board, front);
        assert forall|k: int| 0 <= k < front.len() implies #[trigger] front[k] == ids[k] by {}
        if first_size_fault(board, ids) is None {
            assert forall|k: int| 0 <= k < ids.len() implies file_fault(
                board.artifacts[#[trigger] ids[k]],
            ) is None by {
                if k < front.len() {
                    assert(file_fault(board.artifacts[front[k]]) is None);
                }
            }
        } else if first_size_fault(board, front) is Some {
            let k = choose|k: int|
                0 <= k < front.len() && file_fault(board.artifacts[#[trigger] front[k]]) is Some;
            assert(file_fault(board.artifacts[ids[k]]) is Some);
        } else {
            assert(file_fault(board.artifacts[ids[ids.len() - 1]]) is Some);
        }
    }
}

/// Rows that meet the schema hold every task and every artifact once, dependencies
/// between tasks that are there, and artifacts of tasks that are there.
pub proof fn the_schema_keeps_references(rows: Rows)
    requires
        meets_schema(rows@),
    ensures
        forall|i: int, j: int|
            0 <= i < j < rows.tasks@.len() ==> (#[trigger] rows.tasks@[i]).id != (
            #[trigger] rows.tasks@[j]).id,
        forall|i: int, j: int|
            0 <= i < j < rows.artifacts@.len() ==> (#[trigger] rows.artifacts@[i]).id != (
            #[trigger] rows.artifacts@[j]).id,
        forall|k: int|
            0 <= k < rows.dependencies@.len() ==> is_kept(
                rows,
                (#[trigger] rows.dependencies@[k]).task_id,
            ),
        forall|k: int|
            0 <= k < rows.dependencies@.len() ==> is_kept(
                rows,
                (#[trigger] rows.dependencies@[k]).depends_on,
            ),
        forall|k: int|
            0 <= k < rows.artifacts@.len() ==> is_kept(
                rows,
                (#[trigger] rows.artifacts@[k]).task_id,
            ),
{
    let all = assembled(rows@);
    let files = read_files(rows@);
    let board = restored(rows@);
    lemma_loaded(all, files);
    assert forall|i: int| 0 <= i < rows.tasks@.len() implies all[i].task.id == (
    #[trigger] rows.tasks@[i]).id by {
        assert(rows@.tasks[i] == rows.tasks@[i]@);
    }
    assert forall|i: int| 0 <= i < rows.artifacts@.len() implies files[i].artifact.id == (
    #[trigger] rows.artifacts@[i]).id && files[i].artifact.task_id == rows.artifacts@[i].task_id by {
        assert(rows@.artifacts[i] == rows.artifacts@[i]@);
    }
    assert forall|i: int, j: int| 0 <= i < j < rows.tasks@.len() implies (
    #[trigger] rows.tasks@[i]).id != (#[trigger] rows.tasks@[j]).id by {
        assert(all[i].task.id != all[j].task.id);
    }
    assert forall|i: int, j: int| 0 <= i < j < rows.artifacts@.len() implies (
    #[trigger] rows.artifacts@[i]).id != (#[trigger] rows.artifacts@[j]).id by {
        assert(files[i].artifact.id != files[j].artifact.id);
    }
    assert forall|id: Uuid| #[trigger] has_record(all, id) implies is_kept(rows, id) by {
        let i = choose|i: int| 0 <= i < all.len() && (#[trigger] all[i]).task.id == id;
        assert(rows.tasks@[i].id == id);
    }
    assert forall|k: int| 0 <= k < rows.dependencies@.len() implies is_kept(
        rows,
        (#[trigger] rows.dependencies@[k]).depends_on,
    ) by {
        let row = rows.dependencies@[k];
        assert(rows@.dependencies[k] == row);
        assert(has_record(all, row.task_id));
        let i = choose|i: int| 0 <= i < all.len() && (#[trigger] all[i]).task.id == row.task_id;
        assert(board.tasks[all[i].task.id] == all[i]);
        assert(board.has(row.task_id));
        assert(board.valid_record(row.task_id, board.tasks[row.task_id]));
        lemma_row_counts(rows@.dependencies, row.task_id, k);
        assert(board.has(row.depends_on));
    }
    assert forall|k: int| 0 <= k < rows.artifacts@.len() implies is_kept(
        rows,
        (#[trigger] rows.artifacts@[k]).task_id,
    ) by {
        let id = rows.artifacts@[k].id;
        assert(files[k].artifact.id == id);
        assert(board.artifacts[files[k].artifact.id] == files[k]);
        assert(has_artifact(files, id));
        assert(board.artifacts.contains_key(id));
        assert(board.has(board.file(id).task_id));
    }
}

/// Whether one of the rows is that of the given task.
pub open spec fn is_kept(rows: Rows, id: Uuid) -> bool {
    exists|i: int| 0 <= i < rows.tasks@.len() && (#[trigger] rows.tasks@[i]).id == id
}

proof fn lemma_row_counts(rows: Seq<DependencyRow>, id: Uuid, k: int)
    requires
        0 <= k < rows.len(),
        rows[k].task_id == id,
    ensures
        dependencies_for(rows, id).contains(rows[k].depends_on),
    decreases rows.len(),
{
    let front = rows.drop_last();
    let all = dependencies_for(rows, id);
    if k < front.len() {
        lemma_row_counts(front, id, k);
        let earlier = dependencies_for(front, id);
        let i = choose|i: int| 0 <= i < earlier.len() && earlier[i] == rows[k].depends_on;
        assert(all[i] == rows[k].depends_on);
    } else {
        assert(all.last() == rows[k].depends_on);
    }
}

} // verus!
