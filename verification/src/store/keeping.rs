//! The rows that a board is kept as, and the board that rows are read back as.

use super::loading::{
    file_list, has_artifact, has_record, lemma_loaded, loadable, loaded, record_list,
};
use super::{Filed, Record, Store, StoreError};
use crate::board::{Board, FiledModel, RecordModel};
use crate::ids::{ascending, ascending_holds_all, lemma_ascending, Uuid};
use crate::model::{
    copy_ids, copy_requirements, copy_text, requirement_models, Requirement, RequirementModel,
    TaskModel,
};
use crate::rows::{
    columns_error, columns_read_back, copy_artifact_columns, dependency_rows,
    dependency_rows_of, encode_artifact_columns, encode_columns, encode_fault, file_columns,
    is_durable, is_durable_file, read_artifact_row, read_columns, record_columns,
    requirement_row_models, requirement_rows, requirement_rows_of, row_file, row_record,
    the_columns_of_a_task_read_back, the_columns_of_an_artifact_read_back, time_reads_back,
    DependencyRow, KeptArtifact, KeptArtifactModel, KeptTask, KeptTaskModel, RequirementRow,
    RequirementRowModel, TaskColumnsModel,
};
use crate::rules::{integer_fault, Fault};
use crate::tables::sorted_keys;
use std::collections::BTreeMap;
use vstd::prelude::*;

verus! {

/// The rows of a board: tasks and artifacts by their identifiers, requirements
/// and dependencies by their tasks and in their order.
#[derive(Clone, Debug, PartialEq, Eq)]
pub struct Rows {
    pub tasks: Vec<KeptTask>,
    pub requirements: Vec<RequirementRow>,
    pub dependencies: Vec<DependencyRow>,
    pub artifacts: Vec<KeptArtifact>,
}

/// The rows of a board, mathematically.
#[verifier::ext_equal]
pub struct RowsModel {
    pub tasks: Seq<KeptTaskModel>,
    pub requirements: Seq<RequirementRowModel>,
    pub dependencies: Seq<DependencyRow>,
    pub artifacts: Seq<KeptArtifactModel>,
}

impl View for Rows {
    type V = RowsModel;

    open spec fn view(&self) -> RowsModel {
        RowsModel {
            tasks: self.tasks@.map_values(|row: KeptTask| row@),
            requirements: requirement_row_models(self.requirements@),
            dependencies: self.dependencies@,
            artifacts: self.artifacts@.map_values(|row: KeptArtifact| row@),
        }
    }
}

/// The requirements that rows hold for a task, in their order.
pub open spec fn requirements_for(rows: Seq<RequirementRowModel>, id: Uuid) -> Seq<
    RequirementModel,
>
    decreases rows.len(),
{
    if rows.len() == 0 {
        Seq::empty()
    } else {
        let earlier = requirements_for(rows.drop_last(), id);
        if rows.last().task_id == id {
            earlier.push(rows.last().requirement)
        } else {
            earlier
        }
    }
}

/// The dependencies that rows hold for a task, in their order.
pub open spec fn dependencies_for(rows: Seq<DependencyRow>, id: Uuid) -> Seq<Uuid>
    decreases rows.len(),
{
    if rows.len() == 0 {
        Seq::empty()
    } else {
        let earlier = dependencies_for(rows.drop_last(), id);
        if rows.last().task_id == id {
            earlier.push(rows.last().depends_on)
        } else {
            earlier
        }
    }
}

/// A task with the requirements and dependencies that rows hold for it.
pub open spec fn assembled_record(
    record: RecordModel,
    requirements: Seq<RequirementRowModel>,
    dependencies: Seq<DependencyRow>,
) -> RecordModel {
    RecordModel {
        task: TaskModel {
            requires: requirements_for(requirements, record.task.id),
            depends_on: dependencies_for(dependencies, record.task.id),
            ..record.task
        },
        ..record
    }
}

/// The tasks that rows hold.
pub open spec fn assembled(rows: RowsModel) -> Seq<RecordModel> {
    rows.tasks.map_values(
        |row: KeptTaskModel|
            assembled_record(row_record(row.id, row.columns), rows.requirements, rows.dependencies),
    )
}

/// The artifacts that rows hold.
pub open spec fn read_files(rows: RowsModel) -> Seq<FiledModel> {
    rows.artifacts.map_values(
        |row: KeptArtifactModel| row_file(row.id, row.task_id, row.columns),
    )
}

/// Whether rows meet the schema of the database: every key occurs once, and every
/// dependency and every artifact refers to tasks that exist.
pub open spec fn meets_schema(rows: RowsModel) -> bool {
    &&& loadable(assembled(rows), read_files(rows))
    &&& forall|k: int|
        0 <= k < rows.dependencies.len() ==> has_record(
            assembled(rows),
            (#[trigger] rows.dependencies[k]).task_id,
        )
}

/// The board that rows are read back as. What cannot be read of a task or an artifact is
/// kept with it.
pub open spec fn restored(rows: RowsModel) -> Board {
    loaded(assembled(rows), read_files(rows))
}

/// The rows of requirements of the given tasks, one task after another.
pub open spec fn all_requirement_rows(board: Board, ids: Seq<Uuid>) -> Seq<RequirementRowModel>
    decreases ids.len(),
{
    if ids.len() == 0 {
        Seq::empty()
    } else {
        all_requirement_rows(board, ids.drop_last()) + requirement_rows_of(board.task(ids.last()))
    }
}

/// The rows of dependencies of the given tasks, one task after another.
pub open spec fn all_dependency_rows(board: Board, ids: Seq<Uuid>) -> Seq<DependencyRow>
    decreases ids.len(),
{
    if ids.len() == 0 {
        Seq::empty()
    } else {
        all_dependency_rows(board, ids.drop_last()) + dependency_rows_of(board.task(ids.last()))
    }
}

/// The row that an artifact is kept as.
pub open spec fn kept_artifact(file: FiledModel) -> KeptArtifactModel {
    KeptArtifactModel {
        id: file.artifact.id,
        task_id: file.artifact.task_id,
        columns: file_columns(file),
    }
}

/// The rows that a board is kept as.
pub open spec fn kept(board: Board) -> RowsModel {
    let ids = ascending(board.tasks.dom());
    RowsModel {
        tasks: ids.map_values(
            |id: Uuid| KeptTaskModel { id, columns: record_columns(board.tasks[id]) },
        ),
        requirements: all_requirement_rows(board, ids),
        dependencies: all_dependency_rows(board, ids),
        artifacts: ascending(board.artifacts.dom()).map_values(
            |id: Uuid| kept_artifact(board.artifacts[id]),
        ),
    }
}

/// Whether every time on a board is a point in time, every number fits a column, and
/// JSON values read back as themselves.
pub open spec fn is_durable_board(board: Board) -> bool {
    &&& forall|id: Uuid| #[trigger] board.has(id) ==> is_durable(board.tasks[id])
    &&& forall|id: Uuid| #[trigger]
        board.artifacts.contains_key(id) ==> is_durable_file(board.artifacts[id])
}

/// Why a board cannot be written as rows: what the task with the lowest identifier, or
/// else the artifact with the lowest, is refused for.
pub open spec fn keep_fault(board: Board) -> Option<Fault> {
    match first_encode_fault(board, ascending(board.tasks.dom())) {
        Some(fault) => Some(fault),
        None => first_size_fault(board, ascending(board.artifacts.dom())),
    }
}

/// Why an artifact cannot be written as a row.
pub open spec fn file_fault(file: FiledModel) -> Option<Fault> {
    if file.raw is Some {
        None
    } else {
        integer_fault(file.artifact.size_bytes as int, "artifact size"@)
    }
}

/// What the first of the tasks that cannot be written is refused for.
pub open spec fn first_encode_fault(board: Board, ids: Seq<Uuid>) -> Option<Fault>
    decreases ids.len(),
{
    if ids.len() == 0 {
        None
    } else if first_encode_fault(board, ids.drop_last()) is Some {
        first_encode_fault(board, ids.drop_last())
    } else {
        encode_fault(board.tasks[ids.last()])
    }
}

/// What the first of the artifacts that cannot be written is refused for.
pub open spec fn first_size_fault(board: Board, ids: Seq<Uuid>) -> Option<Fault>
    decreases ids.len(),
{
    if ids.len() == 0 {
        None
    } else if first_size_fault(board, ids.drop_last()) is Some {
        first_size_fault(board, ids.drop_last())
    } else {
        file_fault(board.artifacts[ids.last()])
    }
}

proof fn lemma_encode_fault_stays(board: Board, ids: Seq<Uuid>, n: int)
    requires
        0 <= n <= ids.len(),
        first_encode_fault(board, ids.take(n)) is Some,
    ensures
        first_encode_fault(board, ids) == first_encode_fault(board, ids.take(n)),
    decreases ids.len() - n,
{
    if n == ids.len() {
        assert(ids.take(n) =~= ids);
    } else {
        assert(ids.take(n + 1).drop_last() =~= ids.take(n));
        lemma_encode_fault_stays(board, ids, n + 1);
    }
}

proof fn lemma_size_fault_stays(board: Board, ids: Seq<Uuid>, n: int)
    requires
        0 <= n <= ids.len(),
        first_size_fault(board, ids.take(n)) is Some,
    ensures
        first_size_fault(board, ids) == first_size_fault(board, ids.take(n)),
    decreases ids.len() - n,
{
    if n == ids.len() {
        assert(ids.take(n) =~= ids);
    } else {
        assert(ids.take(n + 1).drop_last() =~= ids.take(n));
        lemma_size_fault_stays(board, ids, n + 1);
    }
}

/// The row that an artifact is kept as.
fn keep_artifact(file: &Filed) -> (result: Result<KeptArtifact, StoreError>)
    ensures
        match result {
            Ok(row) => file_fault(file@) is None && row@ == kept_artifact(file@),
            Err(error) => file_fault(file@) == Some(error@),
        },
{
    let columns = match &file.raw {
        Some(columns) => copy_artifact_columns(columns),
        None => match encode_artifact_columns(&file.artifact) {
            Ok(columns) => columns,
            Err(error) => {
                return Err(error);
            },
        },
    };
    Ok(KeptArtifact { id: file.artifact.id, task_id: file.artifact.task_id, columns })
}

impl Store {
    /// The rows that the board is kept as.
    pub fn rows(&self) -> (result: Result<Rows, StoreError>)
        requires
            self.wf(),
        ensures
            match result {
                Ok(rows) => keep_fault(self@) is None && rows@ == kept(self@),
                Err(error) => keep_fault(self@) == Some(error@),
            },
    {
        let ghost board = self@;
        let keys = self.keys();
        proof {
            lemma_ascending(keys@, board.tasks.dom());
        }
        let mut tasks: Vec<KeptTask> = Vec::new();
        let mut requirements: Vec<RequirementRow> = Vec::new();
        let mut dependencies: Vec<DependencyRow> = Vec::new();
        let mut i: usize = 0;
        assert(requirement_row_models(requirements@) =~= all_requirement_rows(
            board,
            keys@.take(0),
        ));
        assert(dependencies@ =~= all_dependency_rows(board, keys@.take(0)));
        while i < keys.len()
            invariant
                self.wf(),
                board == self@,
                keys@ == ascending(board.tasks.dom()),
                keys@.to_set() == board.tasks.dom(),
                i <= keys.len(),
                first_encode_fault(board, keys@.take(i as int)) is None,
                tasks@.len() == i,
                forall|k: int|
                    0 <= k < i ==> (#[trigger] tasks@[k])@ == (KeptTaskModel {
                        id: keys@[k],
                        columns: record_columns(board.tasks[keys@[k]]),
                    }),
                requirement_row_models(requirements@) == all_requirement_rows(
                    board,
                    keys@.take(i as int),
                ),
                dependencies@ == all_dependency_rows(board, keys@.take(i as int)),
            decreases keys.len() - i,
        {
            let id: Uuid = keys[i];
            assert(keys@.to_set().contains(id));
            assert(board.has(id));
            assert(keys@.take(i + 1).drop_last() =~= keys@.take(i as int));
            let record = self.tasks.get(&id).unwrap();
            assert(record@ == board.tasks[id]);
            match encode_columns(record) {
                Ok(columns) => {
                    tasks.push(KeptTask { id, columns });
                },
                Err(error) => {
                    proof {
                        lemma_encode_fault_stays(board, keys@, i + 1);
                    }
                    return Err(error);
                },
            }
            let ghost before_requirements = requirements@;
            let mut more = requirement_rows(&record.task);
            let ghost added = more@;
            requirements.append(&mut more);
            assert(requirement_row_models(requirements@) =~= requirement_row_models(
                before_requirements,
            ) + requirement_row_models(added));
            let mut further = dependency_rows(&record.task);
            dependencies.append(&mut further);
            i += 1;
        }
        assert(keys@.take(keys@.len() as int) =~= keys@);
        let file_keys = sorted_keys(&self.artifacts);
        proof {
            assert(board.artifacts.dom() =~= self.artifacts@.dom());
            lemma_ascending(file_keys@, board.artifacts.dom());
        }
        let mut artifacts: Vec<KeptArtifact> = Vec::new();
        i = 0;
        while i < file_keys.len()
            invariant
                self.wf(),
                board == self@,
                first_encode_fault(board, ascending(board.tasks.dom())) is None,
                file_keys@ == ascending(board.artifacts.dom()),
                file_keys@.to_set() == board.artifacts.dom(),
                i <= file_keys.len(),
                first_size_fault(board, file_keys@.take(i as int)) is None,
                artifacts@.len() == i,
                forall|k: int|
                    0 <= k < i ==> (#[trigger] artifacts@[k])@ == kept_artifact(
                        board.artifacts[file_keys@[k]],
                    ),
            decreases file_keys.len() - i,
        {
            let id: Uuid = file_keys[i];
            assert(file_keys@.to_set().contains(id));
            assert(file_keys@.take(i + 1).drop_last() =~= file_keys@.take(i as int));
            let file = self.artifacts.get(&id).unwrap();
            assert(file@ == board.artifacts[id]);
            match keep_artifact(file) {
                Ok(row) => {
                    artifacts.push(row);
                },
                Err(error) => {
                    proof {
                        lemma_size_fault_stays(board, file_keys@, i + 1);
                    }
                    return Err(error);
                },
            }
            i += 1;
        }
        assert(file_keys@.take(file_keys@.len() as int) =~= file_keys@);
        let rows = Rows { tasks, requirements, dependencies, artifacts };
        assert(rows@ =~= kept(board));
        Ok(rows)
    }
}

/// The requirements that a table holds for a task.
spec fn grouped_requirements(table: Map<Uuid, Vec<Requirement>>, id: Uuid) -> Seq<
    RequirementModel,
> {
    if table.contains_key(id) {
        requirement_models(table[id]@)
    } else {
        Seq::empty()
    }
}

/// The dependencies that a table holds for a task.
spec fn grouped_dependencies(table: Map<Uuid, Vec<Uuid>>, id: Uuid) -> Seq<Uuid> {
    if table.contains_key(id) {
        table[id]@
    } else {
        Seq::empty()
    }
}

/// The requirements that rows hold, by their tasks.
fn group_requirements(rows: &Vec<RequirementRow>) -> (table: BTreeMap<Uuid, Vec<Requirement>>)
    ensures
        forall|id: Uuid| #[trigger]
            grouped_requirements(table@, id) == requirements_for(requirement_row_models(rows@), id),
{
    let ghost models = requirement_row_models(rows@);
    let mut table: BTreeMap<Uuid, Vec<Requirement>> = BTreeMap::new();
    assert forall|id: Uuid| #[trigger]
        grouped_requirements(table@, id) == requirements_for(models.take(0), id) by {}
    let mut i: usize = 0;
    while i < rows.len()
        invariant
            models == requirement_row_models(rows@),
            i <= rows.len(),
            forall|id: Uuid| #[trigger]
                grouped_requirements(table@, id) == requirements_for(models.take(i as int), id),
        decreases rows.len() - i,
    {
        let ghost before = table@;
        let row = &rows[i];
        assert(models[i as int] == row@);
        assert(models.take(i + 1).drop_last() =~= models.take(i as int));
        assert(models.take(i + 1).last() == models[i as int]);
        let mut list = match table.remove(&row.task_id) {
            Some(list) => list,
            None => Vec::new(),
        };
        let ghost earlier = list@;
        assert(requirement_models(earlier) =~= grouped_requirements(before, row.task_id));
        list.push(
            Requirement { name: row.name.clone(), description: copy_text(&row.description) },
        );
        assert(requirement_models(list@) =~= requirement_models(earlier).push(
            models[i as int].requirement,
        ));
        table.insert(row.task_id, list);
        assert forall|id: Uuid| #[trigger]
            grouped_requirements(table@, id) == requirements_for(models.take(i + 1), id) by {
            assert(grouped_requirements(before, id) == requirements_for(models.take(i as int), id));
        }
        i += 1;
    }
    assert(models.take(models.len() as int) =~= models);
    table
}

/// The dependencies that rows hold, by their tasks.
fn group_dependencies(rows: &Vec<DependencyRow>) -> (table: BTreeMap<Uuid, Vec<Uuid>>)
    ensures
        forall|id: Uuid| #[trigger]
            grouped_dependencies(table@, id) == dependencies_for(rows@, id),
{
    let mut table: BTreeMap<Uuid, Vec<Uuid>> = BTreeMap::new();
    assert forall|id: Uuid| #[trigger]
        grouped_dependencies(table@, id) == dependencies_for(rows@.take(0), id) by {}
    let mut i: usize = 0;
    while i < rows.len()
        invariant
            i <= rows.len(),
            forall|id: Uuid| #[trigger]
                grouped_dependencies(table@, id) == dependencies_for(rows@.take(i as int), id),
        decreases rows.len() - i,
    {
        let ghost before = table@;
        let row = rows[i];
        assert(rows@.take(i + 1).drop_last() =~= rows@.take(i as int));
        assert(rows@.take(i + 1).last() == row);
        let mut list = match table.remove(&row.task_id) {
            Some(list) => list,
            None => Vec::new(),
        };
        assert(list@ =~= grouped_dependencies(before, row.task_id));
        list.push(row.depends_on);
        table.insert(row.task_id, list);
        assert forall|id: Uuid| #[trigger]
            grouped_dependencies(table@, id) == dependencies_for(rows@.take(i + 1), id) by {
            assert(grouped_dependencies(before, id) == dependencies_for(rows@.take(i as int), id));
        }
        i += 1;
    }
    assert(rows@.take(rows@.len() as int) =~= rows@);
    table
}

/// The tasks that rows hold.
fn assemble(rows: &Rows) -> (records: Vec<Record>)
    ensures
        record_list(records@) == assembled(rows@),
        forall|k: int|
            0 <= k < rows@.tasks.len() ==> columns_read_back((#[trigger] rows@.tasks[k]).columns),
{
    let ghost models = rows@;
    let requirements = group_requirements(&rows.requirements);
    let dependencies = group_dependencies(&rows.dependencies);
    let mut records: Vec<Record> = Vec::new();
    let mut i: usize = 0;
    while i < rows.tasks.len()
        invariant
            models == rows@,
            i <= rows.tasks.len(),
            records@.len() == i,
            forall|id: Uuid| #[trigger]
                grouped_requirements(requirements@, id) == requirements_for(
                    models.requirements,
                    id,
                ),
            forall|id: Uuid| #[trigger]
                grouped_dependencies(dependencies@, id) == dependencies_for(
                    models.dependencies,
                    id,
                ),
            forall|k: int| 0 <= k < i ==> (#[trigger] records@[k])@ == assembled(models)[k],
            forall|k: int|
                0 <= k < i ==> columns_read_back((#[trigger] models.tasks[k]).columns),
        decreases rows.tasks.len() - i,
    {
        let id: Uuid = rows.tasks[i].id;
        assert(models.tasks[i as int] == rows.tasks@[i as int]@);
        let (mut record, _) = read_columns(id, &rows.tasks[i].columns);
        assert(grouped_requirements(requirements@, id) == requirements_for(
            models.requirements,
            id,
        ));
        assert(grouped_dependencies(dependencies@, id) == dependencies_for(
            models.dependencies,
            id,
        ));
        let list = match requirements.get(&id) {
            Some(list) => copy_requirements(list),
            None => Vec::new(),
        };
        assert(requirement_models(list@) =~= grouped_requirements(requirements@, id));
        let edges = match dependencies.get(&id) {
            Some(edges) => copy_ids(edges),
            None => Vec::new(),
        };
        assert(edges@ =~= grouped_dependencies(dependencies@, id));
        record.task.requires = list;
        record.task.depends_on = edges;
        records.push(record);
        i += 1;
    }
    assert(record_list(records@) =~= assembled(models));
    records
}

/// The artifacts that rows hold.
fn collect_files(rows: &Rows) -> (files: Vec<Filed>)
    ensures
        file_list(files@) == read_files(rows@),
        forall|k: int|
            0 <= k < rows@.artifacts.len() ==> time_reads_back(
                (#[trigger] rows@.artifacts[k]).columns.created_at,
            ),
{
    let ghost models = rows@;
    let mut files: Vec<Filed> = Vec::new();
    let mut i: usize = 0;
    while i < rows.artifacts.len()
        invariant
            models == rows@,
            i <= rows.artifacts.len(),
            files@.len() == i,
            forall|k: int| 0 <= k < i ==> (#[trigger] files@[k])@ == read_files(models)[k],
            forall|k: int|
                0 <= k < i ==> time_reads_back((#[trigger] models.artifacts[k]).columns.created_at),
        decreases rows.artifacts.len() - i,
    {
        let row = &rows.artifacts[i];
        assert(models.artifacts[i as int] == row@);
        files.push(
            read_artifact_row(
                KeptArtifact {
                    id: row.id,
                    task_id: row.task_id,
                    columns: copy_artifact_columns(&row.columns),
                },
            ),
        );
        i += 1;
    }
    assert(file_list(files@) =~= read_files(models));
    files
}

proof fn lemma_requirements_for_add(
    a: Seq<RequirementRowModel>,
    b: Seq<RequirementRowModel>,
    id: Uuid,
)
    ensures
        requirements_for(a + b, id) == requirements_for(a, id) + requirements_for(b, id),
    decreases b.len(),
{
    if b.len() == 0 {
        assert(a + b =~= a);
        assert(requirements_for(a, id) + requirements_for(b, id) =~= requirements_for(a, id));
    } else {
        assert((a + b).drop_last() =~= a + b.drop_last());
        assert((a + b).last() == b.last());
        lemma_requirements_for_add(a, b.drop_last(), id);
        assert(requirements_for(a + b, id) =~= requirements_for(a, id) + requirements_for(b, id));
    }
}

proof fn lemma_dependencies_for_add(
    a: Seq<DependencyRow>,
    b: Seq<DependencyRow>,
    id: Uuid,
)
    ensures
        dependencies_for(a + b, id) == dependencies_for(a, id) + dependencies_for(b, id),
    decreases b.len(),
{
    if b.len() == 0 {
        assert(a + b =~= a);
        assert(dependencies_for(a, id) + dependencies_for(b, id) =~= dependencies_for(a, id));
    } else {
        assert((a + b).drop_last() =~= a + b.drop_last());
        assert((a + b).last() == b.last());
        lemma_dependencies_for_add(a, b.drop_last(), id);
        assert(dependencies_for(a + b, id) =~= dependencies_for(a, id) + dependencies_for(b, id));
    }
}

/// The first rows of one task read back as its first requirements, and hold
/// nothing for another.
proof fn lemma_rows_of_one_task(task: TaskModel, n: int, id: Uuid)
    requires
        0 <= n <= task.requires.len(),
    ensures
        requirements_for(requirement_rows_of(task).take(n), id) == (if task.id == id {
            task.requires.take(n)
        } else {
            Seq::empty()
        }),
    decreases n,
{
    let rows = requirement_rows_of(task);
    if n == 0 {
        assert(task.requires.take(0) =~= Seq::empty());
    } else {
        lemma_rows_of_one_task(task, n - 1, id);
        assert(rows.take(n).drop_last() =~= rows.take(n - 1));
        assert(rows.take(n).last() == rows[n - 1]);
        assert(task.requires.take(n) =~= task.requires.take(n - 1).push(task.requires[n - 1]));
    }
}

/// The first rows of one task read back as its first dependencies, and hold
/// nothing for another.
proof fn lemma_edges_of_one_task(task: TaskModel, n: int, id: Uuid)
    requires
        0 <= n <= task.depends_on.len(),
    ensures
        dependencies_for(dependency_rows_of(task).take(n), id) == (if task.id == id {
            task.depends_on.take(n)
        } else {
            Seq::empty()
        }),
    decreases n,
{
    let rows = dependency_rows_of(task);
    if n == 0 {
        assert(task.depends_on.take(0) =~= Seq::empty());
    } else {
        lemma_edges_of_one_task(task, n - 1, id);
        assert(rows.take(n).drop_last() =~= rows.take(n - 1));
        assert(rows.take(n).last() == rows[n - 1]);
        assert(task.depends_on.take(n) =~= task.depends_on.take(n - 1).push(
            task.depends_on[n - 1],
        ));
    }
}

/// The rows of all tasks read back as the requirements of each.
proof fn lemma_requirements_read_back(board: Board, ids: Seq<Uuid>, id: Uuid)
    requires
        ids.no_duplicates(),
        forall|k: int| 0 <= k < ids.len() ==> board.task(#[trigger] ids[k]).id == ids[k],
    ensures
        requirements_for(all_requirement_rows(board, ids), id) == (if ids.contains(id) {
            board.task(id).requires
        } else {
            Seq::empty()
        }),
    decreases ids.len(),
{
    if ids.len() > 0 {
        let rest = ids.drop_last();
        let front = all_requirement_rows(board, rest);
        let task = board.task(ids.last());
        let own = requirement_rows_of(task);
        let all = all_requirement_rows(board, ids);
        assert forall|k: int| 0 <= k < rest.len() implies board.task(#[trigger] rest[k]).id
            == rest[k] by {
            assert(ids[k] == rest[k]);
        }
        lemma_requirements_read_back(board, rest, id);
        lemma_rows_of_one_task(task, own.len() as int, id);
        assert(own.take(own.len() as int) =~= own);
        assert(task.requires.take(own.len() as int) =~= task.requires);
        lemma_requirements_for_add(front, own, id);
        assert(ids[ids.len() - 1] == ids.last());
        if rest.contains(id) {
            let k = choose|k: int| 0 <= k < rest.len() && rest[k] == id;
            assert(ids[k] == id);
        }
        if ids.contains(id) && id != ids.last() {
            let k = choose|k: int| 0 <= k < ids.len() && ids[k] == id;
            assert(rest[k] == id);
        }
        assert(requirements_for(all, id) =~= (if ids.contains(id) {
            board.task(id).requires
        } else {
            Seq::empty()
        }));
    }
}

/// The rows of all tasks read back as the dependencies of each.
proof fn lemma_dependencies_read_back(board: Board, ids: Seq<Uuid>, id: Uuid)
    requires
        ids.no_duplicates(),
        forall|k: int| 0 <= k < ids.len() ==> board.task(#[trigger] ids[k]).id == ids[k],
    ensures
        dependencies_for(all_dependency_rows(board, ids), id) == (if ids.contains(id) {
            board.task(id).depends_on
        } else {
            Seq::empty()
        }),
    decreases ids.len(),
{
    if ids.len() > 0 {
        let rest = ids.drop_last();
        let front = all_dependency_rows(board, rest);
        let task = board.task(ids.last());
        let own = dependency_rows_of(task);
        let all = all_dependency_rows(board, ids);
        assert forall|k: int| 0 <= k < rest.len() implies board.task(#[trigger] rest[k]).id
            == rest[k] by {
            assert(ids[k] == rest[k]);
        }
        lemma_dependencies_read_back(board, rest, id);
        lemma_edges_of_one_task(task, own.len() as int, id);
        assert(own.take(own.len() as int) =~= own);
        assert(task.depends_on.take(own.len() as int) =~= task.depends_on);
        lemma_dependencies_for_add(front, own, id);
        assert(ids[ids.len() - 1] == ids.last());
        if rest.contains(id) {
            let k = choose|k: int| 0 <= k < rest.len() && rest[k] == id;
            assert(ids[k] == id);
        }
        if ids.contains(id) && id != ids.last() {
            let k = choose|k: int| 0 <= k < ids.len() && ids[k] == id;
            assert(rest[k] == id);
        }
        assert(dependencies_for(all, id) =~= (if ids.contains(id) {
            board.task(id).depends_on
        } else {
            Seq::empty()
        }));
    }
}

/// Every row of dependencies of the given tasks belongs to one of them.
proof fn lemma_edges_start_at_tasks(board: Board, ids: Seq<Uuid>)
    requires
        forall|k: int| 0 <= k < ids.len() ==> board.task(#[trigger] ids[k]).id == ids[k],
    ensures
        forall|k: int|
            0 <= k < all_dependency_rows(board, ids).len() ==> ids.contains(
                (#[trigger] all_dependency_rows(board, ids)[k]).task_id,
            ),
    decreases ids.len(),
{
    if ids.len() > 0 {
        let rest = ids.drop_last();
        let front = all_dependency_rows(board, rest);
        let all = all_dependency_rows(board, ids);
        assert forall|k: int| 0 <= k < rest.len() implies board.task(#[trigger] rest[k]).id
            == rest[k] by {
            assert(ids[k] == rest[k]);
        }
        lemma_edges_start_at_tasks(board, rest);
        assert forall|k: int| 0 <= k < all.len() implies ids.contains(
            (#[trigger] all[k]).task_id,
        ) by {
            if k < front.len() {
                assert(all[k] == front[k]);
                let m = choose|m: int| 0 <= m < rest.len() && rest[m] == front[k].task_id;
                assert(ids[m] == all[k].task_id);
            } else {
                assert(all[k] == dependency_rows_of(board.task(ids.last()))[k - front.len()]);
                assert(ids[ids.len() - 1] == all[k].task_id);
            }
        }
    }
}

/// Whether the texts in rows that stand for times read back as these.
spec fn all_read_back(rows: RowsModel) -> bool {
    &&& forall|k: int|
        0 <= k < rows.tasks.len() ==> columns_read_back((#[trigger] rows.tasks[k]).columns)
    &&& forall|k: int|
        0 <= k < rows.artifacts.len() ==> time_reads_back(
            (#[trigger] rows.artifacts[k]).columns.created_at,
        )
}

/// The rows that a board is kept as read back as that board.
proof fn lemma_kept_reads_back(board: Board)
    requires
        board.valid(),
        is_durable_board(board),
        all_read_back(kept(board)),
    ensures
        meets_schema(kept(board)),
        restored(kept(board)) == board,
{
    let rows = kept(board);
    lemma_kept_ids(board);
    let ids = ascending(board.tasks.dom());
    let files = ascending(board.artifacts.dom());
    ascending_holds_all(board.tasks.dom());
    ascending_holds_all(board.artifacts.dom());
    let records = assembled(rows);
    let artifacts = read_files(rows);
    let read = loaded(records, artifacts);
    assert forall|k: int| 0 <= k < ids.len() implies board.has(#[trigger] ids[k]) && board.task(
        ids[k],
    ).id == ids[k] by {
        assert(ids.to_set().contains(ids[k]));
        assert(board.has(ids[k]));
    }
    assert forall|k: int| 0 <= k < ids.len() implies (#[trigger] records[k]) == board.tasks[ids[k]] by {
        let id = ids[k];
        assert(board.has(id));
        assert(rows.tasks[k] == (KeptTaskModel { id, columns: record_columns(board.tasks[id]) }));
        assert(columns_read_back(rows.tasks[k].columns));
        the_columns_of_a_task_read_back(board.tasks[id]);
        lemma_requirements_read_back(board, ids, id);
        lemma_dependencies_read_back(board, ids, id);
        assert(ids.contains(id));
    }
    assert forall|k: int| 0 <= k < files.len() implies (#[trigger] artifacts[k])
        == board.artifacts[files[k]] && artifacts[k].artifact.id == files[k] by {
        let id = files[k];
        assert(files.to_set().contains(id));
        assert(board.artifacts.contains_key(id));
        assert(rows.artifacts[k] == kept_artifact(board.artifacts[id]));
        assert(time_reads_back(rows.artifacts[k].columns.created_at));
        the_columns_of_an_artifact_read_back(board.artifacts[id]);
    }
    assert forall|i: int, j: int| 0 <= i < j < records.len() implies records[i].task.id
        != records[j].task.id by {
        assert(ids[i] < ids[j]);
        assert(board.task(ids[i]).id == ids[i] && board.task(ids[j]).id == ids[j]);
    }
    assert forall|i: int, j: int| 0 <= i < j < artifacts.len() implies artifacts[i].artifact.id
        != artifacts[j].artifact.id by {
        assert(files[i] < files[j]);
    }
    lemma_loaded(records, artifacts);
    assert forall|id: Uuid| #[trigger]
        read.tasks.dom().contains(id) <==> board.tasks.dom().contains(id) by {
        if board.has(id) {
            assert(ids.to_set().contains(id));
            let k = choose|k: int| 0 <= k < ids.len() && ids[k] == id;
            assert(records[k].task.id == id);
            assert(has_record(records, id));
        }
        if read.has(id) {
            let k = choose|k: int| 0 <= k < records.len() && (#[trigger] records[k]).task.id == id;
            assert(board.has(ids[k]));
        }
    }
    assert forall|id: Uuid| board.has(id) implies #[trigger] read.tasks[id] == board.tasks[id] by {
        assert(ids.to_set().contains(id));
        let k = choose|k: int| 0 <= k < ids.len() && ids[k] == id;
        assert(records[k].task.id == id);
        assert(read.tasks[records[k].task.id] == records[k]);
    }
    assert forall|id: Uuid| #[trigger]
        read.artifacts.contains_key(id) <==> board.artifacts.contains_key(id) by {
        if board.artifacts.contains_key(id) {
            assert(files.to_set().contains(id));
            let k = choose|k: int| 0 <= k < files.len() && files[k] == id;
            assert(artifacts[k].artifact.id == id);
            assert(has_artifact(artifacts, id));
        }
        if read.artifacts.contains_key(id) {
            let k = choose|k: int| 0 <= k < artifacts.len() && (#[trigger] artifacts[k]).artifact.id == id;
            assert(files.to_set().contains(files[k]));
        }
    }
    assert forall|id: Uuid| #[trigger] board.artifacts.contains_key(id) implies read.artifacts[id]
        == board.artifacts[id] by {
        assert(files.to_set().contains(id));
        let k = choose|k: int| 0 <= k < files.len() && files[k] == id;
        assert(artifacts[k].artifact.id == id);
        assert(read.artifacts[artifacts[k].artifact.id] == artifacts[k]);
    }
    assert(read.tasks =~= board.tasks);
    assert(read.artifacts =~= board.artifacts);
    assert(read =~= board);
    lemma_edges_start_at_tasks(board, ids);
    assert forall|k: int| 0 <= k < rows.dependencies.len() implies has_record(
        records,
        (#[trigger] rows.dependencies[k]).task_id,
    ) by {
        assert(rows.dependencies[k] == all_dependency_rows(board, ids)[k]);
        let m = choose|m: int| 0 <= m < ids.len() && ids[m] == rows.dependencies[k].task_id;
        assert(records[m].task.id == rows.dependencies[k].task_id);
    }
}

/// Whatever the row of one task holds beside its identifier, the rows meet the schema,
/// and every other task and every artifact is on the board and is read as before.
pub proof fn a_row_hides_only_its_own_task(rows: RowsModel, i: int, columns: TaskColumnsModel)
    requires
        meets_schema(rows),
        0 <= i < rows.tasks.len(),
    ensures
        ({
            let row = KeptTaskModel { id: rows.tasks[i].id, columns };
            let changed = RowsModel { tasks: rows.tasks.update(i, row), ..rows };
            let before = restored(rows);
            let after = restored(changed);
            &&& meets_schema(changed)
            &&& after.tasks.dom() == before.tasks.dom()
            &&& forall|id: Uuid|
                before.has(id) && id != row.id ==> (#[trigger] after.tasks[id]) == before.tasks[id]
            &&& after.artifacts == before.artifacts
        }),
{
    let row = KeptTaskModel { id: rows.tasks[i].id, columns };
    let changed = RowsModel { tasks: rows.tasks.update(i, row), ..rows };
    let records = assembled(rows);
    let others = assembled(changed);
    let before = restored(rows);
    let after = restored(changed);
    assert forall|k: int| 0 <= k < records.len() implies (#[trigger] others[k]).task.id
        == records[k].task.id && others[k].task.requires == records[k].task.requires
        && others[k].task.depends_on == records[k].task.depends_on && (records[k].task.id != row.id
        ==> others[k] == records[k]) && (others[k].raw matches Some(c) ==> columns_error(c) is Some) by {
        assert(changed.tasks[k] == (if k == i {
            row
        } else {
            rows.tasks[k]
        }));
    }
    assert forall|id: Uuid| #[trigger] has_record(others, id) == has_record(records, id) by {
        if has_record(records, id) {
            let k = choose|k: int| 0 <= k < records.len() && (#[trigger] records[k]).task.id == id;
            assert(others[k].task.id == id);
        }
        if has_record(others, id) {
            let k = choose|k: int| 0 <= k < others.len() && (#[trigger] others[k]).task.id == id;
            assert(records[k].task.id == id);
        }
    }
    assert(after.tasks.dom() =~= before.tasks.dom());
    lemma_loaded(records, read_files(rows));
    assert forall|a: int, b: int| 0 <= a < b < others.len() implies others[a].task.id
        != others[b].task.id by {
        assert(records[a].task.id != records[b].task.id);
    }
    lemma_loaded(others, read_files(changed));
    assert forall|id: Uuid| #[trigger] after.has(id) implies after.valid_record(
        id,
        after.tasks[id],
    ) && (id != row.id ==> after.tasks[id] == before.tasks[id]) by {
        assert(has_record(records, id));
        let k = choose|k: int| 0 <= k < records.len() && (#[trigger] records[k]).task.id == id;
        assert(others[k].task.id == id);
        assert(after.tasks[id] == others[k]);
        assert(before.tasks[id] == records[k]);
        assert(before.has(id));
        assert(before.valid_record(id, before.tasks[id]));
        assert forall|d: Uuid| #[trigger]
            after.tasks[id].task.depends_on.contains(d) implies after.has(d) by {
            assert(before.has(d));
        }
    }
    assert forall|id: Uuid| #[trigger] after.artifacts.contains_key(id) implies after.file(id).id
        == id && after.has(after.file(id).task_id) by {
        assert(before.artifacts.contains_key(id));
        assert(before.has(before.file(id).task_id));
    }
    assert(after.valid());
    assert forall|id: Uuid| before.has(id) && id != row.id implies (#[trigger] after.tasks[id])
        == before.tasks[id] by {
        assert(after.has(id));
    }
}

impl Rows {
    /// Whether the rows meet the schema of the database.
    pub fn meets_schema(&self) -> (met: bool)
        ensures
            met == meets_schema(self@),
    {
        let store = match Store::load(assemble(self), collect_files(self)) {
            Some(store) => store,
            None => {
                return false;
            },
        };
        let mut i: usize = 0;
        while i < self.dependencies.len()
            invariant
                loadable(assembled(self@), read_files(self@)),
                store@ == restored(self@),
                i <= self.dependencies.len(),
                forall|k: int|
                    0 <= k < i ==> has_record(
                        assembled(self@),
                        (#[trigger] self@.dependencies[k]).task_id,
                    ),
            decreases self.dependencies.len() - i,
        {
            let id: Uuid = self.dependencies[i].task_id;
            assert(self@.dependencies[i as int].task_id == id);
            assert(store@.has(id) == has_record(assembled(self@), id));
            if store.record(id).is_none() {
                return false;
            }
            i += 1;
        }
        true
    }
}

impl Store {
    /// The board that rows are read back as. A task or an artifact that cannot be read
    /// keeps its place, and nothing else is refused for it. The rows that a board was
    /// kept as are read back as that board, where its JSON values read back as
    /// themselves.
    pub fn restore(rows: Rows) -> (store: Store)
        requires
            meets_schema(rows@),
        ensures
            store.wf(),
            store@ == restored(rows@),
            forall|board: Board|
                rows@ == #[trigger] kept(board) && board.valid() && is_durable_board(board)
                    ==> store@ == board,
    {
        let records = assemble(&rows);
        let files = collect_files(&rows);
        proof {
            assert(all_read_back(rows@));
            assert forall|board: Board|
                rows@ == #[trigger] kept(board) && board.valid() && is_durable_board(
                    board,
                ) implies restored(rows@) == board by {
                lemma_kept_reads_back(board);
            }
        }
        Store::load(records, files).unwrap()
    }
}

/// The rows of tasks and artifacts stand for what the board holds.
proof fn lemma_kept_ids(board: Board)
    requires
        board.valid(),
    ensures
        forall|k: int|
            0 <= k < ascending(board.tasks.dom()).len() ==> board.has(
                #[trigger] ascending(board.tasks.dom())[k],
            ),
        forall|k: int|
            0 <= k < ascending(board.artifacts.dom()).len() ==> board.artifacts.contains_key(
                #[trigger] ascending(board.artifacts.dom())[k],
            ),
{
    ascending_holds_all(board.tasks.dom());
    ascending_holds_all(board.artifacts.dom());
    let ids = ascending(board.tasks.dom());
    let files = ascending(board.artifacts.dom());
    assert forall|k: int| 0 <= k < ids.len() implies board.has(#[trigger] ids[k]) by {
        assert(ids.to_set().contains(ids[k]));
    }
    assert forall|k: int| 0 <= k < files.len() implies board.artifacts.contains_key(
        #[trigger] files[k],
    ) by {
        assert(files.to_set().contains(files[k]));
    }
}

} // verus!
