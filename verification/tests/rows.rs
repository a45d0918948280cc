use orcis::ids::Uuid;
use orcis::model::{Artifact, CreateTask, Patch, PatchTask, Requirement, RequirementInput, Status};
use orcis::rows::{
    decode_artifact, decode_json, decode_task, encode_artifact, encode_json, encode_task,
    internal_error, parse_count, parse_status, parse_timestamp, parse_uuid, ArtifactColumns,
    ArtifactRow, DependencyRow, KeptArtifact, KeptTask, RequirementRow, TaskColumns, TaskRow,
};
use orcis::schema::pending_versions;
use orcis::store::saving::Changes;
use orcis::store::{Rows, Store, StoreError};
use orcis::time::Timestamp;
use serde_json::Value;

const A: Uuid = 0x2f61db3a_a690_464a_905f_8ae81a708c15;
const B: Uuid = 0x93f6654d_db35_49ba_8030_caa595d70370;

fn metadata() -> Value {
    let mut object = serde_json::Map::new();
    object.insert("owner".to_owned(), Value::from("platform"));
    object.insert("phase".to_owned(), Value::from(1));
    Value::Object(object)
}

fn request(title: &str) -> CreateTask {
    CreateTask {
        title: title.to_owned(),
        description: "what to do".to_owned(),
        priority: 9,
        requires: vec![
            RequirementInput::Full(Requirement {
                name: "rust".to_owned(),
                description: Some("systems".to_owned()),
            }),
            RequirementInput::Name("api".to_owned()),
        ],
        depends_on: Vec::new(),
        metadata: metadata(),
    }
}

fn plain(title: &str) -> CreateTask {
    CreateTask {
        title: title.to_owned(),
        description: String::new(),
        priority: 0,
        requires: Vec::new(),
        depends_on: Vec::new(),
        metadata: Value::Object(serde_json::Map::new()),
    }
}

fn board() -> Store {
    let mut store = Store::in_memory();
    let time = Timestamp::parse("2026-09-11T08:03:30.123456789Z").unwrap();
    store.create_at(A, request("A"), time).unwrap();
    let mut b = request("B");
    b.depends_on = vec![A];
    store.create_at(B, b, time).unwrap();
    store.claim_at(A, "agent".to_owned(), time).unwrap();
    store
        .add_artifact(
            "agent",
            Artifact {
                id: 7,
                task_id: A,
                filename: " notes.txt ".to_owned(),
                content_type: "text/plain".to_owned(),
                size_bytes: 12,
                created_at: time,
            },
        )
        .unwrap();
    store.complete(A, "agent", Some(Value::from(42))).unwrap();
    store
}

#[test]
fn kept_rows_restore_the_board() {
    let store = board();
    let rows = store.rows().unwrap();
    assert!(rows.meets_schema());
    let reopened = Store::restore(rows.clone());
    assert_eq!(reopened.list().unwrap(), store.list().unwrap());
    assert_eq!(
        reopened.record(A).unwrap().closed_at,
        store.record(A).unwrap().closed_at
    );
    assert_eq!(reopened.artifacts(A).unwrap(), store.artifacts(A).unwrap());
    assert_eq!(reopened.rows().unwrap(), rows);
    let b = reopened.get(B).unwrap();
    assert_eq!(b.task.depends_on, vec![A]);
    assert!(b.ready);
}

#[test]
fn rows_hold_the_text_of_values() {
    let rows = board().rows().unwrap();
    assert_eq!(rows.tasks.len(), 2);
    let row = &rows.tasks[1];
    assert_eq!(row.id, B);
    assert_eq!(row.columns.status, "todo");
    assert_eq!(row.columns.metadata, "{\"owner\":\"platform\",\"phase\":1}");
    assert_eq!(row.columns.created_at, "2026-09-11T08:03:30.123456789Z");
    assert_eq!(row.columns.version, 1);
    assert_eq!(row.columns.closed_at, None);
    assert_eq!(rows.tasks[0].columns.status, "done");
    assert_eq!(rows.tasks[0].columns.result.as_deref(), Some("42"));
    assert_eq!(rows.tasks[0].columns.version, 3);
    assert_eq!(
        rows.dependencies,
        vec![DependencyRow {
            task_id: B,
            depends_on: A,
        }]
    );
    assert_eq!(rows.requirements.len(), 4);
    assert_eq!(rows.requirements[1].name, "api");
    assert_eq!(rows.artifacts[0].columns.filename, "notes.txt");
}

#[test]
fn whole_seconds_are_written_with_nine_digits() {
    let time = Timestamp::from_second(1_700_000_000).unwrap();
    assert_eq!(time.to_text(), "2023-11-14T22:13:20.000000000Z");
    assert_eq!(Timestamp::parse(&time.to_text()).unwrap(), time);
}

fn task_columns() -> TaskColumns {
    TaskColumns {
        title: "migrated".to_owned(),
        description: String::new(),
        status: "todo".to_owned(),
        priority: 0,
        metadata: "{}".to_owned(),
        claimed_by: None,
        result: None,
        created_at: "2026-09-13T12:00:00.000000000Z".to_owned(),
        updated_at: "2026-09-13T12:00:00.000000000Z".to_owned(),
        version: 1,
        closed_at: None,
    }
}

fn task_row() -> TaskRow {
    TaskRow {
        id: "93f6654d-db35-49ba-8030-caa595d70370".to_owned(),
        columns: task_columns(),
    }
}

fn kept_task() -> KeptTask {
    KeptTask {
        id: B,
        columns: task_columns(),
    }
}

fn rows_of(tasks: Vec<KeptTask>) -> Rows {
    Rows {
        tasks,
        requirements: Vec::new(),
        dependencies: Vec::new(),
        artifacts: Vec::new(),
    }
}

fn restore(rows: Rows) -> Store {
    assert!(rows.meets_schema());
    Store::restore(rows)
}

fn message(row: TaskRow) -> String {
    let error = decode_task(row).unwrap_err();
    match internal_error(&error) {
        StoreError::Internal(message) => message,
        other => panic!("{other:?}"),
    }
}

#[test]
fn rows_that_cannot_be_read_name_their_column() {
    assert_eq!(decode_task(task_row()).unwrap().task.id, B);
    let mut row = task_row();
    row.columns.status = "lost".to_owned();
    assert_eq!(
        message(row),
        "Conversion error from type Text at index: 3, invalid task status: lost"
    );
    let mut row = task_row();
    row.columns.version = -1;
    assert_eq!(
        message(row),
        "Conversion error from type Integer at index: 10, out of range integral type conversion \
         attempted"
    );
    let mut row = task_row();
    row.id = "x".to_owned();
    row.columns.status = "lost".to_owned();
    assert!(message(row).starts_with("Conversion error from type Text at index: 0, "));
    let mut row = task_row();
    row.columns.metadata = "{".to_owned();
    assert!(message(row).starts_with("Conversion error from type Text at index: 5, EOF"));
    let mut row = task_row();
    row.columns.result = Some("nothing".to_owned());
    assert!(message(row).starts_with("Conversion error from type Text at index: 7, "));
    let mut row = task_row();
    row.columns.created_at = "yesterday".to_owned();
    assert!(message(row).starts_with("Conversion error from type Text at index: 8, "));
    let mut row = task_row();
    row.columns.updated_at = "today".to_owned();
    assert!(message(row).starts_with("Conversion error from type Text at index: 9, "));
    let mut row = task_row();
    row.columns.closed_at = Some("tomorrow".to_owned());
    let record = decode_task(row).unwrap();
    assert_eq!(record.closed_at.as_deref(), Some("tomorrow"));
    assert_eq!(
        encode_task(&record).unwrap().columns.closed_at.as_deref(),
        Some("tomorrow")
    );
}

const LOST: &str = "Conversion error from type Text at index: 3, invalid task status: lost";

fn internal<T: std::fmt::Debug>(result: Result<T, StoreError>) -> String {
    match result {
        Err(StoreError::Internal(message)) => message,
        other => panic!("{other:?}"),
    }
}

#[test]
fn an_unreadable_task_hides_nothing_else() {
    let mut rows = board().rows().unwrap();
    rows.tasks[1].columns.status = "lost".to_owned();
    let mut store = restore(rows.clone());
    assert_eq!(store.record(B).unwrap().flaw().as_deref(), Some(LOST));
    assert_eq!(store.record(A).unwrap().flaw(), None);
    assert_eq!(store.rows().unwrap(), rows);

    assert_eq!(store.get(A).unwrap().dependents, vec![B]);
    assert_eq!(store.artifacts(A).unwrap().len(), 1);
    assert!(store.labels().unwrap().is_empty());
    let created = store.create(request("C")).unwrap().task.id;
    assert_eq!(
        store
            .claim_next("agent".to_owned(), &["rust".to_owned(), "api".to_owned()])
            .unwrap()
            .unwrap()
            .task
            .id,
        created
    );
    store.release(created, "agent").unwrap();
    store.cancel(created).unwrap();

    assert_eq!(internal(store.get(B)), LOST);
    assert_eq!(internal(store.list()), LOST);
    assert_eq!(internal(store.claim(B, "agent".to_owned())), LOST);
    assert_eq!(internal(store.release(B, "agent")), LOST);
    assert_eq!(internal(store.complete(B, "agent", None)), LOST);
    assert_eq!(internal(store.fail(B, "agent", None)), LOST);
    assert_eq!(internal(store.cancel(B)), LOST);
    assert_eq!(internal(store.retry(B)), LOST);
    assert_eq!(internal(store.patch(B, PatchTask::default())), LOST);
    assert_eq!(internal(store.delete(B)), LOST);
    assert_eq!(internal(store.artifacts(B)), LOST);
    assert_eq!(
        internal(store.validate_artifact_upload(B, "agent", "a", "text/plain")),
        LOST
    );

    assert_eq!(
        store.delete(A),
        Err(StoreError::Conflict(
            "task has dependents: 93f6654d-db35-49ba-8030-caa595d70370".to_owned()
        ))
    );
    let mut dependent = request("D");
    dependent.depends_on = vec![B];
    assert_eq!(store.create(dependent).unwrap().blocked_by, vec![B]);
}

#[test]
fn an_unreadable_value_leaves_the_other_columns_of_its_task() {
    let mut rows = board().rows().unwrap();
    rows.tasks[1].columns.metadata = "{".to_owned();
    let mut store = restore(rows.clone());
    assert_eq!(store.record(B).unwrap().task.metadata, Value::Null);
    let labels = store.labels().unwrap();
    assert_eq!(labels.len(), 2);
    assert_eq!((labels[0].open_tasks, labels[0].ready_tasks), (1, 1));
    let before = store.clone();
    let label = store
        .set_label_description("api", Some("routes".to_owned()))
        .unwrap();
    assert_eq!(label.description.as_deref(), Some("routes"));
    assert_eq!(store.record(B).unwrap().task.version, 2);
    let changed = store.changes_since(&before).tasks;
    assert_eq!(changed.len(), 1);
    let written = encode_task(&changed[0]).unwrap().columns;
    assert_eq!(written.metadata, "{");
    assert_eq!(written.version, 2);
    assert_ne!(written.updated_at, rows.tasks[1].columns.updated_at);
    let message = internal(store.claim_next(
        "agent".to_owned(),
        &["rust".to_owned(), "api".to_owned()],
    ));
    assert!(message.starts_with("Conversion error from type Text at index: 5, EOF"));
    assert_eq!(internal(store.get(B)), message);
}

#[test]
fn a_change_can_make_a_task_readable() {
    let mut rows = board().rows().unwrap();
    rows.tasks[1].columns.updated_at = "yesterday".to_owned();
    rows.tasks[1].columns.version = -1;
    let mut store = restore(rows);
    assert!(internal(store.get(B)).starts_with("Conversion error from type Text at index: 9, "));
    let before = store.clone();
    store
        .set_label_description("api", Some("routes".to_owned()))
        .unwrap();
    assert_eq!(store.get(B).unwrap().task.version, 0);
    assert_eq!(store.changes_since(&before).tasks.len(), 1);

    let mut rows = board().rows().unwrap();
    rows.tasks[1].columns.version = -3;
    let mut store = restore(rows);
    let before = store.clone();
    store
        .set_label_description("api", Some("routes".to_owned()))
        .unwrap();
    assert!(internal(store.get(B)).starts_with("Conversion error from type Integer at index: 10, "));
    let changed = store.changes_since(&before).tasks;
    assert_eq!(encode_task(&changed[0]).unwrap().columns.version, -2);
}

#[test]
fn an_unreadable_time_comes_first_or_last() {
    let mut rows = board().rows().unwrap();
    rows.tasks[1].columns.created_at = "yesterday".to_owned();
    let mut store = restore(rows.clone());
    let capabilities = ["rust".to_owned(), "api".to_owned()];
    let later = store.create(request("C")).unwrap().task.id;
    let claimed = store.claim_next("agent".to_owned(), &capabilities).unwrap();
    assert_eq!(claimed.unwrap().task.id, later);

    rows.tasks[1].columns.created_at = String::new();
    let mut store = restore(rows);
    store.create(request("C")).unwrap();
    assert!(internal(store.claim_next("agent".to_owned(), &capabilities))
        .starts_with("Conversion error from type Text at index: 8, "));
}

#[test]
fn where_an_age_is_not_known_the_texts_are_compared() {
    let mut rows = rows_of(vec![kept_task(), kept_task()]);
    rows.tasks[0].id = A;
    rows.tasks[0].columns.created_at = "2026-09-13T12:00:00.5Z".to_owned();
    rows.tasks[1].columns.created_at = "2026-09-13T12:00:00Z".to_owned();
    let claimed = |rows: Rows| restore(rows).claim_next("agent".to_owned(), &[]);
    assert_eq!(claimed(rows.clone()).unwrap().unwrap().task.id, B);

    let mut third = kept_task();
    third.id = 9;
    third.columns.created_at = "2026-09-13T25".to_owned();
    rows.tasks.push(third);
    assert_eq!(claimed(rows.clone()).unwrap().unwrap().task.id, A);
    rows.tasks[2].columns.created_at = "2026-09-13".to_owned();
    assert!(internal(claimed(rows)).starts_with("Conversion error from type Text at index: 8, "));
}

#[test]
fn the_list_tells_of_the_first_unreadable_task() {
    let mut rows = board().rows().unwrap();
    rows.tasks[0].columns.status = "lost".to_owned();
    rows.tasks[1].columns.status = "found".to_owned();
    let found = "Conversion error from type Text at index: 3, invalid task status: found";
    assert_eq!(internal(restore(rows.clone()).list()), LOST);
    rows.tasks[0].columns.created_at = "2026-09-11T08:03:30Z".to_owned();
    assert_eq!(internal(restore(rows.clone()).list()), found);
    rows.tasks[0].columns.created_at = "2026-09".to_owned();
    assert_eq!(internal(restore(rows.clone()).list()), LOST);
    rows.tasks[1].columns.priority = 10;
    assert_eq!(internal(restore(rows).list()), found);
}

#[test]
fn an_unreadable_artifact_hides_nothing_but_artifacts() {
    let mut rows = board().rows().unwrap();
    rows.artifacts[0].columns.size_bytes = -1;
    let mut store = restore(rows.clone());
    let message = "Conversion error from type Integer at index: 4, out of range integral type \
                   conversion attempted";
    assert_eq!(internal(store.artifact(A, 7)), message);
    assert_eq!(internal(store.artifacts(A)), message);
    assert_eq!(internal(store.delete_artifact(A, 7)), message);
    assert_eq!(store.artifact(B, 7), Err(StoreError::NotFound));
    assert!(store.artifacts(B).unwrap().is_empty());
    assert!(store.artifact_ids().unwrap().contains(&7));
    assert_eq!(store.list().unwrap().len(), 2);
    assert_eq!(store.rows().unwrap(), rows);
    let early = Timestamp::from_second(0).unwrap();
    assert!(store.take_expired_artifacts(early).unwrap().is_empty());
    let late = Timestamp::parse("9999-01-01T00:00:00Z").unwrap();
    assert_eq!(internal(store.take_expired_artifacts(late)), message);

    let mut second = rows.artifacts[0].clone();
    second.id = 6;
    second.columns.size_bytes = 1;
    second.columns.created_at = "2026-09-12".to_owned();
    rows.artifacts.insert(0, second);
    assert_eq!(internal(restore(rows.clone()).artifacts(A)), message);
    rows.artifacts[0].columns.created_at = "2026".to_owned();
    assert!(internal(restore(rows).artifacts(A))
        .starts_with("Conversion error from type Text at index: 5, "));
}

#[test]
fn artifacts_are_ordered_by_the_text_of_their_times() {
    let mut rows = board().rows().unwrap();
    let mut second = rows.artifacts[0].clone();
    second.id = 8;
    second.columns.created_at = "2026-09-11T08:03:30Z".to_owned();
    rows.artifacts.push(second);
    let mut store = restore(rows.clone());
    let order: Vec<_> = store.artifacts(A).unwrap().iter().map(|a| a.id).collect();
    assert_eq!(order, vec![7, 8]);
    assert_eq!(store.rows().unwrap(), rows);
    assert_eq!(store.delete_artifact(A, 8).unwrap().id, 8);
    assert_eq!(store.artifacts(A).unwrap().len(), 1);

    let mut store = board();
    let years = |year: i64| Timestamp::from_second((year - 1970) * 31_556_952).unwrap();
    store.retry(A).unwrap_err();
    store.claim(B, "agent".to_owned()).unwrap();
    for (id, year) in [(1, 2000), (2, -1000), (3, -2000), (4, 9000), (5, 0)] {
        store
            .add_artifact(
                "agent",
                Artifact {
                    id,
                    task_id: B,
                    filename: "log".to_owned(),
                    content_type: "text/plain".to_owned(),
                    size_bytes: 1,
                    created_at: years(year),
                },
            )
            .unwrap();
    }
    let order: Vec<_> = store.artifacts(B).unwrap().iter().map(|a| a.id).collect();
    assert_eq!(order, vec![2, 3, 5, 1, 4]);
}

#[test]
fn the_explanation_is_chosen_by_the_text_of_the_last_change() {
    let mut rows = rows_of(vec![kept_task(), kept_task()]);
    rows.tasks[0].id = A;
    rows.tasks[0].columns.updated_at = "2026-09-13T12:00:00Z".to_owned();
    rows.tasks[1].columns.updated_at = "2026-09-13T12:00:00.900000000Z".to_owned();
    for (task_id, text) in [(A, "older"), (B, "newer")] {
        rows.requirements.push(RequirementRow {
            task_id,
            name: "rust".to_owned(),
            description: Some(text.to_owned()),
        });
    }
    let described = |rows: Rows| restore(rows).labels().unwrap()[0].description.clone();
    assert_eq!(described(rows.clone()).as_deref(), Some("older"));
    rows.tasks[0].columns.updated_at = "2026-09-13T12:00:00.000000000Z".to_owned();
    assert_eq!(described(rows).as_deref(), Some("newer"));
}

#[test]
fn a_closing_time_is_compared_as_it_is_written() {
    let cutoff = Timestamp::parse("2026-09-11T08:03:30.123456789Z").unwrap();
    for (text, expires) in [
        ("tomorrow", false),
        ("2026-09-12", false),
        ("2026-09-11T08:03:30Z", false),
        ("2026-09-11", true),
        ("", true),
    ] {
        let mut rows = board().rows().unwrap();
        rows.tasks[0].columns.closed_at = Some(text.to_owned());
        let mut store = restore(rows.clone());
        assert_eq!(store.get(A).unwrap().task.status, Status::Done);
        assert_eq!(store.rows().unwrap(), rows);
        let expired = store.take_expired_artifacts(cutoff).unwrap();
        assert_eq!(expired.len(), usize::from(expires), "{text}");
    }
    let mut rows = board().rows().unwrap();
    rows.tasks[0].columns.closed_at = Some(String::new());
    rows.tasks[0].columns.status = "lost".to_owned();
    let mut store = restore(rows);
    assert!(store.take_expired_artifacts(cutoff).unwrap().is_empty());
}

#[test]
fn reopen_round_trip_preserves_tasks_and_dependencies() {
    let mut store = Store::in_memory();
    let a = store.create(plain("A")).unwrap().task.id;
    let mut b_request = plain("B");
    b_request.priority = 9;
    b_request.depends_on.push(a);
    let created_b = store.create(b_request).unwrap();
    let b = created_b.task.id;
    let claimed_a = store.claim(a, "agent".to_owned()).unwrap();
    let rows = store.rows().unwrap();
    drop(store);

    let reopened = restore(rows);
    assert_eq!(pending_versions(0, 3).last(), Some(&3));
    assert!(pending_versions(3, 3).is_empty());
    let tasks = reopened.list().unwrap();
    assert_eq!(tasks.len(), 2);
    let reopened_a = tasks.iter().find(|task| task.task.id == a).unwrap();
    assert_eq!(reopened_a.task, claimed_a.task);
    let reopened_b = tasks.iter().find(|task| task.task.id == b).unwrap();
    assert_eq!(reopened_b.task, created_b.task);
    assert_eq!(reopened_b.blocked_by, vec![a]);
    assert!(!reopened_b.ready);
}

#[test]
fn errors_convert_to_those_of_the_store() {
    assert_eq!(
        StoreError::from(rusqlite::Error::QueryReturnedNoRows),
        StoreError::Internal("Query returned no rows".to_owned())
    );
}

#[test]
fn columns_are_read_one_by_one() {
    assert_eq!(parse_uuid(0, "2F61DB3A-A690-464A-905F-8AE81A708C15").unwrap(), A);
    assert!(parse_uuid(0, "2f61db3a").is_err());
    assert_eq!(parse_status(3, "in_progress").unwrap(), Status::InProgress);
    assert_eq!(decode_json(5, " [1, 2] ").unwrap(), Value::from(vec![1, 2]));
    assert_eq!(
        parse_timestamp(8, "1970-01-01T00:00:01Z").unwrap().as_nanosecond(),
        1_000_000_000
    );
    assert_eq!(parse_count(10, i64::MAX).unwrap(), 9_223_372_036_854_775_807);
    assert_eq!(encode_json(&Value::Null).unwrap(), "null");
}

#[test]
fn artifact_rows_are_read_and_written() {
    let row = ArtifactRow {
        id: "00000000-0000-0000-0000-000000000007".to_owned(),
        task_id: "2f61db3a-a690-464a-905f-8ae81a708c15".to_owned(),
        columns: ArtifactColumns {
            filename: "notes.txt".to_owned(),
            content_type: "text/plain".to_owned(),
            size_bytes: 12,
            created_at: "2026-09-11T08:03:30.123456789Z".to_owned(),
        },
    };
    let artifact = decode_artifact(row.clone()).unwrap();
    assert_eq!(artifact.id, 7);
    assert_eq!(artifact.task_id, A);
    assert_eq!(encode_artifact(&artifact).unwrap(), row);
    let mut negative = row.clone();
    negative.columns.size_bytes = -1;
    assert!(decode_artifact(negative).is_err());
    let mut large = artifact;
    large.size_bytes = u64::MAX;
    assert_eq!(
        encode_artifact(&large),
        Err(StoreError::Internal(
            "artifact size exceeds SQLite integer range".to_owned()
        ))
    );
}

#[test]
fn rows_that_contradict_each_other_break_the_schema() {
    let single = rows_of(vec![kept_task()]);
    assert!(single.meets_schema());

    let mut twice = single.clone();
    twice.tasks.push(kept_task());
    assert!(!twice.meets_schema());

    let mut dangling = single.clone();
    dangling.dependencies.push(DependencyRow {
        task_id: B,
        depends_on: A,
    });
    assert!(!dangling.meets_schema());

    let mut loose = single.clone();
    loose.dependencies.push(DependencyRow {
        task_id: A,
        depends_on: B,
    });
    assert!(!loose.meets_schema());

    let mut repeated = single.clone();
    for _ in 0..2 {
        repeated.requirements.push(RequirementRow {
            task_id: B,
            name: "rust".to_owned(),
            description: None,
        });
    }
    assert!(!repeated.meets_schema());

    let mut orphaned = single;
    orphaned.artifacts.push(KeptArtifact {
        id: 7,
        task_id: A,
        columns: ArtifactColumns {
            filename: "notes.txt".to_owned(),
            content_type: "text/plain".to_owned(),
            size_bytes: 12,
            created_at: "2026-09-11T08:03:30Z".to_owned(),
        },
    });
    assert!(!orphaned.meets_schema());
}

#[test]
fn rows_of_requirements_without_a_task_are_passed_over() {
    let rows = Rows {
        tasks: vec![kept_task()],
        requirements: vec![
            RequirementRow {
                task_id: B,
                name: "rust".to_owned(),
                description: None,
            },
            RequirementRow {
                task_id: A,
                name: "lost".to_owned(),
                description: None,
            },
            RequirementRow {
                task_id: B,
                name: "api".to_owned(),
                description: Some("routes".to_owned()),
            },
        ],
        dependencies: Vec::new(),
        artifacts: Vec::new(),
    };
    let store = restore(rows);
    let names: Vec<_> = store
        .get(B)
        .unwrap()
        .task
        .requires
        .into_iter()
        .map(|requirement| requirement.name)
        .collect();
    assert_eq!(names, vec!["rust".to_owned(), "api".to_owned()]);
}

#[test]
fn the_last_version_cannot_be_counted_on() {
    let mut row = kept_task();
    row.columns.version = i64::MAX;
    let mut store = restore(Rows {
        tasks: vec![row],
        requirements: vec![RequirementRow {
            task_id: B,
            name: "rust".to_owned(),
            description: None,
        }],
        dependencies: Vec::new(),
        artifacts: Vec::new(),
    });
    let limit = StoreError::Internal("task version exceeds SQLite integer range".to_owned());
    assert_eq!(store.cancel(B), Err(limit.clone()));
    assert_eq!(store.patch(B, PatchTask::default()), Err(limit.clone()));
    assert_eq!(
        store.set_label_description("rust", Some("systems".to_owned())),
        Err(limit)
    );
    assert_eq!(store.get(B).unwrap().task.status, Status::Todo);
    let untouched = store.set_label_description("rust", None).unwrap();
    assert_eq!(untouched.open_tasks, 1);
    let record = store.record(B).unwrap().clone();
    assert_eq!(encode_task(&record).unwrap().columns.version, i64::MAX);
    let title = PatchTask {
        title: Patch::Present(" ".to_owned()),
        ..PatchTask::default()
    };
    assert_eq!(
        store.patch(B, title),
        Err(StoreError::Invalid("title must not be empty".to_owned()))
    );
}

#[test]
fn pending_versions_come_after_the_current_one() {
    assert_eq!(pending_versions(0, 3), vec![1, 2, 3]);
    assert_eq!(pending_versions(1, 3), vec![2, 3]);
    assert!(pending_versions(3, 3).is_empty());
    assert!(pending_versions(9, 3).is_empty());
    assert_eq!(pending_versions(-1, 2), vec![1, 2]);
}

#[test]
fn only_what_an_operation_changed_is_written() {
    let before = board();
    assert_eq!(
        before.clone().changes_since(&before),
        Changes {
            tasks: Vec::new(),
            removed_tasks: Vec::new(),
            artifacts: Vec::new(),
            removed_artifacts: Vec::new(),
        }
    );

    let mut after = before.clone();
    after.claim(B, "agent".to_owned()).unwrap();
    let changes = after.changes_since(&before);
    assert_eq!(changes.tasks, vec![after.record(B).unwrap().clone()]);
    assert!(changes.removed_tasks.is_empty());
    assert_eq!(before.get(B).unwrap().task.status, Status::Todo);

    let added = Artifact {
        id: 8,
        task_id: B,
        filename: "log".to_owned(),
        content_type: "text/plain".to_owned(),
        size_bytes: 1,
        created_at: Timestamp::now(),
    };
    let claimed = after.clone();
    after.add_artifact("agent", added.clone()).unwrap();
    let changes = after.changes_since(&claimed);
    assert!(changes.tasks.is_empty());
    assert_eq!(changes.artifacts, vec![added]);

    after.delete(B).unwrap();
    after.delete(A).unwrap();
    let changes = after.changes_since(&before);
    assert!(changes.tasks.is_empty());
    assert_eq!(changes.removed_tasks, vec![A, B]);
    assert!(changes.artifacts.is_empty());
    assert_eq!(changes.removed_artifacts, vec![7]);
}
