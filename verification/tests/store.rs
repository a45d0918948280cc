use orcis::ids::Uuid;
use orcis::model::{
    Artifact, CreateTask, Label, Patch, PatchTask, Requirement, RequirementInput, Status,
};
use orcis::rows::{DependencyRow, KeptTask, TaskColumns};
use orcis::store::{Rows, Store, StoreError};
use orcis::time::Timestamp;
use serde_json::Value;
use std::collections::HashSet;

fn empty_object() -> Value {
    Value::Object(serde_json::Map::new())
}

fn new_id() -> Uuid {
    uuid::Uuid::new_v4().as_u128()
}

fn id_text(id: Uuid) -> String {
    uuid::Uuid::from_u128(id).to_string()
}

fn second(second: i64) -> Timestamp {
    Timestamp::from_second(second).unwrap()
}

fn request(title: &str) -> CreateTask {
    CreateTask {
        title: title.to_owned(),
        description: String::new(),
        priority: 0,
        requires: Vec::new(),
        depends_on: Vec::new(),
        metadata: empty_object(),
    }
}

fn create(store: &mut Store, title: &str) -> Uuid {
    store.create(request(title)).unwrap().task.id
}

fn requirement(name: &str, description: Option<&str>) -> RequirementInput {
    RequirementInput::Full(Requirement {
        name: name.to_owned(),
        description: description.map(str::to_owned),
    })
}

#[test]
fn create_get_and_dependency_validation() {
    let mut store = Store::in_memory();
    let id = create(&mut store, "task");
    assert_eq!(store.get(id).unwrap().task.title, "task");

    let mut missing = request("missing");
    let missing_id = new_id();
    missing.depends_on.push(missing_id);
    assert!(matches!(
        store.create(missing),
        Err(StoreError::Invalid(message))
            if message == format!("dependency does not exist: {}", id_text(missing_id))
    ));

    let self_id = new_id();
    let mut self_dependency = request("self");
    self_dependency.depends_on.push(self_id);
    assert!(matches!(
        store.create_at(self_id, self_dependency, Timestamp::now()),
        Err(StoreError::Invalid(message)) if message.contains(&id_text(self_id))
    ));
}

#[test]
fn requirements_round_trip_and_deduplicate_descriptions() {
    let mut store = Store::in_memory();
    let mut task = request("requirements");
    task.requires = vec![
        RequirementInput::Name(" rust ".to_owned()),
        requirement("architecture", None),
        requirement("rust", Some("systems work")),
        requirement("architecture", Some("module boundaries")),
        requirement("rust", Some("ignored later description")),
    ];

    let created = store.create(task).unwrap();
    assert_eq!(
        created.task.requires,
        vec![
            Requirement {
                name: "rust".to_owned(),
                description: Some("systems work".to_owned()),
            },
            Requirement {
                name: "architecture".to_owned(),
                description: Some("module boundaries".to_owned()),
            },
        ]
    );
    assert_eq!(
        store.get(created.task.id).unwrap().task.requires,
        created.task.requires
    );
}

#[test]
fn labels_include_only_open_tasks_with_counts_and_latest_description() {
    let mut store = Store::in_memory();
    let blocker = create(&mut store, "blocker");

    let mut old = request("old description");
    old.requires = vec![
        requirement("shared", Some("old")),
        requirement("old-only", Some("open")),
    ];
    old.depends_on = vec![blocker];
    let old_id = store
        .create_at(new_id(), old, second(1_700_000_000))
        .unwrap()
        .task
        .id;

    let mut new = request("new description");
    new.requires = vec![requirement("shared", Some("new"))];
    store.create_at(new_id(), new, second(1_700_000_001)).unwrap();

    let mut done = request("done");
    done.requires = vec![
        requirement("shared", Some("closed")),
        requirement("closed-only", Some("gone")),
    ];
    let done_id = store.create(done).unwrap().task.id;
    store.claim(done_id, "agent".to_owned()).unwrap();
    store.complete(done_id, "agent", None).unwrap();

    let mut cancelled = request("cancelled");
    cancelled.requires = vec![requirement("cancelled-only", None)];
    let cancelled_id = store.create(cancelled).unwrap().task.id;
    store.cancel(cancelled_id).unwrap();

    let labels = store.labels().unwrap();
    assert_eq!(
        labels,
        vec![
            Label {
                name: "old-only".to_owned(),
                description: Some("open".to_owned()),
                open_tasks: 1,
                ready_tasks: 0,
            },
            Label {
                name: "shared".to_owned(),
                description: Some("new".to_owned()),
                open_tasks: 2,
                ready_tasks: 1,
            },
        ]
    );

    store
        .patch(
            old_id,
            PatchTask {
                requires: Patch::Present(vec![
                    requirement("shared", Some("patched")),
                    requirement("old-only", Some("open")),
                ]),
                ..PatchTask::default()
            },
        )
        .unwrap();
    let shared = store
        .labels()
        .unwrap()
        .into_iter()
        .find(|label| label.name == "shared")
        .unwrap();
    assert_eq!(shared.description.as_deref(), Some("patched"));
}

#[test]
fn setting_label_description_updates_open_tasks_only() {
    let mut store = Store::in_memory();
    let mut first = request("first");
    first.requires = vec![requirement("design", None)];
    let first = store.create(first).unwrap().task;
    let mut second = request("second");
    second.requires = vec![requirement("design", Some("before"))];
    let second = store.create(second).unwrap().task;
    let mut closed = request("closed");
    closed.requires = vec![requirement("design", Some("closed description"))];
    let closed = store.create(closed).unwrap().task;
    store.claim(closed.id, "agent".to_owned()).unwrap();
    let closed = store.complete(closed.id, "agent", None).unwrap().task;

    let label = store
        .set_label_description("design", Some("  shared meaning  ".to_owned()))
        .unwrap();
    assert_eq!(label.description.as_deref(), Some("shared meaning"));
    assert_eq!(label.open_tasks, 2);
    for task in [&first, &second] {
        let updated = store.get(task.id).unwrap().task;
        assert_eq!(updated.version, task.version + 1);
        assert_eq!(
            updated.requires[0].description.as_deref(),
            Some("shared meaning")
        );
    }
    store
        .set_label_description("design", Some("shared meaning".to_owned()))
        .unwrap();
    for task in [&first, &second] {
        let updated = store.get(task.id).unwrap().task;
        assert_eq!(updated.version, task.version + 1);
    }
    let closed_after = store.get(closed.id).unwrap().task;
    assert_eq!(closed_after.version, closed.version);
    assert_eq!(
        closed_after.requires[0].description.as_deref(),
        Some("closed description")
    );
    assert!(matches!(
        store.set_label_description("unknown", None),
        Err(StoreError::NotFound)
    ));
}

#[test]
fn claim_next_matches_requirement_names_only() {
    let mut store = Store::in_memory();
    let mut task = request("described");
    task.requires = vec![requirement("architecture", Some("module boundaries"))];
    let id = store.create(task).unwrap().task.id;
    let claimed = store
        .claim_next("agent".to_owned(), &["architecture".to_owned()])
        .unwrap()
        .unwrap();
    assert_eq!(claimed.task.id, id);
}

#[test]
fn detects_short_and_long_cycles() {
    let mut store = Store::in_memory();
    let b = create(&mut store, "B");
    let mut a_request = request("A");
    a_request.depends_on.push(b);
    let a = store.create(a_request).unwrap().task.id;
    let patch = PatchTask {
        depends_on: Patch::Present(vec![a]),
        ..PatchTask::default()
    };
    assert!(matches!(
        store.patch(b, patch),
        Err(StoreError::Conflict(message)) if message.contains("dependency cycle")
    ));

    let mut store = Store::in_memory();
    let c = create(&mut store, "C");
    let mut b_request = request("B");
    b_request.depends_on.push(c);
    let b = store.create(b_request).unwrap().task.id;
    let mut a_request = request("A");
    a_request.depends_on.push(b);
    let a = store.create(a_request).unwrap().task.id;
    let patch = PatchTask {
        depends_on: Patch::Present(vec![a]),
        ..PatchTask::default()
    };
    assert!(matches!(
        store.patch(c, patch),
        Err(StoreError::Conflict(message)) if message.contains("dependency cycle")
    ));
}

#[test]
fn dependency_completion_changes_readiness() {
    let mut store = Store::in_memory();
    let a = create(&mut store, "A");
    let mut b_request = request("B");
    b_request.depends_on.push(a);
    let b = store.create(b_request).unwrap().task.id;
    assert!(!store.get(b).unwrap().ready);
    assert_eq!(store.get(b).unwrap().blocked_by, vec![a]);

    store.claim(a, "agent".to_owned()).unwrap();
    let mut outcome = serde_json::Map::new();
    outcome.insert("ok".to_owned(), Value::Bool(true));
    store
        .complete(a, "agent", Some(Value::Object(outcome)))
        .unwrap();
    assert!(store.get(b).unwrap().ready);
}

#[test]
fn claim_selection_obeys_order_capabilities_and_readiness() {
    let mut store = Store::in_memory();
    let blocker = create(&mut store, "blocker");

    let mut blocked_request = request("blocked high");
    blocked_request.priority = 100;
    blocked_request.depends_on = vec![blocker];
    store.create(blocked_request).unwrap();

    let mut frontend = request("frontend");
    frontend.priority = 50;
    frontend.requires = vec![RequirementInput::Name("frontend".to_owned())];
    store.create(frontend).unwrap();

    let mut lower = request("lower");
    lower.priority = 2;
    let lower_id = store.create(lower).unwrap().task.id;

    let common_time = second(1_700_000_000);
    let mut oldest = request("oldest");
    oldest.priority = 3;
    let oldest_id = new_id();
    store.create_at(oldest_id, oldest, common_time).unwrap();
    let mut newest = request("newest");
    newest.priority = 3;
    let newest_id = new_id();
    store.create_at(newest_id, newest, common_time).unwrap();
    let expected_tie_winner = oldest_id.min(newest_id);

    let claimed = store.claim_next("none".to_owned(), &[]).unwrap().unwrap();
    assert_eq!(claimed.task.id, expected_tie_winner);

    let claimed = store
        .claim_next("frontend-agent".to_owned(), &["frontend".to_owned()])
        .unwrap()
        .unwrap();
    assert_eq!(claimed.task.title, "frontend");

    let claimed = store.claim_next("none-2".to_owned(), &[]).unwrap().unwrap();
    let other_tie = if expected_tie_winner == oldest_id {
        newest_id
    } else {
        oldest_id
    };
    assert_eq!(claimed.task.id, other_tie);
    assert_eq!(store.get(lower_id).unwrap().task.status, Status::Todo);
    assert_eq!(claimed.task.status, Status::InProgress);
}

#[test]
fn timestamp_text_order_matches_chronological_order() {
    let mut store = Store::in_memory();
    let whole_second = Timestamp::parse("2026-09-11T17:37:35Z").unwrap();
    let half_second = Timestamp::parse("2026-09-11T17:37:35.5Z").unwrap();
    let whole_second_id = new_id();
    let half_second_id = new_id();

    store
        .create_at(whole_second_id, request("whole second"), whole_second)
        .unwrap();
    store
        .create_at(half_second_id, request("half second"), half_second)
        .unwrap();

    let tasks = store.list().unwrap();
    assert_eq!(tasks[0].task.id, whole_second_id);
    assert_eq!(tasks[1].task.id, half_second_id);
    assert!(whole_second.to_text() < half_second.to_text());

    let claimed = store.claim_next("agent".to_owned(), &[]).unwrap().unwrap();
    assert_eq!(claimed.task.id, whole_second_id);
}

#[test]
fn every_allowed_transition_and_forbidden_transitions() {
    let mut store = Store::in_memory();
    let released = create(&mut store, "released");
    store.claim(released, "a".to_owned()).unwrap();
    let task = store.release(released, "a").unwrap();
    assert_eq!(task.task.status, Status::Todo);
    assert_eq!(task.task.claimed_by, None);

    let completed = create(&mut store, "completed");
    store.claim(completed, "a".to_owned()).unwrap();
    let task = store.complete(completed, "a", Some(Value::from(42))).unwrap();
    assert_eq!(task.task.status, Status::Done);
    assert_eq!(task.task.result, Some(Value::from(42)));

    let failed = create(&mut store, "failed");
    store.claim(failed, "a".to_owned()).unwrap();
    let task = store.fail(failed, "a", Some(Value::from("why"))).unwrap();
    assert_eq!(task.task.status, Status::Failed);
    let task = store.retry(failed).unwrap();
    assert_eq!(task.task.status, Status::Todo);
    assert_eq!(task.task.result, None);

    let cancelled_todo = create(&mut store, "cancel todo");
    assert_eq!(
        store.cancel(cancelled_todo).unwrap().task.status,
        Status::Cancelled
    );
    assert_eq!(
        store.retry(cancelled_todo).unwrap().task.status,
        Status::Todo
    );

    let cancelled_progress = create(&mut store, "cancel progress");
    store.claim(cancelled_progress, "a".to_owned()).unwrap();
    let task = store.cancel(cancelled_progress).unwrap();
    assert_eq!(task.task.status, Status::Cancelled);
    assert_eq!(task.task.claimed_by, None);

    let cancelled_failed = create(&mut store, "cancel failed");
    store.claim(cancelled_failed, "a".to_owned()).unwrap();
    store.fail(cancelled_failed, "a", None).unwrap();
    assert_eq!(
        store.cancel(cancelled_failed).unwrap().task.status,
        Status::Cancelled
    );

    let todo = create(&mut store, "forbidden todo");
    assert!(matches!(
        store.complete(todo, "a", None),
        Err(StoreError::Conflict(_))
    ));
    assert!(matches!(
        store.release(todo, "a"),
        Err(StoreError::Conflict(_))
    ));
    assert!(matches!(store.retry(todo), Err(StoreError::Conflict(_))));
    assert!(matches!(
        store.cancel(completed),
        Err(StoreError::Conflict(_))
    ));
}

#[test]
fn ownership_is_enforced() {
    let mut store = Store::in_memory();
    for action in ["release", "complete", "fail"] {
        let id = create(&mut store, action);
        store.claim(id, "owner".to_owned()).unwrap();
        let result = match action {
            "release" => store.release(id, "other"),
            "complete" => store.complete(id, "other", None),
            "fail" => store.fail(id, "other", None),
            _ => unreachable!(),
        };
        assert!(matches!(result, Err(StoreError::Conflict(_))));
    }
}

#[test]
fn delete_rejects_dependents_then_removes_unreferenced_task() {
    let mut store = Store::in_memory();
    let parent = create(&mut store, "parent");
    let mut child = request("child");
    child.depends_on.push(parent);
    let child = store.create(child).unwrap().task.id;
    assert!(matches!(
        store.delete(parent),
        Err(StoreError::Conflict(message)) if message.contains(&id_text(child))
    ));
    store.delete(child).unwrap();
    store.delete(parent).unwrap();
    assert!(matches!(store.get(parent), Err(StoreError::NotFound)));
}

#[test]
fn artifacts_require_ownership_and_expire_only_with_closed_tasks() {
    let mut store = Store::in_memory();
    let done = create(&mut store, "done");
    let failed = create(&mut store, "failed");
    let cancelled = create(&mut store, "cancelled");

    assert!(matches!(
        store.add_artifact(
            "agent",
            Artifact {
                id: new_id(),
                task_id: done,
                filename: "before.txt".to_owned(),
                content_type: "text/plain".to_owned(),
                size_bytes: 1,
                created_at: Timestamp::now(),
            },
        ),
        Err(StoreError::Conflict(_))
    ));

    let mut artifacts = Vec::new();
    for task_id in [done, failed, cancelled] {
        store.claim(task_id, "agent".to_owned()).unwrap();
        let artifact = store
            .add_artifact(
                "agent",
                Artifact {
                    id: new_id(),
                    task_id,
                    filename: format!("{task_id}.bin"),
                    content_type: "application/octet-stream".to_owned(),
                    size_bytes: 42,
                    created_at: Timestamp::now(),
                },
            )
            .unwrap();
        artifacts.push(artifact);
    }
    store.complete(done, "agent", None).unwrap();
    store.fail(failed, "agent", None).unwrap();
    store.cancel(cancelled).unwrap();

    let cutoff = Timestamp::from_second(Timestamp::now().as_second() + 1).unwrap();
    let expired = store.take_expired_artifacts(cutoff).unwrap();
    assert_eq!(
        expired
            .iter()
            .map(|artifact| artifact.task_id)
            .collect::<HashSet<_>>(),
        HashSet::from([done, cancelled])
    );
    assert!(store.artifacts(done).unwrap().is_empty());
    assert_eq!(store.artifacts(failed).unwrap(), vec![artifacts[1].clone()]);
    assert!(store.artifacts(cancelled).unwrap().is_empty());
}

#[test]
fn artifact_retention_uses_the_closure_time() {
    let mut store = Store::in_memory();
    let task_id = create(&mut store, "closed");
    store.claim(task_id, "agent".to_owned()).unwrap();
    let artifact = Artifact {
        id: new_id(),
        task_id,
        filename: "result.bin".to_owned(),
        content_type: "application/octet-stream".to_owned(),
        size_bytes: 1,
        created_at: Timestamp::now(),
    };
    store.add_artifact("agent", artifact.clone()).unwrap();
    store.complete(task_id, "agent", None).unwrap();
    let closed_at = store.record(task_id).unwrap().closed_at.clone().unwrap();

    store.patch(task_id, PatchTask::default()).unwrap();
    let closed_after_patch = store.record(task_id).unwrap().closed_at.clone().unwrap();
    assert_eq!(closed_after_patch, closed_at);
    assert_eq!(
        store.take_expired_artifacts(Timestamp::parse(&closed_at).unwrap()).unwrap(),
        vec![artifact]
    );
}

#[test]
fn deep_cycle_detection_handles_fifty_thousand_tasks() {
    let now = second(1_700_000_000);
    let ids: Vec<Uuid> = (1..=50_000).collect();
    let mut rows = Rows {
        tasks: Vec::new(),
        requirements: Vec::new(),
        dependencies: Vec::new(),
        artifacts: Vec::new(),
    };
    for (index, id) in ids.iter().enumerate() {
        rows.tasks.push(KeptTask {
            id: *id,
            columns: TaskColumns {
                title: format!("task {index}"),
                description: String::new(),
                status: "todo".to_owned(),
                priority: 0,
                metadata: "{}".to_owned(),
                claimed_by: None,
                result: None,
                created_at: now.to_text(),
                updated_at: now.to_text(),
                version: 1,
                closed_at: None,
            },
        });
        if index > 0 {
            rows.dependencies.push(DependencyRow {
                task_id: *id,
                depends_on: ids[index - 1],
            });
        }
    }
    assert!(rows.meets_schema());
    let mut store = Store::restore(rows);

    let patch = PatchTask {
        depends_on: Patch::Present(vec![*ids.last().unwrap()]),
        ..PatchTask::default()
    };
    assert!(matches!(
        store.patch(ids[0], patch),
        Err(StoreError::Conflict(message)) if message.contains("dependency cycle")
    ));
}
