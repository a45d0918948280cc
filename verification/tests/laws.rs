use orcis::ids::Uuid;
use orcis::model::{
    Artifact, CreateTask, Patch, PatchTask, Requirement, RequirementInput, Status,
};
use orcis::steps::OwnedAction;
use orcis::store::{Rows, Store, StoreError};
use orcis::time::Timestamp;
use serde_json::Value;

fn at(second: i64) -> Timestamp {
    Timestamp::from_second(1_700_000_000 + second).unwrap()
}

fn request(title: &str, depends_on: &[Uuid], names: &[&str]) -> CreateTask {
    CreateTask {
        title: title.to_owned(),
        description: String::new(),
        priority: 0,
        requires: names
            .iter()
            .map(|name| RequirementInput::Name((*name).to_owned()))
            .collect(),
        depends_on: depends_on.to_vec(),
        metadata: Value::Null,
    }
}

fn artifact(id: Uuid, task_id: Uuid) -> Artifact {
    Artifact {
        id,
        task_id,
        filename: "a".to_owned(),
        content_type: "b".to_owned(),
        size_bytes: 3,
        created_at: at(0),
    }
}

/// Tasks 1, 2 and 3, of which 2 waits for 1 and 3 for both.
fn chain() -> Store {
    let mut store = Store::in_memory();
    store.create_at(1, request("one", &[], &["rust"]), at(0)).unwrap();
    store.create_at(2, request("two", &[1], &[]), at(1)).unwrap();
    store.create_at(3, request("three", &[2, 1], &["rust"]), at(2)).unwrap();
    store
}

fn kept(store: &Store) -> Rows {
    store.rows().unwrap()
}

fn finish(store: &mut Store, id: Uuid) {
    store.claim_at(id, "x".to_owned(), at(10)).unwrap();
    store
        .transition_owned_at(id, "x", OwnedAction::Complete, None, at(11))
        .unwrap();
}

#[test]
fn a_refusal_changes_nothing() {
    let mut store = chain();
    let before = kept(&store);
    assert!(store.claim_at(3, "x".to_owned(), at(9)).is_err());
    assert!(store.retry_at(1, at(9)).is_err());
    assert!(store.delete(1).is_err());
    assert!(store.create_at(1, request("again", &[], &[]), at(9)).is_err());
    assert!(store.add_artifact("x", artifact(7, 1)).is_err());
    assert!(store
        .set_label_description_at("unknown", None, at(9))
        .is_err());
    let patch = PatchTask {
        title: Patch::Present("new".to_owned()),
        depends_on: Patch::Present(vec![3]),
        ..PatchTask::default()
    };
    assert!(store.patch_at(1, patch, at(9)).is_err());
    assert_eq!(kept(&store), before);
}

#[test]
fn readiness_follows_dependencies() {
    let mut store = chain();
    assert_eq!(store.get(3).unwrap().blocked_by, vec![2, 1]);
    assert_eq!(store.get(1).unwrap().dependents, vec![2, 3]);
    finish(&mut store, 1);
    assert_eq!(store.get(3).unwrap().blocked_by, vec![2]);
    assert!(store.get(2).unwrap().ready);
    assert!(!store.get(3).unwrap().ready);
    store.cancel_at(2, at(12)).unwrap();
    assert_eq!(store.get(3).unwrap().blocked_by, vec![2]);
    store.retry_at(2, at(13)).unwrap();
    finish(&mut store, 2);
    assert!(store.get(3).unwrap().ready);
}

#[test]
fn no_patch_closes_a_circle() {
    let mut store = chain();
    for (id, dependency) in [(1, 3), (1, 2), (2, 3)] {
        let patch = PatchTask {
            depends_on: Patch::Present(vec![dependency]),
            ..PatchTask::default()
        };
        assert!(matches!(
            store.patch_at(id, patch, at(9)),
            Err(StoreError::Conflict(_))
        ));
    }
    let reversed = PatchTask {
        depends_on: Patch::Present(Vec::new()),
        ..PatchTask::default()
    };
    store.patch_at(2, reversed.clone(), at(9)).unwrap();
    store.patch_at(3, reversed, at(9)).unwrap();
    let turned = PatchTask {
        depends_on: Patch::Present(vec![3, 2, 3]),
        ..PatchTask::default()
    };
    let view = store.patch_at(1, turned, at(10)).unwrap();
    assert_eq!(view.task.depends_on, vec![3, 2]);
}

#[test]
fn an_edge_that_is_given_up_closes_no_circle() {
    let mut store = chain();
    let patch = PatchTask {
        depends_on: Patch::Present(vec![1]),
        ..PatchTask::default()
    };
    assert_eq!(
        store.patch_at(2, patch, at(9)).unwrap().task.depends_on,
        vec![1]
    );
}

#[test]
fn every_change_counts_one_version_at_its_time() {
    let mut store = chain();
    assert_eq!(store.get(1).unwrap().task.version, 1);
    store.patch_at(1, PatchTask::default(), at(5)).unwrap();
    let task = store.get(1).unwrap().task;
    assert_eq!((task.version, task.updated_at, task.created_at), (2, at(5), at(0)));
    assert_eq!(store.get(2).unwrap().task.version, 1);
    finish(&mut store, 1);
    assert_eq!(store.get(1).unwrap().task.version, 4);
    assert_eq!(store.get(1).unwrap().task.updated_at, at(11));
}

#[test]
fn done_tasks_stay_done() {
    let mut store = chain();
    store.claim_at(1, "x".to_owned(), at(3)).unwrap();
    let result = Some(Value::from("ok"));
    store
        .transition_owned_at(1, "x", OwnedAction::Complete, result.clone(), at(4))
        .unwrap();
    assert!(store.cancel_at(1, at(5)).is_err());
    assert!(store.retry_at(1, at(5)).is_err());
    assert!(store.claim_at(1, "y".to_owned(), at(5)).is_err());
    store.patch_at(1, PatchTask::default(), at(6)).unwrap();
    let record = store.record(1).unwrap();
    assert_eq!(record.task.status, Status::Done);
    assert_eq!(record.task.claimed_by.as_deref(), Some("x"));
    assert_eq!(record.task.result, result);
    assert_eq!(record.closed_at, Some(at(4).to_text()));
}

#[test]
fn release_undoes_a_claim_and_retry_a_failure() {
    let mut store = chain();
    let before = store.get(1).unwrap().task;
    store.claim_at(1, "x".to_owned(), at(3)).unwrap();
    assert!(store
        .transition_owned_at(1, "y", OwnedAction::Release, None, at(4))
        .is_err());
    let after = store
        .transition_owned_at(1, "x", OwnedAction::Release, None, at(4))
        .unwrap()
        .task;
    assert_eq!(after.version, before.version + 2);
    assert_eq!(after.updated_at, at(4));
    assert_eq!((after.status, after.claimed_by), (before.status, None));

    store.claim_at(1, "x".to_owned(), at(5)).unwrap();
    store
        .transition_owned_at(1, "x", OwnedAction::Fail, Some(Value::from(1)), at(6))
        .unwrap();
    let cancelled = store.cancel_at(1, at(7)).unwrap().task;
    assert_eq!(cancelled.result, Some(Value::from(1)));
    assert_eq!(cancelled.claimed_by, None);
    assert_eq!(store.record(1).unwrap().closed_at, Some(at(7).to_text()));
    let retried = store.retry_at(1, at(8)).unwrap();
    assert!(retried.ready);
    assert_eq!(retried.task.result, None);
    assert_eq!(store.record(1).unwrap().closed_at, None);
}

#[test]
fn delete_undoes_a_creation() {
    let mut store = chain();
    let before = kept(&store);
    store.create_at(4, request("four", &[3], &["rust"]), at(3)).unwrap();
    assert_ne!(kept(&store), before);
    store.delete(4).unwrap();
    assert_eq!(kept(&store), before);
}

#[test]
fn removal_undoes_an_addition() {
    let mut store = chain();
    store.claim_at(1, "x".to_owned(), at(3)).unwrap();
    let before = kept(&store);
    store.add_artifact("x", artifact(7, 1)).unwrap();
    store.delete_artifact(1, 7).unwrap();
    assert_eq!(kept(&store), before);
}

#[test]
fn expiry_takes_closed_tasks_once_and_in_order() {
    let mut store = chain();
    for id in [9, 7, 8] {
        if id == 9 {
            store.claim_at(1, "x".to_owned(), at(3)).unwrap();
        }
        store.add_artifact("x", artifact(id, 1)).unwrap();
    }
    assert!(store.take_expired_artifacts(at(100)).unwrap().is_empty());
    store
        .transition_owned_at(1, "x", OwnedAction::Complete, None, at(4))
        .unwrap();
    assert!(store.take_expired_artifacts(at(3)).unwrap().is_empty());
    let ids: Vec<_> = store
        .take_expired_artifacts(at(4))
        .unwrap()
        .into_iter()
        .map(|file| file.id)
        .collect();
    assert_eq!(ids, vec![7, 8, 9]);
    assert!(store.take_expired_artifacts(at(4)).unwrap().is_empty());
}

#[test]
fn the_same_explanation_changes_nothing() {
    let mut store = chain();
    let label = store
        .set_label_description_at("rust", Some("systems".to_owned()), at(5))
        .unwrap();
    assert_eq!((label.open_tasks, label.ready_tasks), (2, 1));
    let before = kept(&store);
    store
        .set_label_description_at(" rust", Some("systems ".to_owned()), at(6))
        .unwrap();
    assert_eq!(kept(&store), before);
    for id in [1, 3] {
        assert_eq!(
            store.get(id).unwrap().task.requires,
            vec![Requirement {
                name: "rust".to_owned(),
                description: Some("systems".to_owned()),
            }]
        );
    }
    assert_eq!(store.get(2).unwrap().task.version, 1);
}

#[test]
fn of_two_explanations_at_one_time_the_higher_identifier_speaks() {
    let mut store = Store::in_memory();
    for (id, text) in [(2, "second"), (1, "first")] {
        let mut task = request("task", &[], &[]);
        task.requires = vec![RequirementInput::Full(Requirement {
            name: "rust".to_owned(),
            description: Some(text.to_owned()),
        })];
        store.create_at(id, task, at(0)).unwrap();
    }
    assert_eq!(
        store.labels().unwrap()[0].description.as_deref(),
        Some("second")
    );
    store.patch_at(1, PatchTask::default(), at(1)).unwrap();
    assert_eq!(
        store.labels().unwrap()[0].description.as_deref(),
        Some("first")
    );
}

#[test]
fn the_best_candidate_is_handed_out() {
    let mut store = chain();
    assert_eq!(
        store.claim_next_at("x".to_owned(), &["go".to_owned()], at(5)),
        Ok(None)
    );
    let view = store
        .claim_next_at("x".to_owned(), &["go".to_owned(), "rust".to_owned()], at(5))
        .unwrap()
        .unwrap();
    assert_eq!(view.task.id, 1);
    assert_eq!(view.task.claimed_by.as_deref(), Some("x"));
    assert_eq!(
        store.claim_next_at("y".to_owned(), &["rust".to_owned()], at(6)),
        Ok(None)
    );
}
