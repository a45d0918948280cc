use orcis::ids::{deduplicate, join_ids};
use orcis::model::{Artifact, CreateTask, Patch, PatchTask, Requirement, RequirementInput, Status};
use orcis::rules::{
    sql_integer, status_named, status_text, validate_artifact_filename, validate_content_type,
    validate_label_name, validate_requirement_description, validate_requirement_name,
    validate_requirements, validate_title,
};
use orcis::store::{Store, StoreError};
use orcis::text::{ends_with, has_control, is_before, same};
use orcis::time::Timestamp;
use serde_json::Value;

fn invalid(message: &str) -> StoreError {
    StoreError::Invalid(message.to_owned())
}

fn conflict(message: &str) -> StoreError {
    StoreError::Conflict(message.to_owned())
}

fn request(title: &str) -> CreateTask {
    CreateTask {
        title: title.to_owned(),
        description: String::new(),
        priority: 0,
        requires: Vec::new(),
        depends_on: Vec::new(),
        metadata: Value::Null,
    }
}

fn artifact(id: u128, task_id: u128) -> Artifact {
    Artifact {
        id,
        task_id,
        filename: "notes.txt".to_owned(),
        content_type: "text/plain".to_owned(),
        size_bytes: 1,
        created_at: Timestamp::from_second(1_700_000_000).unwrap(),
    }
}

#[test]
fn titles_hold_one_to_five_hundred_characters() {
    assert_eq!(validate_title(""), Err(invalid("title must not be empty")));
    assert_eq!(
        validate_title(" \t\u{2003}\u{3000}"),
        Err(invalid("title must not be empty"))
    );
    assert_eq!(validate_title(&"\u{e9}".repeat(500)), Ok(()));
    assert_eq!(
        validate_title(&"x".repeat(501)),
        Err(invalid("title must be at most 500 characters"))
    );
}

#[test]
fn names_hold_one_to_a_hundred_characters() {
    assert_eq!(
        validate_requirement_name(" "),
        Err(invalid("invalid requirement name: must not be empty"))
    );
    assert_eq!(
        validate_label_name(&"x".repeat(101)),
        Err(invalid("invalid label name: must be at most 100 characters"))
    );
    assert_eq!(validate_label_name(&"x".repeat(100)), Ok(()));
}

#[test]
fn explanations_are_trimmed_and_bounded() {
    assert_eq!(validate_requirement_description(None), Ok(None));
    assert_eq!(
        validate_requirement_description(Some(" \n".to_owned())),
        Ok(None)
    );
    assert_eq!(
        validate_requirement_description(Some(" a b ".to_owned())),
        Ok(Some("a b".to_owned()))
    );
    assert_eq!(
        validate_requirement_description(Some("x".repeat(1001))),
        Err(invalid("requirement description must be at most 1000 characters"))
    );
    assert!(validate_requirement_description(Some(format!(" {} ", "x".repeat(1000)))).is_ok());
}

#[test]
fn the_first_wrong_requirement_is_told() {
    let inputs = vec![
        RequirementInput::Name("rust".to_owned()),
        RequirementInput::Full(Requirement {
            name: "api".to_owned(),
            description: Some("x".repeat(1001)),
        }),
        RequirementInput::Name(" ".to_owned()),
    ];
    assert_eq!(
        validate_requirements(inputs),
        Err(invalid("requirement description must be at most 1000 characters"))
    );
    assert_eq!(
        validate_requirements(vec![RequirementInput::Full(Requirement {
            name: " ".to_owned(),
            description: Some("x".repeat(1001)),
        })]),
        Err(invalid("invalid requirement name: must not be empty"))
    );
}

#[test]
fn file_names_are_bounded_and_free_of_control_characters() {
    assert_eq!(
        validate_artifact_filename(""),
        Err(invalid("artifact filename must not be empty"))
    );
    assert_eq!(
        validate_artifact_filename(&"x".repeat(256)),
        Err(invalid("artifact filename must be at most 255 characters"))
    );
    assert_eq!(
        validate_artifact_filename("a\u{7f}b"),
        Err(invalid("artifact filename must not contain control characters"))
    );
    assert_eq!(validate_artifact_filename("report.pdf"), Ok(()));
    assert_eq!(validate_content_type("text/plain"), Ok(()));
    let wrong = invalid("artifact content type must contain 1 through 255 bytes");
    assert_eq!(validate_content_type(""), Err(wrong.clone()));
    assert_eq!(validate_content_type(&"\u{e9}".repeat(128)), Err(wrong));
    assert_eq!(validate_content_type(&"\u{e9}".repeat(127)), Ok(()));
}

#[test]
fn numbers_beyond_signed_integers_are_refused() {
    assert_eq!(sql_integer(9_223_372_036_854_775_807_u64, "task version"), Ok(i64::MAX));
    assert_eq!(sql_integer(7_u32, "task version"), Ok(7));
    assert_eq!(
        sql_integer(i128::MIN, "task version"),
        Err(StoreError::Internal("task version exceeds SQLite integer range".to_owned()))
    );
    assert_eq!(
        sql_integer(9_223_372_036_854_775_808_u64, "task version"),
        Err(StoreError::Internal(
            "task version exceeds SQLite integer range".to_owned()
        ))
    );
}

#[test]
fn statuses_and_their_words_agree() {
    for status in [
        Status::Todo,
        Status::InProgress,
        Status::Done,
        Status::Failed,
        Status::Cancelled,
    ] {
        assert_eq!(status_named(status_text(status)), Some(status));
    }
    assert_eq!(status_named("Done"), None);
}

#[test]
fn texts_are_compared_by_their_characters() {
    assert!(same("abc", "abc"));
    assert!(!same("abc", "abd"));
    assert!(is_before("ab", "abc"));
    assert!(is_before("Z", "a"));
    assert!(is_before("z", "\u{e9}"));
    assert!(!is_before("a", "a"));
    assert!(ends_with("upload.tmp", ".tmp"));
    assert!(!ends_with("tmp", ".tmp"));
    assert!(has_control("a\u{85}"));
    assert!(!has_control("a\u{a0}"));
}

#[test]
fn identifiers_are_joined_and_deduplicated() {
    assert_eq!(join_ids(&Vec::new()), "");
    assert_eq!(
        join_ids(&vec![1, 0xff]),
        "00000000-0000-0000-0000-000000000001, 00000000-0000-0000-0000-0000000000ff"
    );
    assert_eq!(deduplicate(vec![3, 1, 3, 2, 1]), vec![3, 1, 2]);
    assert_eq!(deduplicate(vec!['b', 'a', 'b']), vec!['b', 'a']);
}

#[test]
fn times_stay_within_their_range() {
    assert!(Timestamp::from_second(253_402_207_200).is_some());
    assert!(Timestamp::from_second(253_402_207_201).is_none());
    assert!(Timestamp::from_nanosecond(-377_705_023_201_000_000_000).is_some());
    assert!(Timestamp::from_nanosecond(-377_705_023_201_000_000_001).is_none());
    let late = Timestamp::from_nanosecond(1_700_000_000_999_999_999).unwrap();
    assert_eq!(late.as_second(), 1_700_000_000);
    assert_eq!(
        late.retention_cutoff(),
        Timestamp::from_second(1_700_000_000 - 7 * 24 * 60 * 60)
    );
    let early = Timestamp::from_nanosecond(-1_500_000_000).unwrap();
    assert_eq!(early.as_second(), -1);
    let first = Timestamp::from_second(-377_705_023_201).unwrap();
    assert_eq!(first.retention_cutoff(), None);
    assert!(Timestamp::now().as_second() > 1_600_000_000);
    assert!(Timestamp::parse("not a time").is_err());
    let first_text = first.to_text();
    assert_eq!(Timestamp::parse(&first_text).unwrap(), first);
}

#[test]
fn new_tasks_get_random_identifiers_of_version_four() {
    let mut store = Store::in_memory();
    let a = store.create(request("a")).unwrap().task.id;
    let b = store.create(request("b")).unwrap().task.id;
    assert_ne!(a, b);
    for id in [a, b] {
        assert_eq!(uuid::Uuid::from_u128(id).get_version_num(), 4);
    }
}

#[test]
fn an_identifier_is_given_once() {
    let mut store = Store::in_memory();
    let now = Timestamp::now();
    store.create_at(1, request("a"), now).unwrap();
    assert_eq!(
        store.create_at(1, request("b"), now),
        Err(StoreError::Internal(
            "UNIQUE constraint failed: tasks.id".to_owned()
        ))
    );
    assert_eq!(store.get(1).unwrap().task.title, "a");
}

#[test]
fn refused_requests_are_told_apart() {
    let mut store = Store::in_memory();
    let now = Timestamp::from_second(1_700_000_000).unwrap();
    store.create_at(1, request("a"), now).unwrap();
    let mut dependent = request("b");
    dependent.depends_on = vec![1, 1];
    let created = store.create_at(2, dependent, now).unwrap();
    assert_eq!(created.task.depends_on, vec![1]);
    assert_eq!(store.get(1).unwrap().dependents, vec![2]);

    assert_eq!(
        store.claim_at(2, "x".to_owned(), now),
        Err(conflict(
            "task is blocked by: 00000000-0000-0000-0000-000000000001"
        ))
    );
    assert_eq!(
        store.delete(1),
        Err(conflict(
            "task has dependents: 00000000-0000-0000-0000-000000000002"
        ))
    );
    assert_eq!(store.delete(9), Err(StoreError::NotFound));
    assert_eq!(store.claim(9, "x".to_owned()), Err(StoreError::NotFound));
    assert_eq!(store.cancel(9), Err(StoreError::NotFound));
    assert_eq!(store.retry(9), Err(StoreError::NotFound));
    assert_eq!(store.release(9, "x"), Err(StoreError::NotFound));
    assert_eq!(
        store.patch(9, PatchTask::default()),
        Err(StoreError::NotFound)
    );
    assert_eq!(store.artifacts(9), Err(StoreError::NotFound));
    assert_eq!(
        store.fail(1, "x", None),
        Err(conflict("cannot fail a task in status todo"))
    );
    store.claim_at(1, "x".to_owned(), now).unwrap();
    assert_eq!(
        store.claim_at(1, "y".to_owned(), now),
        Err(conflict("cannot claim a task in status in_progress"))
    );
    assert_eq!(
        store.complete(1, "y", None),
        Err(conflict("task is not claimed by agent y"))
    );
    let itself = PatchTask {
        depends_on: Patch::Present(vec![2]),
        ..PatchTask::default()
    };
    assert_eq!(
        store.patch(2, itself),
        Err(invalid(
            "task cannot depend on itself: 00000000-0000-0000-0000-000000000002"
        ))
    );
    let long = PatchTask {
        title: Patch::Present("x".repeat(501)),
        ..PatchTask::default()
    };
    assert_eq!(
        store.patch(2, long),
        Err(invalid("title must be at most 500 characters"))
    );
}

#[test]
fn artifacts_are_refused_for_their_owner_name_type_size_and_identifier() {
    let mut store = Store::in_memory();
    let now = Timestamp::from_second(1_700_000_000).unwrap();
    store.create_at(1, request("a"), now).unwrap();
    assert_eq!(
        store.add_artifact("x", artifact(7, 9)),
        Err(StoreError::NotFound)
    );
    assert_eq!(
        store.add_artifact("x", artifact(7, 1)),
        Err(conflict("cannot add an artifact to a task in status todo"))
    );
    store.claim_at(1, "x".to_owned(), now).unwrap();
    assert_eq!(
        store.validate_artifact_upload(1, "y", "a", "b"),
        Err(conflict("task is not claimed by agent y"))
    );
    assert_eq!(
        store.validate_artifact_upload(1, "x", " \t", "b"),
        Err(invalid("artifact filename must not be empty"))
    );
    assert_eq!(
        store.validate_artifact_upload(1, "x", "a", ""),
        Err(invalid("artifact content type must contain 1 through 255 bytes"))
    );
    let mut large = artifact(7, 1);
    large.size_bytes = u64::MAX;
    assert_eq!(
        store.add_artifact("x", large),
        Err(StoreError::Internal(
            "artifact size exceeds SQLite integer range".to_owned()
        ))
    );
    let mut padded = artifact(7, 1);
    padded.filename = " notes.txt\n".to_owned();
    assert_eq!(store.add_artifact("x", padded).unwrap().filename, "notes.txt");
    assert_eq!(
        store.add_artifact("x", artifact(7, 1)),
        Err(StoreError::Internal(
            "UNIQUE constraint failed: artifacts.id".to_owned()
        ))
    );
    assert_eq!(store.artifact(1, 7).unwrap(), artifact(7, 1));
    assert_eq!(store.artifact(2, 7), Err(StoreError::NotFound));
    assert_eq!(store.delete_artifact(2, 7), Err(StoreError::NotFound));
    assert_eq!(store.artifact_ids().unwrap().len(), 1);
    assert_eq!(store.delete_artifact(1, 7).unwrap(), artifact(7, 1));
    assert_eq!(store.artifact(1, 7), Err(StoreError::NotFound));
}

#[test]
fn artifacts_are_listed_by_age_then_identifier() {
    let mut store = Store::in_memory();
    let now = Timestamp::from_second(1_700_000_000).unwrap();
    store.create_at(1, request("a"), now).unwrap();
    store.claim_at(1, "x".to_owned(), now).unwrap();
    for (id, age) in [(5, 2), (4, 1), (3, 2), (9, 0)] {
        let mut file = artifact(id, 1);
        file.created_at = Timestamp::from_second(1_700_000_000 + age).unwrap();
        store.add_artifact("x", file).unwrap();
    }
    let ids: Vec<_> = store
        .artifacts(1)
        .unwrap()
        .into_iter()
        .map(|file| file.id)
        .collect();
    assert_eq!(ids, vec![9, 4, 3, 5]);
    store.delete(1).unwrap();
    assert!(store.artifact_ids().unwrap().is_empty());
}

#[test]
fn repetitions_are_told_by_the_equality_of_the_type() {
    #[derive(Clone, Debug)]
    struct Caseless(&'static str);
    impl PartialEq for Caseless {
        fn eq(&self, other: &Self) -> bool {
            self.0.eq_ignore_ascii_case(other.0)
        }
    }
    impl Eq for Caseless {}
    impl std::hash::Hash for Caseless {
        fn hash<H: std::hash::Hasher>(&self, state: &mut H) {
            self.0.to_ascii_lowercase().hash(state);
        }
    }
    let kept: Vec<_> = deduplicate(vec![Caseless("b"), Caseless("A"), Caseless("B"), Caseless("a")])
        .into_iter()
        .map(|value| value.0)
        .collect();
    assert_eq!(kept, vec!["b", "A"]);
}
