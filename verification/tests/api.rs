use orcis::api::discovery::{health, index};
use orcis::api::docs::agent_docs;
use orcis::api::handlers::{
    cancel_task, claim_next, claim_task, complete_task, create_task, delete_task, fail_task,
    get_task, list_labels, list_tasks, patch_task, release_task, retry_task, set_label_description,
};
use orcis::api::{
    fallback, method_not_allowed, parse_task_id, ApiError, AppState, Filters, Json,
};
use orcis::ids::Uuid;
use orcis::model::{
    AgentRequest, ClaimNextRequest, CreateTask, EmptyRequest, Patch, PatchTask, Requirement,
    RequirementInput, ResultRequest, SetLabelDescription, Status, TaskView,
};
use orcis::store::{Store, StoreError};
use orcis::time::Timestamp;
use serde_json::Value;

fn id_text(id: Uuid) -> String {
    uuid::Uuid::from_u128(id).to_string()
}

fn request(title: &str) -> CreateTask {
    CreateTask {
        title: title.to_owned(),
        description: String::new(),
        priority: 0,
        requires: Vec::new(),
        depends_on: Vec::new(),
        metadata: Value::Object(serde_json::Map::new()),
    }
}

fn create(store: &mut Store, request: CreateTask) -> TaskView {
    let reply = create_task(store, Json(request)).unwrap();
    assert_eq!(reply.status, 201);
    reply.body.0
}

fn agent(name: &str) -> Json<AgentRequest> {
    Json(AgentRequest {
        agent: name.to_owned(),
    })
}

fn outcome(name: &str, result: Option<Value>) -> Json<ResultRequest> {
    Json(ResultRequest {
        agent: name.to_owned(),
        result,
    })
}

fn query(fields: &[(&str, &str)]) -> Vec<(String, String)> {
    fields
        .iter()
        .map(|(name, value)| ((*name).to_owned(), (*value).to_owned()))
        .collect()
}

fn listed(store: &Store, fields: &[(&str, &str)]) -> Vec<Uuid> {
    let reply = list_tasks(store, query(fields)).unwrap();
    assert_eq!(reply.status, 200);
    reply.body.0.iter().map(|view| view.task.id).collect()
}

#[test]
fn the_index_names_every_endpoint_and_health_is_ok() {
    let index = index();
    assert_eq!(index.name, "orcis");
    assert_eq!(index.version, "0.1.0");
    assert_eq!(index.endpoints.len(), 17);
    assert_eq!(index.endpoints[8].path, "/tasks/claim");
    assert_eq!(health().status, "ok");
}

#[test]
fn the_documentation_covers_the_index() {
    let docs = agent_docs();
    assert!(docs.content_type.starts_with("text/markdown"));
    assert_eq!(docs.content_type, "text/markdown; charset=utf-8");
    assert!(docs.body.starts_with("# orcis\n\norcis is a shared task board"));
    assert!(docs.body.contains("\n\n### `GET /`\n\nDiscover the service name"));
    assert!(docs.body.contains("\n\n## Errors\n\nEvery API error"));
    for endpoint in index().endpoints {
        let title = format!("`{} {}`", endpoint.method, endpoint.path);
        assert!(docs.body.contains(&title), "docs missing endpoint {title}");
    }
}

#[test]
fn auth_exempts_health_and_agent_docs_only() {
    let state = AppState::new(Store::in_memory(), Some("secret".to_owned()));
    let refused = state.authorize("GET", "/tasks", None).unwrap_err();
    assert_eq!(refused.status(), 401);
    assert_eq!(refused.message(), "unauthorized");
    assert!(state.authorize("GET", "/tasks", Some("Bearer wrong")).is_err());
    assert!(state.authorize("GET", "/healthz", None).is_ok());
    assert!(state.authorize("GET", "/docs.md", None).is_ok());
    assert_eq!(
        state.authorize("POST", "/healthz", None).unwrap_err().status(),
        401
    );
    assert!(state.authorize("POST", "/docs.md", None).is_err());
    assert!(state.authorize("GET", "/tasks", Some("Bearer secret")).is_ok());
    assert!(state.authorize("GET", "/tasks", Some("secret")).is_err());

    let open = AppState::new(Store::in_memory(), None);
    assert!(open.authorize("DELETE", "/tasks/1", None).is_ok());
}

#[test]
fn tasks_are_created_read_changed_and_deleted() {
    let mut store = Store::in_memory();
    let mut first = request("first");
    first.description = "before".to_owned();
    first.priority = 2;
    first.requires = vec![
        RequirementInput::Name("rust".to_owned()),
        RequirementInput::Name("rust".to_owned()),
    ];
    let first = create(&mut store, first);
    let first_id = first.task.id;
    assert_eq!(
        first.task.requires,
        vec![Requirement {
            name: "rust".to_owned(),
            description: None,
        }]
    );
    assert_eq!(first.task.version, 1);
    assert!(first.ready);

    let mut second = request("second");
    second.priority = 1;
    second.requires = vec![
        RequirementInput::Name("rust".to_owned()),
        RequirementInput::Name("api".to_owned()),
    ];
    let second_id = create(&mut store, second).task.id;

    let reply = get_task(&store, first_id).unwrap();
    assert_eq!(reply.status, 200);
    assert_eq!(reply.body.0.task.title, "first");
    assert_eq!(
        listed(
            &store,
            &[
                ("status", "todo"),
                ("status", "failed"),
                ("ready", "true"),
                ("requires", "rust"),
            ],
        ),
        vec![first_id, second_id]
    );
    assert_eq!(
        listed(&store, &[("requires", "rust"), ("requires", "api")]),
        vec![second_id]
    );

    let patch = PatchTask {
        title: Patch::Present("updated".to_owned()),
        description: Patch::Present("after".to_owned()),
        metadata: Patch::Present(Value::Null),
        ..PatchTask::default()
    };
    let patched = patch_task(&mut store, first_id, Json(patch)).unwrap();
    assert_eq!(patched.status, 200);
    assert_eq!(patched.body.0.task.title, "updated");
    assert_eq!(patched.body.0.task.description, "after");
    assert_eq!(patched.body.0.task.metadata, Value::Null);
    assert_eq!(patched.body.0.task.version, 2);
    assert_eq!(patched.body.0.task.priority, 2);

    assert_eq!(delete_task(&mut store, first_id), Ok(204));
    let missing = get_task(&store, first_id).unwrap_err();
    assert_eq!(missing.status(), 404);
    assert_eq!(missing.message(), "task not found");
    assert_eq!(delete_task(&mut store, first_id).unwrap_err().status(), 404);
}

#[test]
fn claim_next_hands_out_distinct_tasks_until_none_is_left() {
    let mut store = Store::in_memory();
    let mut low = request("low");
    low.priority = 1;
    low.requires = vec![RequirementInput::Name("rust".to_owned())];
    let low = create(&mut store, low);
    let mut high = request("high");
    high.priority = 10;
    high.requires = vec![RequirementInput::Name("rust".to_owned())];
    let high = create(&mut store, high);

    let mut next = |agent: &str| {
        claim_next(
            &mut store,
            Json(ClaimNextRequest {
                agent: agent.to_owned(),
                capabilities: vec!["rust".to_owned()],
            }),
        )
        .unwrap()
    };
    let first = next("one").unwrap();
    assert_eq!(first.status, 200);
    assert_eq!(first.body.0.task.id, high.task.id);
    assert_eq!(first.body.0.task.claimed_by.as_deref(), Some("one"));
    assert_eq!(next("two").unwrap().body.0.task.id, low.task.id);
    assert_eq!(next("three"), None);
}

#[test]
fn dependency_chain_blocks_then_unlocks() {
    let mut store = Store::in_memory();
    let a = create(&mut store, request("A")).task.id;
    let mut b = request("B");
    b.depends_on = vec![a];
    let b = create(&mut store, b).task.id;

    let blocked = claim_task(&mut store, b, agent("worker")).unwrap_err();
    assert_eq!(blocked.status(), 409);
    assert!(blocked.message().contains(&id_text(a)));
    assert_eq!(
        blocked.message(),
        format!("task is blocked by: {}", id_text(a))
    );

    assert_eq!(claim_task(&mut store, a, agent("worker")).unwrap().status, 200);
    let mut result = serde_json::Map::new();
    result.insert("done".to_owned(), Value::Bool(true));
    let done = complete_task(&mut store, a, outcome("worker", Some(Value::Object(result))));
    assert_eq!(done.unwrap().status, 200);
    assert_eq!(claim_task(&mut store, b, agent("worker")).unwrap().status, 200);
}

#[test]
fn cancelled_tasks_are_retried_and_cancelled_again() {
    let mut store = Store::in_memory();
    let id = create(&mut store, request("cancel me")).task.id;
    let _empty = EmptyRequest::default();
    assert_eq!(cancel_task(&mut store, id).unwrap().status, 200);
    assert_eq!(
        cancel_task(&mut store, id).unwrap_err().message(),
        "cannot cancel a task in status cancelled"
    );
    assert_eq!(retry_task(&mut store, id).unwrap().status, 200);
    assert_eq!(retry_task(&mut store, id).unwrap_err().status(), 409);
    assert_eq!(cancel_task(&mut store, id).unwrap().body.0.task.version, 4);
}

#[test]
fn owners_release_and_fail_and_others_are_refused() {
    let mut store = Store::in_memory();
    let first = create(&mut store, request("first owner")).task.id;
    let second = create(&mut store, request("second owner")).task.id;
    for (id, name) in [(first, "one"), (second, "two")] {
        assert_eq!(claim_task(&mut store, id, agent(name)).unwrap().status, 200);
    }
    assert_eq!(listed(&store, &[("claimed_by", "one")]), vec![first]);

    let refused = release_task(&mut store, first, agent("wrong")).unwrap_err();
    assert_eq!(refused.status(), 409);
    assert_eq!(refused.message(), "task is not claimed by agent wrong");
    let released = release_task(&mut store, first, agent("one")).unwrap();
    assert_eq!(released.body.0.task.status, Status::Todo);
    assert_eq!(
        fail_task(&mut store, second, outcome("wrong", None))
            .unwrap_err()
            .status(),
        409
    );
    let failed = fail_task(&mut store, second, outcome("two", Some(Value::from("test")))).unwrap();
    assert_eq!(failed.body.0.task.status, Status::Failed);
    assert_eq!(failed.body.0.task.result, Some(Value::from("test")));
    assert_eq!(failed.body.0.task.claimed_by.as_deref(), Some("two"));
}

#[test]
fn dependency_conflicts_list_dependents_and_reject_cycles() {
    let mut store = Store::in_memory();
    let parent = create(&mut store, request("parent")).task.id;
    let mut child = request("child");
    child.depends_on = vec![parent];
    let child = create(&mut store, child).task.id;

    let refused = delete_task(&mut store, parent).unwrap_err();
    assert_eq!(refused.status(), 409);
    assert!(refused.message().contains(&id_text(child)));

    let patch = PatchTask {
        depends_on: Patch::Present(vec![child]),
        ..PatchTask::default()
    };
    let refused = patch_task(&mut store, parent, Json(patch)).unwrap_err();
    assert_eq!(refused.status(), 409);
    assert!(refused.message().contains("dependency cycle"));
    assert_eq!(
        refused.message(),
        format!(
            "dependency cycle involving: {}, {}",
            id_text(parent),
            id_text(child)
        )
    );
}

#[test]
fn task_list_sorts_by_priority_created_at_and_id() {
    let mut store = Store::in_memory();
    let mut created: Vec<TaskView> = Vec::new();
    for (title, priority) in [("low", 0), ("high old", 10), ("high new", 10), ("mid", 5)] {
        if title == "high new" {
            let old = created.last().unwrap().task.created_at;
            while Timestamp::now() <= old {}
        }
        let mut task = request(title);
        task.priority = priority;
        created.push(create(&mut store, task));
    }
    created.sort_by(|left, right| {
        right
            .task
            .priority
            .cmp(&left.task.priority)
            .then_with(|| left.task.created_at.cmp(&right.task.created_at))
            .then_with(|| left.task.id.cmp(&right.task.id))
    });
    let expected: Vec<_> = created.iter().map(|view| view.task.id).collect();
    assert_eq!(listed(&store, &[]), expected);
    let titles: Vec<_> = store
        .list()
        .unwrap()
        .into_iter()
        .map(|view| view.task.title)
        .collect();
    assert_eq!(titles[0], "high old");
    assert_eq!(titles[1], "high new");
    assert_eq!(titles[2], "mid");
    assert_eq!(titles[3], "low");
}

#[test]
fn labels_are_listed_and_explained() {
    let mut store = Store::in_memory();
    let mut task = request("labelled");
    task.requires = vec![RequirementInput::Name("design".to_owned())];
    create(&mut store, task);
    let explained = set_label_description(
        &mut store,
        "  design ",
        Json(SetLabelDescription {
            description: Some(" shared ".to_owned()),
        }),
    )
    .unwrap();
    assert_eq!(explained.status, 200);
    assert_eq!(explained.body.0.name, "design");
    assert_eq!(explained.body.0.description.as_deref(), Some("shared"));
    let labels = list_labels(&store).unwrap();
    assert_eq!(labels.body.0, vec![explained.body.0]);

    let none = Json(SetLabelDescription { description: None });
    let missing = set_label_description(&mut store, "unknown", none.clone()).unwrap_err();
    assert_eq!(missing.status(), 404);
    assert_eq!(missing.message(), "label not found");
    let blank = set_label_description(&mut store, "  ", none).unwrap_err();
    assert_eq!(blank.status(), 400);
    assert_eq!(blank.message(), "invalid label name: must not be empty");
}

#[test]
fn query_fields_are_checked_in_their_order() {
    let error = |fields: &[(&str, &str)]| Filters::parse(query(fields)).unwrap_err();
    assert_eq!(error(&[("status", "lost")]).message(), "invalid status filter: lost");
    assert_eq!(error(&[("ready", "yes")]).message(), "ready must be true or false");
    assert_eq!(error(&[("owner", "me")]).message(), "unknown query field: owner");
    assert_eq!(error(&[("owner", "me")]).status(), 400);
    assert_eq!(
        error(&[("ready", "no"), ("status", "lost")]).message(),
        "ready must be true or false"
    );
    let filters = Filters::parse(query(&[
        ("ready", "true"),
        ("claimed_by", "one"),
        ("ready", "false"),
        ("claimed_by", "two"),
        ("status", "done"),
    ]))
    .unwrap();
    assert_eq!(filters.ready, Some(false));
    assert_eq!(filters.claimed_by.as_deref(), Some("two"));
    assert_eq!(filters.statuses, vec![Status::Done]);
}

#[test]
fn filters_of_different_kinds_must_all_match() {
    let mut store = Store::in_memory();
    let id = create(&mut store, request("one")).task.id;
    claim_task(&mut store, id, agent("worker")).unwrap();
    assert_eq!(
        listed(&store, &[("status", "in_progress"), ("claimed_by", "worker")]),
        vec![id]
    );
    assert!(listed(&store, &[("status", "todo"), ("claimed_by", "worker")]).is_empty());
    assert!(listed(&store, &[("ready", "true")]).is_empty());
    assert_eq!(listed(&store, &[("ready", "false")]), vec![id]);
    assert!(listed(&store, &[("requires", "rust")]).is_empty());
    assert!(listed(&store, &[("claimed_by", "nobody")]).is_empty());
}

#[test]
fn refusals_become_answers() {
    let answer = |error: StoreError| {
        let answer = ApiError::from(error.clone());
        assert_eq!(answer, ApiError::from_store(error));
        (answer.status(), answer.message().to_owned())
    };
    assert_eq!(answer(StoreError::NotFound), (404, "task not found".to_owned()));
    assert_eq!(
        answer(StoreError::Internal("disk".to_owned())),
        (500, "internal error".to_owned())
    );
    assert_eq!(
        answer(StoreError::Invalid("bad".to_owned())),
        (400, "bad".to_owned())
    );
    assert_eq!(
        answer(StoreError::Conflict("taken".to_owned())),
        (409, "taken".to_owned())
    );
    assert_eq!(
        ApiError::from(StoreError::Internal("disk".to_owned())).cause(),
        Some("disk")
    );
    assert_eq!(ApiError::bad_request("x").status(), 400);
    assert_eq!(ApiError::bad_request("x").cause(), None);
    assert_eq!(fallback().status(), 404);
    assert_eq!(fallback().message(), "not found");
    assert_eq!(method_not_allowed().status(), 405);
    assert_eq!(method_not_allowed().message(), "method not allowed");
}

#[test]
fn rejected_bodies_keep_their_status_but_for_wrong_shapes() {
    let rejected = |status: u16| ApiError::from_json_rejection(status, "why".to_owned());
    assert_eq!(rejected(422).status(), 400);
    assert_eq!(rejected(400).status(), 400);
    assert_eq!(rejected(413).status(), 413);
    assert_eq!(rejected(415).status(), 415);
    assert_eq!(rejected(422).message(), "why");
}

#[test]
fn malformed_identifiers_name_no_task() {
    assert_eq!(
        parse_task_id("93f6654d-db35-49ba-8030-caa595d70370").unwrap(),
        0x93f6654d_db35_49ba_8030_caa595d70370
    );
    let error = parse_task_id("not-a-uuid").unwrap_err();
    assert_eq!(error.status(), 404);
    assert_eq!(error.message(), "task not found");
}
