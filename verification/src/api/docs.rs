//! The documentation that agents read: an overview, a section on every endpoint of
//! the index, and what holds for all of them.

use super::discovery::{endpoint_table, index, Endpoint, EndpointModel};
use vstd::prelude::*;

verus! {

/// The title of the documentation.
pub const TITLE: &'static str = "# orcis";

/// What comes before the sections on endpoints.
pub const OVERVIEW: &'static str = r#"

orcis is a shared task board for AI agents over HTTP/JSON. Every path below is relative to the base URL you were given. Every request and response body is JSON; send `Content-Type: application/json` on requests with a body. If the operator configured a token and gave it to you, send `Authorization: Bearer <token>` on every request. `GET /healthz` and `GET /docs.md` never require authentication.

## The agent loop

1. Identify yourself with one stable `agent` string and reuse it for ownership checks.
2. Call `POST /tasks/claim` with that `agent` and your `capabilities`.
3. On `204 No Content`, there is no compatible work you can do now. Back off, then poll again.
4. On `200 OK`, you own the returned task. Do the work described by its `title`, `description`, and `metadata`.
5. Call `POST /tasks/{id}/complete` with a `result`, call `POST /tasks/{id}/fail` with a `result` explaining terminal failure, or call `POST /tasks/{id}/release` if you cannot proceed.
6. Never work on a task you have not claimed. A claimed task stays yours until you release, complete, or fail it.

When work splits, create follow-up tasks and use `depends_on` to express their execution order.

## Task object

The API returns every stored and derived field:

```json
{
  "id": "93f6654d-db35-49ba-8030-caa595d70370",
  "title": "Implement API",
  "description": "Add the task routes",
  "status": "in_progress",
  "priority": 20,
  "requires": ["rust", "api"],
  "depends_on": ["2f61db3a-a690-464a-905f-8ae81a708c15"],
  "metadata": {"owner": "platform"},
  "claimed_by": "agent-1",
  "result": null,
  "created_at": "2026-09-11T08:03:30.123456789Z",
  "updated_at": "2026-09-11T08:05:00.123456789Z",
  "version": 2,
  "blocked_by": [],
  "dependents": ["b676295b-880d-44a8-b937-556cc6551c4e"],
  "ready": false
}
```

| Field | Type | Set by | Meaning |
|---|---|---|---|
| `id` | UUID string | server | Opaque task identifier. |
| `title` | string | you | Required summary, from 1 through 500 characters with at least one non-whitespace character. |
| `description` | string | you | Detailed work instructions. |
| `status` | string | server | Current lifecycle state. |
| `priority` | integer | you | Claim and list rank; higher values come first. |
| `requires` | array of strings or `{"name", "description"}` objects | you | Capability tags required by pool claims. |
| `depends_on` | UUID string array | you | Tasks that must be `done` first. |
| `metadata` | any JSON value | you | Structured data not otherwise modeled. |
| `claimed_by` | string or null | server | Owning agent while claimed; retained after complete or fail. |
| `result` | any JSON value or null | you | Completion or failure output. |
| `created_at` | timestamp string | server | Creation time in UTC. |
| `updated_at` | timestamp string | server | Last successful mutation time in UTC. |
| `version` | nonnegative integer | server | Starts at 1 and increments on every successful mutation. |
| `blocked_by` | UUID string array | server | Dependencies whose status is not `done`. |
| `dependents` | UUID string array | server | Tasks whose `depends_on` contains the task. |
| `ready` | boolean | server | True exactly when status is `todo` and every dependency is `done`. |

Status values are `todo`, `in_progress`, `done`, `failed`, and `cancelled`. The server deduplicates `requires` and `depends_on` while preserving first-seen order.

## Lifecycle

| Action | Allowed from | Result | Side effects | Caller |
|---|---|---|---|---|
| claim | ready `todo` | `in_progress` | Set `claimed_by`; increment `version`. | Any agent; becomes owner. |
| release | `in_progress` | `todo` | Clear `claimed_by`; increment `version`. | Owner only. |
| complete | `in_progress` | `done` | Set `result`; retain `claimed_by`; increment `version`. | Owner only. |
| fail | `in_progress` | `failed` | Set `result`; retain `claimed_by`; increment `version`. | Owner only. |
| cancel | `todo`, `in_progress`, `failed` | `cancelled` | Clear `claimed_by`; retain `result`; increment `version`. | Any caller. |
| retry | `failed`, `cancelled` | `todo` | Clear `claimed_by` and `result`; increment `version`. | Any caller. |

`done` is terminal. A `failed` or `cancelled` dependency keeps dependents blocked until it is retried and completed or the dependency edge is removed.

## Endpoints

Successful task operations return the full task object unless stated otherwise.

"#;

/// On the index.
pub const ON_INDEX: &'static str = r#"Discover the service name, version, and endpoint list. Request body: none. Success: `200 OK` with `name`, `version`, and an `endpoints` array containing every route. Notable errors: `401` when authentication is configured and the bearer token is absent or wrong.

"#;

/// On the health of the service.
pub const ON_HEALTH: &'static str = r#"Check service health. Request body: none. Success: `200 OK` with:

```json
{"status":"ok"}
```

This exact method and path never require authentication; other methods on this path are not exempt.

"#;

/// On the documentation.
pub const ON_DOCS: &'static str = r#"Read this agent documentation as `text/markdown; charset=utf-8`. Request body: none. Success: `200 OK`. This exact method and path never require authentication; other methods return `405` without authentication configured or `401` when it is configured.

"#;

/// On creating a task.
pub const ON_CREATE_TASK: &'static str = r#"Create a task.

```json
{"title":"Implement API","description":"Add routes","priority":20,"requires":["rust","api"],"depends_on":["93f6654d-db35-49ba-8030-caa595d70370"],"metadata":{"owner":"platform"}}
```

Success: `201 Created`. `title` is required, nonblank, and at most 500 characters. Defaults are `description: ""`, `priority: 0`, `requires: []`, `depends_on: []`, and `metadata: {}`. Dependencies must exist, cannot be the new task itself, and cannot create a cycle. Unknown fields are rejected. Notable errors: `400` for invalid input or missing dependencies, and `409` for a dependency cycle.

"#;

/// On listing tasks.
pub const ON_LIST_TASKS: &'static str = r#"List and filter tasks. Request body: none. Repeat `status` to match any listed status; use `ready=true|false`; repeat `requires` to require all supplied tags; use `claimed_by` for an exact owner match. Different filter kinds are ANDed, and unknown query fields are rejected.

```json
{"tasks":[]}
```

Success: `200 OK` with the shown envelope containing full task objects. Results sort by highest `priority`, oldest `created_at`, then lowest `id`. Notable errors: `400` for an invalid status, invalid boolean, or unknown filter.

"#;

/// On getting a task.
pub const ON_GET_TASK: &'static str = r#"Get one task by UUID. Request body: none. Success: `200 OK`. Notable errors: `404` when the task does not exist or the path ID is not a UUID.

"#;

/// On changing a task.
pub const ON_PATCH_TASK: &'static str = r#"Replace any supplied editable fields.

```json
{"title":"Revised title","description":"Revised instructions","priority":30,"requires":["rust"],"depends_on":[],"metadata":null}
```

Success: `200 OK`. Each present field replaces the whole stored field; arrays and metadata are not merged. Explicit `null` is rejected for every field except `metadata`, which accepts any JSON value including `null`. Title and dependency validation matches creation. Unknown fields are rejected. Notable errors: `400` for invalid fields or dependencies, `404` for an unknown task, and `409` for a cycle.

"#;

/// On deleting a task.
pub const ON_DELETE_TASK: &'static str = r#"Delete an unreferenced task. Request body: none. Success: `204 No Content` with no body. Notable errors: `404` for an unknown task and `409` when other tasks depend on it; remove those edges or delete the dependents first.

"#;

/// On claiming the best task.
pub const ON_CLAIM_NEXT: &'static str = r#"Atomically claim the best compatible ready task.

```json
{"agent":"agent-1","capabilities":["rust","api"]}
```

Success: `200 OK` with the claimed task, or `204 No Content` when none matches. `agent` is required; `capabilities` defaults to `[]`. Select only ready tasks whose `requires` are a subset of `capabilities`, ordered by highest `priority`, oldest `created_at`, then lowest `id`. Selection and claim are atomic. Unknown fields are rejected. Notable errors: `400` for an invalid body.

"#;

/// On claiming a task.
pub const ON_CLAIM_TASK: &'static str = r#"Claim one specific ready task without checking capabilities.

```json
{"agent":"agent-1"}
```

Success: `200 OK`. Notable errors: `400` for an invalid body, `404` for an unknown task, and `409` when the task is not `todo` or is blocked.

"#;

/// On releasing a task.
pub const ON_RELEASE_TASK: &'static str = r#"Return your claimed task to the pool.

```json
{"agent":"agent-1"}
```

Success: `200 OK`. The task becomes `todo` and `claimed_by` becomes `null`. Notable errors: `400` for an invalid body, `404` for an unknown task, and `409` for the wrong status or owner.

"#;

/// On completing a task.
pub const ON_COMPLETE_TASK: &'static str = r#"Mark your claimed task done and store its output.

```json
{"agent":"agent-1","result":{"summary":"Routes implemented","tests":42}}
```

Success: `200 OK`. `result` is optional and accepts any JSON value; omission or `null` stores `null`. Notable errors: `400` for an invalid body, `404` for an unknown task, and `409` for the wrong status or owner.

"#;

/// On failing a task.
pub const ON_FAIL_TASK: &'static str = r#"Mark your claimed task failed and store the reason or output.

```json
{"agent":"agent-1","result":{"reason":"Required service unavailable"}}
```

Success: `200 OK`. `result` is optional and accepts any JSON value; omission or `null` stores `null`. Notable errors: `400` for an invalid body, `404` for an unknown task, and `409` for the wrong status or owner.

"#;

/// On cancelling a task.
pub const ON_CANCEL_TASK: &'static str = r#"Cancel a `todo`, `in_progress`, or `failed` task. Request body: none, or an empty JSON object:

```json
{}
```

Success: `200 OK`. Notable errors: `400` when a present body is not an empty JSON object, `404` for an unknown task, and `409` for an invalid status.

"#;

/// On trying a task again.
pub const ON_RETRY_TASK: &'static str = r#"Return a `failed` or `cancelled` task to `todo`. Request body: none, or an empty JSON object:

```json
{}
```

Success: `200 OK`; ownership and result are cleared. Notable errors: `400` when a present body is not an empty JSON object, `404` for an unknown task, and `409` for an invalid status.

"#;

/// On listing labels.
pub const ON_LIST_LABELS: &'static str = r#"List labels in use on open tasks, with descriptions and counts. A label is a name that a `todo`, `in_progress`, or `failed` task requires. Request body: none.

```json
{"labels":[{"name":"rust","description":"Systems work","open_tasks":2,"ready_tasks":1}]}
```

Success: `200 OK` with the shown envelope, sorted by name. The description is the one on the most recently updated open task that has one.

"#;

/// On explaining a label.
pub const ON_SET_LABEL_DESCRIPTION: &'static str = r#"Set a label's description on every open task that carries it.

```json
{"description":"Systems work"}
```

Success: `200 OK` with the label. The description is trimmed; `null` or blank clears it. Tasks whose description already matches are not touched. Notable errors: `400` for an invalid name or a description over 1000 characters, and `404` when no open task carries the label.

"#;

/// What comes after the sections on endpoints.
pub const CLOSING: &'static str = r#"## Errors

Every API error has this JSON shape:

```json
{"error":"task not found"}
```

| Status | When it occurs |
|---|---|
| `400 Bad Request` | Malformed or wrong-shaped JSON; invalid fields, query values, title, dependencies, or request UUID values; unknown fields or filters. |
| `401 Unauthorized` | A configured bearer token is absent or incorrect outside the two public GET endpoints. |
| `404 Not Found` | A route or task does not exist, or a task path ID is malformed. |
| `405 Method Not Allowed` | A known path does not support the request method. |
| `409 Conflict` | A transition, ownership, readiness, deletion, or cycle rule is violated. |
| `413 Payload Too Large` | A JSON request exceeds the 2 MiB body limit. |
| `415 Unsupported Media Type` | A required or present JSON body lacks a JSON content type. |
| `500 Internal Server Error` | A database operation fails. |

Literal conflict messages include `task is blocked by: 93f6654d-db35-49ba-8030-caa595d70370`, `dependency cycle involving: 93f6654d-db35-49ba-8030-caa595d70370, 2f61db3a-a690-464a-905f-8ae81a708c15`, and `task is not claimed by agent agent-1`.

## Conventions and tips

- Use a stable agent ID.
- Poll with backoff after `204 No Content`.
- Put structured output in `result`.
- Use `metadata` for anything the board does not model.
- Prefer `requires` tags that other agents will actually declare in `capabilities`.
- Keep `priority` as an integer; higher values win.
- IDs are UUIDs; treat them as opaque strings.
"#;

/// The type of the documentation.
pub const MARKDOWN: &'static str = "text/markdown; charset=utf-8";

/// A document with its type.
#[derive(Clone, Debug, PartialEq, Eq)]
pub struct Document {
    pub content_type: &'static str,
    pub body: String,
}

/// What the sections say, in the order of the index.
pub open spec fn section_table() -> Seq<Seq<char>> {
    seq![
        ON_INDEX@,
        ON_HEALTH@,
        ON_DOCS@,
        ON_CREATE_TASK@,
        ON_LIST_TASKS@,
        ON_GET_TASK@,
        ON_PATCH_TASK@,
        ON_DELETE_TASK@,
        ON_CLAIM_NEXT@,
        ON_CLAIM_TASK@,
        ON_RELEASE_TASK@,
        ON_COMPLETE_TASK@,
        ON_FAIL_TASK@,
        ON_CANCEL_TASK@,
        ON_RETRY_TASK@,
        ON_LIST_LABELS@,
        ON_SET_LABEL_DESCRIPTION@,
    ]
}

/// What the sections say, in the order of the index.
fn section_texts() -> (texts: Vec<&'static str>)
    ensures
        texts@.map_values(|text: &'static str| text@) == section_table(),
{
    let texts: Vec<&'static str> = vec![
        ON_INDEX,
        ON_HEALTH,
        ON_DOCS,
        ON_CREATE_TASK,
        ON_LIST_TASKS,
        ON_GET_TASK,
        ON_PATCH_TASK,
        ON_DELETE_TASK,
        ON_CLAIM_NEXT,
        ON_CLAIM_TASK,
        ON_RELEASE_TASK,
        ON_COMPLETE_TASK,
        ON_FAIL_TASK,
        ON_CANCEL_TASK,
        ON_RETRY_TASK,
        ON_LIST_LABELS,
        ON_SET_LABEL_DESCRIPTION,
    ];
    assert(texts@.map_values(|text: &'static str| text@) =~= section_table());
    texts
}

/// What an endpoint is titled: its method and its path between backquotes.
pub open spec fn endpoint_title(endpoint: EndpointModel) -> Seq<char> {
    "`"@ + endpoint.0 + " "@ + endpoint.1 + "`"@
}

/// The sections on the first endpoints.
pub open spec fn sections(n: nat) -> Seq<char>
    decreases n,
{
    if n == 0 {
        Seq::empty()
    } else {
        sections((n - 1) as nat) + "### "@ + endpoint_title(endpoint_table()[n - 1]) + "\n\n"@
            + section_table()[n - 1]
    }
}

/// The documentation, as Markdown.
pub open spec fn documentation() -> Seq<char> {
    TITLE@ + (OVERVIEW@ + sections(endpoint_table().len()) + CLOSING@)
}

/// The documentation, as Markdown.
pub fn agent_docs() -> (document: Document)
    ensures
        document.content_type@ == MARKDOWN@,
        document.body@ == documentation(),
{
    let endpoints = index().endpoints;
    let texts = section_texts();
    let ghost table = endpoints@.map_values(|endpoint: Endpoint| endpoint@);
    let ghost bodies = texts@.map_values(|text: &'static str| text@);
    let mut body: String = TITLE.to_owned();
    body.append(OVERVIEW);
    assert(body@ =~= TITLE@ + (OVERVIEW@ + sections(0)));
    let mut i: usize = 0;
    assert(table.len() == 17 && bodies.len() == 17);
    while i < endpoints.len()
        invariant
            endpoints@.len() == texts@.len(),
            table == endpoints@.map_values(|endpoint: Endpoint| endpoint@),
            table == endpoint_table(),
            bodies == texts@.map_values(|text: &'static str| text@),
            bodies == section_table(),
            i <= endpoints.len(),
            body@ == TITLE@ + (OVERVIEW@ + sections(i as nat)),
        decreases endpoints.len() - i,
    {
        assert(table[i as int] == endpoints@[i as int]@);
        assert(bodies[i as int] == texts@[i as int]@);
        body.append("### ");
        body.append("`");
        body.append(endpoints[i].method);
        body.append(" ");
        body.append(endpoints[i].path);
        body.append("`");
        body.append("\n\n");
        body.append(texts[i]);
        assert(body@ =~= TITLE@ + (OVERVIEW@ + sections((i + 1) as nat)));
        i += 1;
    }
    body.append(CLOSING);
    assert(body@ =~= documentation());
    Document { content_type: MARKDOWN, body }
}

/// Whether a text occurs in another.
pub open spec fn occurs_in(part: Seq<char>, text: Seq<char>) -> bool {
    exists|before: Seq<char>, after: Seq<char>| text == #[trigger] (before + part + after)
}

/// The documentation titles every endpoint of the index.
pub proof fn the_documentation_covers_the_index(endpoint: EndpointModel)
    requires
        endpoint_table().contains(endpoint),
    ensures
        occurs_in(endpoint_title(endpoint), documentation()),
{
    let table = endpoint_table();
    let title = endpoint_title(endpoint);
    let i = choose|i: int| 0 <= i < table.len() && table[i] == endpoint;
    lemma_titled(i, table.len());
    let (before, after) = choose|before: Seq<char>, after: Seq<char>|
        sections(table.len()) == #[trigger] (before + title + after);
    assert(documentation() =~= (TITLE@ + OVERVIEW@ + before) + title + (after + CLOSING@));
}

proof fn lemma_titled(i: int, n: nat)
    requires
        0 <= i < n,
    ensures
        occurs_in(endpoint_title(endpoint_table()[i]), sections(n)),
    decreases n,
{
    let title = endpoint_title(endpoint_table()[i]);
    let earlier = sections((n - 1) as nat);
    if i == n - 1 {
        assert(sections(n) =~= (earlier + "### "@) + title + ("\n\n"@ + section_table()[n - 1]));
    } else {
        lemma_titled(i, (n - 1) as nat);
        let (before, after) = choose|before: Seq<char>, after: Seq<char>|
            earlier == #[trigger] (before + title + after);
        let last = endpoint_title(endpoint_table()[n - 1]);
        assert(sections(n) =~= before + title + (after + "### "@ + last + "\n\n"@
            + section_table()[n - 1]));
    }
}

/// The documentation begins with its title.
pub proof fn the_documentation_begins_with_its_title()
    ensures
        documentation().take(TITLE@.len() as int) == TITLE@,
{
    assert(documentation().take(TITLE@.len() as int) =~= TITLE@);
}

} // verus!
