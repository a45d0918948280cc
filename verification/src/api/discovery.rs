//! What the service tells of itself: its endpoints and its health.

use super::VERSION;
use vstd::prelude::*;

verus! {

/// A route of the service.
#[derive(Clone, Copy, Debug, PartialEq, Eq)]
pub struct Endpoint {
    pub method: &'static str,
    pub path: &'static str,
    pub description: &'static str,
}

/// A route of the service, mathematically: its method, its path and what it does.
pub type EndpointModel = (Seq<char>, Seq<char>, Seq<char>);

impl View for Endpoint {
    type V = EndpointModel;

    open spec fn view(&self) -> EndpointModel {
        (self.method@, self.path@, self.description@)
    }
}

/// The name, the version and the routes of the service.
#[derive(Clone, Debug, PartialEq, Eq)]
pub struct Index {
    pub name: &'static str,
    pub version: &'static str,
    pub endpoints: Vec<Endpoint>,
}

/// The health of the service.
#[derive(Clone, Copy, Debug, PartialEq, Eq)]
pub struct Health {
    pub status: &'static str,
}

/// The routes of the service.
pub open spec fn endpoint_table() -> Seq<EndpointModel> {
    seq![
        ("GET"@, "/"@, "Discover the API endpoints."@),
        ("GET"@, "/healthz"@, "Check service health."@),
        ("GET"@, "/docs.md"@, "Read the agent documentation as Markdown."@),
        ("POST"@, "/tasks"@, "Create a task."@),
        ("GET"@, "/tasks"@, "List and filter tasks."@),
        ("GET"@, "/tasks/{id}"@, "Get a task."@),
        ("PATCH"@, "/tasks/{id}"@, "Update a task."@),
        ("DELETE"@, "/tasks/{id}"@, "Delete a task."@),
        ("POST"@, "/tasks/claim"@, "Claim the best matching ready task."@),
        ("POST"@, "/tasks/{id}/claim"@, "Claim a ready task."@),
        ("POST"@, "/tasks/{id}/release"@, "Release a claimed task."@),
        ("POST"@, "/tasks/{id}/complete"@, "Complete a claimed task."@),
        ("POST"@, "/tasks/{id}/fail"@, "Fail a claimed task."@),
        ("POST"@, "/tasks/{id}/cancel"@, "Cancel a task."@),
        ("POST"@, "/tasks/{id}/retry"@, "Retry a failed or cancelled task."@),
        ("GET"@, "/labels"@, "List labels in use on open tasks, with descriptions and counts."@),
        (
            "PUT"@,
            "/labels/{name}"@,
            "Set a label's description on every open task that carries it."@,
        ),
    ]
}

/// A route of the service.
fn endpoint(method: &'static str, path: &'static str, description: &'static str) -> (endpoint:
    Endpoint)
    ensures
        endpoint@ == (method@, path@, description@),
{
    Endpoint { method, path, description }
}

/// The name, the version and the routes of the service.
pub fn index() -> (index: Index)
    ensures
        index.name@ == "orcis"@,
        index.version@ == VERSION@,
        index.endpoints@.map_values(|endpoint: Endpoint| endpoint@) == endpoint_table(),
{
    let endpoints = vec![
        endpoint("GET", "/", "Discover the API endpoints."),
        endpoint("GET", "/healthz", "Check service health."),
        endpoint("GET", "/docs.md", "Read the agent documentation as Markdown."),
        endpoint("POST", "/tasks", "Create a task."),
        endpoint("GET", "/tasks", "List and filter tasks."),
        endpoint("GET", "/tasks/{id}", "Get a task."),
        endpoint("PATCH", "/tasks/{id}", "Update a task."),
        endpoint("DELETE", "/tasks/{id}", "Delete a task."),
        endpoint("POST", "/tasks/claim", "Claim the best matching ready task."),
        endpoint("POST", "/tasks/{id}/claim", "Claim a ready task."),
        endpoint("POST", "/tasks/{id}/release", "Release a claimed task."),
        endpoint("POST", "/tasks/{id}/complete", "Complete a claimed task."),
        endpoint("POST", "/tasks/{id}/fail", "Fail a claimed task."),
        endpoint("POST", "/tasks/{id}/cancel", "Cancel a task."),
        endpoint("POST", "/tasks/{id}/retry", "Retry a failed or cancelled task."),
        endpoint(
            "GET",
            "/labels",
            "List labels in use on open tasks, with descriptions and counts.",
        ),
        endpoint(
            "PUT",
            "/labels/{name}",
            "Set a label's description on every open task that carries it.",
        ),
    ];
    assert(endpoints@.map_values(|endpoint: Endpoint| endpoint@) =~= endpoint_table());
    Index { name: "orcis", version: VERSION, endpoints }
}

/// The health of a service that answers.
pub fn health() -> (health: Health)
    ensures
        health.status@ == "ok"@,
{
    Health { status: "ok" }
}

} // verus!
