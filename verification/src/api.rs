//! What callers are answered: statuses, errors, filters, authorization and the
//! operations behind the routes.

pub mod discovery;
pub mod docs;
pub mod handlers;

use crate::board::asks_for;
use crate::ids::{parsed_uuid, scan_uuid, uuid_text, Uuid};
use crate::model::{
    optional_text, requirement_models, texts, Requirement, Status, TaskView, TaskViewModel,
};
use crate::promises::queries::{says, the_filters_hold_every_field};
use crate::rules::{joined, status_named, status_of, Fault, StoreError};
use crate::store::Store;
use crate::text::same;
use vstd::prelude::*;

verus! {

/// The request was carried out.
pub const OK: u16 = 200;

/// A task was created.
pub const CREATED: u16 = 201;

/// The request was carried out and there is nothing to send.
pub const NO_CONTENT: u16 = 204;

/// The request is malformed or breaks a rule on what may be written.
pub const BAD_REQUEST: u16 = 400;

/// The request lacks the configured token.
pub const UNAUTHORIZED: u16 = 401;

/// There is nothing under the given path or identifier.
pub const NOT_FOUND: u16 = 404;

/// The path does not support the method.
pub const METHOD_NOT_ALLOWED: u16 = 405;

/// The request breaks a rule on transitions, ownership, readiness or
/// dependencies.
pub const CONFLICT: u16 = 409;

/// The body is not of the expected shape.
pub const UNPROCESSABLE_ENTITY: u16 = 422;

/// The board could not be read or written.
pub const INTERNAL_SERVER_ERROR: u16 = 500;

/// The version of the service.
pub const VERSION: &'static str = "0.1.0";

/// A JSON body.
#[derive(Clone, Debug, PartialEq, Eq)]
pub struct Json<T>(pub T);

/// An answer with its status.
#[derive(Clone, Debug, PartialEq, Eq)]
pub struct Reply<T> {
    pub status: u16,
    pub body: Json<T>,
}

/// An answer that tells what is wrong. What went wrong inside is not told, and is kept
/// as its cause.
#[derive(Clone, Debug, PartialEq, Eq)]
pub struct ApiError {
    status: u16,
    message: String,
    cause: Option<String>,
}

/// An answer that tells what is wrong, mathematically.
pub struct ErrorModel {
    pub status: u16,
    pub message: Seq<char>,
    pub cause: Option<Seq<char>>,
}

impl View for ApiError {
    type V = ErrorModel;

    closed spec fn view(&self) -> ErrorModel {
        ErrorModel {
            status: self.status,
            message: self.message@,
            cause: optional_text(self.cause),
        }
    }
}

/// An answer that tells what is wrong and that nothing went wrong inside.
pub open spec fn refusal(status: u16, message: Seq<char>) -> ErrorModel {
    ErrorModel { status, message, cause: None }
}

/// The answer to a request that the board refuses.
pub open spec fn error_of(fault: Fault) -> ErrorModel {
    match fault {
        Fault::NotFound => refusal(NOT_FOUND, "task not found"@),
        Fault::Internal(cause) => ErrorModel {
            status: INTERNAL_SERVER_ERROR,
            message: "internal error"@,
            cause: Some(cause),
        },
        Fault::Invalid(message) => refusal(BAD_REQUEST, message),
        Fault::Conflict(message) => refusal(CONFLICT, message),
    }
}

impl ApiError {
    /// The status of the answer.
    pub fn status(&self) -> (status: u16)
        ensures
            status == self@.status,
    {
        self.status
    }

    /// What is wrong.
    pub fn message(&self) -> (message: &str)
        ensures
            message@ == self@.message,
    {
        self.message.as_str()
    }

    /// What went wrong inside, where anything did.
    pub fn cause(&self) -> (cause: Option<&str>)
        ensures
            match cause {
                Some(text) => self@.cause == Some(text@),
                None => self@.cause is None,
            },
    {
        match &self.cause {
            Some(text) => Some(text.as_str()),
            None => None,
        }
    }

    /// The answer to a malformed request.
    pub fn bad_request(message: &str) -> (error: ApiError)
        ensures
            error@ == refusal(BAD_REQUEST, message@),
    {
        ApiError { status: BAD_REQUEST, message: message.to_owned(), cause: None }
    }

    /// The answer to a request for what does not exist.
    pub fn not_found(message: &str) -> (error: ApiError)
        ensures
            error@ == refusal(NOT_FOUND, message@),
    {
        ApiError { status: NOT_FOUND, message: message.to_owned(), cause: None }
    }

    /// The answer to a body that cannot be read, by the status and the text of its
    /// rejection. A body of the wrong shape counts as malformed.
    pub fn from_json_rejection(status: u16, body_text: String) -> (error: ApiError)
        ensures
            error@ == refusal(
                if status == UNPROCESSABLE_ENTITY {
                    BAD_REQUEST
                } else {
                    status
                },
                body_text@,
            ),
    {
        let status: u16 = if status == UNPROCESSABLE_ENTITY {
            BAD_REQUEST
        } else {
            status
        };
        ApiError { status, message: body_text, cause: None }
    }

    /// The answer to a request that the board refuses.
    pub fn from_store(error: StoreError) -> (answer: ApiError)
        ensures
            answer@ == error_of(error@),
    {
        match error {
            StoreError::NotFound => ApiError::not_found("task not found"),
            StoreError::Internal(cause) => ApiError {
                status: INTERNAL_SERVER_ERROR,
                message: "internal error".to_owned(),
                cause: Some(cause),
            },
            StoreError::Invalid(message) => ApiError { status: BAD_REQUEST, message, cause: None },
            StoreError::Conflict(message) => ApiError { status: CONFLICT, message, cause: None },
        }
    }
}

impl From<StoreError> for ApiError {
    fn from(error: StoreError) -> (answer: ApiError)
        ensures
            answer@ == error_of(error@),
    {
        ApiError::from_store(error)
    }
}

impl vstd::std_specs::convert::FromSpecImpl<StoreError> for ApiError {
    open spec fn obeys_from_spec() -> bool {
        false
    }

    open spec fn from_spec(error: StoreError) -> ApiError {
        choose|answer: ApiError| answer@ == error_of(error@)
    }
}

/// The answer to a path that does not exist.
pub fn fallback() -> (error: ApiError)
    ensures
        error@ == refusal(NOT_FOUND, "not found"@),
{
    ApiError::not_found("not found")
}

/// The answer to a method that a path does not support.
pub fn method_not_allowed() -> (error: ApiError)
    ensures
        error@ == refusal(METHOD_NOT_ALLOWED, "method not allowed"@),
{
    ApiError { status: METHOD_NOT_ALLOWED, message: "method not allowed".to_owned(), cause: None }
}

/// What the `Authorization` header must hold for a token.
pub open spec fn authorization(token: Option<Seq<char>>) -> Option<Seq<char>> {
    match token {
        Some(token) => Some("Bearer "@ + token),
        None => None,
    }
}

/// The board and what callers must prove to use it.
#[derive(Debug)]
pub struct AppState {
    pub store: Store,
    expected_authorization: Option<String>,
}

impl AppState {
    /// The board.
    pub closed spec fn held(&self) -> Store {
        self.store
    }

    /// What the `Authorization` header must hold, where a token is configured.
    pub closed spec fn expected(&self) -> Option<Seq<char>> {
        optional_text(self.expected_authorization)
    }

    /// The board for callers that know the token, where one is configured.
    pub fn new(store: Store, token: Option<String>) -> (state: AppState)
        ensures
            state.held() == store,
            state.expected() == authorization(optional_text(token)),
    {
        let expected_authorization = match token {
            Some(token) => Some(joined("Bearer ", token.as_str())),
            None => None,
        };
        AppState { store, expected_authorization }
    }

    /// Whether a request may be carried out, by its method, its path and its
    /// `Authorization` header.
    pub fn authorize(&self, method: &str, path: &str, header: Option<&str>) -> (result: Result<
        (),
        ApiError,
    >)
        ensures
            match result {
                Ok(_) => is_authorized(method@, path@, header_text(header), self.expected()),
                Err(error) => !is_authorized(method@, path@, header_text(header), self.expected())
                    && error@ == refusal(UNAUTHORIZED, "unauthorized"@),
            },
    {
        if same(method, "GET") && (same(path, "/healthz") || same(path, "/docs.md")) {
            return Ok(());
        }
        let allowed = match &self.expected_authorization {
            None => true,
            Some(expected) => match header {
                Some(given) => same(given, expected.as_str()),
                None => false,
            },
        };
        if allowed {
            Ok(())
        } else {
            Err(ApiError { status: UNAUTHORIZED, message: "unauthorized".to_owned(), cause: None })
        }
    }
}

/// A header by its characters.
pub open spec fn header_text(header: Option<&str>) -> Option<Seq<char>> {
    match header {
        Some(text) => Some(text@),
        None => None,
    }
}

/// Whether a request may be carried out: everyone may check the health and read
/// the documentation, and the rest is for those who know the token, where one is
/// configured.
pub open spec fn is_authorized(
    method: Seq<char>,
    path: Seq<char>,
    header: Option<Seq<char>>,
    expected: Option<Seq<char>>,
) -> bool {
    ||| method == "GET"@ && (path == "/healthz"@ || path == "/docs.md"@)
    ||| expected is None
    ||| header == expected
}

/// Without a token nothing is refused.
pub proof fn no_token_means_no_refusal(
    method: Seq<char>,
    path: Seq<char>,
    header: Option<Seq<char>>,
)
    ensures
        is_authorized(method, path, header, authorization(None)),
{
}

/// With a token, a request outside the two public ones is carried out exactly when
/// it brings that token.
pub proof fn a_token_guards_the_rest(
    method: Seq<char>,
    path: Seq<char>,
    header: Option<Seq<char>>,
    token: Seq<char>,
)
    requires
        method != "GET"@ || (path != "/healthz"@ && path != "/docs.md"@),
    ensures
        is_authorized(method, path, header, authorization(Some(token))) <==> header == Some(
            "Bearer "@ + token,
        ),
{
}

/// The task that a path names. What is no identifier names no task, and the text of
/// an identifier names its own.
pub fn parse_task_id(value: &str) -> (result: Result<Uuid, ApiError>)
    ensures
        forall|id: Uuid|
            value@ == #[trigger] uuid_text(id) ==> (result matches Ok(named) && named == id),
        match result {
            Ok(id) => parsed_uuid(value@) == Ok::<Uuid, uuid::Error>(id),
            Err(error) => parsed_uuid(value@) is Err && error@ == error_of(Fault::NotFound),
        },
{
    match scan_uuid(value) {
        Ok(id) => Ok(id),
        Err(_) => Err(ApiError::not_found("task not found")),
    }
}

/// Which tasks a caller asks for.
#[derive(Clone, Debug, PartialEq, Eq)]
pub struct Filters {
    pub statuses: Vec<Status>,
    pub ready: Option<bool>,
    pub requires: Vec<String>,
    pub claimed_by: Option<String>,
}

/// Which tasks a caller asks for, mathematically.
#[verifier::ext_equal]
pub struct FiltersModel {
    pub statuses: Seq<Status>,
    pub ready: Option<bool>,
    pub requires: Seq<Seq<char>>,
    pub claimed_by: Option<Seq<char>>,
}

impl View for Filters {
    type V = FiltersModel;

    open spec fn view(&self) -> FiltersModel {
        FiltersModel {
            statuses: self.statuses@,
            ready: self.ready,
            requires: texts(self.requires@),
            claimed_by: optional_text(self.claimed_by),
        }
    }
}

/// The query fields of a request, mathematically.
pub open spec fn field_models(fields: Seq<(String, String)>) -> Seq<(Seq<char>, Seq<char>)> {
    fields.map_values(|field: (String, String)| (field.0@, field.1@))
}

/// What is wrong with a query field.
pub open spec fn field_error(field: (Seq<char>, Seq<char>)) -> Option<ErrorModel> {
    let (name, value) = field;
    if name == "status"@ {
        if status_of(value) is None {
            Some(refusal(BAD_REQUEST, "invalid status filter: "@ + value))
        } else {
            None
        }
    } else if name == "ready"@ {
        if value != "true"@ && value != "false"@ {
            Some(refusal(BAD_REQUEST, "ready must be true or false"@))
        } else {
            None
        }
    } else if name == "requires"@ || name == "claimed_by"@ {
        None
    } else {
        Some(refusal(BAD_REQUEST, "unknown query field: "@ + name))
    }
}

/// What is wrong with the first query field that is wrong.
pub open spec fn fields_error(fields: Seq<(Seq<char>, Seq<char>)>) -> Option<ErrorModel>
    decreases fields.len(),
{
    if fields.len() == 0 {
        None
    } else if fields_error(fields.drop_last()) is Some {
        fields_error(fields.drop_last())
    } else {
        field_error(fields.last())
    }
}

/// Which tasks query fields ask for: a field of the name `status` or `requires`
/// adds to those before it, and one of the name `ready` or `claimed_by` replaces
/// them.
pub open spec fn filters_of(fields: Seq<(Seq<char>, Seq<char>)>) -> FiltersModel
    decreases fields.len(),
{
    if fields.len() == 0 {
        FiltersModel {
            statuses: Seq::empty(),
            ready: None,
            requires: Seq::empty(),
            claimed_by: None,
        }
    } else {
        let earlier = filters_of(fields.drop_last());
        let (name, value) = fields.last();
        if name == "status"@ {
            FiltersModel { statuses: earlier.statuses.push(status_of(value)->0), ..earlier }
        } else if name == "ready"@ {
            FiltersModel { ready: Some(value == "true"@), ..earlier }
        } else if name == "requires"@ {
            FiltersModel { requires: earlier.requires.push(value), ..earlier }
        } else {
            FiltersModel { claimed_by: Some(value), ..earlier }
        }
    }
}

/// Whether a task is one that a caller asks for: its status is one of those asked
/// for, where any is; it is ready or not, as asked; it requires everything asked
/// for; and its agent is the one asked for.
pub open spec fn is_asked_for(filters: FiltersModel, view: TaskViewModel) -> bool {
    &&& filters.statuses.len() == 0 || filters.statuses.contains(view.task.status)
    &&& filters.ready matches Some(ready) ==> view.ready == ready
    &&& forall|i: int|
        0 <= i < filters.requires.len() ==> asks_for(
            view.task.requires,
            #[trigger] filters.requires[i],
        )
    &&& filters.claimed_by matches Some(agent) ==> view.task.claimed_by == Some(agent)
}

/// Those of the tasks that a caller asks for.
pub open spec fn asked_for(filters: FiltersModel, views: Seq<TaskViewModel>) -> Seq<TaskViewModel> {
    views.filter(|view: TaskViewModel| is_asked_for(filters, view))
}

proof fn lemma_fields_error_stays(fields: Seq<(Seq<char>, Seq<char>)>, n: int)
    requires
        0 <= n <= fields.len(),
        fields_error(fields.take(n)) is Some,
    ensures
        fields_error(fields) == fields_error(fields.take(n)),
    decreases fields.len() - n,
{
    if n == fields.len() {
        assert(fields.take(n) =~= fields);
    } else {
        assert(fields.take(n + 1).drop_last() =~= fields.take(n));
        lemma_fields_error_stays(fields, n + 1);
    }
}

/// The status that a query asks for.
fn parse_status(value: &str) -> (result: Result<Status, ApiError>)
    ensures
        match result {
            Ok(status) => status_of(value@) == Some(status),
            Err(error) => status_of(value@) is None && error@ == refusal(
                BAD_REQUEST,
                "invalid status filter: "@ + value@,
            ),
        },
{
    match status_named(value) {
        Some(status) => Ok(status),
        None => Err(ApiError::bad_request(joined("invalid status filter: ", value).as_str())),
    }
}

/// Whether one of the requirements has the given name.
fn names(list: &Vec<Requirement>, name: &str) -> (found: bool)
    ensures
        found == asks_for(requirement_models(list@), name@),
{
    let ghost models = requirement_models(list@);
    let mut i: usize = 0;
    while i < list.len()
        invariant
            models == requirement_models(list@),
            i <= list.len(),
            forall|k: int| 0 <= k < i ==> (#[trigger] models[k]).name != name@,
        decreases list.len() - i,
    {
        assert(models[i as int].name == list@[i as int].name@);
        if same(list[i].name.as_str(), name) {
            return true;
        }
        i += 1;
    }
    false
}

impl Filters {
    /// Which tasks query fields ask for.
    pub fn parse(parameters: Vec<(String, String)>) -> (result: Result<Filters, ApiError>)
        ensures
            match result {
                Ok(filters) => fields_error(field_models(parameters@)) is None && filters@
                    == filters_of(field_models(parameters@)),
                Err(error) => fields_error(field_models(parameters@)) == Some(error@),
            },
            result matches Ok(filters) ==> forall|status: Status| #[trigger]
                filters.statuses@.contains(status) <==> exists|k: int|
                    0 <= k < parameters@.len() && (#[trigger] parameters@[k]).0@ == "status"@
                        && says(parameters@[k].1@, status),
    {
        let ghost given = parameters@;
        let ghost fields = field_models(parameters@);
        let mut filters = Filters {
            statuses: Vec::new(),
            ready: None,
            requires: Vec::new(),
            claimed_by: None,
        };
        assert(filters@ =~= filters_of(fields.take(0)));
        for parameter in it: parameters
            invariant
                it.seq() == parameters@,
                fields == field_models(parameters@),
                fields_error(fields.take(it.index() as int)) is None,
                filters@ == filters_of(fields.take(it.index() as int)),
        {
            let ghost i: int = it.index() as int;
            let ghost before = filters@;
            proof {
                assert(fields.take(i + 1).drop_last() =~= fields.take(i));
                assert(fields.take(i + 1).last() == fields[i]);
                if field_error(fields[i]) is Some {
                    lemma_fields_error_stays(fields, i + 1);
                }
            }
            let (name, value) = parameter;
            assert(fields[i] == (name@, value@));
            proof {
                lemma_field_names();
            }
            if same(name.as_str(), "status") {
                match parse_status(value.as_str()) {
                    Ok(status) => {
                        filters.statuses.push(status);
                    },
                    Err(error) => {
                        return Err(error);
                    },
                }
            } else if same(name.as_str(), "ready") {
                if same(value.as_str(), "true") {
                    filters.ready = Some(true);
                } else if same(value.as_str(), "false") {
                    filters.ready = Some(false);
                } else {
                    return Err(ApiError::bad_request("ready must be true or false"));
                }
            } else if same(name.as_str(), "requires") {
                filters.requires.push(value);
                assert(filters@.requires =~= before.requires.push(fields[i].1));
            } else if same(name.as_str(), "claimed_by") {
                filters.claimed_by = Some(value);
            } else {
                return Err(
                    ApiError::bad_request(joined("unknown query field: ", name.as_str()).as_str()),
                );
            }
            assert(filters@ =~= filters_of(fields.take(i + 1)));
        }
        assert(fields.take(fields.len() as int) =~= fields);
        proof {
            the_filters_hold_every_field(given, filters);
        }
        Ok(filters)
    }

    /// Whether a task is one that a caller asks for.
    pub fn matches(&self, view: &TaskView) -> (result: bool)
        ensures
            result == is_asked_for(self@, view@),
    {
        if self.statuses.len() > 0 {
            let mut found = false;
            let mut i: usize = 0;
            while i < self.statuses.len()
                invariant
                    i <= self.statuses.len(),
                    found ==> self.statuses@.contains(view.task.status),
                    !found ==> forall|k: int|
                        0 <= k < i ==> self.statuses@[k] != view.task.status,
                decreases self.statuses.len() - i,
            {
                if self.statuses[i] == view.task.status {
                    assert(self.statuses@[i as int] == view.task.status);
                    found = true;
                }
                i += 1;
            }
            if !found {
                return false;
            }
        }
        if let Some(ready) = self.ready {
            if view.ready != ready {
                return false;
            }
        }
        let mut i: usize = 0;
        while i < self.requires.len()
            invariant
                i <= self.requires.len(),
                forall|k: int|
                    0 <= k < i ==> asks_for(
                        view@.task.requires,
                        #[trigger] self@.requires[k],
                    ),
            decreases self.requires.len() - i,
        {
            assert(self@.requires[i as int] == self.requires@[i as int]@);
            if !names(&view.task.requires, self.requires[i].as_str()) {
                return false;
            }
            i += 1;
        }
        match &self.claimed_by {
            None => true,
            Some(agent) => match &view.task.claimed_by {
                Some(owner) => same(owner.as_str(), agent.as_str()),
                None => false,
            },
        }
    }
}

/// The names of query fields differ.
proof fn lemma_field_names()
    ensures
        "true"@ != "false"@,
        "status"@ != "ready"@,
        "status"@ != "requires"@,
        "status"@ != "claimed_by"@,
        "ready"@ != "requires"@,
        "ready"@ != "claimed_by"@,
        "requires"@ != "claimed_by"@,
{
    reveal_strlit("true");
    reveal_strlit("false");
    reveal_strlit("status");
    reveal_strlit("ready");
    reveal_strlit("requires");
    reveal_strlit("claimed_by");
    assert("true"@.len() == 4 && "false"@.len() == 5);
    assert("status"@.len() == 6 && "ready"@.len() == 5);
    assert("requires"@.len() == 8 && "claimed_by"@.len() == 10);
}

} // verus!
