//! Rows: the values that a database keeps of tasks and artifacts, and what they
//! are read back as.

use crate::board::{FiledModel, RecordModel};
use crate::ids::{
    parsed_uuid, print_uuid, print_uuid_error, scan_uuid, uuid_error_text, uuid_text, Uuid,
};
use crate::json::{
    json_error_text, json_text, null, null_value, parsed_json, print_json, print_json_error,
    scan_json,
};
use crate::model::{
    copy_text, optional_text, Artifact, ArtifactModel, RequirementModel, Status, Task, TaskModel,
};
use crate::rules::{
    integer_fault, joined, sql_integer, status_named, status_of, status_text, status_word, Fault,
    StoreError,
};
use crate::store::{Filed, Record};
use crate::text::same;
use crate::time::{
    in_range, parsed_timestamp, print_time_error, time_error_text, timestamp_text, Timestamp,
    MIN_NANOSECOND,
};
use serde_json::Value;
use vstd::prelude::*;
use vstd::std_specs::convert::TryFromSpec;

verus! {

/// The columns of a row of the table of tasks beside its identifier.
#[derive(Clone, Debug, PartialEq, Eq)]
pub struct TaskColumns {
    pub title: String,
    pub description: String,
    pub status: String,
    pub priority: i64,
    pub metadata: String,
    pub claimed_by: Option<String>,
    pub result: Option<String>,
    pub created_at: String,
    pub updated_at: String,
    pub version: i64,
    pub closed_at: Option<String>,
}

/// A row of the table of tasks.
#[derive(Clone, Debug, PartialEq, Eq)]
pub struct TaskRow {
    pub id: String,
    pub columns: TaskColumns,
}

/// A row of the table of tasks under the identifier that it stands for.
#[derive(Clone, Debug, PartialEq, Eq)]
pub struct KeptTask {
    pub id: Uuid,
    pub columns: TaskColumns,
}

/// A row of the table of requirements.
#[derive(Clone, Debug, PartialEq, Eq)]
pub struct RequirementRow {
    pub task_id: Uuid,
    pub name: String,
    pub description: Option<String>,
}

/// A row of the table of dependencies.
#[derive(Clone, Copy, Debug, PartialEq, Eq)]
pub struct DependencyRow {
    pub task_id: Uuid,
    pub depends_on: Uuid,
}

/// The columns of a row of the table of artifacts beside its identifiers.
#[derive(Clone, Debug, PartialEq, Eq)]
pub struct ArtifactColumns {
    pub filename: String,
    pub content_type: String,
    pub size_bytes: i64,
    pub created_at: String,
}

/// A row of the table of artifacts.
#[derive(Clone, Debug, PartialEq, Eq)]
pub struct ArtifactRow {
    pub id: String,
    pub task_id: String,
    pub columns: ArtifactColumns,
}

/// A row of the table of artifacts under the identifiers that it stands for.
#[derive(Clone, Debug, PartialEq, Eq)]
pub struct KeptArtifact {
    pub id: Uuid,
    pub task_id: Uuid,
    pub columns: ArtifactColumns,
}

/// The columns of a row of the table of tasks, mathematically.
pub struct TaskColumnsModel {
    pub title: Seq<char>,
    pub description: Seq<char>,
    pub status: Seq<char>,
    pub priority: i64,
    pub metadata: Seq<char>,
    pub claimed_by: Option<Seq<char>>,
    pub result: Option<Seq<char>>,
    pub created_at: Seq<char>,
    pub updated_at: Seq<char>,
    pub version: i64,
    pub closed_at: Option<Seq<char>>,
}

impl View for TaskColumns {
    type V = TaskColumnsModel;

    open spec fn view(&self) -> TaskColumnsModel {
        TaskColumnsModel {
            title: self.title@,
            description: self.description@,
            status: self.status@,
            priority: self.priority,
            metadata: self.metadata@,
            claimed_by: optional_text(self.claimed_by),
            result: optional_text(self.result),
            created_at: self.created_at@,
            updated_at: self.updated_at@,
            version: self.version,
            closed_at: optional_text(self.closed_at),
        }
    }
}

/// A row of the table of tasks, mathematically.
pub struct TaskRowModel {
    pub id: Seq<char>,
    pub columns: TaskColumnsModel,
}

impl View for TaskRow {
    type V = TaskRowModel;

    open spec fn view(&self) -> TaskRowModel {
        TaskRowModel { id: self.id@, columns: self.columns@ }
    }
}

/// A row of the table of tasks under its identifier, mathematically.
pub struct KeptTaskModel {
    pub id: Uuid,
    pub columns: TaskColumnsModel,
}

impl View for KeptTask {
    type V = KeptTaskModel;

    open spec fn view(&self) -> KeptTaskModel {
        KeptTaskModel { id: self.id, columns: self.columns@ }
    }
}

/// A row of the table of requirements, mathematically.
pub struct RequirementRowModel {
    pub task_id: Uuid,
    pub requirement: RequirementModel,
}

impl View for RequirementRow {
    type V = RequirementRowModel;

    open spec fn view(&self) -> RequirementRowModel {
        RequirementRowModel {
            task_id: self.task_id,
            requirement: RequirementModel {
                name: self.name@,
                description: optional_text(self.description),
            },
        }
    }
}

/// The columns of a row of the table of artifacts, mathematically.
pub struct ArtifactColumnsModel {
    pub filename: Seq<char>,
    pub content_type: Seq<char>,
    pub size_bytes: i64,
    pub created_at: Seq<char>,
}

impl View for ArtifactColumns {
    type V = ArtifactColumnsModel;

    open spec fn view(&self) -> ArtifactColumnsModel {
        ArtifactColumnsModel {
            filename: self.filename@,
            content_type: self.content_type@,
            size_bytes: self.size_bytes,
            created_at: self.created_at@,
        }
    }
}

/// A row of the table of artifacts, mathematically.
pub struct ArtifactRowModel {
    pub id: Seq<char>,
    pub task_id: Seq<char>,
    pub columns: ArtifactColumnsModel,
}

impl View for ArtifactRow {
    type V = ArtifactRowModel;

    open spec fn view(&self) -> ArtifactRowModel {
        ArtifactRowModel { id: self.id@, task_id: self.task_id@, columns: self.columns@ }
    }
}

/// A row of the table of artifacts under its identifiers, mathematically.
pub struct KeptArtifactModel {
    pub id: Uuid,
    pub task_id: Uuid,
    pub columns: ArtifactColumnsModel,
}

impl View for KeptArtifact {
    type V = KeptArtifactModel;

    open spec fn view(&self) -> KeptArtifactModel {
        KeptArtifactModel { id: self.id, task_id: self.task_id, columns: self.columns@ }
    }
}

/// A copy of the columns of a task.
pub fn copy_task_columns(columns: &TaskColumns) -> (copy: TaskColumns)
    ensures
        copy@ == columns@,
{
    TaskColumns {
        title: columns.title.clone(),
        description: columns.description.clone(),
        status: columns.status.clone(),
        priority: columns.priority,
        metadata: columns.metadata.clone(),
        claimed_by: copy_text(&columns.claimed_by),
        result: copy_text(&columns.result),
        created_at: columns.created_at.clone(),
        updated_at: columns.updated_at.clone(),
        version: columns.version,
        closed_at: copy_text(&columns.closed_at),
    }
}

/// A copy of the columns of an artifact.
pub fn copy_artifact_columns(columns: &ArtifactColumns) -> (copy: ArtifactColumns)
    ensures
        copy@ == columns@,
{
    ArtifactColumns {
        filename: columns.filename.clone(),
        content_type: columns.content_type.clone(),
        size_bytes: columns.size_bytes,
        created_at: columns.created_at.clone(),
    }
}

/// What a column was meant to hold.
#[derive(Clone, Copy, Debug, PartialEq, Eq, Structural)]
pub enum ValueType {
    Integer,
    Text,
}

#[verifier::external_type_specification]
#[verifier::external_body]
pub struct ExSqlError(rusqlite::Error);

/// What an error of the `rusqlite` crate prints.
pub uninterp spec fn sql_error_text(error: rusqlite::Error) -> Seq<char>;

/// What an error of an integer conversion prints.
pub uninterp spec fn range_error_text(error: std::num::TryFromIntError) -> Seq<char>;

/// A number in decimal digits.
pub open spec fn decimal_text(n: nat) -> Seq<char>
    decreases n,
{
    let digit = seq![(0x30 + n % 10) as char];
    if n < 10 {
        digit
    } else {
        decimal_text(n / 10) + digit
    }
}

/// The word for what a column was meant to hold.
pub open spec fn type_word(value_type: ValueType) -> Seq<char> {
    match value_type {
        ValueType::Integer => "Integer"@,
        ValueType::Text => "Text"@,
    }
}

/// What is said of a column that cannot be read.
pub open spec fn conversion_text(
    index: nat,
    value_type: ValueType,
    message: Seq<char>,
) -> Seq<char> {
    "Conversion error from type "@ + type_word(value_type) + " at index: "@ + decimal_text(index)
        + ", "@ + message
}

/// `rusqlite::Error::FromSqlConversionFailure`: it prints the type, the column and
/// the message. The greatest column number stands for an unknown one and prints
/// otherwise.
#[verifier::external_body]
fn conversion_error(index: usize, value_type: ValueType, message: String) -> (error:
    rusqlite::Error)
    requires
        index < usize::MAX,
    ensures
        sql_error_text(error) == conversion_text(index as nat, value_type, message@),
{
    let value_type = match value_type {
        ValueType::Integer => rusqlite::types::Type::Integer,
        ValueType::Text => rusqlite::types::Type::Text,
    };
    rusqlite::Error::FromSqlConversionFailure(index, value_type, message.into())
}

/// `rusqlite::Error`'s `Display`: a function of the error alone.
#[verifier::external_body]
pub(crate) fn sql_message(error: &rusqlite::Error) -> (text: String)
    ensures
        text@ == sql_error_text(*error),
{
    error.to_string()
}

/// The `Display` of `std::num::TryFromIntError`: a function of the error alone.
#[verifier::external_body]
fn print_range_error(error: &std::num::TryFromIntError) -> (text: String)
    ensures
        text@ == range_error_text(*error),
{
    error.to_string()
}

/// An error of the database, as the board reports it.
pub fn internal_error(error: &rusqlite::Error) -> (result: StoreError)
    ensures
        result@ == Fault::Internal(sql_error_text(*error)),
{
    StoreError::Internal(sql_message(error))
}

impl From<rusqlite::Error> for StoreError {
    fn from(error: rusqlite::Error) -> (result: StoreError)
        ensures
            result@ == Fault::Internal(sql_error_text(error)),
    {
        internal_error(&error)
    }
}

impl vstd::std_specs::convert::FromSpecImpl<rusqlite::Error> for StoreError {
    open spec fn obeys_from_spec() -> bool {
        false
    }

    open spec fn from_spec(error: rusqlite::Error) -> StoreError {
        choose|result: StoreError| result@ == Fault::Internal(sql_error_text(error))
    }
}

/// The text of an identifier reads back as that identifier.
pub open spec fn reads_back(text: Seq<char>) -> bool {
    forall|id: Uuid|
        text == #[trigger] uuid_text(id) ==> parsed_uuid(text) == Ok::<Uuid, uuid::Error>(id)
}

/// The text of a point in time reads back as that point in time.
pub open spec fn time_reads_back(text: Seq<char>) -> bool {
    forall|n: i128|
        in_range(n as int) && text == #[trigger] timestamp_text(n as int) ==> parsed_timestamp(text)
            == Ok::<i128, jiff::Error>(n)
}

/// An identifier in a column.
pub open spec fn uuid_field(index: nat, text: Seq<char>) -> Result<Uuid, Seq<char>> {
    match parsed_uuid(text) {
        Ok(id) => Ok(id),
        Err(error) => Err(conversion_text(index, ValueType::Text, uuid_error_text(error))),
    }
}

/// A point in time in a column.
pub open spec fn time_field(index: nat, text: Seq<char>) -> Result<int, Seq<char>> {
    match parsed_timestamp(text) {
        Ok(n) => Ok(n as int),
        Err(error) => Err(conversion_text(index, ValueType::Text, time_error_text(error))),
    }
}

/// A status in a column.
pub open spec fn status_field(index: nat, text: Seq<char>) -> Result<Status, Seq<char>> {
    match status_of(text) {
        Some(status) => Ok(status),
        None => Err(conversion_text(index, ValueType::Text, "invalid task status: "@ + text)),
    }
}

/// A JSON value in a column.
pub open spec fn json_field(index: nat, text: Seq<char>) -> Result<Value, Seq<char>> {
    match parsed_json(text) {
        Ok(value) => Ok(value),
        Err(error) => Err(conversion_text(index, ValueType::Text, json_error_text(error))),
    }
}

/// A number that is not negative in a column.
pub open spec fn count_field(index: nat, value: i64) -> Result<u64, Seq<char>> {
    match u64::try_from_spec(value) {
        Ok(count) => Ok(count),
        Err(error) => Err(conversion_text(index, ValueType::Integer, range_error_text(error))),
    }
}

/// An identifier in a column.
pub fn parse_uuid(index: usize, value: &str) -> (result: Result<Uuid, rusqlite::Error>)
    requires
        index < usize::MAX,
    ensures
        match result {
            Ok(id) => uuid_field(index as nat, value@) == Ok::<Uuid, Seq<char>>(id),
            Err(error) => uuid_field(index as nat, value@) == Err::<Uuid, Seq<char>>(
                sql_error_text(error),
            ),
        },
        reads_back(value@),
{
    match scan_uuid(value) {
        Ok(id) => Ok(id),
        Err(error) => Err(conversion_error(index, ValueType::Text, print_uuid_error(&error))),
    }
}

/// A point in time in a column.
pub fn parse_timestamp(index: usize, value: &str) -> (result: Result<Timestamp, rusqlite::Error>)
    requires
        index < usize::MAX,
    ensures
        match result {
            Ok(time) => time_field(index as nat, value@) == Ok::<int, Seq<char>>(time@),
            Err(error) => time_field(index as nat, value@) == Err::<int, Seq<char>>(
                sql_error_text(error),
            ),
        },
        time_reads_back(value@),
{
    match Timestamp::parse(value) {
        Ok(time) => Ok(time),
        Err(error) => Err(conversion_error(index, ValueType::Text, print_time_error(&error))),
    }
}

/// A status in a column.
pub fn parse_status(index: usize, value: &str) -> (result: Result<Status, rusqlite::Error>)
    requires
        index < usize::MAX,
    ensures
        match result {
            Ok(status) => status_field(index as nat, value@) == Ok::<Status, Seq<char>>(status),
            Err(error) => status_field(index as nat, value@) == Err::<Status, Seq<char>>(
                sql_error_text(error),
            ),
        },
{
    match status_named(value) {
        Some(status) => Ok(status),
        None => Err(
            conversion_error(index, ValueType::Text, joined("invalid task status: ", value)),
        ),
    }
}

/// A JSON value in a column.
pub fn decode_json(index: usize, value: &str) -> (result: Result<Value, rusqlite::Error>)
    requires
        index < usize::MAX,
    ensures
        match result {
            Ok(json) => json_field(index as nat, value@) == Ok::<Value, Seq<char>>(json),
            Err(error) => json_field(index as nat, value@) == Err::<Value, Seq<char>>(
                sql_error_text(error),
            ),
        },
{
    match scan_json(value) {
        Ok(json) => Ok(json),
        Err(error) => Err(conversion_error(index, ValueType::Text, print_json_error(&error))),
    }
}

/// A number that is not negative in a column.
pub fn parse_count(index: usize, value: i64) -> (result: Result<u64, rusqlite::Error>)
    requires
        index < usize::MAX,
    ensures
        match result {
            Ok(count) => count_field(index as nat, value) == Ok::<u64, Seq<char>>(count),
            Err(error) => count_field(index as nat, value) == Err::<u64, Seq<char>>(
                sql_error_text(error),
            ),
        },
{
    match u64::try_from(value) {
        Ok(count) => Ok(count),
        Err(error) => Err(conversion_error(index, ValueType::Integer, print_range_error(&error))),
    }
}

/// The optional result in a column.
pub open spec fn result_field(index: nat, text: Option<Seq<char>>) -> Result<
    Option<Value>,
    Seq<char>,
> {
    match text {
        None => Ok(None),
        Some(text) => match json_field(index, text) {
            Ok(value) => Ok(Some(value)),
            Err(error) => Err(error),
        },
    }
}

/// What the first column of a task that cannot be read is refused for.
pub open spec fn columns_error(columns: TaskColumnsModel) -> Option<Seq<char>> {
    if status_field(3, columns.status) is Err {
        Some(status_field(3, columns.status)->Err_0)
    } else if json_field(5, columns.metadata) is Err {
        Some(json_field(5, columns.metadata)->Err_0)
    } else if result_field(7, columns.result) is Err {
        Some(result_field(7, columns.result)->Err_0)
    } else if time_field(8, columns.created_at) is Err {
        Some(time_field(8, columns.created_at)->Err_0)
    } else if time_field(9, columns.updated_at) is Err {
        Some(time_field(9, columns.updated_at)->Err_0)
    } else if count_field(10, columns.version) is Err {
        Some(count_field(10, columns.version)->Err_0)
    } else {
        None
    }
}

/// What the first column of a row of tasks that cannot be read is refused for.
pub open spec fn task_row_error(row: TaskRowModel) -> Option<Seq<char>> {
    if uuid_field(0, row.id) is Err {
        Some(uuid_field(0, row.id)->Err_0)
    } else {
        columns_error(row.columns)
    }
}

/// The version in a column, or none where it cannot be read.
pub open spec fn version_of(version: i64) -> u64 {
    match count_field(10, version) {
        Ok(version) => version,
        Err(_) => 0,
    }
}

/// The task that the columns of a row hold, without requirements and dependencies. For
/// a column that cannot be read stands what counts for nothing: a status that is
/// neither open nor done and that was taken up at no time, no value, no version, and
/// the first point in time.
pub open spec fn row_record(id: Uuid, columns: TaskColumnsModel) -> RecordModel {
    RecordModel {
        task: TaskModel {
            id,
            title: columns.title,
            description: columns.description,
            status: match status_field(3, columns.status) {
                Ok(status) => status,
                Err(_) => Status::Cancelled,
            },
            priority: columns.priority,
            requires: Seq::empty(),
            depends_on: Seq::empty(),
            metadata: match json_field(5, columns.metadata) {
                Ok(value) => value,
                Err(_) => null(),
            },
            claimed_by: columns.claimed_by,
            result: match result_field(7, columns.result) {
                Ok(result) => result,
                Err(_) => None,
            },
            created_at: match time_field(8, columns.created_at) {
                Ok(time) => time,
                Err(_) => MIN_NANOSECOND as int,
            },
            updated_at: match time_field(9, columns.updated_at) {
                Ok(time) => time,
                Err(_) => MIN_NANOSECOND as int,
            },
            version: version_of(columns.version),
        },
        created: columns.created_at,
        updated: columns.updated_at,
        closed_at: if status_field(3, columns.status) is Ok {
            columns.closed_at
        } else {
            None
        },
        raw: if columns_error(columns) is Some {
            Some(columns)
        } else {
            None
        },
    }
}

/// Whether the texts in the columns of a task that stand for times read back as these.
pub open spec fn columns_read_back(columns: TaskColumnsModel) -> bool {
    time_reads_back(columns.created_at) && time_reads_back(columns.updated_at)
}

/// The word for every status stands for that status.
proof fn lemma_status_words()
    ensures
        forall|status: Status| status_of(#[trigger] status_word(status)) == Some(status),
{
    assert forall|status: Status| status_of(#[trigger] status_word(status)) == Some(status) by {
        crate::rules::status_words_are_distinct(status);
    }
}

/// The task that a row of tasks holds, without requirements and dependencies.
/// The row that a task was written as reads back as that task.
pub fn decode_task(row: TaskRow) -> (result: Result<Record, rusqlite::Error>)
    ensures
        match result {
            Ok(record) => task_row_error(row@) is None && record@ == row_record(
                uuid_field(0, row@.id)->Ok_0,
                row@.columns,
            ),
            Err(error) => task_row_error(row@) == Some(sql_error_text(error)),
        },
        forall|record: RecordModel|
            row@ == #[trigger] task_row(record) && is_durable(record) && record.raw is None ==> (
            result matches Ok(read) && read@ == without_lists(record)),
{
    proof {
        lemma_status_words();
        lemma_written_task(row@);
    }
    let id = match parse_uuid(0, row.id.as_str()) {
        Ok(id) => id,
        Err(error) => {
            return Err(error);
        },
    };
    let columns = row.columns;
    let status = match parse_status(3, columns.status.as_str()) {
        Ok(status) => status,
        Err(error) => {
            return Err(error);
        },
    };
    let metadata = match decode_json(5, columns.metadata.as_str()) {
        Ok(metadata) => metadata,
        Err(error) => {
            return Err(error);
        },
    };
    let result = match &columns.result {
        None => None,
        Some(text) => match decode_json(7, text.as_str()) {
            Ok(value) => Some(value),
            Err(error) => {
                return Err(error);
            },
        },
    };
    let created_at = match parse_timestamp(8, columns.created_at.as_str()) {
        Ok(time) => time,
        Err(error) => {
            return Err(error);
        },
    };
    let updated_at = match parse_timestamp(9, columns.updated_at.as_str()) {
        Ok(time) => time,
        Err(error) => {
            return Err(error);
        },
    };
    let version = match parse_count(10, columns.version) {
        Ok(version) => version,
        Err(error) => {
            return Err(error);
        },
    };
    let record = Record {
        task: Task {
            id,
            title: columns.title,
            description: columns.description,
            status,
            priority: columns.priority,
            requires: Vec::new(),
            depends_on: Vec::new(),
            metadata,
            claimed_by: columns.claimed_by,
            result,
            created_at,
            updated_at,
            version,
        },
        created: columns.created_at,
        updated: columns.updated_at,
        closed_at: columns.closed_at,
        raw: None,
    };
    assert(record@.task.requires =~= Seq::empty());
    assert(record@.task.depends_on =~= Seq::empty());
    Ok(record)
}

/// What is wrong, where nothing was found before.
fn noted(flaw: Option<String>, error: &rusqlite::Error) -> (result: Option<String>)
    ensures
        optional_text(result) == (if flaw is Some {
            optional_text(flaw)
        } else {
            Some(sql_error_text(*error))
        }),
{
    match flaw {
        Some(text) => Some(text),
        None => Some(sql_message(error)),
    }
}

/// A point in time in a column, or what stands for it, and what is wrong with the row
/// so far.
fn read_time(index: usize, text: &str, flaw: Option<String>) -> (result: (
    Timestamp,
    Option<String>,
))
    requires
        index < usize::MAX,
    ensures
        result.0@ == (match time_field(index as nat, text@) {
            Ok(time) => time,
            Err(_) => MIN_NANOSECOND as int,
        }),
        optional_text(result.1) == (match time_field(index as nat, text@) {
            Ok(_) => optional_text(flaw),
            Err(error) => if flaw is Some {
                optional_text(flaw)
            } else {
                Some(error)
            },
        }),
        time_reads_back(text@),
{
    match parse_timestamp(index, text) {
        Ok(time) => (time, flaw),
        Err(error) => (Timestamp::earliest(), noted(flaw, &error)),
    }
}

/// The task that the columns of a row hold, without requirements and dependencies, and
/// why it cannot be read, where it cannot.
pub fn read_columns(id: Uuid, columns: &TaskColumns) -> (result: (Record, Option<String>))
    ensures
        result.0@ == row_record(id, columns@),
        optional_text(result.1) == columns_error(columns@),
        columns_read_back(columns@),
{
    let mut flaw: Option<String> = None;
    let (status, closed_at) = match parse_status(3, columns.status.as_str()) {
        Ok(status) => (status, copy_text(&columns.closed_at)),
        Err(error) => {
            flaw = noted(flaw, &error);
            (Status::Cancelled, None)
        },
    };
    let metadata = match decode_json(5, columns.metadata.as_str()) {
        Ok(metadata) => metadata,
        Err(error) => {
            flaw = noted(flaw, &error);
            null_value()
        },
    };
    let result = match &columns.result {
        None => None,
        Some(text) => match decode_json(7, text.as_str()) {
            Ok(value) => Some(value),
            Err(error) => {
                flaw = noted(flaw, &error);
                None
            },
        },
    };
    let (created_at, flaw) = read_time(8, columns.created_at.as_str(), flaw);
    let (updated_at, mut flaw) = read_time(9, columns.updated_at.as_str(), flaw);
    let version: u64 = match parse_count(10, columns.version) {
        Ok(version) => version,
        Err(error) => {
            flaw = noted(flaw, &error);
            0
        },
    };
    let raw = match &flaw {
        Some(_) => Some(copy_task_columns(columns)),
        None => None,
    };
    let record = Record {
        task: Task {
            id,
            title: columns.title.clone(),
            description: columns.description.clone(),
            status,
            priority: columns.priority,
            requires: Vec::new(),
            depends_on: Vec::new(),
            metadata,
            claimed_by: copy_text(&columns.claimed_by),
            result,
            created_at,
            updated_at,
            version,
        },
        created: columns.created_at.clone(),
        updated: columns.updated_at.clone(),
        closed_at,
        raw,
    };
    assert(record@.task.requires =~= Seq::empty());
    assert(record@.task.depends_on =~= Seq::empty());
    (record, flaw)
}

/// What the first column of an artifact that cannot be read is refused for.
pub open spec fn file_error(columns: ArtifactColumnsModel) -> Option<Seq<char>> {
    if count_field(4, columns.size_bytes) is Err {
        Some(count_field(4, columns.size_bytes)->Err_0)
    } else if time_field(5, columns.created_at) is Err {
        Some(time_field(5, columns.created_at)->Err_0)
    } else {
        None
    }
}

/// What the first column of a row of artifacts that cannot be read is refused
/// for.
pub open spec fn artifact_row_error(row: ArtifactRowModel) -> Option<Seq<char>> {
    if uuid_field(0, row.id) is Err {
        Some(uuid_field(0, row.id)->Err_0)
    } else if uuid_field(1, row.task_id) is Err {
        Some(uuid_field(1, row.task_id)->Err_0)
    } else {
        file_error(row.columns)
    }
}

/// The artifact that a row of artifacts holds. For a size that cannot be read stands
/// none, and for a time the first point in time.
pub open spec fn row_artifact(
    id: Uuid,
    task_id: Uuid,
    columns: ArtifactColumnsModel,
) -> ArtifactModel {
    ArtifactModel {
        id,
        task_id,
        filename: columns.filename,
        content_type: columns.content_type,
        size_bytes: match count_field(4, columns.size_bytes) {
            Ok(size) => size,
            Err(_) => 0,
        },
        created_at: match time_field(5, columns.created_at) {
            Ok(time) => time,
            Err(_) => MIN_NANOSECOND as int,
        },
    }
}

/// The artifact that a row of artifacts holds. The row that an artifact was
/// written as reads back as that artifact.
pub fn decode_artifact(row: ArtifactRow) -> (result: Result<Artifact, rusqlite::Error>)
    ensures
        match result {
            Ok(artifact) => artifact_row_error(row@) is None && artifact@ == row_artifact(
                uuid_field(0, row@.id)->Ok_0,
                uuid_field(1, row@.task_id)->Ok_0,
                row@.columns,
            ),
            Err(error) => artifact_row_error(row@) == Some(sql_error_text(error)),
        },
        forall|artifact: ArtifactModel|
            row@ == #[trigger] artifact_row(artifact) && in_range(artifact.created_at)
                && artifact.size_bytes <= i64::MAX ==> (result matches Ok(read) && read@
                == artifact),
{
    let id = match parse_uuid(0, row.id.as_str()) {
        Ok(id) => id,
        Err(error) => {
            return Err(error);
        },
    };
    let task_id = match parse_uuid(1, row.task_id.as_str()) {
        Ok(id) => id,
        Err(error) => {
            return Err(error);
        },
    };
    let columns = row.columns;
    let size_bytes = match parse_count(4, columns.size_bytes) {
        Ok(size) => size,
        Err(error) => {
            return Err(error);
        },
    };
    let created_at = match parse_timestamp(5, columns.created_at.as_str()) {
        Ok(time) => time,
        Err(error) => {
            return Err(error);
        },
    };
    Ok(
        Artifact {
            id,
            task_id,
            filename: columns.filename,
            content_type: columns.content_type,
            size_bytes,
            created_at,
        },
    )
}

/// An artifact on the board that a row of artifacts stands for. A row that is not as
/// it is written is kept as it is.
pub open spec fn row_file(
    id: Uuid,
    task_id: Uuid,
    columns: ArtifactColumnsModel,
) -> FiledModel {
    let artifact = row_artifact(id, task_id, columns);
    FiledModel {
        artifact,
        raw: if file_error(columns) is None && columns.created_at == timestamp_text(
            artifact.created_at,
        ) {
            None
        } else {
            Some(columns)
        },
    }
}

/// An artifact on the board that a row of artifacts stands for.
pub fn read_artifact_row(row: KeptArtifact) -> (file: Filed)
    ensures
        file@ == row_file(row@.id, row@.task_id, row@.columns),
        time_reads_back(row@.columns.created_at),
{
    let columns = row.columns;
    let mut flaw: Option<String> = None;
    let size_bytes: u64 = match parse_count(4, columns.size_bytes) {
        Ok(size) => size,
        Err(error) => {
            flaw = noted(flaw, &error);
            0
        },
    };
    let (created_at, flaw) = read_time(5, columns.created_at.as_str(), flaw);
    let artifact = Artifact {
        id: row.id,
        task_id: row.task_id,
        filename: columns.filename.clone(),
        content_type: columns.content_type.clone(),
        size_bytes,
        created_at,
    };
    let written = created_at.to_text();
    let raw = if flaw.is_none() && same(columns.created_at.as_str(), written.as_str()) {
        None
    } else {
        Some(columns)
    };
    Filed { artifact, raw }
}

/// Why an artifact cannot be read, where it cannot.
pub fn file_flaw(columns: &ArtifactColumns) -> (flaw: Option<String>)
    ensures
        optional_text(flaw) == file_error(columns@),
{
    match parse_count(4, columns.size_bytes) {
        Err(error) => Some(sql_message(&error)),
        Ok(_) => match parse_timestamp(5, columns.created_at.as_str()) {
            Err(error) => Some(sql_message(&error)),
            Ok(_) => None,
        },
    }
}

/// Why a value cannot be written as JSON.
pub open spec fn json_fault(value: Value) -> Option<Fault> {
    match json_text(value) {
        Ok(_) => None,
        Err(error) => Some(Fault::Internal(json_error_text(error))),
    }
}

/// The JSON text of a value.
pub fn encode_json(value: &Value) -> (result: Result<String, StoreError>)
    ensures
        match result {
            Ok(text) => json_fault(*value) is None && text@ == json_text(*value)->Ok_0,
            Err(error) => json_fault(*value) == Some(error@),
        },
{
    match print_json(value) {
        Ok(text) => Ok(text),
        Err(error) => Err(StoreError::Internal(print_json_error(&error))),
    }
}

/// Why a task cannot be written as a row.
pub open spec fn encode_fault(record: RecordModel) -> Option<Fault> {
    if record.raw is Some {
        None
    } else if json_fault(record.task.metadata) is Some {
        json_fault(record.task.metadata)
    } else if record.task.result matches Some(value) && json_fault(value) is Some {
        json_fault(record.task.result->0)
    } else {
        integer_fault(record.task.version as int, "task version"@)
    }
}

/// The columns that a task is written in: those that it was read from, where they
/// cannot be read.
pub open spec fn record_columns(record: RecordModel) -> TaskColumnsModel {
    match record.raw {
        Some(columns) => columns,
        None => TaskColumnsModel {
            title: record.task.title,
            description: record.task.description,
            status: status_word(record.task.status),
            priority: record.task.priority,
            metadata: json_text(record.task.metadata)->Ok_0,
            claimed_by: record.task.claimed_by,
            result: match record.task.result {
                None => None,
                Some(value) => Some(json_text(value)->Ok_0),
            },
            created_at: record.created,
            updated_at: record.updated,
            version: record.task.version as i64,
            closed_at: record.closed_at,
        },
    }
}

/// The row that a task is written as.
pub open spec fn task_row(record: RecordModel) -> TaskRowModel {
    TaskRowModel { id: uuid_text(record.task.id), columns: record_columns(record) }
}

/// The columns that a task is written in.
pub fn encode_columns(record: &Record) -> (result: Result<TaskColumns, StoreError>)
    ensures
        match result {
            Ok(columns) => encode_fault(record@) is None && columns@ == record_columns(record@),
            Err(error) => encode_fault(record@) == Some(error@),
        },
{
    if let Some(columns) = &record.raw {
        return Ok(copy_task_columns(columns));
    }
    let task = &record.task;
    let metadata = match encode_json(&task.metadata) {
        Ok(text) => text,
        Err(error) => {
            return Err(error);
        },
    };
    let result = match &task.result {
        None => None,
        Some(value) => match encode_json(value) {
            Ok(text) => Some(text),
            Err(error) => {
                return Err(error);
            },
        },
    };
    let version = match sql_integer(task.version, "task version") {
        Ok(version) => version,
        Err(error) => {
            return Err(error);
        },
    };
    Ok(
        TaskColumns {
            title: task.title.clone(),
            description: task.description.clone(),
            status: status_text(task.status).to_owned(),
            priority: task.priority,
            metadata,
            claimed_by: copy_text(&task.claimed_by),
            result,
            created_at: record.created.clone(),
            updated_at: record.updated.clone(),
            version,
            closed_at: copy_text(&record.closed_at),
        },
    )
}

/// The row that a task is written as.
pub fn encode_task(record: &Record) -> (result: Result<TaskRow, StoreError>)
    ensures
        match result {
            Ok(row) => encode_fault(record@) is None && row@ == task_row(record@),
            Err(error) => encode_fault(record@) == Some(error@),
        },
{
    match encode_columns(record) {
        Ok(columns) => Ok(TaskRow { id: print_uuid(record.task.id), columns }),
        Err(error) => Err(error),
    }
}

/// The rows that the requirements of a task are written as, in their order.
pub open spec fn requirement_rows_of(task: TaskModel) -> Seq<RequirementRowModel> {
    task.requires.map_values(
        |requirement: RequirementModel|
            RequirementRowModel { task_id: task.id, requirement },
    )
}

/// A list of rows of requirements, mathematically.
pub open spec fn requirement_row_models(rows: Seq<RequirementRow>) -> Seq<RequirementRowModel> {
    rows.map_values(|row: RequirementRow| row@)
}

/// The rows that the requirements of a task are written as, in their order.
pub fn requirement_rows(task: &Task) -> (rows: Vec<RequirementRow>)
    ensures
        requirement_row_models(rows@) == requirement_rows_of(task@),
{
    let mut rows: Vec<RequirementRow> = Vec::new();
    let mut i: usize = 0;
    while i < task.requires.len()
        invariant
            i <= task.requires.len(),
            rows@.len() == i,
            forall|k: int|
                0 <= k < i ==> (#[trigger] rows@[k])@ == requirement_rows_of(task@)[k],
        decreases task.requires.len() - i,
    {
        rows.push(
            RequirementRow {
                task_id: task.id,
                name: task.requires[i].name.clone(),
                description: copy_text(&task.requires[i].description),
            },
        );
        i += 1;
    }
    assert(requirement_row_models(rows@) =~= requirement_rows_of(task@));
    rows
}

/// The rows that the dependencies of a task are written as, in their order.
pub open spec fn dependency_rows_of(task: TaskModel) -> Seq<DependencyRow> {
    task.depends_on.map_values(|d: Uuid| DependencyRow { task_id: task.id, depends_on: d })
}

/// The rows that the dependencies of a task are written as, in their order.
pub fn dependency_rows(task: &Task) -> (rows: Vec<DependencyRow>)
    ensures
        rows@ == dependency_rows_of(task@),
{
    let mut rows: Vec<DependencyRow> = Vec::new();
    let mut i: usize = 0;
    while i < task.depends_on.len()
        invariant
            i <= task.depends_on.len(),
            rows@.len() == i,
            forall|k: int| 0 <= k < i ==> #[trigger] rows@[k] == dependency_rows_of(task@)[k],
        decreases task.depends_on.len() - i,
    {
        rows.push(DependencyRow { task_id: task.id, depends_on: task.depends_on[i] });
        i += 1;
    }
    assert(rows@ =~= dependency_rows_of(task@));
    rows
}

/// The columns that an artifact is written in.
pub open spec fn artifact_columns(artifact: ArtifactModel) -> ArtifactColumnsModel {
    ArtifactColumnsModel {
        filename: artifact.filename,
        content_type: artifact.content_type,
        size_bytes: artifact.size_bytes as i64,
        created_at: timestamp_text(artifact.created_at),
    }
}

/// The row that an artifact is written as.
pub open spec fn artifact_row(artifact: ArtifactModel) -> ArtifactRowModel {
    ArtifactRowModel {
        id: uuid_text(artifact.id),
        task_id: uuid_text(artifact.task_id),
        columns: artifact_columns(artifact),
    }
}

/// The columns that an artifact is written in.
pub fn encode_artifact_columns(artifact: &Artifact) -> (result: Result<
    ArtifactColumns,
    StoreError,
>)
    ensures
        match result {
            Ok(columns) => integer_fault(artifact@.size_bytes as int, "artifact size"@) is None
                && columns@ == artifact_columns(artifact@),
            Err(error) => integer_fault(artifact@.size_bytes as int, "artifact size"@) == Some(
                error@,
            ),
        },
{
    let size_bytes = match sql_integer(artifact.size_bytes, "artifact size") {
        Ok(size) => size,
        Err(error) => {
            return Err(error);
        },
    };
    Ok(
        ArtifactColumns {
            filename: artifact.filename.clone(),
            content_type: artifact.content_type.clone(),
            size_bytes,
            created_at: artifact.created_at.to_text(),
        },
    )
}

/// The row that an artifact is written as.
pub fn encode_artifact(artifact: &Artifact) -> (result: Result<ArtifactRow, StoreError>)
    ensures
        match result {
            Ok(row) => integer_fault(artifact@.size_bytes as int, "artifact size"@) is None && row@
                == artifact_row(artifact@),
            Err(error) => integer_fault(artifact@.size_bytes as int, "artifact size"@) == Some(
                error@,
            ),
        },
{
    match encode_artifact_columns(artifact) {
        Ok(columns) => Ok(
            ArtifactRow {
                id: print_uuid(artifact.id),
                task_id: print_uuid(artifact.task_id),
                columns,
            },
        ),
        Err(error) => Err(error),
    }
}

/// Whether a JSON value reads back as itself.
pub open spec fn survives(value: Value) -> bool {
    json_text(value) matches Ok(text) && parsed_json(text) == Ok::<Value, serde_json::Error>(value)
}

/// Whether a text stands for a point in time.
pub open spec fn is_date_of(text: Seq<char>, time: int) -> bool {
    in_range(time) && (text == timestamp_text(time) || (parsed_timestamp(text) matches Ok(n) && n
        == time))
}

/// Whether every time of a task is a point in time, and its JSON values read back
/// as themselves; or the task is what stands for columns that cannot be read.
pub open spec fn is_durable(record: RecordModel) -> bool {
    match record.raw {
        Some(columns) => columns_error(columns) is Some && row_record(record.task.id, columns)
            == without_lists(record),
        None => {
            &&& is_date_of(record.created, record.task.created_at)
            &&& is_date_of(record.updated, record.task.updated_at)
            &&& survives(record.task.metadata)
            &&& record.task.result matches Some(value) ==> survives(value)
            &&& record.task.version <= i64::MAX
        },
    }
}

/// A task without its requirements and dependencies.
pub open spec fn without_lists(record: RecordModel) -> RecordModel {
    RecordModel {
        task: TaskModel { requires: Seq::empty(), depends_on: Seq::empty(), ..record.task },
        ..record
    }
}

/// What is read of the columns that a task was written in is the task, without
/// requirements and dependencies.
pub proof fn the_columns_of_a_task_read_back(record: RecordModel)
    requires
        is_durable(record),
        columns_read_back(record_columns(record)),
    ensures
        row_record(record.task.id, record_columns(record)) == without_lists(record),
        columns_error(record_columns(record)) is None <==> record.raw is None,
{
    if record.raw is None {
        let columns = record_columns(record);
        crate::rules::status_words_are_distinct(record.task.status);
        if record.created == timestamp_text(record.task.created_at) {
            assert(columns.created_at == timestamp_text(record.task.created_at as i128 as int));
        }
        if record.updated == timestamp_text(record.task.updated_at) {
            assert(columns.updated_at == timestamp_text(record.task.updated_at as i128 as int));
        }
    }
}

/// Whatever task a row was written from, the row reads back as that task.
proof fn lemma_written_task(row: TaskRowModel)
    ensures
        columns_read_back(row.columns) ==> forall|record: RecordModel|
            row == #[trigger] task_row(record) && is_durable(record) && record.raw is None ==> (
            columns_error(row.columns) is None && row_record(record.task.id, row.columns)
                == without_lists(record)),
{
    if columns_read_back(row.columns) {
        assert forall|record: RecordModel|
            row == #[trigger] task_row(record) && is_durable(record) && record.raw is None implies (
        columns_error(row.columns) is None && row_record(record.task.id, row.columns)
            == without_lists(record)) by {
            the_columns_of_a_task_read_back(record);
        }
    }
}

/// Whether an artifact is what stands for the row that it is kept as.
pub open spec fn is_durable_file(file: FiledModel) -> bool {
    match file.raw {
        Some(columns) => row_file(file.artifact.id, file.artifact.task_id, columns) == file,
        None => in_range(file.artifact.created_at) && file.artifact.size_bytes <= i64::MAX,
    }
}

/// The columns that an artifact on the board is kept in.
pub open spec fn file_columns(file: FiledModel) -> ArtifactColumnsModel {
    match file.raw {
        Some(columns) => columns,
        None => artifact_columns(file.artifact),
    }
}

/// What is read of the columns that an artifact is kept in is the artifact.
pub proof fn the_columns_of_an_artifact_read_back(file: FiledModel)
    requires
        is_durable_file(file),
        time_reads_back(file_columns(file).created_at),
    ensures
        row_file(file.artifact.id, file.artifact.task_id, file_columns(file)) == file,
{
    if file.raw is None {
        let columns = artifact_columns(file.artifact);
        assert(columns.created_at == timestamp_text(file.artifact.created_at as i128 as int));
    }
}

} // verus!
