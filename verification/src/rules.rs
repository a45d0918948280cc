//! The rules on what a caller may write: titles, names, explanations, file
//! names, and the refusals that answer what breaks them.

use crate::ids::first_seen;
use crate::model::{
    input_models, optional_text, requirement_models, Requirement, RequirementInput,
    RequirementModel, Status,
};
use crate::text::{has_control, is_control, same, trimmed, trimmed_is_idempotent};
use vstd::prelude::*;
use vstd::utf8::encode_utf8;

verus! {

/// Why the board refuses a request.
#[derive(Clone, Debug, PartialEq, Eq)]
pub enum StoreError {
    NotFound,
    Invalid(String),
    Conflict(String),
    Internal(String),
}

/// A refusal, mathematically.
pub enum Fault {
    NotFound,
    Invalid(Seq<char>),
    Conflict(Seq<char>),
    Internal(Seq<char>),
}

impl View for StoreError {
    type V = Fault;

    open spec fn view(&self) -> Fault {
        match *self {
            StoreError::NotFound => Fault::NotFound,
            StoreError::Invalid(message) => Fault::Invalid(message@),
            StoreError::Conflict(message) => Fault::Conflict(message@),
            StoreError::Internal(message) => Fault::Internal(message@),
        }
    }
}

/// Whether the outcome of a check is the fault that the rules give.
pub open spec fn reports(result: Result<(), StoreError>, fault: Option<Fault>) -> bool {
    match result {
        Ok(_) => fault is None,
        Err(error) => fault == Some(error@),
    }
}

/// One text after another.
pub(crate) fn joined(left: &str, right: &str) -> (text: String)
    ensures
        text@ == left@ + right@,
{
    let mut text: String = left.to_owned();
    text.append(right);
    text
}

/// The word for a status.
pub open spec fn status_word(status: Status) -> Seq<char> {
    match status {
        Status::Todo => "todo"@,
        Status::InProgress => "in_progress"@,
        Status::Done => "done"@,
        Status::Failed => "failed"@,
        Status::Cancelled => "cancelled"@,
    }
}

/// The status that a word stands for.
pub open spec fn status_of(word: Seq<char>) -> Option<Status> {
    if word == "todo"@ {
        Some(Status::Todo)
    } else if word == "in_progress"@ {
        Some(Status::InProgress)
    } else if word == "done"@ {
        Some(Status::Done)
    } else if word == "failed"@ {
        Some(Status::Failed)
    } else if word == "cancelled"@ {
        Some(Status::Cancelled)
    } else {
        None
    }
}

/// The word for a status stands for that status.
pub proof fn status_words_are_distinct(status: Status)
    ensures
        status_of(status_word(status)) == Some(status),
{
    reveal_strlit("todo");
    reveal_strlit("in_progress");
    reveal_strlit("done");
    reveal_strlit("failed");
    reveal_strlit("cancelled");
    assert("todo"@[0] != "done"@[0]);
    assert("failed"@.len() == 6);
    assert("in_progress"@.len() == 11);
    assert("cancelled"@.len() == 9);
    assert("done"@.len() == 4);
    assert("todo"@.len() == 4);
}

/// The word for a status.
pub fn status_text(status: Status) -> (word: &'static str)
    ensures
        word@ == status_word(status),
{
    match status {
        Status::Todo => "todo",
        Status::InProgress => "in_progress",
        Status::Done => "done",
        Status::Failed => "failed",
        Status::Cancelled => "cancelled",
    }
}

/// The status that a word stands for.
pub fn status_named(word: &str) -> (status: Option<Status>)
    ensures
        status == status_of(word@),
{
    if same(word, "todo") {
        Some(Status::Todo)
    } else if same(word, "in_progress") {
        Some(Status::InProgress)
    } else if same(word, "done") {
        Some(Status::Done)
    } else if same(word, "failed") {
        Some(Status::Failed)
    } else if same(word, "cancelled") {
        Some(Status::Cancelled)
    } else {
        None
    }
}

/// The refusal of an action that the status of a task does not allow.
pub open spec fn action_fault(action: Seq<char>, status: Status) -> Fault {
    Fault::Conflict("cannot "@ + action + " a task in status "@ + status_word(status))
}

/// The refusal of an action that the status of a task does not allow.
pub fn action_conflict(action: &str, status: Status) -> (error: StoreError)
    ensures
        error@ == action_fault(action@, status),
{
    let mut text = joined("cannot ", action);
    text.append(" a task in status ");
    text.append(status_text(status));
    StoreError::Conflict(text)
}

/// The refusal of an agent that does not own the task.
pub open spec fn owner_fault(agent: Seq<char>) -> Fault {
    Fault::Conflict("task is not claimed by agent "@ + agent)
}

/// The refusal of an agent that does not own the task.
pub fn owner_conflict(agent: &str) -> (error: StoreError)
    ensures
        error@ == owner_fault(agent@),
{
    StoreError::Conflict(joined("task is not claimed by agent ", agent))
}

/// The refusal of a number that a signed 64-bit integer cannot hold.
pub open spec fn integer_fault(value: int, description: Seq<char>) -> Option<Fault> {
    if value > i64::MAX {
        Some(Fault::Internal(description + " exceeds SQLite integer range"@))
    } else {
        None
    }
}

/// The conversion of `u64` to `i64` in `std`: the same number, where it fits.
pub assume_specification[ <i64 as TryFrom<u64>>::try_from ](value: u64) -> (result: Result<
    i64,
    <i64 as TryFrom<u64>>::Error,
>)
    ensures
        match result {
            Ok(integer) => integer == value,
            Err(_) => value > i64::MAX,
        },
;

/// A number as a signed 64-bit integer, where it fits.
pub fn sql_integer<N: TryInto<i64>>(value: N, description: &str) -> (result: Result<i64, StoreError>)
    requires
        call_requires(N::try_into, (value,)),
    ensures
        exists|converted: Result<i64, N::Error>| #[trigger]
            call_ensures(N::try_into, (value,), converted) && match converted {
                Ok(integer) => result == Ok::<i64, StoreError>(integer),
                Err(_) => result matches Err(error) && error@ == Fault::Internal(
                    description@ + " exceeds SQLite integer range"@,
                ),
            },
{
    let converted = value.try_into();
    match converted {
        Ok(integer) => Ok(integer),
        Err(_) => Err(StoreError::Internal(joined(description, " exceeds SQLite integer range"))),
    }
}

/// What is wrong with a title.
pub open spec fn title_fault(title: Seq<char>) -> Option<Fault> {
    if trimmed(title).len() == 0 {
        Some(Fault::Invalid("title must not be empty"@))
    } else if title.len() > 500 {
        Some(Fault::Invalid("title must be at most 500 characters"@))
    } else {
        None
    }
}

/// A title holds at most 500 characters, and one that is not white space.
pub fn validate_title(title: &str) -> (result: Result<(), StoreError>)
    ensures
        reports(result, title_fault(title@)),
{
    if title.trim().is_empty() {
        return Err(StoreError::Invalid("title must not be empty".to_owned()));
    }
    if title.unicode_len() > 500 {
        return Err(StoreError::Invalid("title must be at most 500 characters".to_owned()));
    }
    Ok(())
}

/// What is wrong with the name of an artifact's file, once trimmed.
pub open spec fn filename_fault(filename: Seq<char>) -> Option<Fault> {
    if filename.len() == 0 {
        Some(Fault::Invalid("artifact filename must not be empty"@))
    } else if filename.len() > 255 {
        Some(Fault::Invalid("artifact filename must be at most 255 characters"@))
    } else if exists|i: int| 0 <= i < filename.len() && is_control(#[trigger] filename[i]) {
        Some(Fault::Invalid("artifact filename must not contain control characters"@))
    } else {
        None
    }
}

/// The name of an artifact's file holds 1 through 255 characters and no control
/// character.
pub fn validate_artifact_filename(filename: &str) -> (result: Result<(), StoreError>)
    ensures
        reports(result, filename_fault(filename@)),
{
    if filename.is_empty() {
        return Err(StoreError::Invalid("artifact filename must not be empty".to_owned()));
    }
    if filename.unicode_len() > 255 {
        return Err(
            StoreError::Invalid("artifact filename must be at most 255 characters".to_owned()),
        );
    }
    if has_control(filename) {
        return Err(
            StoreError::Invalid("artifact filename must not contain control characters".to_owned()),
        );
    }
    Ok(())
}

/// What is wrong with the content type of an artifact.
pub open spec fn content_type_fault(content_type: Seq<char>) -> Option<Fault> {
    if 1 <= encode_utf8(content_type).len() <= 255 {
        None
    } else {
        Some(Fault::Invalid("artifact content type must contain 1 through 255 bytes"@))
    }
}

/// A content type takes 1 through 255 bytes.
pub fn validate_content_type(content_type: &str) -> (result: Result<(), StoreError>)
    ensures
        reports(result, content_type_fault(content_type@)),
{
    let length: usize = content_type.as_bytes().len();
    if length == 0 || length > 255 {
        return Err(
            StoreError::Invalid("artifact content type must contain 1 through 255 bytes".to_owned()),
        );
    }
    Ok(())
}

/// What is wrong with a name of the given kind.
pub open spec fn name_fault(name: Seq<char>, kind: Seq<char>) -> Option<Fault> {
    if trimmed(name).len() == 0 {
        Some(Fault::Invalid("invalid "@ + kind + " name: must not be empty"@))
    } else if name.len() > 100 {
        Some(Fault::Invalid("invalid "@ + kind + " name: must be at most 100 characters"@))
    } else {
        None
    }
}

/// A name holds at most 100 characters, and one that is not white space.
pub fn validate_name(name: &str, kind: &str) -> (result: Result<(), StoreError>)
    ensures
        reports(result, name_fault(name@, kind@)),
{
    if name.trim().is_empty() {
        let mut text = joined("invalid ", kind);
        text.append(" name: must not be empty");
        return Err(StoreError::Invalid(text));
    }
    if name.unicode_len() > 100 {
        let mut text = joined("invalid ", kind);
        text.append(" name: must be at most 100 characters");
        return Err(StoreError::Invalid(text));
    }
    Ok(())
}

/// A requirement's name is a name.
pub fn validate_requirement_name(name: &str) -> (result: Result<(), StoreError>)
    ensures
        reports(result, name_fault(name@, "requirement"@)),
{
    validate_name(name, "requirement")
}

/// A label's name is a name.
pub fn validate_label_name(name: &str) -> (result: Result<(), StoreError>)
    ensures
        reports(result, name_fault(name@, "label"@)),
{
    validate_name(name, "label")
}

/// An explanation as it is stored: trimmed, and none where nothing is left.
pub open spec fn tidy_description(description: Option<Seq<char>>) -> Option<Seq<char>> {
    match description {
        Some(text) => if trimmed(text).len() == 0 {
            None
        } else {
            Some(trimmed(text))
        },
        None => None,
    }
}

/// What is wrong with an explanation.
pub open spec fn description_fault(description: Option<Seq<char>>) -> Option<Fault> {
    match tidy_description(description) {
        Some(text) => if text.len() > 1000 {
            Some(Fault::Invalid("requirement description must be at most 1000 characters"@))
        } else {
            None
        },
        None => None,
    }
}

/// An explanation, once trimmed, holds at most 1000 characters.
pub fn validate_requirement_description(description: Option<String>) -> (result: Result<
    Option<String>,
    StoreError,
>)
    ensures
        match result {
            Ok(tidy) => description_fault(optional_text(description)) is None && optional_text(tidy)
                == tidy_description(optional_text(description)),
            Err(error) => description_fault(optional_text(description)) == Some(error@),
        },
{
    match description {
        None => Ok(None),
        Some(text) => {
            let tidy: String = text.as_str().trim().to_owned();
            if tidy.as_str().is_empty() {
                Ok(None)
            } else if tidy.as_str().unicode_len() > 1000 {
                Err(
                    StoreError::Invalid(
                        "requirement description must be at most 1000 characters".to_owned(),
                    ),
                )
            } else {
                Ok(Some(tidy))
            }
        },
    }
}

/// A requested requirement as it is stored.
pub open spec fn tidy(input: RequirementModel) -> RequirementModel {
    RequirementModel {
        name: trimmed(input.name),
        description: tidy_description(input.description),
    }
}

/// What is wrong with a requested requirement.
pub open spec fn input_fault(input: RequirementModel) -> Option<Fault> {
    match name_fault(trimmed(input.name), "requirement"@) {
        Some(fault) => Some(fault),
        None => description_fault(input.description),
    }
}

/// What is wrong with the first of the requested requirements that is wrong.
pub open spec fn requirements_fault(inputs: Seq<RequirementModel>) -> Option<Fault>
    decreases inputs.len(),
{
    if inputs.len() == 0 {
        None
    } else {
        match requirements_fault(inputs.drop_last()) {
            Some(fault) => Some(fault),
            None => input_fault(inputs.last()),
        }
    }
}

/// The names of requested requirements, as they are stored.
pub open spec fn tidy_names(inputs: Seq<RequirementModel>) -> Seq<Seq<char>> {
    inputs.map_values(|input: RequirementModel| tidy(input).name)
}

/// The first explanation that the requests give for a name.
pub open spec fn first_description(inputs: Seq<RequirementModel>, name: Seq<char>) -> Option<
    Seq<char>,
>
    decreases inputs.len(),
{
    if inputs.len() == 0 {
        None
    } else {
        let earlier = first_description(inputs.drop_last(), name);
        if earlier is None && tidy(inputs.last()).name == name {
            tidy(inputs.last()).description
        } else {
            earlier
        }
    }
}

/// Requested requirements as they are stored: every name once, where it is seen
/// first, with the first explanation given for it.
pub open spec fn normalized(inputs: Seq<RequirementModel>) -> Seq<RequirementModel> {
    first_seen(tidy_names(inputs)).map_values(
        |name: Seq<char>|
            RequirementModel { name, description: first_description(inputs, name) },
    )
}

/// Whether no two of the requirements have the same name.
pub open spec fn distinct_names(list: Seq<RequirementModel>) -> bool {
    forall|i: int, j: int| 0 <= i < j < list.len() ==> list[i].name != list[j].name
}

/// What is stored has every name once.
pub proof fn normalized_names_are_distinct(inputs: Seq<RequirementModel>)
    ensures
        distinct_names(normalized(inputs)),
{
    crate::ids::first_seen_keeps_each_once(tidy_names(inputs));
}

/// Whether a requirement is written as it is stored: its name is trimmed, holds 1
/// through 100 characters, and its explanation is trimmed, holds 1 through 1000
/// characters, or is none.
pub open spec fn is_tidy(requirement: RequirementModel) -> bool {
    &&& trimmed(requirement.name) == requirement.name
    &&& 0 < requirement.name.len() <= 100
    &&& tidy_description(requirement.description) == requirement.description
    &&& description_fault(requirement.description) is None
}

/// What is stored of requested requirements without a fault is tidy.
pub proof fn normalized_requirements_are_tidy(inputs: Seq<RequirementModel>)
    requires
        requirements_fault(inputs) is None,
    ensures
        forall|i: int|
            0 <= i < normalized(inputs).len() ==> is_tidy(#[trigger] normalized(inputs)[i]),
{
    let names = tidy_names(inputs);
    crate::ids::first_seen_keeps_each_once(names);
    assert forall|i: int| 0 <= i < normalized(inputs).len() implies is_tidy(
        #[trigger] normalized(inputs)[i],
    ) by {
        let name = first_seen(names)[i];
        assert(first_seen(names).to_set().contains(name));
        assert(names.to_set().contains(name));
        let k = choose|k: int| 0 <= k < names.len() && names[k] == name;
        lemma_no_fault(inputs, k);
        trimmed_is_idempotent(inputs[k].name);
        lemma_tidy_explanation(inputs, name);
    }
}

/// Where there is no fault, none of the requests has one.
proof fn lemma_no_fault(inputs: Seq<RequirementModel>, k: int)
    requires
        requirements_fault(inputs) is None,
        0 <= k < inputs.len(),
    ensures
        input_fault(inputs[k]) is None,
    decreases inputs.len(),
{
    if k < inputs.len() - 1 {
        lemma_no_fault(inputs.drop_last(), k);
    }
}

/// The explanation that is stored for a name is tidy.
proof fn lemma_tidy_explanation(inputs: Seq<RequirementModel>, name: Seq<char>)
    requires
        requirements_fault(inputs) is None,
    ensures
        tidy_description(first_description(inputs, name)) == first_description(inputs, name),
        description_fault(first_description(inputs, name)) is None,
    decreases inputs.len(),
{
    if inputs.len() > 0 {
        lemma_tidy_explanation(inputs.drop_last(), name);
        if let Some(text) = inputs.last().description {
            trimmed_is_idempotent(text);
        }
    }
}

/// The place of the first requirement with the given name.
pub(crate) fn position(list: &Vec<Requirement>, name: &str) -> (result: Option<usize>)
    ensures
        match result {
            Some(i) => i < list@.len() && list@[i as int].name@ == name@,
            None => forall|k: int| 0 <= k < list@.len() ==> (#[trigger] list@[k]).name@ != name@,
        },
{
    let mut i: usize = 0;
    while i < list.len()
        invariant
            i <= list.len(),
            forall|k: int| 0 <= k < i ==> (#[trigger] list@[k]).name@ != name@,
        decreases list.len() - i,
    {
        if same(list[i].name.as_str(), name) {
            return Some(i);
        }
        i += 1;
    }
    None
}

/// A stored requirement after another request for it.
spec fn merged(stored: RequirementModel, next: RequirementModel) -> RequirementModel {
    if stored.description is None {
        RequirementModel { name: stored.name, description: next.description }
    } else {
        stored
    }
}

/// What one more request does to what is stored.
proof fn lemma_normalized_push(inputs: Seq<RequirementModel>, next: RequirementModel)
    ensures
        ({
            let before = normalized(inputs);
            let after = normalized(inputs.push(next));
            &&& forall|k: int|
                0 <= k < before.len() && (#[trigger] before[k]).name == tidy(next).name ==> after
                    == before.update(k, merged(before[k], tidy(next)))
            &&& (forall|k: int|
                0 <= k < before.len() ==> (#[trigger] before[k]).name != tidy(next).name) ==> after
                == before.push(tidy(next))
        }),
{
    let before = normalized(inputs);
    let after = normalized(inputs.push(next));
    let names = tidy_names(inputs);
    let all = inputs.push(next);
    assert(all.drop_last() =~= inputs);
    assert(tidy_names(all).drop_last() =~= names);
    assert(tidy_names(all).last() == tidy(next).name);
    crate::ids::first_seen_keeps_each_once(names);
    let kept = first_seen(names);
    assert forall|k: int|
        0 <= k < before.len() && (#[trigger] before[k]).name == tidy(next).name implies after
        == before.update(k, merged(before[k], tidy(next))) by {
        assert(kept[k] == tidy(next).name);
        assert(kept.contains(tidy(next).name));
        assert(first_seen(tidy_names(all)) == kept);
        assert forall|m: int| 0 <= m < before.len() && m != k implies before[m] == after[m] by {
            assert(kept[m] != kept[k]);
        }
        assert(after =~= before.update(k, merged(before[k], tidy(next))));
    }
    if forall|k: int| 0 <= k < before.len() ==> (#[trigger] before[k]).name != tidy(next).name {
        if kept.contains(tidy(next).name) {
            let k = choose|k: int| 0 <= k < kept.len() && kept[k] == tidy(next).name;
            assert(before[k].name == tidy(next).name);
        }
        assert(!names.contains(tidy(next).name)) by {
            if names.contains(tidy(next).name) {
                assert(names.to_set().contains(tidy(next).name));
                assert(kept.to_set().contains(tidy(next).name));
            }
        }
        lemma_undescribed(inputs, tidy(next).name);
        assert forall|m: int| 0 <= m < before.len() implies before[m] == after[m] by {
            assert(before[m].name != tidy(next).name);
        }
        assert(after =~= before.push(tidy(next)));
    }
}

/// No explanation is given for a name that nothing asks for.
proof fn lemma_undescribed(inputs: Seq<RequirementModel>, name: Seq<char>)
    requires
        !tidy_names(inputs).contains(name),
    ensures
        first_description(inputs, name) is None,
    decreases inputs.len(),
{
    if inputs.len() > 0 {
        let names = tidy_names(inputs);
        let front = tidy_names(inputs.drop_last());
        assert(names.last() == tidy(inputs.last()).name);
        assert(names.contains(names.last()));
        if front.contains(name) {
            let k = choose|k: int| 0 <= k < front.len() && front[k] == name;
            assert(names[k] == name);
        }
        lemma_undescribed(inputs.drop_last(), name);
    }
}

/// A fault of the first requests is a fault of all of them.
proof fn lemma_fault_stays(inputs: Seq<RequirementModel>, n: int)
    requires
        0 <= n <= inputs.len(),
        requirements_fault(inputs.take(n)) is Some,
    ensures
        requirements_fault(inputs) == requirements_fault(inputs.take(n)),
    decreases inputs.len() - n,
{
    if n == inputs.len() {
        assert(inputs.take(n) =~= inputs);
    } else {
        assert(inputs.take(n + 1).drop_last() =~= inputs.take(n));
        lemma_fault_stays(inputs, n + 1);
    }
}

/// Requested requirements as they are stored, where none is wrong.
pub fn validate_requirements(inputs: Vec<RequirementInput>) -> (result: Result<
    Vec<Requirement>,
    StoreError,
>)
    ensures
        match result {
            Ok(list) => requirements_fault(input_models(inputs@)) is None && requirement_models(
                list@,
            ) == normalized(input_models(inputs@)),
            Err(error) => requirements_fault(input_models(inputs@)) == Some(error@),
        },
{
    let ghost models = input_models(inputs@);
    let mut list: Vec<Requirement> = Vec::new();
    assert(requirement_models(list@) =~= normalized(models.take(0)));
    for input in it: inputs
        invariant
            it.seq() == inputs@,
            models == input_models(inputs@),
            requirements_fault(models.take(it.index() as int)) is None,
            requirement_models(list@) == normalized(models.take(it.index() as int)),
    {
        let ghost i: int = it.index() as int;
        let ghost done = models.take(i);
        proof {
            assert(models.take(i + 1) =~= done.push(models[i]));
            assert(done.push(models[i]).drop_last() =~= done);
            lemma_normalized_push(done, models[i]);
            if input_fault(models[i]) is Some {
                lemma_fault_stays(models, i + 1);
            }
        }
        let (name, description) = match input {
            RequirementInput::Name(name) => (name, None),
            RequirementInput::Full(requirement) => (requirement.name, requirement.description),
        };
        assert(models[i] == (RequirementModel {
            name: name@,
            description: optional_text(description),
        }));
        let name: String = name.as_str().trim().to_owned();
        if let Err(error) = validate_requirement_name(name.as_str()) {
            return Err(error);
        }
        let description = match validate_requirement_description(description) {
            Ok(description) => description,
            Err(error) => {
                return Err(error);
            },
        };
        let ghost before = requirement_models(list@);
        match position(&list, name.as_str()) {
            Some(k) => {
                assert(before[k as int].name == name@);
                if list[k].description.is_none() && description.is_some() {
                    let merged = Requirement { name, description };
                    list.set(k, merged);
                }
                assert(requirement_models(list@) =~= before.update(
                    k as int,
                    merged(before[k as int], tidy(models[i])),
                ));
            },
            None => {
                assert forall|k: int| 0 <= k < before.len() implies (#[trigger] before[k]).name
                    != tidy(models[i]).name by {
                    assert(before[k].name == list@[k].name@);
                }
                list.push(Requirement { name, description });
                assert(requirement_models(list@) =~= before.push(tidy(models[i])));
            },
        }
    }
    assert(models.take(models.len() as int) =~= models);
    Ok(list)
}

} // verus!
