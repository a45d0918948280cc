//! The files of artifacts: where they stand, how they are received and sent, and
//! which of them are left over.

use crate::ids::{parsed_uuid, print_uuid, scan_uuid, uuid_text, Uuid};
use crate::rules::joined;
use crate::text::{ends_with, has_suffix};
use std::collections::HashSet;
use vstd::prelude::*;

verus! {

/// The directory of artifacts, below that of the data.
pub const ARTIFACT_DIRECTORY: &'static str = "artifacts";

/// The most bytes that an artifact may hold.
pub const MAX_ARTIFACT_BYTES: usize = 1_073_741_824;

/// The most bytes that are read of a file at once.
pub const CHUNK_BYTES: u64 = 65_536;

/// A file by its directory and its name.
#[derive(Clone, Debug, PartialEq, Eq)]
pub struct FilePath {
    pub directory: String,
    pub name: String,
}

/// A file by its directory and its name, mathematically.
pub struct PathModel {
    pub directory: Seq<char>,
    pub name: Seq<char>,
}

impl View for FilePath {
    type V = PathModel;

    open spec fn view(&self) -> PathModel {
        PathModel { directory: self.directory@, name: self.name@ }
    }
}

/// The directory that holds the files of artifacts. Its view is the name of the
/// directory.
#[derive(Clone, Debug, PartialEq, Eq)]
pub struct ArtifactFiles {
    directory: String,
}

impl View for ArtifactFiles {
    type V = Seq<char>;

    closed spec fn view(&self) -> Seq<char> {
        self.directory@
    }
}

/// Whether a file in the directory of artifacts belongs to none of the known
/// artifacts: its name is the identifier of another, or that of an upload that
/// did not end.
pub open spec fn is_stray(name: Seq<char>, known: Set<Uuid>) -> bool {
    match parsed_uuid(name) {
        Ok(id) => !known.contains(id),
        Err(_) => has_suffix(name, ".tmp"@),
    }
}

impl ArtifactFiles {
    /// The files in the given directory.
    pub fn new(directory: String) -> (files: ArtifactFiles)
        ensures
            files@ == directory@,
    {
        ArtifactFiles { directory }
    }

    /// The directory that holds the files.
    pub fn directory(&self) -> (directory: &str)
        ensures
            directory@ == self@,
    {
        self.directory.as_str()
    }

    /// The file of an artifact.
    pub fn path(&self, id: Uuid) -> (path: FilePath)
        ensures
            path@ == (PathModel { directory: self@, name: uuid_text(id) }),
    {
        FilePath { directory: self.directory.clone(), name: print_uuid(id) }
    }

    /// The file of an artifact while it is received.
    pub fn temporary_path(&self, id: Uuid) -> (path: FilePath)
        ensures
            path@ == (PathModel { directory: self@, name: uuid_text(id) + ".tmp"@ }),
    {
        FilePath {
            directory: self.directory.clone(),
            name: joined(print_uuid(id).as_str(), ".tmp"),
        }
    }

    /// Whether an entry of the directory is left over: a regular file whose name
    /// is text and belongs to none of the known artifacts. The file of a known
    /// artifact never is, and that of an unknown one always.
    pub fn is_left_over(is_file: bool, name: Option<&str>, known: &HashSet<Uuid>) -> (left_over:
        bool)
        ensures
            left_over == (is_file && (name matches Some(name) && is_stray(name@, known@))),
            forall|id: Uuid|
                is_file && (name matches Some(name) && name@ == #[trigger] uuid_text(id)) ==> (
                left_over <==> !known@.contains(id)),
    {
        if !is_file {
            return false;
        }
        match name {
            None => false,
            Some(name) => match scan_uuid(name) {
                Ok(id) => !known.contains(&id),
                Err(_) => ends_with(name, ".tmp"),
            },
        }
    }

    /// Whether a file that is left over is old enough to be removed.
    pub fn is_due(age: u128, minimum_age: u128) -> (due: bool)
        ensures
            due == (age >= minimum_age),
    {
        age >= minimum_age
    }
}

/// Why an upload does not end with a file.
#[derive(Clone, Copy, Debug, PartialEq, Eq, Structural)]
pub enum UploadError {
    /// The body could not be received.
    Body,
    /// A file could not be written.
    Io,
    /// The body holds more bytes than an artifact may.
    TooLarge,
}

/// What an upload waits for.
#[derive(Clone, Copy, Debug, PartialEq, Eq, Structural)]
pub enum UploadAction {
    /// Create the temporary file.
    CreateTemporary,
    /// Receive the next frame of the body.
    ReceiveFrame,
    /// Write the data of the frame to the temporary file.
    WriteData,
    /// Bring the temporary file to the disk.
    SyncTemporary,
    /// Give the temporary file its name.
    Rename,
    /// Bring the directory to the disk.
    SyncDirectory,
    /// Remove the temporary file.
    RemoveTemporary,
    /// Remove the file of the artifact.
    RemoveDestination,
    /// Nothing: the upload has ended.
    Finish,
}

/// What became of an action.
#[derive(Clone, Copy, Debug, PartialEq, Eq, Structural)]
pub enum UploadEvent {
    /// It was done.
    Done,
    /// It failed.
    Failed,
    /// A frame with so many bytes of data came.
    Data(usize),
    /// A frame without data came.
    NoData,
    /// The body has ended.
    End,
}

/// An upload, from the creation of its temporary file to its end.
#[derive(Clone, Copy, Debug, PartialEq, Eq)]
pub struct Upload {
    action: UploadAction,
    size: usize,
    limit: usize,
    failure: Option<UploadError>,
}

/// An upload, mathematically: what it waits for, the bytes that have come, the
/// most that may, and why it failed, where it did.
pub struct UploadModel {
    pub action: UploadAction,
    pub size: nat,
    pub limit: nat,
    pub failure: Option<UploadError>,
}

impl View for Upload {
    type V = UploadModel;

    closed spec fn view(&self) -> UploadModel {
        UploadModel {
            action: self.action,
            size: self.size as nat,
            limit: self.limit as nat,
            failure: self.failure,
        }
    }
}

impl UploadModel {
    /// An upload that begins.
    pub open spec fn begun(limit: nat) -> UploadModel {
        UploadModel { action: UploadAction::CreateTemporary, size: 0, limit, failure: None }
    }

    /// The upload, waiting for another action.
    pub open spec fn waiting_for(self, action: UploadAction) -> UploadModel {
        UploadModel { action, ..self }
    }

    /// The upload, failed: both files are removed.
    pub open spec fn failed(self, failure: UploadError) -> UploadModel {
        UploadModel {
            action: UploadAction::RemoveTemporary,
            failure: Some(failure),
            ..self
        }
    }

    /// The upload after an event.
    pub open spec fn after(self, event: UploadEvent) -> UploadModel {
        match self.action {
            UploadAction::CreateTemporary => if event == UploadEvent::Done {
                self.waiting_for(UploadAction::ReceiveFrame)
            } else {
                self.failed(UploadError::Io)
            },
            UploadAction::ReceiveFrame => match event {
                UploadEvent::Data(length) => if self.size + length > self.limit {
                    self.failed(UploadError::TooLarge)
                } else {
                    UploadModel {
                        action: UploadAction::WriteData,
                        size: self.size + length as nat,
                        ..self
                    }
                },
                UploadEvent::NoData => self,
                UploadEvent::End => self.waiting_for(UploadAction::SyncTemporary),
                _ => self.failed(UploadError::Body),
            },
            UploadAction::WriteData => if event == UploadEvent::Done {
                self.waiting_for(UploadAction::ReceiveFrame)
            } else {
                self.failed(UploadError::Io)
            },
            UploadAction::SyncTemporary => if event == UploadEvent::Done {
                self.waiting_for(UploadAction::Rename)
            } else {
                self.failed(UploadError::Io)
            },
            UploadAction::Rename => if event == UploadEvent::Done {
                self.waiting_for(UploadAction::SyncDirectory)
            } else {
                self.failed(UploadError::Io)
            },
            UploadAction::SyncDirectory => if event == UploadEvent::Done {
                self.waiting_for(UploadAction::Finish)
            } else {
                self.failed(UploadError::Io)
            },
            UploadAction::RemoveTemporary => self.waiting_for(UploadAction::RemoveDestination),
            UploadAction::RemoveDestination => self.waiting_for(UploadAction::Finish),
            UploadAction::Finish => self,
        }
    }

    /// The upload after one event and another.
    pub open spec fn after_all(self, events: Seq<UploadEvent>) -> UploadModel
        decreases events.len(),
    {
        if events.len() == 0 {
            self
        } else {
            self.after_all(events.drop_last()).after(events.last())
        }
    }
}

impl Upload {
    /// Begins an upload of at most so many bytes.
    pub fn begin(limit: usize) -> (upload: Upload)
        ensures
            upload@ == UploadModel::begun(limit as nat),
    {
        Upload { action: UploadAction::CreateTemporary, size: 0, limit, failure: None }
    }

    /// What the upload waits for.
    pub fn action(&self) -> (action: UploadAction)
        ensures
            action == self@.action,
    {
        self.action
    }

    /// Goes on to another action.
    fn go_on(&mut self, event: UploadEvent, action: UploadAction)
        ensures
            final(self)@ == (if event == UploadEvent::Done {
                old(self)@.waiting_for(action)
            } else {
                old(self)@.failed(UploadError::Io)
            }),
    {
        match event {
            UploadEvent::Done => {
                self.action = action;
            },
            _ => {
                self.fail(UploadError::Io);
            },
        }
    }

    /// Gives up.
    fn fail(&mut self, failure: UploadError)
        ensures
            final(self)@ == old(self)@.failed(failure),
    {
        self.action = UploadAction::RemoveTemporary;
        self.failure = Some(failure);
    }

    /// Takes up what became of the action.
    pub fn handle(&mut self, event: UploadEvent)
        ensures
            final(self)@ == old(self)@.after(event),
    {
        match self.action {
            UploadAction::CreateTemporary => {
                self.go_on(event, UploadAction::ReceiveFrame);
            },
            UploadAction::ReceiveFrame => match event {
                UploadEvent::Data(length) => {
                    match self.size.checked_add(length) {
                        Some(size) => {
                            if size > self.limit {
                                self.fail(UploadError::TooLarge);
                            } else {
                                self.size = size;
                                self.action = UploadAction::WriteData;
                            }
                        },
                        None => {
                            self.fail(UploadError::TooLarge);
                        },
                    }
                },
                UploadEvent::NoData => {},
                UploadEvent::End => {
                    self.action = UploadAction::SyncTemporary;
                },
                _ => {
                    self.fail(UploadError::Body);
                },
            },
            UploadAction::WriteData => {
                self.go_on(event, UploadAction::ReceiveFrame);
            },
            UploadAction::SyncTemporary => {
                self.go_on(event, UploadAction::Rename);
            },
            UploadAction::Rename => {
                self.go_on(event, UploadAction::SyncDirectory);
            },
            UploadAction::SyncDirectory => {
                self.go_on(event, UploadAction::Finish);
            },
            UploadAction::RemoveTemporary => {
                self.action = UploadAction::RemoveDestination;
            },
            UploadAction::RemoveDestination => {
                self.action = UploadAction::Finish;
            },
            UploadAction::Finish => {},
        }
    }

    /// The bytes that have come, or why the upload failed.
    pub fn outcome(&self) -> (outcome: Result<u64, UploadError>)
        ensures
            match outcome {
                Ok(size) => self@.failure is None && size == self@.size,
                Err(failure) => self@.failure == Some(failure),
            },
    {
        match self.failure {
            Some(failure) => Err(failure),
            None => Ok(self.size as u64),
        }
    }
}

/// The bytes that the events of an upload brought.
pub open spec fn bytes_brought(events: Seq<UploadEvent>) -> nat
    decreases events.len(),
{
    if events.len() == 0 {
        0
    } else {
        let earlier = bytes_brought(events.drop_last());
        match events.last() {
            UploadEvent::Data(length) => earlier + length as nat,
            _ => earlier,
        }
    }
}

/// Whether data comes only when an upload waits for it.
pub open spec fn is_fair(upload: UploadModel, events: Seq<UploadEvent>) -> bool {
    forall|i: int|
        0 <= i < events.len() && (#[trigger] events[i]) is Data ==> upload.after_all(
            events.take(i),
        ).action == UploadAction::ReceiveFrame
}

/// An upload holds no more bytes than it may, and one that has not failed holds
/// all that were brought.
pub proof fn an_upload_keeps_to_its_limit(limit: nat, events: Seq<UploadEvent>)
    requires
        is_fair(UploadModel::begun(limit), events),
    ensures
        UploadModel::begun(limit).after_all(events).limit == limit,
        UploadModel::begun(limit).after_all(events).size <= limit,
        UploadModel::begun(limit).after_all(events).failure is None ==> UploadModel::begun(
            limit,
        ).after_all(events).size == bytes_brought(events),
    decreases events.len(),
{
    if events.len() > 0 {
        let front = events.drop_last();
        let begun = UploadModel::begun(limit);
        assert forall|i: int|
            0 <= i < front.len() && (#[trigger] front[i]) is Data implies begun.after_all(
            front.take(i),
        ).action == UploadAction::ReceiveFrame by {
            assert(events[i] is Data);
            assert(front.take(i) =~= events.take(i));
        }
        an_upload_keeps_to_its_limit(limit, front);
        assert(events.take(events.len() - 1) =~= front);
        assert(events[events.len() - 1] == events.last());
    }
}

/// A body that brings more bytes than an artifact may hold is refused as too large
/// with the frame that goes beyond.
pub proof fn too_large_means_beyond_the_limit(upload: UploadModel, event: UploadEvent)
    requires
        upload.failure is None,
    ensures
        upload.after(event).failure == Some(UploadError::TooLarge) <==> upload.action
            == UploadAction::ReceiveFrame && event is Data && upload.size + event->Data_0
            > upload.limit,
{
}

/// Whether an upload waited for the given action after so many events.
pub open spec fn waited_for(
    limit: nat,
    events: Seq<UploadEvent>,
    i: int,
    action: UploadAction,
) -> bool {
    UploadModel::begun(limit).after_all(events.take(i)).action == action
}

/// An upload that failed and has ended had its temporary file removed, and then
/// the file of the artifact.
pub proof fn a_failed_upload_leaves_no_file(limit: nat, events: Seq<UploadEvent>)
    requires
        UploadModel::begun(limit).after_all(events).failure is Some,
        UploadModel::begun(limit).after_all(events).action == UploadAction::Finish,
    ensures
        exists|i: int, j: int|
            0 <= i < j < events.len() && #[trigger] waited_for(
                limit,
                events,
                i,
                UploadAction::RemoveTemporary,
            ) && #[trigger] waited_for(limit, events, j, UploadAction::RemoveDestination),
{
    lemma_removals(limit, events);
}

proof fn lemma_removals(limit: nat, events: Seq<UploadEvent>)
    ensures
        ({
            let upload = UploadModel::begun(limit).after_all(events);
            &&& upload.failure is Some ==> upload.action == UploadAction::RemoveTemporary
                || upload.action == UploadAction::RemoveDestination || upload.action
                == UploadAction::Finish
            &&& upload.failure is None ==> upload.action != UploadAction::RemoveTemporary
                && upload.action != UploadAction::RemoveDestination
            &&& upload.action == UploadAction::RemoveDestination ==> exists|i: int|
                0 <= i < events.len() && #[trigger] waited_for(
                    limit,
                    events,
                    i,
                    UploadAction::RemoveTemporary,
                )
            &&& upload.failure is Some && upload.action == UploadAction::Finish ==> exists|
                i: int,
                j: int,
            |
                0 <= i < j < events.len() && #[trigger] waited_for(
                    limit,
                    events,
                    i,
                    UploadAction::RemoveTemporary,
                ) && #[trigger] waited_for(limit, events, j, UploadAction::RemoveDestination)
        }),
    decreases events.len(),
{
    if events.len() > 0 {
        let front = events.drop_last();
        let last = events.len() - 1;
        lemma_removals(limit, front);
        let earlier = UploadModel::begun(limit).after_all(front);
        let upload = UploadModel::begun(limit).after_all(events);
        assert(events.take(last) =~= front);
        assert forall|i: int, action: UploadAction|
            0 <= i < front.len() && waited_for(limit, front, i, action) implies #[trigger] waited_for(
            limit,
            events,
            i,
            action,
        ) by {
            assert(front.take(i) =~= events.take(i));
        }
        if earlier.action == UploadAction::RemoveTemporary {
            assert(waited_for(limit, events, last, UploadAction::RemoveTemporary));
        }
        if earlier.action == UploadAction::RemoveDestination {
            let i = choose|i: int|
                0 <= i < front.len() && #[trigger] waited_for(
                    limit,
                    front,
                    i,
                    UploadAction::RemoveTemporary,
                );
            assert(waited_for(limit, events, i, UploadAction::RemoveTemporary));
            assert(waited_for(limit, events, last, UploadAction::RemoveDestination));
        }
        if earlier.failure is Some && earlier.action == UploadAction::Finish {
            let (i, j) = choose|i: int, j: int|
                0 <= i < j < front.len() && #[trigger] waited_for(
                    limit,
                    front,
                    i,
                    UploadAction::RemoveTemporary,
                ) && #[trigger] waited_for(limit, front, j, UploadAction::RemoveDestination);
            assert(waited_for(limit, events, i, UploadAction::RemoveTemporary));
            assert(waited_for(limit, events, j, UploadAction::RemoveDestination));
        }
    }
}

/// What a file that is sent gave when it was read.
#[derive(Clone, Copy, Debug, PartialEq, Eq, Structural)]
pub enum ReadEvent {
    /// Nothing yet.
    Pending,
    /// An error.
    Failed,
    /// So many bytes.
    Filled(usize),
}

/// What is sent of a file next.
#[derive(Clone, Copy, Debug, PartialEq, Eq, Structural)]
pub enum SendAction {
    /// Nothing yet.
    Wait,
    /// The error of reading.
    Fail,
    /// An error: the file is shorter than its record says.
    TooShort,
    /// So many bytes.
    Data(usize),
}

/// The file of an artifact while it is sent. Its view is the number of bytes that
/// remain.
#[derive(Clone, Copy, Debug, PartialEq, Eq)]
pub struct ArtifactBody {
    remaining: u64,
}

impl View for ArtifactBody {
    type V = nat;

    closed spec fn view(&self) -> nat {
        self.remaining as nat
    }
}

/// The most bytes to read next of a file of which so many remain.
pub open spec fn chunk(remaining: nat) -> nat {
    if remaining < CHUNK_BYTES {
        remaining
    } else {
        CHUNK_BYTES as nat
    }
}

/// What is sent next of a file, by what it gave.
pub open spec fn send_action(event: ReadEvent) -> SendAction {
    match event {
        ReadEvent::Pending => SendAction::Wait,
        ReadEvent::Failed => SendAction::Fail,
        ReadEvent::Filled(length) => if length == 0 {
            SendAction::TooShort
        } else {
            SendAction::Data(length)
        },
    }
}

/// The bytes that remain of a file after it was read once more.
pub open spec fn remaining_after(remaining: nat, event: ReadEvent) -> nat {
    match event {
        ReadEvent::Pending => remaining,
        ReadEvent::Failed => 0,
        ReadEvent::Filled(length) => if length == 0 {
            0
        } else {
            (remaining - length) as nat
        },
    }
}

/// What is wrong with a file that is shorter than its record says.
pub const SHORT_FILE: &'static str = "artifact file is shorter than its recorded size";

/// What is wrong with a file whose size is not that of its record.
pub const SIZE_MISMATCH: &'static str = "artifact file size does not match its database record";

impl ArtifactBody {
    /// The body of a file of the given size, where that is the size on record.
    pub fn new(actual_size: u64, expected_size: u64) -> (result: Result<ArtifactBody, &'static str>)
        ensures
            match result {
                Ok(body) => actual_size == expected_size && body@ == expected_size,
                Err(message) => actual_size != expected_size && message@ == SIZE_MISMATCH@,
            },
    {
        if actual_size != expected_size {
            return Err(SIZE_MISMATCH);
        }
        Ok(ArtifactBody { remaining: expected_size })
    }

    /// The most bytes to read next, where any remain.
    pub fn capacity(&self) -> (capacity: Option<usize>)
        ensures
            match capacity {
                Some(capacity) => self@ > 0 && capacity == chunk(self@),
                None => self@ == 0,
            },
    {
        if self.remaining == 0 {
            None
        } else if self.remaining < CHUNK_BYTES {
            Some(self.remaining as usize)
        } else {
            Some(CHUNK_BYTES as usize)
        }
    }

    /// Takes up what the file gave, and tells what is sent.
    pub fn handle(&mut self, event: ReadEvent) -> (action: SendAction)
        requires
            event matches ReadEvent::Filled(length) ==> length <= chunk(old(self)@),
        ensures
            action == send_action(event),
            final(self)@ == remaining_after(old(self)@, event),
    {
        match event {
            ReadEvent::Pending => SendAction::Wait,
            ReadEvent::Failed => {
                self.remaining = 0;
                SendAction::Fail
            },
            ReadEvent::Filled(length) => {
                if length == 0 {
                    self.remaining = 0;
                    SendAction::TooShort
                } else {
                    self.remaining = self.remaining - length as u64;
                    SendAction::Data(length)
                }
            },
        }
    }

    /// Whether everything was sent.
    pub fn is_end_stream(&self) -> (ended: bool)
        ensures
            ended == (self@ == 0),
    {
        self.remaining == 0
    }

    /// The number of bytes that remain.
    pub fn size_hint(&self) -> (remaining: u64)
        ensures
            remaining == self@,
    {
        self.remaining
    }
}

/// The bytes that are sent of a file of the given size, by what it gave; nothing is
/// sent after an error or beyond the end.
pub open spec fn bytes_sent(remaining: nat, events: Seq<ReadEvent>) -> nat
    decreases events.len(),
{
    if events.len() == 0 || remaining == 0 {
        0
    } else {
        let sent = match send_action(events[0]) {
            SendAction::Data(length) => length as nat,
            _ => 0,
        };
        sent + bytes_sent(remaining_after(remaining, events[0]), events.drop_first())
    }
}

/// The bytes that remain of a file after what it gave.
pub open spec fn bytes_left(remaining: nat, events: Seq<ReadEvent>) -> nat
    decreases events.len(),
{
    if events.len() == 0 || remaining == 0 {
        remaining
    } else {
        bytes_left(remaining_after(remaining, events[0]), events.drop_first())
    }
}

/// Whether no reading gave more bytes than remained.
pub open spec fn is_bounded(remaining: nat, events: Seq<ReadEvent>) -> bool
    decreases events.len(),
{
    events.len() == 0 || remaining == 0 || ((events[0] matches ReadEvent::Filled(length) ==> length
        <= chunk(remaining)) && is_bounded(
        remaining_after(remaining, events[0]),
        events.drop_first(),
    ))
}

/// What is sent and what remains make up the file, unless reading failed; and no
/// more is sent than the file holds.
pub proof fn a_body_sends_what_is_on_record(size: nat, events: Seq<ReadEvent>)
    requires
        is_bounded(size, events),
    ensures
        bytes_sent(size, events) <= size,
        (forall|i: int|
            0 <= i < events.len() ==> (#[trigger] events[i]) != ReadEvent::Failed && events[i]
                != ReadEvent::Filled(0)) ==> bytes_sent(size, events) + bytes_left(size, events)
            == size,
    decreases events.len(),
{
    if events.len() > 0 && size > 0 {
        let rest = events.drop_first();
        a_body_sends_what_is_on_record(remaining_after(size, events[0]), rest);
        if forall|i: int|
            0 <= i < events.len() ==> (#[trigger] events[i]) != ReadEvent::Failed && events[i]
                != ReadEvent::Filled(0) {
            assert forall|i: int| 0 <= i < rest.len() implies (#[trigger] rest[i])
                != ReadEvent::Failed && rest[i] != ReadEvent::Filled(0) by {
                assert(rest[i] == events[i + 1]);
            }
            assert(events[0] != ReadEvent::Failed);
        }
    }
}

} // verus!
