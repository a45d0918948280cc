//! What becomes of the bytes of an artifact that is received or sent.

use crate::artifact::{
    chunk, is_stray, remaining_after, send_action, ReadEvent, SendAction, UploadAction, UploadError,
    UploadEvent, UploadModel,
};
use crate::ids::{parsed_uuid, Uuid};
use crate::text::has_suffix;
use vstd::prelude::*;

verus! {

/// Whether an upload waits for something to be done with a file that it still needs.
pub open spec fn is_at_work(action: UploadAction) -> bool {
    ||| action == UploadAction::CreateTemporary
    ||| action == UploadAction::WriteData
    ||| action == UploadAction::SyncTemporary
    ||| action == UploadAction::Rename
    ||| action == UploadAction::SyncDirectory
}

/// An upload fails when something that it waits for is not done, when no frame can be
/// received, and when a frame goes beyond the limit, and at no other time.
pub proof fn an_upload_fails_for_these_reasons_alone(upload: UploadModel, event: UploadEvent)
    requires
        upload.failure is None,
    ensures
        upload.after(event).failure == Some(UploadError::Io) <==> is_at_work(upload.action)
            && event != UploadEvent::Done,
        upload.after(event).failure == Some(UploadError::Body) <==> upload.action
            == UploadAction::ReceiveFrame && (event == UploadEvent::Done || event
            == UploadEvent::Failed),
        upload.after(event).failure == Some(UploadError::TooLarge) <==> upload.action
            == UploadAction::ReceiveFrame && (event matches UploadEvent::Data(length)
            && upload.size + length > upload.limit),
        upload.after(event).failure is Some ==> upload.after(event).action
            == UploadAction::RemoveTemporary,
{
}

/// An upload that goes well creates its file, receives and writes frame by frame, brings
/// the file to the disk, gives it its name, brings the directory to the disk, and ends. It
/// counts the bytes of every frame.
pub proof fn an_upload_goes_step_by_step(upload: UploadModel, event: UploadEvent)
    requires
        upload.failure is None,
        upload.after(event).failure is None,
    ensures
        ({
            let next = upload.after(event).action;
            match upload.action {
                UploadAction::CreateTemporary => next == UploadAction::ReceiveFrame,
                UploadAction::ReceiveFrame => match event {
                    UploadEvent::Data(_) => next == UploadAction::WriteData,
                    UploadEvent::End => next == UploadAction::SyncTemporary,
                    _ => next == UploadAction::ReceiveFrame,
                },
                UploadAction::WriteData => next == UploadAction::ReceiveFrame,
                UploadAction::SyncTemporary => next == UploadAction::Rename,
                UploadAction::Rename => next == UploadAction::SyncDirectory,
                UploadAction::SyncDirectory => next == UploadAction::Finish,
                UploadAction::RemoveTemporary => next == UploadAction::RemoveDestination,
                UploadAction::RemoveDestination => next == UploadAction::Finish,
                UploadAction::Finish => next == UploadAction::Finish,
            }
        }),
        upload.after(event).size == upload.size + if upload.action == UploadAction::ReceiveFrame
            && event is Data {
            event->Data_0 as nat
        } else {
            0
        },
        upload.after(event).limit == upload.limit,
{
}

/// An upload that has failed keeps its failure, whatever comes, until it has ended.
pub proof fn a_failure_stays(upload: UploadModel, event: UploadEvent)
    requires
        upload.failure is Some,
        upload.action == UploadAction::RemoveTemporary || upload.action
            == UploadAction::RemoveDestination || upload.action == UploadAction::Finish,
    ensures
        upload.after(event).failure == upload.failure,
        upload.action == UploadAction::RemoveTemporary ==> upload.after(event).action
            == UploadAction::RemoveDestination,
        upload.action != UploadAction::RemoveTemporary ==> upload.after(event).action
            == UploadAction::Finish,
{
}

/// An upload begins with the creation of its file, without a byte and without a failure.
pub proof fn an_upload_begins_with_its_file(limit: nat)
    ensures
        UploadModel::begun(limit).action == UploadAction::CreateTemporary,
        UploadModel::begun(limit).size == 0,
        UploadModel::begun(limit).limit == limit,
        UploadModel::begun(limit).failure is None,
{
}

/// Of a file that is sent every byte that is read is sent, in pieces of at most 65536; an
/// error of reading ends it, and so does an end before all bytes were read.
pub proof fn every_byte_that_is_read_is_sent(remaining: nat, event: ReadEvent)
    ensures
        chunk(remaining) <= remaining,
        chunk(remaining) <= 65536,
        remaining > 0 ==> chunk(remaining) > 0,
        remaining <= 65536 ==> chunk(remaining) == remaining,
        remaining >= 65536 ==> chunk(remaining) == 65536,
        match event {
            ReadEvent::Pending => send_action(event) == SendAction::Wait && remaining_after(
                remaining,
                event,
            ) == remaining,
            ReadEvent::Failed => send_action(event) == SendAction::Fail && remaining_after(
                remaining,
                event,
            ) == 0,
            ReadEvent::Filled(length) => if length == 0 {
                send_action(event) == SendAction::TooShort && remaining_after(remaining, event)
                    == 0
            } else {
                send_action(event) == SendAction::Data(length) && (length <= remaining
                    ==> remaining_after(remaining, event) + length == remaining)
            },
        },
{
}

/// A file is left over exactly when its name is that of an artifact that is not known, or
/// is none and ends as the name of an upload that did not end.
pub proof fn unknown_files_are_left_over(name: Seq<char>, known: Set<Uuid>)
    ensures
        parsed_uuid(name) matches Ok(id) ==> (is_stray(name, known) <==> !known.contains(id)),
        parsed_uuid(name) is Err ==> (is_stray(name, known) <==> exists|start: Seq<char>|
            name == #[trigger] (start + ".tmp"@)),
{
    if parsed_uuid(name) is Err {
        if has_suffix(name, ".tmp"@) {
            let start = name.take(name.len() - ".tmp"@.len());
            assert(name =~= start + ".tmp"@);
        }
        if exists|start: Seq<char>| name == #[trigger] (start + ".tmp"@) {
            let start = choose|start: Seq<char>| name == #[trigger] (start + ".tmp"@);
            assert(name.skip(name.len() - ".tmp"@.len()) =~= ".tmp"@);
        }
    }
}

} // verus!
