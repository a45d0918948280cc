use orcis::artifact::{
    ArtifactBody, ArtifactFiles, ReadEvent, SendAction, Upload, UploadAction, UploadError,
    UploadEvent, MAX_ARTIFACT_BYTES, SHORT_FILE, SIZE_MISMATCH,
};
use std::collections::HashSet;

const ID: u128 = 0x93f6654d_db35_49ba_8030_caa595d70370;
const ID_TEXT: &str = "93f6654d-db35-49ba-8030-caa595d70370";

#[test]
fn files_stand_under_their_identifiers() {
    let files = ArtifactFiles::new("data/artifacts".to_owned());
    assert_eq!(files.directory(), "data/artifacts");
    let path = files.path(ID);
    assert_eq!(path.directory, "data/artifacts");
    assert_eq!(path.name, ID_TEXT);
    assert_eq!(files.temporary_path(ID).name, format!("{ID_TEXT}.tmp"));
}

#[test]
fn reconciliation_removes_orphans_and_interrupted_uploads_only() {
    let known = HashSet::from([ID]);
    let orphan = "2f61db3a-a690-464a-905f-8ae81a708c15";
    assert!(!ArtifactFiles::is_left_over(true, Some(ID_TEXT), &known));
    assert!(ArtifactFiles::is_left_over(true, Some(orphan), &known));
    assert!(ArtifactFiles::is_left_over(true, Some("interrupted.tmp"), &known));
    assert!(!ArtifactFiles::is_left_over(true, Some("operator-note"), &known));
    assert!(!ArtifactFiles::is_left_over(false, Some(orphan), &known));
    assert!(!ArtifactFiles::is_left_over(true, None, &known));
    assert!(ArtifactFiles::is_due(0, 0));
    assert!(ArtifactFiles::is_due(5, 5));
    assert!(!ArtifactFiles::is_due(4, 5));
}

#[test]
fn an_upload_beyond_its_limit_removes_both_files() {
    let mut upload = Upload::begin(3);
    assert_eq!(upload.action(), UploadAction::CreateTemporary);
    upload.handle(UploadEvent::Done);
    assert_eq!(upload.action(), UploadAction::ReceiveFrame);
    upload.handle(UploadEvent::Data(4));
    assert_eq!(upload.action(), UploadAction::RemoveTemporary);
    upload.handle(UploadEvent::Done);
    assert_eq!(upload.action(), UploadAction::RemoveDestination);
    upload.handle(UploadEvent::Failed);
    assert_eq!(upload.action(), UploadAction::Finish);
    assert_eq!(upload.outcome(), Err(UploadError::TooLarge));
}

#[test]
fn an_upload_within_its_limit_tells_its_size() {
    let mut upload = Upload::begin(5);
    let events = [
        (UploadEvent::Done, UploadAction::ReceiveFrame),
        (UploadEvent::Data(2), UploadAction::WriteData),
        (UploadEvent::Done, UploadAction::ReceiveFrame),
        (UploadEvent::NoData, UploadAction::ReceiveFrame),
        (UploadEvent::Data(3), UploadAction::WriteData),
        (UploadEvent::Done, UploadAction::ReceiveFrame),
        (UploadEvent::End, UploadAction::SyncTemporary),
        (UploadEvent::Done, UploadAction::Rename),
        (UploadEvent::Done, UploadAction::SyncDirectory),
        (UploadEvent::Done, UploadAction::Finish),
    ];
    for (event, action) in events {
        upload.handle(event);
        assert_eq!(upload.action(), action);
    }
    assert_eq!(upload.outcome(), Ok(5));
}

#[test]
fn a_length_beyond_all_numbers_is_too_large() {
    let mut upload = Upload::begin(MAX_ARTIFACT_BYTES);
    assert_eq!(MAX_ARTIFACT_BYTES, 1024 * 1024 * 1024);
    upload.handle(UploadEvent::Done);
    upload.handle(UploadEvent::Data(1));
    upload.handle(UploadEvent::Done);
    upload.handle(UploadEvent::Data(usize::MAX));
    assert_eq!(upload.outcome(), Err(UploadError::TooLarge));
}

#[test]
fn a_body_that_breaks_off_and_a_file_that_fails_differ() {
    let mut upload = Upload::begin(10);
    upload.handle(UploadEvent::Done);
    upload.handle(UploadEvent::Failed);
    assert_eq!(upload.outcome(), Err(UploadError::Body));

    let mut upload = Upload::begin(10);
    upload.handle(UploadEvent::Failed);
    assert_eq!(upload.outcome(), Err(UploadError::Io));
    assert_eq!(upload.action(), UploadAction::RemoveTemporary);
}

#[test]
fn a_body_is_sent_in_chunks() {
    let mut body = ArtifactBody::new(65_537, 65_537).unwrap();
    assert_eq!(body.capacity(), Some(65_536));
    assert_eq!(body.size_hint(), 65_537);
    assert_eq!(body.handle(ReadEvent::Pending), SendAction::Wait);
    assert_eq!(
        body.handle(ReadEvent::Filled(65_536)),
        SendAction::Data(65_536)
    );
    assert_eq!(body.capacity(), Some(1));
    assert!(!body.is_end_stream());
    assert_eq!(body.handle(ReadEvent::Filled(1)), SendAction::Data(1));
    assert!(body.is_end_stream());
    assert_eq!(body.capacity(), None);
}

#[test]
fn a_body_ends_with_an_error_where_the_file_is_short_or_fails() {
    let mut body = ArtifactBody::new(10, 10).unwrap();
    assert_eq!(body.handle(ReadEvent::Filled(0)), SendAction::TooShort);
    assert_eq!(body.capacity(), None);
    let mut body = ArtifactBody::new(10, 10).unwrap();
    assert_eq!(body.handle(ReadEvent::Failed), SendAction::Fail);
    assert!(body.is_end_stream());
    assert_eq!(ArtifactBody::new(9, 10), Err(SIZE_MISMATCH));
    assert_eq!(SIZE_MISMATCH, "artifact file size does not match its database record");
    assert_eq!(SHORT_FILE, "artifact file is shorter than its recorded size");
}
