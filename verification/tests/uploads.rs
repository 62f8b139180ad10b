use actix_web::http::header::CONTENT_LENGTH;
use actix_web::HttpRequest;
use telegram_drive_headless::files::{StoredMedia, StoredMessage};
use telegram_drive_headless::request::RequestHead;
use telegram_drive_headless::upload::{
    begin_chunk, begin_upload, direct_chunk_filename, required_content_length, upload_chunk,
    upload_failure, upload_file, ChunkOutcome, FieldKind, UploadForm, UploadStage,
    MAX_DIRECT_CHUNK_BYTES,
};

fn head_of(req: &HttpRequest) -> RequestHead {
    let value = |name: &str| req.headers().get(name).map(|v| v.as_bytes().to_vec());
    RequestHead {
        api_key: value("X-API-Key"),
        playback_origin_key: value("X-Playback-Origin-Key"),
        content_length: value("Content-Length"),
        file_name: value("X-File-Name"),
        range: value("Range"),
    }
}

fn head_with_length(length: Option<&[u8]>) -> RequestHead {
    RequestHead {
        api_key: Some(b"secret".to_vec()),
        playback_origin_key: None,
        content_length: length.map(|l| l.to_vec()),
        file_name: None,
        range: None,
    }
}

fn document(size: i64) -> StoredMessage {
    StoredMessage {
        id: 7,
        date: "2024-05-06 07:08:09 UTC".to_string(),
        media: Some(StoredMedia::Document {
            name: "a.mp4".to_string(),
            mime_type: Some("video/mp4".to_string()),
            size,
        }),
    }
}

#[test]
fn direct_chunk_requires_bounded_content_length() {
    let valid = actix_web::test::TestRequest::default()
        .insert_header((CONTENT_LENGTH, "33554432"))
        .to_http_request();
    assert_eq!(required_content_length(&head_of(&valid)).unwrap(), 33_554_432);

    let too_large = actix_web::test::TestRequest::default()
        .insert_header((CONTENT_LENGTH, (MAX_DIRECT_CHUNK_BYTES + 1).to_string()))
        .to_http_request();
    assert_eq!(required_content_length(&head_of(&too_large)).unwrap_err().status, 413);
}

#[test]
fn direct_chunk_filename_is_sanitized_from_header() {
    let req = actix_web::test::TestRequest::default()
        .insert_header(("X-File-Name", "../../episode.mp4.part000001"))
        .to_http_request();
    assert_eq!(direct_chunk_filename(&head_of(&req)), "episode.mp4.part000001");
}

#[test]
fn a_chunk_without_a_readable_name_has_a_default_one() {
    let mut head = head_with_length(None);
    assert_eq!(direct_chunk_filename(&head), "video.part");
    head.file_name = Some(vec![0xff]);
    assert_eq!(direct_chunk_filename(&head), "video.part");
    head.file_name = Some(b"..".to_vec());
    assert_eq!(direct_chunk_filename(&head), "file");
}

#[test]
fn content_length_is_refused_for_each_reason() {
    let refused = |length: Option<&[u8]>| {
        let e = required_content_length(&head_with_length(length)).unwrap_err();
        (e.code, e.message, e.status)
    };
    let missing = (
        "CONTENT_LENGTH_REQUIRED".to_string(),
        "Content-Length is required".to_string(),
        411,
    );
    assert_eq!(refused(None), missing);
    assert_eq!(refused(Some(b"\xff")), missing);
    let invalid = (
        "INVALID_CONTENT_LENGTH".to_string(),
        "Content-Length is invalid".to_string(),
        400,
    );
    assert_eq!(refused(Some(b"ten")), invalid);
    assert_eq!(refused(Some(b"-1")), invalid);
    assert_eq!(refused(Some(b" 1")), invalid);
    assert_eq!(refused(Some(b"")), invalid);
    assert_eq!(
        refused(Some(b"0")),
        ("FILE_REQUIRED".to_string(), "A non-empty chunk is required".to_string(), 400)
    );
    assert_eq!(
        refused(Some(b"67108865")),
        (
            "CHUNK_TOO_LARGE".to_string(),
            "Direct upload chunks must be at most 67108864 bytes".to_string(),
            413
        )
    );
    assert_eq!(required_content_length(&head_with_length(Some(b"67108864"))).unwrap(), 67_108_864);
    assert_eq!(required_content_length(&head_with_length(Some(b"1"))).unwrap(), 1);
}

#[test]
fn a_chunk_starts_with_the_key_and_a_size() {
    let chunk = begin_chunk(&head_with_length(Some(b"5")), "secret").unwrap();
    assert_eq!(chunk.file_size, 5);
    assert_eq!(chunk.filename, "video.part");
    assert_eq!(begin_chunk(&head_with_length(Some(b"5")), "other").unwrap_err().status, 401);
    assert_eq!(begin_chunk(&head_with_length(None), "other").unwrap_err().status, 401);
    assert_eq!(begin_chunk(&head_with_length(None), "secret").unwrap_err().status, 411);
}

#[test]
fn a_chunk_stays_only_with_the_announced_size() {
    match upload_chunk(&document(5), Some(3), 5) {
        ChunkOutcome::Stored(file) => {
            assert_eq!(file.id, 7);
            assert_eq!(file.folder_id, Some(3));
            assert_eq!(file.name, "a.mp4");
            assert_eq!(file.size, 5);
            assert_eq!(file.mime_type, Some("video/mp4".to_string()));
            assert_eq!(file.created_at, "2024-05-06 07:08:09 UTC");
        }
        _ => panic!("not stored"),
    }
    match upload_chunk(&document(4), None, 5) {
        ChunkOutcome::Discard(id, e) => {
            assert_eq!(id, 7);
            assert_eq!(e.code, "SIZE_MISMATCH");
            assert_eq!(e.message, "Telegram stored 4 bytes, expected 5");
            assert_eq!(e.status, 502);
        }
        _ => panic!("not discarded"),
    }
    let empty = StoredMessage { id: 7, date: String::new(), media: None };
    match upload_chunk(&empty, None, 5) {
        ChunkOutcome::Incomplete(e) => {
            assert_eq!(e.code, "UPLOAD_INCOMPLETE");
            assert_eq!(e.message, "Telegram returned no media message");
            assert_eq!(e.status, 502);
        }
        _ => panic!("not incomplete"),
    }
}

#[test]
fn a_form_is_started_with_the_key() {
    assert!(begin_upload(&head_with_length(None), "secret").is_ok());
    match begin_upload(&head_with_length(None), "other") {
        Err(e) => assert_eq!(e.status, 401),
        Ok(_) => panic!("let in"),
    }
}

#[test]
fn a_form_with_a_file_and_a_folder_is_received() {
    let mut form = UploadForm::new();
    assert_eq!(form.begin_field(Some("folder_id"), None).unwrap(), FieldKind::FolderId);
    form.folder_chunk(b" -10").unwrap();
    form.folder_chunk(b"012 ").unwrap();
    form.end_folder().unwrap();
    assert_eq!(form.begin_field(Some("file"), Some("../x/e.mp4")).unwrap(), FieldKind::File);
    form.file_chunk(3).unwrap();
    form.file_chunk(4).unwrap();
    let file = form.finish().unwrap();
    assert_eq!(file.filename, "e.mp4");
    assert_eq!(file.folder_id, Some(-10012));
    assert_eq!(file.file_size, 7);
}

#[test]
fn a_form_without_names_uses_the_defaults() {
    let mut form = UploadForm::new();
    form.begin_field(Some("file"), None).unwrap();
    form.file_chunk(1).unwrap();
    let file = form.finish().unwrap();
    assert_eq!(file.filename, "file");
    assert_eq!(file.folder_id, None);
}

#[test]
fn a_form_may_leave_the_folder_open() {
    for text in [&b""[..], b"  ", b"null", b" none ", b"\xe2\x80\x83null"] {
        let mut form = UploadForm::new();
        form.begin_field(Some("folder_id"), None).unwrap();
        form.folder_chunk(text).unwrap();
        form.end_folder().unwrap();
        form.begin_field(Some("file"), None).unwrap();
        form.file_chunk(1).unwrap();
        assert_eq!(form.finish().unwrap().folder_id, None);
    }
}

#[test]
fn a_form_with_a_folder_that_is_no_number_is_refused() {
    for text in [&b"x"[..], b"1.5", b"Null", b"9223372036854775808", b"\xff", b"4\xff", b"\xff4"] {
        let mut form = UploadForm::new();
        form.begin_field(Some("folder_id"), None).unwrap();
        form.folder_chunk(text).unwrap();
        let e = form.end_folder().unwrap_err();
        assert_eq!(e.code, "INVALID_FOLDER_ID");
        assert_eq!(e.message, "folder_id must be an integer");
        assert_eq!(e.status, 400);
    }
}

#[test]
fn a_form_with_a_too_long_folder_is_refused() {
    let mut form = UploadForm::new();
    form.begin_field(Some("folder_id"), None).unwrap();
    form.folder_chunk(&[b'1'; 128]).unwrap();
    let e = form.folder_chunk(b"1").unwrap_err();
    assert_eq!(e.code, "INVALID_FOLDER_ID");
    assert_eq!(e.message, "folder_id is too long");
    assert_eq!(e.status, 400);
}

#[test]
fn a_form_has_each_field_once_and_no_other() {
    let mut form = UploadForm::new();
    form.begin_field(Some("file"), None).unwrap();
    let e = form.begin_field(Some("file"), None).unwrap_err();
    assert_eq!((e.code.as_str(), e.message.as_str()), ("MULTIPLE_FILES", "Upload exactly one file"));
    assert_eq!(e.status, 400);
    form.begin_field(Some("folder_id"), None).unwrap();
    let e = form.begin_field(Some("folder_id"), None).unwrap_err();
    assert_eq!(e.code, "DUPLICATE_FOLDER_ID");
    assert_eq!(e.message, "folder_id may be provided once");
    assert_eq!(e.status, 400);
    for name in [None, Some(""), Some("File"), Some("other")] {
        let e = form.begin_field(name, None).unwrap_err();
        assert_eq!(e.code, "UNKNOWN_MULTIPART_FIELD");
        assert_eq!(e.message, "Only file and folder_id fields are accepted");
        assert_eq!(e.status, 400);
    }
}

#[test]
fn a_refused_field_leaves_the_form_as_it_is() {
    let mut form = UploadForm::new();
    form.begin_field(Some("file"), Some("a.mp4")).unwrap();
    form.file_chunk(5).unwrap();
    for _ in 0..2 {
        let e = form.begin_field(Some("file"), Some("b.mp4")).unwrap_err();
        assert_eq!(e.code, "MULTIPLE_FILES");
    }
    let file = form.finish().unwrap();
    assert_eq!((file.filename.as_str(), file.file_size), ("a.mp4", 5));
}

#[test]
fn a_form_with_a_too_large_file_is_refused() {
    let mut form = UploadForm::new();
    form.begin_field(Some("file"), None).unwrap();
    form.file_chunk(1_999_999_999).unwrap();
    form.file_chunk(1).unwrap();
    let e = form.file_chunk(1).unwrap_err();
    assert_eq!(e.code, "FILE_TOO_LARGE");
    assert_eq!(e.message, "File exceeds Telegram's 2,000,000,000-byte upload limit");
    assert_eq!(e.status, 413);
    assert_eq!(form.file_chunk(usize::MAX).unwrap_err().status, 413);
    assert_eq!(form.finish().unwrap().file_size, 2_000_000_000);
}

#[test]
fn a_form_without_a_file_is_refused() {
    let e = UploadForm::new().finish().unwrap_err();
    assert_eq!(e.code, "FILE_REQUIRED");
    assert_eq!(e.message, "A non-empty multipart file is required");
    assert_eq!(e.status, 400);
    let mut form = UploadForm::new();
    form.begin_field(Some("file"), None).unwrap();
    form.file_chunk(0).unwrap();
    assert!(form.finish().is_err());
}

#[test]
fn an_uploaded_form_is_answered_with_its_file() {
    assert_eq!(upload_file(&document(5), None).unwrap().size, 5);
    let empty = StoredMessage { id: 7, date: String::new(), media: None };
    assert_eq!(upload_file(&empty, None).unwrap_err().code, "UPLOAD_INCOMPLETE");
}

#[test]
fn upload_failures_name_their_stage() {
    for (stage, code, status) in [
        (UploadStage::CreateTemporary, "TEMP_FILE_CREATE_FAILED", 500),
        (UploadStage::OpenTemporary, "TEMP_FILE_OPEN_FAILED", 500),
        (UploadStage::ReadForm, "INVALID_MULTIPART", 400),
        (UploadStage::ReadField, "READ_ERROR", 400),
        (UploadStage::WriteTemporary, "WRITE_ERROR", 500),
        (UploadStage::FindChat, "PEER_ERROR", 400),
        (UploadStage::ReopenTemporary, "OPEN_ERROR", 500),
        (UploadStage::Upload, "UPLOAD_FAILED", 502),
        (UploadStage::Send, "SEND_FAILED", 502),
    ] {
        let e = upload_failure(stage, "why".to_string());
        assert_eq!((e.code.as_str(), e.message.as_str(), e.status), (code, "why", status));
    }
}
