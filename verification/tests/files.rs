use telegram_drive_headless::files::{
    api_file_from_message, begin_file_request, begin_listing, delete_file, download_file,
    file_request_peer, get_file, list_files, media_size, peer_refusal, FileOp, MediaReply,
    MessageLookup, StoredMedia, StoredMessage,
};
use telegram_drive_headless::reply::ResponseHead;
use telegram_drive_headless::request::RequestHead;
use telegram_drive_headless::stream::{plan_download, ByteWindow};

fn head(range: Option<&[u8]>) -> RequestHead {
    RequestHead {
        api_key: Some(b"secret".to_vec()),
        playback_origin_key: None,
        content_length: None,
        file_name: None,
        range: range.map(|r| r.to_vec()),
    }
}

fn document(size: i64) -> StoredMedia {
    StoredMedia::Document {
        name: "dir/a.mp4".to_string(),
        mime_type: Some("video/mp4".to_string()),
        size,
    }
}

fn message(id: i32, media: Option<StoredMedia>) -> StoredMessage {
    StoredMessage { id, date: "then".to_string(), media }
}

fn headers(head: &ResponseHead) -> Vec<(&str, &str)> {
    head.headers.iter().map(|h| (h.name.as_str(), h.value.as_str())).collect()
}

#[test]
fn sizes_below_zero_count_as_none() {
    assert_eq!(media_size(&document(9)), 9);
    assert_eq!(media_size(&document(-9)), 0);
    assert_eq!(media_size(&document(i64::MAX)), i64::MAX as u64);
    assert_eq!(media_size(&StoredMedia::Photo { size: 4 }), 4);
    assert_eq!(media_size(&StoredMedia::Other), 0);
}

#[test]
fn messages_appear_as_files() {
    let file = api_file_from_message(&message(1, Some(document(9))), Some(5)).unwrap();
    assert_eq!((file.id, file.folder_id, file.size), (1, Some(5), 9));
    assert_eq!(file.name, "dir/a.mp4");
    assert_eq!(file.mime_type, Some("video/mp4".to_string()));
    assert_eq!(file.created_at, "then");
    let photo = api_file_from_message(&message(2, Some(StoredMedia::Photo { size: 4 })), None);
    let photo = photo.unwrap();
    assert_eq!(photo.name, "Photo.jpg");
    assert_eq!(photo.mime_type, Some("image/jpeg".to_string()));
    let other = api_file_from_message(&message(3, Some(StoredMedia::Other)), None).unwrap();
    assert_eq!((other.name.as_str(), other.mime_type, other.size), ("Unknown", None, 0));
    assert!(api_file_from_message(&message(4, None), None).is_none());
}

#[test]
fn listings_show_the_messages_with_files() {
    let messages = vec![
        message(3, Some(document(9))),
        message(2, None),
        message(1, Some(StoredMedia::Other)),
    ];
    let listing = list_files(&messages, None);
    assert_eq!(listing.total, 2);
    assert_eq!(listing.data.iter().map(|f| f.id).collect::<Vec<_>>(), vec![3, 1]);
    assert_eq!(listing.files.iter().map(|f| f.id).collect::<Vec<_>>(), vec![3, 1]);
    assert_eq!(list_files(&vec![], None).total, 0);
}

#[test]
fn listings_are_limited() {
    let limit = |n| begin_listing(&head(None), "secret", n).unwrap();
    assert_eq!(limit(None), 20);
    assert_eq!(limit(Some(0)), 1);
    assert_eq!(limit(Some(1)), 1);
    assert_eq!(limit(Some(55)), 55);
    assert_eq!(limit(Some(100)), 100);
    assert_eq!(limit(Some(101)), 100);
    assert_eq!(begin_listing(&head(None), "other", None).unwrap_err().status, 401);
}

#[test]
fn chats_that_are_not_found_are_the_clients_error() {
    let e = peer_refusal("why".to_string());
    assert_eq!((e.code.as_str(), e.message.as_str(), e.status), ("PEER_ERROR", "why", 400));
}

#[test]
fn requests_for_one_file_name_a_message() {
    let begin = |op, id| begin_file_request(op, &head(None), "secret", id).map_err(|e| e.code);
    let invalid = || Err("INVALID_MESSAGE_ID".to_string());
    for op in [FileOp::Download, FileOp::Delete] {
        assert_eq!(begin(op, 1), Ok(()));
        assert_eq!(begin(op, i32::MAX as i64), Ok(()));
        assert_eq!(begin(op, 0), invalid());
        assert_eq!(begin(op, -1), invalid());
        assert_eq!(begin(op, i32::MAX as i64 + 1), invalid());
    }
    assert_eq!(begin(FileOp::Show, 0), Ok(()));
    for op in [FileOp::Show, FileOp::Download, FileOp::Delete] {
        let e = begin_file_request(op, &head(None), "other", 0).unwrap_err();
        assert_eq!(e.status, 401);
    }
    assert_eq!(file_request_peer(Ok("chat"), 5).unwrap(), ("chat", 5));
    let e = file_request_peer(Ok(()), 0).unwrap_err();
    assert_eq!(
        (e.code.as_str(), e.message.as_str(), e.status),
        ("INVALID_MESSAGE_ID", "Invalid message id", 400)
    );
    assert_eq!(file_request_peer::<()>(Err("gone".to_string()), 0).unwrap_err().code, "PEER_ERROR");
}

#[test]
fn a_file_is_shown_or_not_found() {
    let found = get_file(MessageLookup::Found(message(1, Some(document(9)))), Some(2)).unwrap();
    assert_eq!((found.id, found.folder_id), (1, Some(2)));
    for lookup in [MessageLookup::Missing, MessageLookup::Found(message(1, None))] {
        let e = get_file(lookup, None).unwrap_err();
        assert_eq!(
            (e.code.as_str(), e.message.as_str(), e.status),
            ("NOT_FOUND", "File not found", 404)
        );
    }
    let e = get_file(MessageLookup::Failed("why".to_string()), None).unwrap_err();
    assert_eq!((e.code.as_str(), e.message.as_str(), e.status), ("FETCH_ERROR", "why", 502));
}

#[test]
fn a_file_is_deleted_or_not() {
    assert!(delete_file(Ok(())).is_ok());
    let e = delete_file(Err("why".to_string())).unwrap_err();
    assert_eq!((e.code.as_str(), e.message.as_str(), e.status), ("DELETE_FAILED", "why", 502));
}

fn download(media: StoredMedia, range: Option<&[u8]>) -> MediaReply {
    download_file(&MessageLookup::Found(message(1, Some(media))), &head(range))
}

#[test]
fn a_whole_file_is_downloaded_without_a_range() {
    match download(document(1000), None) {
        MediaReply::Stream(head, plan) => {
            assert_eq!(head.status, 200);
            assert_eq!(
                headers(&head),
                vec![
                    ("Content-Type", "video/mp4"),
                    ("Accept-Ranges", "bytes"),
                    ("Content-Length", "1000"),
                    ("Content-Disposition", "inline; filename=\"a.mp4\""),
                ]
            );
            assert_eq!(plan.skip_chunks, 0);
            assert_eq!(plan.window.left(), 1000);
        }
        _ => panic!("not streamed"),
    }
}

#[test]
fn a_range_of_a_file_is_downloaded() {
    match download(document(1_000_000), Some(b"bytes=600000-600009")) {
        MediaReply::Stream(head, mut plan) => {
            assert_eq!(head.status, 206);
            assert_eq!(
                headers(&head),
                vec![
                    ("Content-Range", "bytes 600000-600009/1000000"),
                    ("Content-Type", "video/mp4"),
                    ("Accept-Ranges", "bytes"),
                    ("Content-Length", "10"),
                    ("Content-Disposition", "inline; filename=\"a.mp4\""),
                ]
            );
            assert_eq!(plan.skip_chunks, 8);
            let mut at = 8 * 65_536u64;
            let mut out = Vec::new();
            loop {
                let chunk: Vec<u8> = (at..at + 65_536).map(|i| (i % 253) as u8).collect();
                at += 65_536;
                let step = plan.window.feed(chunk);
                out.extend(step.bytes);
                if step.done {
                    break;
                }
            }
            let expected: Vec<u8> = (600_000..600_010u64).map(|i| (i % 253) as u8).collect();
            assert_eq!(out, expected);
        }
        _ => panic!("not streamed"),
    }
}

#[test]
fn a_download_that_breaks_off_has_handed_on_the_front() {
    match download(document(1_000_000), Some(b"bytes=600000-700000")) {
        MediaReply::Stream(_, mut plan) => {
            let from = plan.skip_chunks as u64 * 65_536;
            let byte = |i: u64| (i % 253) as u8;
            let first = plan.window.feed((from..from + 65_536).map(byte).collect());
            let second = plan.window.feed((from + 65_536..620_000).map(byte).collect());
            assert!(first.bytes.is_empty());
            assert!(!second.done);
            assert_eq!(second.bytes, (600_000..620_000).map(byte).collect::<Vec<u8>>());
        }
        _ => panic!("not streamed"),
    }
}

#[test]
fn a_range_that_cannot_be_satisfied_is_refused() {
    for range in [&b"bytes=1000-"[..], b"bytes=0-1,3-4", b"\xff", b"nonsense"] {
        match download(document(1000), Some(range)) {
            MediaReply::NotSatisfiable(head) => {
                assert_eq!(head.status, 416);
                assert_eq!(headers(&head), vec![("Content-Range", "bytes */1000")]);
            }
            _ => panic!("satisfied"),
        }
    }
}

#[test]
fn downloads_are_refused_for_each_reason() {
    let refused = |lookup| match download_file(&lookup, &head(None)) {
        MediaReply::Refused(e) => (e.code, e.message, e.status),
        _ => panic!("not refused"),
    };
    assert_eq!(
        refused(MessageLookup::Failed("why".to_string())),
        ("FETCH_ERROR".to_string(), "why".to_string(), 502)
    );
    assert_eq!(
        refused(MessageLookup::Missing),
        ("NOT_FOUND".to_string(), "File not found".to_string(), 404)
    );
    assert_eq!(
        refused(MessageLookup::Found(message(1, None))),
        ("NOT_FOUND".to_string(), "Message has no media".to_string(), 404)
    );
    assert_eq!(
        refused(MessageLookup::Found(message(1, Some(StoredMedia::Other)))),
        ("EMPTY_MEDIA".to_string(), "Telegram media is empty".to_string(), 422)
    );
}

#[test]
fn downloads_have_a_type_and_a_name() {
    let untyped = StoredMedia::Document { name: String::new(), mime_type: None, size: 1 };
    match download(untyped, None) {
        MediaReply::Stream(head, _) => {
            assert_eq!(headers(&head)[0], ("Content-Type", "application/octet-stream"));
            assert_eq!(headers(&head)[3], ("Content-Disposition", "inline; filename=\"file\""));
        }
        _ => panic!("not streamed"),
    }
    match download(StoredMedia::Photo { size: 1 }, None) {
        MediaReply::Stream(head, _) => {
            assert_eq!(headers(&head)[0], ("Content-Type", "image/jpeg"));
            assert_eq!(
                headers(&head)[3],
                ("Content-Disposition", "inline; filename=\"Photo.jpg\"")
            );
        }
        _ => panic!("not streamed"),
    }
}

#[test]
fn downloads_start_at_aligned_chunks() {
    for (start, skip, drop) in [
        (0, 0, 0),
        (1, 0, 1),
        (524_287, 0, 524_287),
        (524_288, 8, 0),
        (600_000, 8, 75_712),
        (140_737_487_831_040, 2_147_483_640, 0),
    ] {
        let mut plan = plan_download(start, 1);
        assert_eq!(plan.skip_chunks, skip);
        let mut bytes = vec![0; drop];
        bytes.push(7);
        bytes.push(8);
        let step = plan.window.feed(bytes);
        assert_eq!(step.bytes, vec![7]);
        assert!(step.done);
    }
}

#[test]
fn a_window_is_blind_to_how_a_stream_is_parted() {
    let stream: Vec<u8> = (0..40).collect();
    for size in 1..=40 {
        let mut window = ByteWindow::new(7, 11);
        let mut out = Vec::new();
        for chunk in stream.chunks(size) {
            let step = window.feed(chunk.to_vec());
            out.extend(step.bytes);
            if step.done {
                break;
            }
        }
        assert_eq!(out, stream[7..18].to_vec());
        assert_eq!(window.left(), 0);
    }
    let mut window = ByteWindow::new(2, 5);
    assert_eq!(window.feed(vec![1, 2, 3]).bytes, vec![3]);
    assert!(!window.feed(vec![]).done);
    assert_eq!(window.left(), 4);
}
