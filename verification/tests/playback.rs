use telegram_drive_headless::playback::{
    count_segments, playback_segment_bounds, valid_asset_id, validate_playback_asset,
    PlaybackAsset, PlaybackAssetInput, PlaybackAssetPart, PLAYBACK_SEGMENT_SIZE,
};
use telegram_drive_headless::segment::{
    broken_download, build_playback_segment_response, parts_are_walkable, plan_segment, NextPart,
    PartLookup, PartSlice, SegmentReply, SegmentStream, StreamFault,
};

fn part(message_id: i32, size_bytes: u64) -> PlaybackAssetPart {
    PlaybackAssetPart { message_id, folder_id: None, size_bytes }
}

fn input(size_bytes: u64, parts: Vec<PlaybackAssetPart>) -> PlaybackAssetInput {
    PlaybackAssetInput {
        size_bytes,
        mime_type: "video/mp4".to_string(),
        etag: "version-1".to_string(),
        parts,
    }
}

fn refusal(input: PlaybackAssetInput) -> String {
    validate_playback_asset(input).unwrap_err()
}

#[test]
fn playback_asset_validation_requires_exact_part_size_sum() {
    let valid = validate_playback_asset(PlaybackAssetInput {
        size_bytes: 10,
        mime_type: "video/mp4".to_string(),
        etag: "version-1".to_string(),
        parts: vec![
            PlaybackAssetPart { message_id: 1, folder_id: None, size_bytes: 6 },
            PlaybackAssetPart { message_id: 2, folder_id: Some(9), size_bytes: 4 },
        ],
    })
    .unwrap();
    assert_eq!(valid.size_bytes, 10);
    assert_eq!(valid.parts.len(), 2);

    let invalid = validate_playback_asset(PlaybackAssetInput {
        size_bytes: 11,
        mime_type: "video/mp4".to_string(),
        etag: "version-1".to_string(),
        parts: valid.parts,
    });
    assert!(invalid.is_err());
}

#[test]
fn playback_segments_are_fixed_and_bounded() {
    assert_eq!(
        playback_segment_bounds(PLAYBACK_SEGMENT_SIZE * 2 + 7, 0),
        Some((0, PLAYBACK_SEGMENT_SIZE - 1))
    );
    assert_eq!(
        playback_segment_bounds(PLAYBACK_SEGMENT_SIZE * 2 + 7, 2),
        Some((PLAYBACK_SEGMENT_SIZE * 2, PLAYBACK_SEGMENT_SIZE * 2 + 6))
    );
    assert_eq!(playback_segment_bounds(PLAYBACK_SEGMENT_SIZE * 2 + 7, 3), None);
}

#[test]
fn segment_bounds_do_not_overflow() {
    assert_eq!(playback_segment_bounds(u64::MAX, u64::MAX), None);
    assert_eq!(playback_segment_bounds(0, 0), None);
    assert_eq!(playback_segment_bounds(1, 0), Some((0, 0)));
    let last = u64::MAX / PLAYBACK_SEGMENT_SIZE;
    assert_eq!(
        playback_segment_bounds(u64::MAX, last),
        Some((last * PLAYBACK_SEGMENT_SIZE, u64::MAX - 1))
    );
}

#[test]
fn segments_are_counted() {
    assert_eq!(count_segments(0), 0);
    assert_eq!(count_segments(1), 1);
    assert_eq!(count_segments(PLAYBACK_SEGMENT_SIZE), 1);
    assert_eq!(count_segments(PLAYBACK_SEGMENT_SIZE + 1), 2);
    assert_eq!(count_segments(u64::MAX), 1 << 38);
    for size in [1, 5, PLAYBACK_SEGMENT_SIZE, PLAYBACK_SEGMENT_SIZE * 3 + 1] {
        let count = count_segments(size);
        assert!(playback_segment_bounds(size, count - 1).is_some());
        assert!(playback_segment_bounds(size, count).is_none());
    }
}

#[test]
fn segments_tile_the_asset() {
    let size = PLAYBACK_SEGMENT_SIZE * 3 + 11;
    let mut next = 0;
    for index in 0..count_segments(size) {
        let (start, end) = playback_segment_bounds(size, index).unwrap();
        assert_eq!(start, next);
        assert!(start <= end && end - start < PLAYBACK_SEGMENT_SIZE);
        next = end + 1;
    }
    assert_eq!(next, size);
}

#[test]
fn every_byte_lies_in_one_segment() {
    let size = PLAYBACK_SEGMENT_SIZE * 2 + 11;
    for at in [0, PLAYBACK_SEGMENT_SIZE - 1, PLAYBACK_SEGMENT_SIZE, size - 1] {
        let holding: Vec<u64> = (0..count_segments(size))
            .filter(|index| {
                let (start, end) = playback_segment_bounds(size, *index).unwrap();
                start <= at && at <= end
            })
            .collect();
        assert_eq!(holding, vec![at / PLAYBACK_SEGMENT_SIZE]);
    }
}

#[test]
fn asset_ids_are_short_and_plain() {
    assert!(valid_asset_id("a"));
    assert!(valid_asset_id("Drama_42-final"));
    assert!(valid_asset_id(&"x".repeat(128)));
    assert!(!valid_asset_id(""));
    assert!(!valid_asset_id(&"x".repeat(129)));
    assert!(!valid_asset_id("a/b"));
    assert!(!valid_asset_id("a b"));
    assert!(!valid_asset_id("a.b"));
    assert!(!valid_asset_id("\u{e9}"));
}

#[test]
fn accepted_assets_are_brought_into_form() {
    let asset = validate_playback_asset(PlaybackAssetInput {
        size_bytes: 3,
        mime_type: " Video/MP4\n".to_string(),
        etag: "  v 1 ".to_string(),
        parts: vec![part(1, 3)],
    })
    .unwrap();
    assert_eq!(
        asset,
        PlaybackAsset {
            size_bytes: 3,
            mime_type: "video/mp4".to_string(),
            etag: "v 1".to_string(),
            parts: vec![part(1, 3)],
        }
    );
    let again = validate_playback_asset(PlaybackAssetInput {
        size_bytes: asset.size_bytes,
        mime_type: asset.mime_type.clone(),
        etag: asset.etag.clone(),
        parts: asset.parts.clone(),
    });
    assert_eq!(again, Ok(asset));
}

#[test]
fn assets_are_refused_for_the_first_reason() {
    assert_eq!(refusal(input(0, vec![])), "Playback asset must be non-empty");
    let mut other = input(1, vec![part(1, 1)]);
    other.mime_type = "video/webm".to_string();
    assert_eq!(refusal(other), "Playback asset must use video/mp4");
    let mut blank = input(1, vec![part(1, 1)]);
    blank.etag = " \t".to_string();
    assert_eq!(refusal(blank), "Playback asset ETag is invalid");
    let mut long = input(1, vec![part(1, 1)]);
    long.etag = "e".repeat(161);
    assert_eq!(refusal(long), "Playback asset ETag is invalid");
    let mut wide = input(1, vec![part(1, 1)]);
    wide.etag = "\u{e9}".repeat(81);
    assert_eq!(refusal(wide), "Playback asset ETag is invalid");
    assert_eq!(refusal(input(1, vec![])), "Playback asset has no Telegram parts");
    let bad = "Playback asset contains an invalid Telegram part";
    assert_eq!(refusal(input(1, vec![part(0, 1)])), bad);
    assert_eq!(refusal(input(1, vec![part(-1, 1)])), bad);
    assert_eq!(refusal(input(1, vec![part(1, 1), part(2, 0)])), bad);
    let overflow = "Playback asset size overflows";
    assert_eq!(refusal(input(1, vec![part(1, u64::MAX), part(2, 1)])), overflow);
    assert_eq!(refusal(input(1, vec![part(1, u64::MAX), part(2, 1), part(0, 0)])), overflow);
    assert_eq!(refusal(input(1, vec![part(1, u64::MAX), part(0, 1)])), bad);
    assert_eq!(
        refusal(input(2, vec![part(1, 1)])),
        "Playback asset part sizes do not match the declared size"
    );
}

#[test]
fn empty_or_endless_parts_cannot_be_walked() {
    assert!(parts_are_walkable(&vec![], 0, 9));
    assert!(parts_are_walkable(&vec![part(1, 1), part(2, u64::MAX - 1)], 0, 9));
    assert!(!parts_are_walkable(&vec![part(1, 1), part(2, u64::MAX)], 0, 9));
    assert!(!parts_are_walkable(&vec![part(1, 0), part(2, 9)], 0, 9));
    assert!(!parts_are_walkable(&vec![part(1, 5), part(2, 0), part(3, 5)], 0, 9));
}

#[test]
fn parts_that_a_stretch_does_not_reach_may_be_empty() {
    let parts = vec![part(1, 5), part(2, 0), part(3, 5), part(4, 0), part(5, u64::MAX)];
    assert!(parts_are_walkable(&parts, 0, 4));
    assert!(parts_are_walkable(&parts, 5, 7));
    assert!(!parts_are_walkable(&parts, 4, 7));
    assert!(!parts_are_walkable(&parts, 5, 12));
    assert_eq!(
        plan_segment(&parts, 5, 7),
        vec![PartSlice { part: part(3, 5), local_start: 0, local_length: 3 }]
    );
}

#[test]
fn a_stretch_may_span_several_parts() {
    let parts = vec![part(1, 10), part(2, 5), part(3, 20)];
    assert_eq!(
        plan_segment(&parts, 7, 16),
        vec![
            PartSlice { part: part(1, 10), local_start: 7, local_length: 3 },
            PartSlice { part: part(2, 5), local_start: 0, local_length: 5 },
            PartSlice { part: part(3, 20), local_start: 0, local_length: 2 },
        ]
    );
    assert_eq!(
        plan_segment(&parts, 11, 13),
        vec![PartSlice { part: part(2, 5), local_start: 1, local_length: 3 }]
    );
    assert_eq!(plan_segment(&parts, 35, 40), vec![]);
}

fn byte_at(message_id: i32, offset: u64) -> u8 {
    (message_id as u64 * 31 + offset * 7 + offset / 251) as u8
}

/// Streams a stretch from documents that hold what `byte_at` says.
fn streamed(parts: &Vec<PlaybackAssetPart>, start: u64, end: u64) -> Vec<u8> {
    let mut stream = SegmentStream::new(parts, start, end);
    let mut out = Vec::new();
    loop {
        let slice = match stream.next_part() {
            NextPart::Fetch(slice) => slice,
            NextPart::Finished => return out,
            NextPart::Failed(e) => panic!("{}", e.message),
        };
        let size = slice.part.size_bytes;
        let skip = stream.on_lookup(PartLookup::Media(size)).unwrap();
        let mut at = skip as u64 * 65_536;
        let mut done = false;
        while at < size && !done {
            let next = (at + 65_536).min(size);
            let chunk = (at..next).map(|i| byte_at(slice.part.message_id, i)).collect();
            let step = stream.on_chunk(chunk);
            out.extend(step.bytes);
            done = step.done;
            at = next;
        }
        stream.on_download_end().unwrap();
    }
}

#[test]
fn streamed_stretches_are_stretches_of_the_video() {
    let parts = vec![part(1, 700_000), part(2, 3), part(3, 1_500_000)];
    let mut video = Vec::new();
    for p in &parts {
        video.extend((0..p.size_bytes).map(|i| byte_at(p.message_id, i)));
    }
    for (start, end) in [
        (0, 0),
        (0, 2_200_002),
        (524_287, 524_288),
        (600_000, 700_010),
        (699_999, 700_003),
        (1_900_000, 2_200_002),
    ] {
        assert_eq!(streamed(&parts, start, end), video[start as usize..=end as usize].to_vec());
    }
}

#[test]
fn a_segment_that_breaks_off_has_handed_on_its_front() {
    let parts = vec![part(1, 10), part(2, 10), part(3, 10)];
    let video: Vec<u8> = (0..30).collect();
    for (lookup, got, expected) in [
        (PartLookup::Media(10), 4, "Playback segment ended early"),
        (PartLookup::Media(10), 0, "Playback segment ended early"),
        (PartLookup::NoMessage, 0, "Playback part missing"),
        (PartLookup::Media(9), 0, "Playback part size mismatch"),
    ] {
        let mut stream = SegmentStream::new(&parts, 3, 25);
        let mut out = Vec::new();
        stream.on_lookup(PartLookup::Media(10)).unwrap();
        out.extend(stream.on_chunk(video[0..10].to_vec()).bytes);
        stream.on_download_end().unwrap();
        let failure = match stream.on_lookup(lookup) {
            Ok(_) => {
                out.extend(stream.on_chunk(video[10..10 + got].to_vec()).bytes);
                stream.on_download_end().unwrap_err()
            }
            Err(e) => e,
        };
        assert_eq!(failure.message, expected);
        assert_eq!(out, video[3..10 + got].to_vec());
    }
}

#[test]
fn a_stretch_behind_the_parts_is_incomplete() {
    let parts = vec![part(1, 10)];
    let mut stream = SegmentStream::new(&parts, 5, 14);
    assert!(matches!(stream.next_part(), NextPart::Fetch(_)));
    assert_eq!(stream.on_lookup(PartLookup::Media(10)).unwrap(), 0);
    let step = stream.on_chunk((0..10).collect());
    assert_eq!(step.bytes, vec![5, 6, 7, 8, 9]);
    assert!(step.done);
    stream.on_download_end().unwrap();
    match stream.next_part() {
        NextPart::Failed(e) => {
            assert_eq!(e.fault, StreamFault::BadGateway);
            assert_eq!(e.message, "Playback segment is incomplete");
        }
        _ => panic!("complete"),
    }
}

#[test]
fn a_download_that_ends_early_breaks_the_segment() {
    let parts = vec![part(1, 10)];
    let mut stream = SegmentStream::new(&parts, 5, 9);
    stream.on_lookup(PartLookup::Media(10)).unwrap();
    assert!(!stream.on_chunk((0..7).collect()).done);
    let e = stream.on_download_end().unwrap_err();
    assert_eq!(e.fault, StreamFault::BadGateway);
    assert_eq!(e.message, "Playback segment ended early");
    assert_eq!(broken_download().fault, StreamFault::BadGateway);
    assert_eq!(broken_download().message, "Playback Telegram stream failed");
}

#[test]
fn a_part_that_is_not_as_declared_breaks_the_segment() {
    let parts = vec![part(1, 10)];
    for (lookup, fault, message) in [
        (PartLookup::PeerFailed, StreamFault::BadGateway, "Playback origin unavailable"),
        (PartLookup::FetchFailed, StreamFault::BadGateway, "Playback origin unavailable"),
        (PartLookup::NoMessage, StreamFault::NotFound, "Playback part missing"),
        (PartLookup::NoMedia, StreamFault::NotFound, "Playback media missing"),
        (PartLookup::Media(11), StreamFault::BadGateway, "Playback part size mismatch"),
    ] {
        let mut stream = SegmentStream::new(&parts, 0, 9);
        let e = stream.on_lookup(lookup).unwrap_err();
        assert_eq!(e.fault, fault);
        assert_eq!(e.message, message);
    }
}

fn headers(head: &telegram_drive_headless::reply::ResponseHead) -> Vec<(&str, &str)> {
    head.headers.iter().map(|h| (h.name.as_str(), h.value.as_str())).collect()
}

#[test]
fn segment_responses_have_the_headers_of_immutable_content() {
    let size = PLAYBACK_SEGMENT_SIZE + 5;
    let asset = validate_playback_asset(input(size, vec![part(1, size)])).unwrap();
    match build_playback_segment_response(&asset, 1) {
        SegmentReply::Stream(head, stream) => {
            assert_eq!(head.status, 200);
            assert_eq!(
                headers(&head),
                vec![
                    ("Content-Type", "video/mp4"),
                    ("Content-Length", "5"),
                    ("Accept-Ranges", "bytes"),
                    ("Cache-Control", "public, max-age=31536000, immutable"),
                    ("ETag", "\"version-1-1\""),
                    ("X-Content-Type-Options", "nosniff"),
                ]
            );
            match stream.next_part() {
                NextPart::Fetch(slice) => {
                    assert_eq!(slice.local_start, PLAYBACK_SEGMENT_SIZE);
                    assert_eq!(slice.local_length, 5);
                }
                _ => panic!("nothing to fetch"),
            }
        }
        SegmentReply::NotSatisfiable(_) => panic!("no segment"),
    }
    match build_playback_segment_response(&asset, 2) {
        SegmentReply::NotSatisfiable(head) => {
            assert_eq!(head.status, 416);
            assert_eq!(headers(&head), vec![("Content-Range", "bytes */67108869")]);
        }
        SegmentReply::Stream(..) => panic!("a segment"),
    }
}

#[test]
fn lost_chunks_of_a_far_start_are_left_out_whole() {
    let parts = vec![part(1, 10_000_000)];
    let mut stream = SegmentStream::new(&parts, 1_048_576, 1_048_580);
    assert_eq!(stream.on_lookup(PartLookup::Media(10_000_000)).unwrap(), 16);
    let step = stream.on_chunk(vec![9; 65_536]);
    assert_eq!(step.bytes, vec![9; 5]);
    assert!(step.done);
}
