use telegram_drive_headless::playback::{
    PlaybackAsset, PlaybackAssetInput, PlaybackAssetPart,
};
use telegram_drive_headless::registry::{
    begin_change, begin_persist, begin_put, begin_segment, delete_playback_asset,
    load_playback_registry, persist_playback_registry, playback_segment, put_playback_asset,
    register_asset, registry_saved, PersistStep, PlaybackRegistry, RegistryEntry, RegistryRead,
};
use telegram_drive_headless::reply::ErrorReply;
use telegram_drive_headless::request::RequestHead;

fn client() -> RequestHead {
    RequestHead {
        api_key: Some(b"secret".to_vec()),
        playback_origin_key: None,
        content_length: None,
        file_name: None,
        range: None,
    }
}

fn cdn() -> RequestHead {
    RequestHead { api_key: None, playback_origin_key: Some(b"derived".to_vec()), ..client() }
}

fn input(size_bytes: u64) -> PlaybackAssetInput {
    PlaybackAssetInput {
        size_bytes,
        mime_type: "video/mp4".to_string(),
        etag: "v1".to_string(),
        parts: vec![PlaybackAssetPart { message_id: 1, folder_id: None, size_bytes }],
    }
}

fn asset(size_bytes: u64) -> PlaybackAsset {
    let i = input(size_bytes);
    PlaybackAsset { size_bytes, mime_type: i.mime_type, etag: i.etag, parts: i.parts }
}

fn put(registry: &mut PlaybackRegistry, id: &str, size: u64) {
    put_playback_asset(&client(), "secret", id.to_string(), input(size), registry).unwrap();
}

fn find(registry: &PlaybackRegistry, id: &str) -> Result<PlaybackAsset, String> {
    playback_segment(&cdn(), "derived", id, registry).map_err(|e| e.code)
}

#[test]
fn a_registered_asset_is_found_as_it_was_registered() {
    let mut registry = PlaybackRegistry::new();
    assert_eq!(find(&registry, "a"), Err("NOT_FOUND".to_string()));
    put(&mut registry, "a", 5);
    put(&mut registry, "b", 6);
    assert_eq!(find(&registry, "a"), Ok(asset(5)));
    put(&mut registry, "a", 7);
    assert_eq!(find(&registry, "a"), Ok(asset(7)));
    assert_eq!(find(&registry, "b"), Ok(asset(6)));
    assert_eq!(registry.entries().len(), 2);
    delete_playback_asset(&client(), "secret", "a", &mut registry).unwrap();
    assert_eq!(find(&registry, "a"), Err("NOT_FOUND".to_string()));
    assert_eq!(find(&registry, "b"), Ok(asset(6)));
    delete_playback_asset(&client(), "secret", "a", &mut registry).unwrap();
    assert_eq!(registry.entries().len(), 1);
}

#[test]
fn each_asset_is_listed_once() {
    let mut registry = PlaybackRegistry::new();
    for size in 1..=3 {
        put(&mut registry, "a", size);
        assert_eq!(registry.entries().len(), 1);
        assert_eq!(registry.entries()[0].asset_id, "a");
        assert_eq!(registry.entries()[0].asset, asset(size));
    }
}

#[test]
fn requests_are_checked_before_the_registry_is_touched() {
    let code = |r: Result<(), ErrorReply>| r.map_err(|e| e.code);
    assert_eq!(code(begin_change(&client(), "secret", "a")), Ok(()));
    assert_eq!(code(begin_change(&client(), "other", "a/b")), Err("UNAUTHORIZED".to_string()));
    assert_eq!(code(begin_change(&client(), "secret", "a/b")), Err("INVALID_ASSET_ID".to_string()));
    assert_eq!(code(begin_segment(&cdn(), "derived", "a")), Ok(()));
    assert_eq!(code(begin_segment(&cdn(), "other", "a/b")), Err("UNAUTHORIZED".to_string()));
    assert_eq!(code(begin_segment(&cdn(), "derived", "")), Err("INVALID_ASSET_ID".to_string()));
    assert_eq!(begin_put(&client(), "secret", "a", input(4)).unwrap(), asset(4));
    let e = begin_put(&client(), "secret", "a", input(0)).unwrap_err();
    assert_eq!(e.code, "INVALID_PLAYBACK_ASSET");
    let mut registry = PlaybackRegistry::new();
    let told = register_asset("a".to_string(), asset(4), &mut registry);
    assert_eq!((told.asset_id.as_str(), told.size_bytes, told.segment_count), ("a", 4, 1));
    assert_eq!(find(&registry, "a"), Ok(asset(4)));
}

#[test]
fn a_client_is_told_of_the_segments() {
    let mut registry = PlaybackRegistry::new();
    let size = 67_108_864 * 2 + 1;
    let told =
        put_playback_asset(&client(), "secret", "a".to_string(), input(size), &mut registry)
            .unwrap();
    assert_eq!(told.asset_id, "a");
    assert_eq!(told.size_bytes, size);
    assert_eq!(told.segment_size, 67_108_864);
    assert_eq!(told.segment_count, 3);
}

#[test]
fn refused_changes_change_nothing() {
    let mut registry = PlaybackRegistry::new();
    put(&mut registry, "a", 5);
    let e = put_playback_asset(&client(), "other", "a".to_string(), input(6), &mut registry)
        .unwrap_err();
    assert_eq!((e.code.as_str(), e.status), ("UNAUTHORIZED", 401));
    let e = put_playback_asset(&client(), "secret", "a/b".to_string(), input(6), &mut registry)
        .unwrap_err();
    assert_eq!(
        (e.code.as_str(), e.message.as_str(), e.status),
        ("INVALID_ASSET_ID", "Playback asset id is invalid", 400)
    );
    let e = put_playback_asset(&client(), "secret", "a".to_string(), input(0), &mut registry)
        .unwrap_err();
    assert_eq!(
        (e.code.as_str(), e.message.as_str(), e.status),
        ("INVALID_PLAYBACK_ASSET", "Playback asset must be non-empty", 422)
    );
    let e = delete_playback_asset(&client(), "other", "a", &mut registry).unwrap_err();
    assert_eq!(e.status, 401);
    let e = delete_playback_asset(&client(), "secret", "", &mut registry).unwrap_err();
    assert_eq!(e.code, "INVALID_ASSET_ID");
    assert_eq!(find(&registry, "a"), Ok(asset(5)));
}

#[test]
fn segments_need_the_derived_key_and_an_asset() {
    let mut registry = PlaybackRegistry::new();
    put(&mut registry, "a", 5);
    let e = playback_segment(&client(), "derived", "a", &registry).unwrap_err();
    assert_eq!((e.message.as_str(), e.status), ("Invalid playback origin key", 401));
    let e = playback_segment(&cdn(), "derived", "a b", &registry).unwrap_err();
    assert_eq!((e.code.as_str(), e.status), ("INVALID_ASSET_ID", 400));
    let e = playback_segment(&cdn(), "derived", "b", &registry).unwrap_err();
    assert_eq!((e.message.as_str(), e.status), ("Playback asset not found", 404));
}

#[test]
fn a_registry_is_loaded_or_started_empty() {
    let entries = vec![
        RegistryEntry { asset_id: "a".to_string(), asset: asset(5) },
        RegistryEntry { asset_id: "b".to_string(), asset: asset(6) },
    ];
    let registry = load_playback_registry(RegistryRead::Loaded(entries)).map_err(|_| ()).unwrap();
    assert_eq!(find(&registry, "a"), Ok(asset(5)));
    assert_eq!(find(&registry, "b"), Ok(asset(6)));
    let empty = load_playback_registry(RegistryRead::Missing).map_err(|_| ()).unwrap();
    assert_eq!(empty.entries().len(), 0);
    let bad = load_playback_registry(RegistryRead::Malformed("bad".to_string()));
    assert_eq!(bad.err(), Some("bad".to_string()));
    let failed = load_playback_registry(RegistryRead::Failed("io".to_string()));
    assert_eq!(failed.err(), Some("io".to_string()));
}

#[test]
fn a_saved_registry_is_loaded_back() {
    let mut registry = PlaybackRegistry::new();
    for (id, size) in [("a", 5), ("b", 6), ("c", 7), ("b", 8)] {
        put(&mut registry, id, size);
    }
    let copy = |e: &RegistryEntry| RegistryEntry {
        asset_id: e.asset_id.clone(),
        asset: e.asset.clone(),
    };
    let entries: Vec<RegistryEntry> = registry.entries().iter().rev().map(copy).collect();
    assert_eq!(entries.len(), 3);
    let loaded = load_playback_registry(RegistryRead::Loaded(entries)).map_err(|_| ()).unwrap();
    for (id, size) in [("a", 5), ("b", 8), ("c", 7)] {
        assert_eq!(find(&loaded, id), Ok(asset(size)));
    }
    assert_eq!(loaded.entries().len(), 3);
}

#[test]
fn a_registry_is_saved_step_by_step() {
    let mut step = begin_persist(true);
    let mut steps = vec![step];
    while step != PersistStep::Saved {
        step = persist_playback_registry(step, Ok(())).unwrap();
        steps.push(step);
    }
    assert_eq!(
        steps,
        vec![
            PersistStep::CreateDirectory,
            PersistStep::Serialise,
            PersistStep::WriteTemporary,
            PersistStep::Replace,
            PersistStep::Saved,
        ]
    );
    assert_eq!(begin_persist(false), PersistStep::Serialise);
    assert_eq!(
        persist_playback_registry(PersistStep::WriteTemporary, Err("full".to_string())),
        Err("full".to_string())
    );
}

#[test]
fn a_registry_that_cannot_be_saved_is_an_error() {
    assert!(registry_saved(Ok(())).is_ok());
    let e = registry_saved(Err("full".to_string())).unwrap_err();
    assert_eq!(
        (e.code.as_str(), e.message.as_str(), e.status),
        ("REGISTRY_WRITE_FAILED", "full", 500)
    );
}
