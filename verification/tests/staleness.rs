use asset_pipeline::{blob_name, md_touch, uuid_hex, AssetCache, Metadata, Observation, Slot};

fn present(wtime: u32, content: &[u8]) -> Observation {
    Observation::Present { wtime, content: Some(content.to_vec()) }
}

#[test]
fn second_check_with_no_change_is_clean() {
    let mut m = Metadata::new(7);
    assert!(m.modified);
    m.check(&present(5, b"hello"), true);
    m.check(&present(5, b"hello"), true);
    assert!(!m.modified);
    let mut loose = Metadata::new(7);
    loose.check(&present(5, b"hello"), false);
    loose.check(&present(5, b"hello"), false);
    assert!(!loose.modified);
}

#[test]
fn strict_mode_ignores_timestamp_only_touches() {
    let mut m = Metadata::new(1);
    m.check(&present(1, b"same bytes"), true);
    // A touch: the timestamp moved, the bytes did not.
    m.check(&present(2, b"same bytes"), true);
    assert!(!m.modified);
    assert_eq!(m.last_modified_time, 2);
}

#[test]
fn loose_mode_sees_timestamp_only_touches() {
    let mut m = Metadata::new(1);
    m.check(&present(1, b"same bytes"), false);
    m.check(&present(2, b"same bytes"), false);
    assert!(m.modified);
}

#[test]
fn strict_mode_sees_content_changes() {
    let mut m = Metadata::new(1);
    m.check(&present(1, b"old bytes"), true);
    m.check(&present(1, b"new bytes"), true);
    assert!(m.modified);
}

#[test]
fn missing_files_are_always_dirty() {
    let mut m = Metadata::new(1);
    m.check(&present(9, b"x"), true);
    m.check(&Observation::Missing, true);
    assert!(m.modified);
    assert_eq!(m.checksum, 0);
    assert_eq!(m.last_modified_time, 0);
}

#[test]
fn repeated_reference_keeps_identifier() {
    let mut table: Vec<(Vec<u8>, Metadata)> = Vec::new();
    let first = md_touch(&mut table, &b"clip".to_vec(), false);
    let second = md_touch(&mut table, &b"clip".to_vec(), false);
    assert_eq!(first.uuid, second.uuid);
    let written = md_touch(&mut table, &b"clip".to_vec(), true);
    assert_eq!(written.uuid, first.uuid);
    assert!(written.modified);
}

#[test]
fn fresh_references_draw_distinct_identifiers() {
    let mut table: Vec<(Vec<u8>, Metadata)> = Vec::new();
    let a = md_touch(&mut table, &b"a".to_vec(), false);
    let b = md_touch(&mut table, &b"b".to_vec(), false);
    assert_ne!(a.uuid, b.uuid);
}

#[test]
fn cache_slots_are_independent() {
    let mut cache = AssetCache::new(true);
    assert!(cache.is_strict());
    let file = cache.touch(&b"a.png".to_vec(), &Slot::File, false);
    let inter = cache.touch(
        &b"a.png".to_vec(),
        &Slot::Intermediate(b"compressed.ktx".to_vec()),
        true,
    );
    assert_ne!(file.uuid, inter.uuid);
    let again = cache.touch(
        &b"a.png".to_vec(),
        &Slot::Intermediate(b"compressed.ktx".to_vec()),
        false,
    );
    assert_eq!(inter.uuid, again.uuid);
}

#[test]
fn cache_check_applies_observation() {
    let mut cache = AssetCache::new(true);
    cache.touch(&b"a.png".to_vec(), &Slot::File, false);
    cache.check_slot(&b"a.png".to_vec(), &Slot::File, &present(3, b"pixels"));
    let md = cache.touch(&b"a.png".to_vec(), &Slot::File, false);
    assert!(md.modified);
    assert_eq!(md.last_modified_time, 3);
    cache.check_slot(&b"a.png".to_vec(), &Slot::File, &present(3, b"pixels"));
    let md2 = cache.touch(&b"a.png".to_vec(), &Slot::File, false);
    assert!(!md2.modified);
}

#[test]
fn garbage_collection_drops_deleted_assets() {
    let mut cache = AssetCache::new(false);
    cache.touch(&b"keep.png".to_vec(), &Slot::File, false);
    let kept_res = cache.touch(&b"keep.png".to_vec(), &Slot::Resource(b"keep.png".to_vec()), true);
    cache.touch(&b"gone.png".to_vec(), &Slot::File, false);
    let gone_res = cache.touch(&b"gone.png".to_vec(), &Slot::Resource(b"gone.png".to_vec()), true);
    let gone_int = cache.touch(
        &b"gone.png".to_vec(),
        &Slot::Intermediate(b"compressed.ktx".to_vec()),
        true,
    );

    let live = vec![b"keep.png".to_vec()];
    cache.retain_assets(&live);

    // The cache manifest no longer references the deleted asset.
    let keys = cache.asset_keys();
    assert_eq!(keys, vec![b"keep.png".to_vec()]);

    // Every blob of the deleted asset is gone from the live-blob set, so
    // the collector deletes its files; the kept asset's blob stays.
    let blobs = cache.live_blob_names();
    assert!(blobs.contains(&blob_name(kept_res.uuid, None)));
    assert!(!blobs.contains(&blob_name(gone_res.uuid, None)));
    assert!(!blobs.contains(&blob_name(gone_int.uuid, Some(&b"compressed.ktx".to_vec()))));
}

#[test]
fn resource_retention_follows_current_metadata() {
    let mut cache = AssetCache::new(false);
    let old = cache.touch(&b"scene.fbx".to_vec(), &Slot::Resource(b"old_mesh".to_vec()), true);
    let kept = cache.touch(&b"scene.fbx".to_vec(), &Slot::Resource(b"hull".to_vec()), true);
    cache.retain_resources(&b"scene.fbx".to_vec(), &vec![b"hull".to_vec()]);
    let blobs = cache.live_blob_names();
    assert!(blobs.contains(&blob_name(kept.uuid, None)));
    assert!(!blobs.contains(&blob_name(old.uuid, None)));
}

#[test]
fn blob_names_are_hex_with_kept_extension() {
    assert_eq!(uuid_hex(0), b"00000000000000000000000000000000".to_vec());
    assert_eq!(uuid_hex(0xDEADBEEF), b"000000000000000000000000DEADBEEF".to_vec());
    assert_eq!(
        blob_name(0xAB, Some(&b"source.ktx".to_vec())),
        b"000000000000000000000000000000AB.ktx".to_vec()
    );
    assert_eq!(blob_name(0xAB, Some(&b"clip".to_vec())), b"000000000000000000000000000000AB".to_vec());
    assert_eq!(blob_name(1, None), b"00000000000000000000000000000001".to_vec());
}
