use asset_pipeline::{
    bytes_eq, canonicalize, classify, compressor_for, crc32, decimal, encode_audio_blob,
    encode_bytes_blob, ends_with, extension, format_flag, is_metafile, manifest_location,
    metafile_name, needs_compile, needs_import, normalize_name, orphan_metafiles,
    register_extension, sample_to_i16, strip_meta_suffix, trees_overlap, vorbis_quality_for,
    AssetMetadata, AssetParams, AssetType, AudioImportParams, CompressorKind, Compression,
    EncoderQuality, MeshImportParams, ResourceType, RuntimePlatform, TextureFilter,
    TextureFormat, TextureImportParams, TextureWrap, TransmissionImportParams,
};

#[test]
fn checksum_matches_the_published_vector() {
    // The standard IEEE CRC-32 check value: a wrapper that returned anything
    // but the real digest would fail here.
    assert_eq!(crc32(&b"123456789".to_vec()), 0xCBF43926);
    assert_ne!(crc32(&b"a".to_vec()), crc32(&b"b".to_vec()));
}

#[test]
fn decimal_formats_exactly() {
    assert_eq!(decimal(0), b"0".to_vec());
    assert_eq!(decimal(7), b"7".to_vec());
    assert_eq!(decimal(42), b"42".to_vec());
    assert_eq!(decimal(10200), b"10200".to_vec());
}

#[test]
fn byte_helpers_compare_content() {
    assert!(bytes_eq(&b"abc".to_vec(), &b"abc".to_vec()));
    assert!(!bytes_eq(&b"abc".to_vec(), &b"abd".to_vec()));
    assert!(ends_with(&b"a.meta.toml".to_vec(), &b".meta.toml".to_vec()));
    assert!(!ends_with(&b"a.toml".to_vec(), &b".meta.toml".to_vec()));
}

#[test]
fn canonicalize_drops_dots_and_resolves_parents() {
    let parts = vec![b"a".to_vec(), b".".to_vec(), b"b".to_vec(), b"..".to_vec(), b"c".to_vec()];
    assert_eq!(canonicalize(&parts), vec![b"a".to_vec(), b"c".to_vec()]);
    let plain = vec![b"x".to_vec(), b"y".to_vec()];
    assert_eq!(canonicalize(&plain), plain);
}

#[test]
fn extensions_follow_the_last_dot() {
    assert_eq!(extension(&b"a.png".to_vec()), Some(b"png".to_vec()));
    assert_eq!(extension(&b"a.tar.gz".to_vec()), Some(b"gz".to_vec()));
    assert_eq!(extension(&b"plain".to_vec()), None);
    assert_eq!(extension(&b".hidden".to_vec()), None);
}

#[test]
fn sidecar_names_round_trip() {
    let name = b"tree/leaf.png".to_vec();
    let meta = metafile_name(&name);
    assert_eq!(meta, b"tree/leaf.png.meta.toml".to_vec());
    assert!(is_metafile(&meta));
    assert!(!is_metafile(&name));
    assert_eq!(strip_meta_suffix(&meta), name);
}

#[test]
fn orphan_sidecars_are_those_without_assets() {
    let metas = vec![b"a.png".to_vec(), b"b.png".to_vec()];
    let assets = vec![b"a.png".to_vec()];
    assert_eq!(orphan_metafiles(&metas, &assets), vec![b"b.png".to_vec()]);
}

#[test]
fn unmapped_extensions_fall_back_to_bytes() {
    let mut table = Vec::new();
    assert!(register_extension(&mut table, &b"png".to_vec(), AssetType::Texture));
    assert!(register_extension(&mut table, &b"fbx".to_vec(), AssetType::Transmission));
    // A second importer for one extension is refused.
    assert!(!register_extension(&mut table, &b"png".to_vec(), AssetType::Audio));
    assert_eq!(classify(&table, &Some(b"png".to_vec())), AssetType::Texture);
    assert_eq!(classify(&table, &Some(b"fbx".to_vec())), AssetType::Transmission);
    assert_eq!(classify(&table, &Some(b"xyz".to_vec())), AssetType::Bytes);
    assert_eq!(classify(&table, &None), AssetType::Bytes);
}

#[test]
fn overlapping_trees_are_detected() {
    assert!(trees_overlap(&b"root/assets".to_vec(), &b"root/assets/out".to_vec()));
    assert!(trees_overlap(&b"root/assets/out".to_vec(), &b"root/assets".to_vec()));
    assert!(trees_overlap(&b"root".to_vec(), &b"root".to_vec()));
    assert!(!trees_overlap(&b"root/assets".to_vec(), &b"root/resources".to_vec()));
    // A shared name prefix is not a shared tree.
    assert!(!trees_overlap(&b"root/assets".to_vec(), &b"root/assets2".to_vec()));
}

#[test]
fn manifest_locations_join_multi_resource_assets() {
    assert_eq!(manifest_location(&b"a.png".to_vec(), &b"a.png".to_vec()), b"a.png".to_vec());
    assert_eq!(
        manifest_location(&b"scene.fbx".to_vec(), &b"hull".to_vec()),
        b"scene.fbx/hull".to_vec()
    );
}

#[test]
fn readding_a_resource_with_same_kind_is_a_no_op() {
    let mut md = AssetMetadata {
        name: b"scene.fbx".to_vec(),
        uuid: 1,
        resources: Vec::new(),
        params: AssetParams::Bytes,
    };
    assert!(md.add_resource(&b"hull".to_vec(), ResourceType::Mesh));
    let uuid_before = md.resources[0].uuid;
    // Same name, same kind: no metadata mutation, no new identifier.
    assert!(!md.add_resource(&b"hull".to_vec(), ResourceType::Mesh));
    assert_eq!(md.resources.len(), 1);
    assert_eq!(md.resources[0].uuid, uuid_before);
    // Same name, different kind: the record is replaced and the asset dirty.
    assert!(md.add_resource(&b"hull".to_vec(), ResourceType::Prefab));
    assert_eq!(md.resources.len(), 1);
    assert!(matches!(md.resources[0].tp, ResourceType::Prefab));
}

#[test]
fn duplicate_resource_names_keep_the_first() {
    let mut md = AssetMetadata {
        name: b"scene.fbx".to_vec(),
        uuid: 1,
        resources: Vec::new(),
        params: AssetParams::Bytes,
    };
    md.add_resource(&b"hull".to_vec(), ResourceType::Mesh);
    md.add_resource(&b"deck".to_vec(), ResourceType::Mesh);
    let first_hull = md.resources[0].uuid;
    // A misbehaving importer appended a duplicate by hand.
    md.resources.push(asset_pipeline::ResourceMetadata {
        tp: ResourceType::Bytes,
        name: b"hull".to_vec(),
        uuid: 999,
    });
    assert!(md.dedup_resources());
    assert_eq!(md.resources.len(), 2);
    assert_eq!(md.resources[0].name, b"hull".to_vec());
    assert_eq!(md.resources[0].uuid, first_hull);
    assert!(!md.dedup_resources());
}

#[test]
fn texture_formats_resolve_per_platform() {
    let mut p = TextureImportParams::default();
    assert!(matches!(p.wrap, TextureWrap::Clamp));
    assert!(matches!(p.filter, TextureFilter::Linear));
    assert!(p.mipmap);
    assert_eq!(p.format(RuntimePlatform::Macos), TextureFormat::S3tcDxt5Rgba);
    assert_eq!(p.format(RuntimePlatform::Windows), TextureFormat::S3tcDxt5Rgba);
    assert_eq!(p.format(RuntimePlatform::Ios), TextureFormat::PvrtcRgba4);
    assert_eq!(p.format(RuntimePlatform::Android), TextureFormat::Etc2Rgba);
    p.compression = Compression::Uncompressed;
    assert_eq!(p.format(RuntimePlatform::Ios), TextureFormat::Rgba8);
    p.compression = Compression::LowQuality;
    assert_eq!(p.format(RuntimePlatform::Ios), TextureFormat::PvrtcRgba2);
}

#[test]
fn params_fall_back_to_defaults_for_other_variants() {
    let t = TextureImportParams::from_params(&AssetParams::Bytes);
    assert_eq!(t, TextureImportParams::default());
    let tr = TransmissionImportParams::from_params(&AssetParams::Texture(t));
    assert_eq!(tr, TransmissionImportParams::default());
    assert!(tr.mesh.optimize);
    let a = AudioImportParams::from_params(&AssetParams::Transmission(tr));
    assert_eq!(a, AudioImportParams::default());
    assert!(a.sample_rate.is_none());
    let m = MeshImportParams::default();
    assert!(!m.calculate_normals);
}

#[test]
fn phases_run_only_on_dirty_inputs() {
    assert!(!needs_compile(false, false, &vec![false, false]));
    assert!(needs_compile(true, false, &vec![]));
    assert!(needs_compile(false, true, &vec![]));
    assert!(needs_compile(false, false, &vec![false, true]));
    assert!(!needs_import(false, &vec![false]));
    assert!(needs_import(true, &vec![]));
    assert!(needs_import(false, &vec![false, true]));
}

#[test]
fn compressors_match_their_formats() {
    assert_eq!(compressor_for(TextureFormat::S3tcDxt5Rgba), CompressorKind::Crunch);
    assert_eq!(compressor_for(TextureFormat::Rgba8), CompressorKind::Crunch);
    assert_eq!(compressor_for(TextureFormat::Etc2Rgba), CompressorKind::PvrTexTool);
    assert_eq!(compressor_for(TextureFormat::PvrtcRgba4), CompressorKind::PvrTexTool);
    assert_eq!(format_flag(TextureFormat::S3tcDxt5Rgba), "-DXT5");
    assert_eq!(format_flag(TextureFormat::Etc2Rgba), "-f ETC2_RGBA");
    assert_eq!(format_flag(TextureFormat::Rgba8), "-A8R8G8B8");
}

#[test]
fn samples_normalize_to_sixteen_bits() {
    assert_eq!(sample_to_i16(0x1234, 16), 0x1234);
    assert_eq!(sample_to_i16(0x12, 8), 0x1200);
    assert_eq!(sample_to_i16(0x123456, 24), 0x1234);
    assert_eq!(sample_to_i16(-1, 8), -256);
}

#[test]
fn names_normalize_before_keying() {
    assert_eq!(normalize_name(&b"a/./b/../c".to_vec()), Some(b"a/c".to_vec()));
    assert_eq!(normalize_name(&b"meshes/hull".to_vec()), Some(b"meshes/hull".to_vec()));
    assert_eq!(normalize_name(&b"plain".to_vec()), Some(b"plain".to_vec()));
    // Two spellings of one name key one record.
    assert_eq!(
        normalize_name(&b"meshes/./hull".to_vec()),
        normalize_name(&b"meshes/hull".to_vec())
    );
    // Climbing out of the tree, or empty components, have no normal form.
    assert_eq!(normalize_name(&b"../x".to_vec()), None);
    assert_eq!(normalize_name(&b"".to_vec()), None);
    assert_eq!(normalize_name(&b"/abs".to_vec()), None);
    assert_eq!(normalize_name(&b"a//b".to_vec()), None);
    assert_eq!(normalize_name(&b"a/".to_vec()), None);
}

#[test]
fn encoder_quality_follows_compression() {
    assert_eq!(vorbis_quality_for(Compression::Uncompressed), EncoderQuality::High);
    assert_eq!(vorbis_quality_for(Compression::HighQuality), EncoderQuality::Medium);
    assert_eq!(vorbis_quality_for(Compression::LowQuality), EncoderQuality::Fast);
}

#[test]
fn simple_blobs_carry_their_magic() {
    assert_eq!(encode_audio_blob(&b"ogg".to_vec()), b"VAUDogg".to_vec());
    assert_eq!(encode_bytes_blob(&b"raw".to_vec()), b"VBYTraw".to_vec());
}
