use asset_pipeline::{
    encode_mesh_blob, encode_prefab_blob, encode_texture_blob, find_first, find_mesh_name,
    interleave, link_children, load_node, Assbin, AssbinMetadata, DecodeError, Ktx,
    MeshPrimitive, PrefabNode, TextureFilter, TextureFormat, TextureWrap,
};

fn push_u32(v: &mut Vec<u8>, x: u32) {
    v.extend_from_slice(&x.to_le_bytes());
}

fn push_u16(v: &mut Vec<u8>, x: u16) {
    v.extend_from_slice(&x.to_le_bytes());
}

/// One node chunk: name, transform, mesh slots, then the child chunks.
fn node_chunk(name: &[u8], mesh_slots: &[u32], children: &[Vec<u8>]) -> Vec<u8> {
    let mut body = Vec::new();
    push_u32(&mut body, name.len() as u32);
    body.extend_from_slice(name);
    body.extend_from_slice(&[0u8; 64]);
    push_u32(&mut body, children.len() as u32);
    push_u32(&mut body, mesh_slots.len() as u32);
    push_u32(&mut body, 0);
    for s in mesh_slots {
        push_u32(&mut body, *s);
    }
    for c in children {
        body.extend_from_slice(c);
    }
    let mut v = Vec::new();
    push_u32(&mut v, 0x123c);
    push_u32(&mut v, body.len() as u32);
    v.extend_from_slice(&body);
    v
}

#[test]
fn children_link_in_stream_order() {
    let b = node_chunk(b"B", &[], &[]);
    let c = node_chunk(b"C", &[], &[]);
    let d = node_chunk(b"D", &[], &[]);
    let a = node_chunk(b"A", &[], &[b, c, d]);
    let mut nodes: Vec<PrefabNode> = Vec::new();
    let (idx, end) = load_node(&a, 0, &mut nodes).unwrap();
    assert_eq!(idx, 0);
    assert_eq!(end, a.len());
    assert_eq!(nodes.len(), 4);
    assert_eq!(nodes[0].name, b"A".to_vec());
    assert_eq!(nodes[0].first_child, Some(1));
    assert_eq!(nodes[1].name, b"B".to_vec());
    assert_eq!(nodes[1].next_sib, Some(2));
    assert_eq!(nodes[2].name, b"C".to_vec());
    assert_eq!(nodes[2].next_sib, Some(3));
    assert_eq!(nodes[3].name, b"D".to_vec());
    assert_eq!(nodes[3].next_sib, None);
}

#[test]
fn synthetic_name_marker_truncates() {
    let a = node_chunk(b"Body_$AssimpFbx$_Translation", &[], &[]);
    let mut nodes: Vec<PrefabNode> = Vec::new();
    load_node(&a, 0, &mut nodes).unwrap();
    assert_eq!(nodes[0].name, b"Body".to_vec());
}

#[test]
fn first_mesh_slot_wins() {
    let a = node_chunk(b"A", &[7, 9], &[]);
    let mut nodes: Vec<PrefabNode> = Vec::new();
    load_node(&a, 0, &mut nodes).unwrap();
    assert_eq!(nodes[0].mesh_renderer, Some(7));
}

fn leaf(name: &[u8], mesh: Option<usize>) -> PrefabNode {
    PrefabNode { name: name.to_vec(), first_child: None, next_sib: None, mesh_renderer: mesh }
}

#[test]
fn unreferenced_mesh_gets_synthetic_name() {
    let nodes = vec![leaf(b"root", None), leaf(b"torso", Some(0))];
    assert_eq!(find_mesh_name(&nodes, 2), b"mesh_2".to_vec());
}

#[test]
fn referenced_mesh_takes_node_name() {
    let nodes = vec![leaf(b"root", None), leaf(b"torso", Some(0)), leaf(b"arm", Some(0))];
    assert_eq!(find_mesh_name(&nodes, 0), b"torso".to_vec());
}

#[test]
fn link_children_builds_sibling_chain() {
    let mut nodes = vec![leaf(b"p", None), leaf(b"x", None), leaf(b"y", None)];
    let children = vec![1usize, 2usize];
    link_children(&mut nodes, 0, &children);
    assert_eq!(nodes[0].first_child, Some(1));
    assert_eq!(nodes[1].next_sib, Some(2));
    assert_eq!(nodes[2].next_sib, None);
}

#[test]
fn find_first_reports_earliest_match() {
    let b = b"xxabyab".to_vec();
    let pat = b"ab".to_vec();
    assert_eq!(find_first(&b, &pat), Some(2));
    let missing = b"zz".to_vec();
    assert_eq!(find_first(&b, &missing), None);
}

#[test]
fn interleave_transposes_attribute_major_blocks() {
    let blocks = vec![(vec![1u8, 2, 3, 4], 2usize), (vec![9u8, 8, 7, 6], 2usize)];
    let out = interleave(&blocks, 2);
    assert_eq!(out, vec![1, 2, 9, 8, 3, 4, 7, 6]);
}

/// A whole scene binary: fixed header, scene chunk, one node, one mesh.
fn scene_binary(num_meshes: u32, mesh_chunks: &[Vec<u8>], root: &Vec<u8>) -> Vec<u8> {
    let mut v = vec![0u8; 44];
    push_u32(&mut v, 4); // major
    push_u32(&mut v, 1); // minor
    push_u32(&mut v, 0); // revision
    push_u32(&mut v, 0); // compile flags
    push_u16(&mut v, 0); // shortened
    push_u16(&mut v, 0); // compressed
    v.extend_from_slice(&[0u8; 448]);
    assert_eq!(v.len(), 512);
    let mut scene = Vec::new();
    push_u32(&mut scene, 0); // scene flags
    push_u32(&mut scene, num_meshes);
    for _ in 0..5 {
        push_u32(&mut scene, 0);
    }
    push_u32(&mut v, 0x1239);
    push_u32(&mut v, scene.len() as u32);
    v.extend_from_slice(&scene);
    v.extend_from_slice(root);
    for m in mesh_chunks {
        v.extend_from_slice(m);
    }
    v
}

/// One mesh chunk with positions for `nv` vertices and one triangle face.
fn mesh_chunk(nv: u32, primitive: u32) -> Vec<u8> {
    let mut body = Vec::new();
    push_u32(&mut body, primitive);
    push_u32(&mut body, nv);
    push_u32(&mut body, 1); // faces
    push_u32(&mut body, 0); // bones
    push_u32(&mut body, 0); // material
    push_u32(&mut body, 0x1); // attributes: positions
    for i in 0..(nv * 12) {
        body.push(i as u8);
    }
    push_u16(&mut body, 3);
    push_u16(&mut body, 0);
    push_u16(&mut body, 1);
    push_u16(&mut body, 2);
    let mut v = Vec::new();
    push_u32(&mut v, 0x1237);
    push_u32(&mut v, body.len() as u32);
    v.extend_from_slice(&body);
    v
}

#[test]
fn whole_scene_decodes_with_named_meshes() {
    let root = node_chunk(b"hull", &[0], &[]);
    let mesh = mesh_chunk(3, 4);
    let data = scene_binary(2, &[mesh.clone(), mesh], &root);
    let scene = Assbin::load(&data).unwrap();
    assert_eq!(scene.version_major, 4);
    assert_eq!(scene.version_minor, 1);
    assert_eq!(scene.nodes.len(), 1);
    assert_eq!(scene.meshes.len(), 2);
    assert_eq!(scene.meshes[0].name, b"hull".to_vec());
    assert_eq!(scene.meshes[1].name, b"mesh_1".to_vec());
    assert!(matches!(scene.meshes[0].primitive, MeshPrimitive::Triangles));
    assert_eq!(scene.meshes[0].num_vertices, 3);
    assert_eq!(scene.meshes[0].vertices.len(), 36);
    assert_eq!(scene.meshes[0].indices, vec![0, 1, 2]);
}

#[test]
fn metadata_load_resolves_names_only() {
    let root = node_chunk(b"hull", &[1], &[]);
    let mesh = mesh_chunk(1, 4);
    let data = scene_binary(2, &[mesh.clone(), mesh], &root);
    let md = AssbinMetadata::load(&data).unwrap();
    assert_eq!(md.meshes.len(), 2);
    assert_eq!(md.meshes[0], b"mesh_0".to_vec());
    assert_eq!(md.meshes[1], b"hull".to_vec());
}

#[test]
fn shortened_scene_binaries_are_refused() {
    let root = node_chunk(b"hull", &[], &[]);
    let mut data = scene_binary(0, &[], &root);
    data[60] = 1;
    assert_eq!(Assbin::load(&data).unwrap_err(), DecodeError::ShortenedUnsupported);
}

#[test]
fn compressed_scene_binaries_are_refused() {
    let root = node_chunk(b"hull", &[], &[]);
    let mut data = scene_binary(0, &[], &root);
    data[62] = 1;
    assert_eq!(Assbin::load(&data).unwrap_err(), DecodeError::CompressedUnsupported);
}

#[test]
fn bad_mesh_primitive_is_refused() {
    let root = node_chunk(b"hull", &[], &[]);
    let mesh = mesh_chunk(1, 3);
    let data = scene_binary(1, &[mesh], &root);
    assert!(Assbin::load(&data).is_err());
}

#[test]
fn mesh_blob_layout_is_exact() {
    let root = node_chunk(b"hull", &[0], &[]);
    let mesh = mesh_chunk(1, 4);
    let data = scene_binary(1, &[mesh], &root);
    let scene = Assbin::load(&data).unwrap();
    let blob = encode_mesh_blob(&scene.meshes[0]);
    let mut expected = b"VMSH".to_vec();
    expected.push(2); // triangles
    push_u32(&mut expected, 1); // vertices
    push_u32(&mut expected, 0x1); // attributes
    push_u32(&mut expected, 12);
    expected.extend_from_slice(&scene.meshes[0].vertices);
    push_u32(&mut expected, 3);
    for ix in [0u16, 1, 2] {
        push_u16(&mut expected, ix);
    }
    assert_eq!(blob, expected);
}

#[test]
fn prefab_blob_layout_is_exact() {
    let nodes = vec![PrefabNode {
        name: b"hull".to_vec(),
        first_child: None,
        next_sib: None,
        mesh_renderer: Some(0),
    }];
    let ids = vec![0xABu128];
    let blob = encode_prefab_blob(&nodes, &ids);
    let mut expected = b"VPFB".to_vec();
    push_u32(&mut expected, 1);
    push_u32(&mut expected, 4);
    expected.extend_from_slice(b"hull");
    expected.extend_from_slice(&0u64.to_le_bytes()); // no first child
    expected.extend_from_slice(&0u64.to_le_bytes()); // no sibling
    expected.extend_from_slice(&1u64.to_le_bytes()); // mesh slot zero
    push_u32(&mut expected, 1);
    expected.extend_from_slice(b"000000000000000000000000000000AB");
    assert_eq!(blob, expected);
}

#[test]
fn texture_blob_carries_resolved_parameters() {
    // A one-level container: magic, endianness, twelve header words, no
    // key-value data, one four-byte level.
    let mut data = vec![
        0xAB, 0x4B, 0x54, 0x58, 0x20, 0x31, 0x31, 0xBB, 0x0D, 0x0A, 0x1A, 0x0A, 0x01, 0, 0, 0,
    ];
    for field in [0u32, 4, 0x1908, 0x1908, 0x1908, 8, 8, 0, 0, 1, 1, 0] {
        push_u32(&mut data, field);
    }
    push_u32(&mut data, 4);
    data.extend_from_slice(b"abcd");
    let ktx = Ktx::parse(&data).unwrap();
    let blob = encode_texture_blob(
        &ktx,
        TextureFormat::S3tcDxt5Rgba,
        TextureFilter::Linear,
        TextureWrap::Clamp,
    );
    let mut expected = b"VTEX".to_vec();
    expected.push(4); // S3TC DXT5 tag
    expected.push(1); // linear filter
    expected.push(0); // clamp wrap
    push_u32(&mut expected, 8);
    push_u32(&mut expected, 8);
    push_u32(&mut expected, 1);
    push_u32(&mut expected, 4);
    expected.extend_from_slice(b"abcd");
    assert_eq!(blob, expected);
}
