use vstd::prelude::*;

use crate::assbin::{Mesh, MeshPrimitive, PrefabNode};
use crate::assets::{TextureFilter, TextureFormat, TextureWrap};
use crate::digest::{spec_uuid_hex, uuid_hex};
use crate::ktx::Ktx;

verus! {

/// The four little-endian bytes of a 32-bit value.
pub open spec fn spec_u32_le_bytes(x: u32) -> Seq<u8> {
    seq![
        (x % 256) as u8,
        (x / 256 % 256) as u8,
        (x / 0x10000 % 256) as u8,
        (x / 0x1000000) as u8,
    ]
}

/// The two little-endian bytes of a 16-bit value.
pub open spec fn spec_u16_le_bytes(x: u16) -> Seq<u8> {
    seq![(x % 256) as u8, (x / 256) as u8]
}

/// The eight little-endian bytes of a 64-bit value.
pub open spec fn spec_u64_le_bytes(x: u64) -> Seq<u8> {
    spec_u32_le_bytes((x % 0x100000000) as u32) + spec_u32_le_bytes((x / 0x100000000) as u32)
}

/// Appends a 32-bit value in little-endian order.
pub fn push_u32_le(out: &mut Vec<u8>, x: u32)
    ensures
        final(out)@ == old(out)@ + spec_u32_le_bytes(x),
{
    out.push((x % 256) as u8);
    out.push((x / 256 % 256) as u8);
    out.push((x / 0x10000 % 256) as u8);
    out.push((x / 0x1000000) as u8);
    proof {
        assert(out@ =~= old(out)@ + spec_u32_le_bytes(x));
    }
}

/// Appends a 16-bit value in little-endian order.
pub fn push_u16_le(out: &mut Vec<u8>, x: u16)
    ensures
        final(out)@ == old(out)@ + spec_u16_le_bytes(x),
{
    out.push((x % 256) as u8);
    out.push((x / 256) as u8);
    proof {
        assert(out@ =~= old(out)@ + spec_u16_le_bytes(x));
    }
}

/// Appends a 64-bit value in little-endian order.
pub fn push_u64_le(out: &mut Vec<u8>, x: u64)
    ensures
        final(out)@ == old(out)@ + spec_u64_le_bytes(x),
{
    push_u32_le(out, (x % 0x100000000) as u32);
    push_u32_le(out, (x / 0x100000000) as u32);
    proof {
        assert(out@ =~= old(out)@ + spec_u64_le_bytes(x));
    }
}

/// The tag byte of a texture format in a resource blob.
pub open spec fn spec_format_tag(f: TextureFormat) -> u8 {
    match f {
        TextureFormat::R8 => 0,
        TextureFormat::Rgb8 => 1,
        TextureFormat::Rgba8 => 2,
        TextureFormat::S3tcDxt1Rgb => 3,
        TextureFormat::S3tcDxt5Rgba => 4,
        TextureFormat::Etc2Rgb => 5,
        TextureFormat::Etc2Rgba => 6,
        TextureFormat::PvrtcRgb4 => 7,
        TextureFormat::PvrtcRgb2 => 8,
        TextureFormat::PvrtcRgba4 => 9,
        TextureFormat::PvrtcRgba2 => 10,
    }
}

/// The tag byte of a filter mode in a resource blob.
pub open spec fn spec_filter_tag(f: TextureFilter) -> u8 {
    match f {
        TextureFilter::Nearest => 0,
        TextureFilter::Linear => 1,
    }
}

/// The tag byte of a wrap mode in a resource blob.
pub open spec fn spec_wrap_tag(w: TextureWrap) -> u8 {
    match w {
        TextureWrap::Clamp => 0,
        TextureWrap::Repeat => 1,
        TextureWrap::Mirror => 2,
    }
}

/// The tag byte of a mesh primitive in a resource blob.
pub open spec fn spec_primitive_tag(p: MeshPrimitive) -> u8 {
    match p {
        MeshPrimitive::Points => 0,
        MeshPrimitive::Lines => 1,
        MeshPrimitive::Triangles => 2,
    }
}

/// The mip levels of a texture payload: each a 32-bit length then its bytes.
pub open spec fn spec_levels_payload(ts: Seq<Seq<u8>>) -> Seq<u8>
    decreases ts.len(),
{
    if ts.len() == 0 {
        Seq::empty()
    } else {
        spec_levels_payload(ts.drop_last()) + spec_u32_le_bytes(ts.last().len() as u32)
            + ts.last()
    }
}

/// A texture resource blob: the kind magic, the resolved format and the
/// filter and wrap parameters, the pixel dimensions, and the mip levels.
pub open spec fn spec_texture_blob(
    k: crate::ktx::KtxModel,
    format: TextureFormat,
    filter: TextureFilter,
    wrap: TextureWrap,
) -> Seq<u8> {
    seq![0x56u8, 0x54u8, 0x45u8, 0x58u8] + seq![
        spec_format_tag(format),
        spec_filter_tag(filter),
        spec_wrap_tag(wrap),
    ] + spec_u32_le_bytes(k.pixel_width) + spec_u32_le_bytes(k.pixel_height) + spec_u32_le_bytes(
        k.number_of_mipmap_levels,
    ) + spec_levels_payload(k.textures)
}

/// Encodes a decoded texture container and its resolved import parameters
/// into the final resource blob.
#[verifier::loop_isolation(false)]
#[verifier::rlimit(100)]
pub fn encode_texture_blob(
    k: &Ktx,
    format: TextureFormat,
    filter: TextureFilter,
    wrap: TextureWrap,
) -> (r: Vec<u8>)
    requires
        forall|i: int| 0 <= i < k.textures@.len() ==> (#[trigger] k.textures@[i])@.len() <= u32::MAX,
    ensures
        r@ == spec_texture_blob(k@, format, filter, wrap),
{
    let mut r: Vec<u8> = Vec::new();
    r.push(0x56);
    r.push(0x54);
    r.push(0x45);
    r.push(0x58);
    let ftag: u8 = match format {
        TextureFormat::R8 => 0,
        TextureFormat::Rgb8 => 1,
        TextureFormat::Rgba8 => 2,
        TextureFormat::S3tcDxt1Rgb => 3,
        TextureFormat::S3tcDxt5Rgba => 4,
        TextureFormat::Etc2Rgb => 5,
        TextureFormat::Etc2Rgba => 6,
        TextureFormat::PvrtcRgb4 => 7,
        TextureFormat::PvrtcRgb2 => 8,
        TextureFormat::PvrtcRgba4 => 9,
        TextureFormat::PvrtcRgba2 => 10,
    };
    r.push(ftag);
    r.push(match filter {
        TextureFilter::Nearest => 0,
        TextureFilter::Linear => 1,
    });
    r.push(match wrap {
        TextureWrap::Clamp => 0,
        TextureWrap::Repeat => 1,
        TextureWrap::Mirror => 2,
    });
    push_u32_le(&mut r, k.pixel_width);
    push_u32_le(&mut r, k.pixel_height);
    push_u32_le(&mut r, k.number_of_mipmap_levels);
    let ghost head = r@;
    let n = k.textures.len();
    let mut i: usize = 0;
    while i < n
        invariant
            i <= n,
            n == k.textures@.len(),
            r@ == head + spec_levels_payload(k.textures.deep_view().take(i as int)),
        decreases n - i,
    {
        let ghost pre = k.textures.deep_view().take(i as int);
        proof {
            assert(k.textures.deep_view().take(i + 1).drop_last() =~= pre);
            assert(k.textures.deep_view().take(i + 1).last() == k.textures@[i as int]@);
        }
        let level = &k.textures[i];
        push_u32_le(&mut r, level.len() as u32);
        let mut copy = crate::assbin::clone_bytes(level);
        r.append(&mut copy);
        proof {
            assert(r@ =~= head + spec_levels_payload(k.textures.deep_view().take(i + 1)));
        }
        i = i + 1;
    }
    proof {
        assert(k.textures.deep_view().take(n as int) =~= k.textures.deep_view());
        assert(k.textures.deep_view() =~~= k@.textures);
    }
    r
}

/// The face indices of a mesh payload, two bytes each.
pub open spec fn spec_indices_payload(ix: Seq<u16>) -> Seq<u8>
    decreases ix.len(),
{
    if ix.len() == 0 {
        Seq::empty()
    } else {
        spec_indices_payload(ix.drop_last()) + spec_u16_le_bytes(ix.last())
    }
}

/// A mesh resource blob: the kind magic, the primitive tag, the vertex
/// count and attribute bitmask, the interleaved vertex buffer, and the
/// flattened face indices.
pub open spec fn spec_mesh_blob(
    primitive: MeshPrimitive,
    num_vertices: u32,
    attributes: u32,
    vertices: Seq<u8>,
    indices: Seq<u16>,
) -> Seq<u8> {
    seq![0x56u8, 0x4Du8, 0x53u8, 0x48u8] + seq![spec_primitive_tag(primitive)]
        + spec_u32_le_bytes(num_vertices) + spec_u32_le_bytes(attributes) + spec_u32_le_bytes(
        vertices.len() as u32,
    ) + vertices + spec_u32_le_bytes(indices.len() as u32) + spec_indices_payload(indices)
}

/// Encodes a decoded mesh into the final resource blob.
#[verifier::loop_isolation(false)]
pub fn encode_mesh_blob(m: &Mesh) -> (r: Vec<u8>)
    requires
        m.vertices@.len() <= u32::MAX,
        m.indices@.len() <= u32::MAX,
    ensures
        r@ == spec_mesh_blob(m.primitive, m.num_vertices, m.attributes, m.vertices@, m.indices@),
{
    let mut r: Vec<u8> = Vec::new();
    r.push(0x56);
    r.push(0x4D);
    r.push(0x53);
    r.push(0x48);
    r.push(match m.primitive {
        MeshPrimitive::Points => 0,
        MeshPrimitive::Lines => 1,
        MeshPrimitive::Triangles => 2,
    });
    push_u32_le(&mut r, m.num_vertices);
    push_u32_le(&mut r, m.attributes);
    push_u32_le(&mut r, m.vertices.len() as u32);
    let mut verts = crate::assbin::clone_bytes(&m.vertices);
    r.append(&mut verts);
    push_u32_le(&mut r, m.indices.len() as u32);
    let ghost head = r@;
    let n = m.indices.len();
    let mut i: usize = 0;
    while i < n
        invariant
            i <= n,
            n == m.indices@.len(),
            r@ == head + spec_indices_payload(m.indices@.take(i as int)),
        decreases n - i,
    {
        proof {
            assert(m.indices@.take(i + 1).drop_last() =~= m.indices@.take(i as int));
            assert(m.indices@.take(i + 1).last() == m.indices@[i as int]);
        }
        push_u16_le(&mut r, m.indices[i]);
        proof {
            assert(r@ =~= head + spec_indices_payload(m.indices@.take(i + 1)));
        }
        i = i + 1;
    }
    proof {
        assert(m.indices@.take(n as int) =~= m.indices@);
    }
    r
}

/// One node of a prefab payload: the name length and bytes, then the
/// first-child, next-sibling and mesh-slot links, each an index plus one
/// with zero standing for none.
pub open spec fn spec_node_record(node: PrefabNode) -> Seq<u8> {
    spec_u32_le_bytes(node.name@.len() as u32) + node.name@ + spec_u64_le_bytes(
        spec_link(node.first_child),
    ) + spec_u64_le_bytes(spec_link(node.next_sib)) + spec_u64_le_bytes(
        spec_link(node.mesh_renderer),
    )
}

/// An optional arena index as stored: the index plus one, zero for none.
pub open spec fn spec_link(v: Option<usize>) -> u64 {
    match v {
        Some(x) => (x + 1) as u64,
        None => 0u64,
    }
}

/// The stored form of a link fits its field.
pub open spec fn link_in_range(v: Option<usize>) -> bool {
    match v {
        Some(x) => x + 1 <= u64::MAX,
        None => true,
    }
}

/// The node records of a prefab payload, in arena order.
pub open spec fn spec_nodes_payload(nodes: Seq<PrefabNode>) -> Seq<u8>
    decreases nodes.len(),
{
    if nodes.len() == 0 {
        Seq::empty()
    } else {
        spec_nodes_payload(nodes.drop_last()) + spec_node_record(nodes.last())
    }
}

/// The referenced mesh identifiers of a prefab payload, in list order, each
/// as its thirty-two-digit blob name.
pub open spec fn spec_ids_payload(ids: Seq<u128>) -> Seq<u8>
    decreases ids.len(),
{
    if ids.len() == 0 {
        Seq::empty()
    } else {
        spec_ids_payload(ids.drop_last()) + spec_uuid_hex(ids.last())
    }
}

/// A prefab resource blob: the kind magic, the node count, the node forest
/// with its index links, and the referenced mesh identifiers.
pub open spec fn spec_prefab_blob(nodes: Seq<PrefabNode>, ids: Seq<u128>) -> Seq<u8> {
    seq![0x56u8, 0x50u8, 0x46u8, 0x42u8] + spec_u32_le_bytes(nodes.len() as u32)
        + spec_nodes_payload(nodes) + spec_u32_le_bytes(ids.len() as u32) + spec_ids_payload(ids)
}

/// Appends the node records of a prefab payload, in arena order.
#[verifier::loop_isolation(false)]
#[verifier::rlimit(100)]
fn push_nodes_payload(r: &mut Vec<u8>, nodes: &Vec<PrefabNode>)
    requires
        forall|i: int| 0 <= i < nodes@.len() ==> (#[trigger] nodes@[i]).name@.len() <= u32::MAX,
        forall|i: int|
            0 <= i < nodes@.len() ==> link_in_range((#[trigger] nodes@[i]).first_child)
                && link_in_range(nodes@[i].next_sib) && link_in_range(nodes@[i].mesh_renderer),
    ensures
        final(r)@ == old(r)@ + spec_nodes_payload(nodes@),
{
    let ghost head = old(r)@;
    let n = nodes.len();
    let mut i: usize = 0;
    while i < n
        invariant
            i <= n,
            n == nodes@.len(),
            r@ == head + spec_nodes_payload(nodes@.take(i as int)),
        decreases n - i,
    {
        proof {
            assert(nodes@.take(i + 1).drop_last() =~= nodes@.take(i as int));
            assert(nodes@.take(i + 1).last() == nodes@[i as int]);
        }
        let node = &nodes[i];
        push_u32_le(r, node.name.len() as u32);
        let mut name = crate::assbin::clone_bytes(&node.name);
        r.append(&mut name);
        push_u64_le(r, link_value(node.first_child));
        push_u64_le(r, link_value(node.next_sib));
        push_u64_le(r, link_value(node.mesh_renderer));
        proof {
            assert(r@ =~= head + spec_nodes_payload(nodes@.take(i + 1)));
        }
        i = i + 1;
    }
    proof {
        assert(nodes@.take(n as int) =~= nodes@);
    }
}

/// Appends the referenced mesh identifiers of a prefab payload.
#[verifier::loop_isolation(false)]
fn push_ids_payload(r: &mut Vec<u8>, ids: &Vec<u128>)
    ensures
        final(r)@ == old(r)@ + spec_ids_payload(ids@),
{
    let ghost head = old(r)@;
    let q = ids.len();
    let mut w: usize = 0;
    while w < q
        invariant
            w <= q,
            q == ids@.len(),
            r@ == head + spec_ids_payload(ids@.take(w as int)),
        decreases q - w,
    {
        proof {
            assert(ids@.take(w + 1).drop_last() =~= ids@.take(w as int));
            assert(ids@.take(w + 1).last() == ids@[w as int]);
        }
        let mut hex = uuid_hex(ids[w]);
        r.append(&mut hex);
        proof {
            assert(r@ =~= head + spec_ids_payload(ids@.take(w + 1)));
        }
        w = w + 1;
    }
    proof {
        assert(ids@.take(q as int) =~= ids@);
    }
}

/// Encodes the decoded node forest and the mesh identifiers it references
/// into the final prefab resource blob.
pub fn encode_prefab_blob(nodes: &Vec<PrefabNode>, ids: &Vec<u128>) -> (r: Vec<u8>)
    requires
        nodes@.len() <= u32::MAX,
        ids@.len() <= u32::MAX,
        forall|i: int| 0 <= i < nodes@.len() ==> (#[trigger] nodes@[i]).name@.len() <= u32::MAX,
        forall|i: int|
            0 <= i < nodes@.len() ==> link_in_range((#[trigger] nodes@[i]).first_child)
                && link_in_range(nodes@[i].next_sib) && link_in_range(nodes@[i].mesh_renderer),
    ensures
        r@ == spec_prefab_blob(nodes@, ids@),
{
    let mut r: Vec<u8> = Vec::new();
    r.push(0x56);
    r.push(0x50);
    r.push(0x46);
    r.push(0x42);
    push_u32_le(&mut r, nodes.len() as u32);
    push_nodes_payload(&mut r, nodes);
    push_u32_le(&mut r, ids.len() as u32);
    push_ids_payload(&mut r, ids);
    proof {
        assert(r@ =~= spec_prefab_blob(nodes@, ids@));
    }
    r
}

/// An optional arena index as stored: the index plus one, zero for none.
fn link_value(v: Option<usize>) -> (r: u64)
    requires
        link_in_range(v),
    ensures
        r == spec_link(v),
{
    match v {
        Some(x) => (x as u64) + 1,
        None => 0,
    }
}

/// An audio resource blob: the kind magic, then the compressed clip stream.
pub open spec fn spec_audio_blob(clip: Seq<u8>) -> Seq<u8> {
    seq![0x56u8, 0x41u8, 0x55u8, 0x44u8] + clip
}

/// Encodes a compressed audio clip into the final resource blob.
pub fn encode_audio_blob(clip: &Vec<u8>) -> (r: Vec<u8>)
    ensures
        r@ == spec_audio_blob(clip@),
{
    let mut r: Vec<u8> = Vec::new();
    r.push(0x56);
    r.push(0x41);
    r.push(0x55);
    r.push(0x44);
    let mut body = crate::assbin::clone_bytes(clip);
    r.append(&mut body);
    proof {
        assert(r@ =~= spec_audio_blob(clip@));
    }
    r
}

/// An opaque bytes resource blob: the kind magic, then the raw passthrough.
pub open spec fn spec_bytes_blob(raw: Seq<u8>) -> Seq<u8> {
    seq![0x56u8, 0x42u8, 0x59u8, 0x54u8] + raw
}

/// Encodes an opaque asset's raw bytes into the final resource blob.
pub fn encode_bytes_blob(raw: &Vec<u8>) -> (r: Vec<u8>)
    ensures
        r@ == spec_bytes_blob(raw@),
{
    let mut r: Vec<u8> = Vec::new();
    r.push(0x56);
    r.push(0x42);
    r.push(0x59);
    r.push(0x54);
    let mut body = crate::assbin::clone_bytes(raw);
    r.append(&mut body);
    proof {
        assert(r@ =~= spec_bytes_blob(raw@));
    }
    r
}

} // verus!
