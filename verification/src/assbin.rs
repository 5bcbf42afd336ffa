use vstd::prelude::*;

use crate::bytes_util::{decimal, spec_decimal};
use crate::errors::DecodeError;
use crate::stream::{spec_u16_le, spec_u32_le, Stream};

verus! {

pub const CHUNK_SCENE: u32 = 0x1239;

pub const CHUNK_NODE: u32 = 0x123c;

pub const CHUNK_MESH: u32 = 0x1237;

/// One node of the decoded scene forest. Relations are indices into the flat
/// node list: the stream is itself flat, and an arena with index links avoids
/// owned nesting.
#[derive(Debug)]
pub struct PrefabNode {
    /// The artist-authored node name, truncated at the synthetic-name marker.
    pub name: Vec<u8>,
    /// Index of the first child in stream order, if any.
    pub first_child: Option<usize>,
    /// Index of the next sibling under the same parent, if any.
    pub next_sib: Option<usize>,
    /// The first mesh-slot index this node references, if any.
    pub mesh_renderer: Option<usize>,
}

/// The marker token that the exporter injects into synthetic node names; an
/// authored name ends where the marker begins.
pub open spec fn name_marker() -> Seq<u8> {
    seq![0x5Fu8, 0x24u8, 0x41u8, 0x73u8, 0x73u8, 0x69u8, 0x6Du8, 0x70u8, 0x46u8, 0x62u8, 0x78u8, 0x24u8, 0x5Fu8]
}

/// True when `pat` occurs in `b` starting at offset `i`.
pub open spec fn spec_matches_at(b: Seq<u8>, pat: Seq<u8>, i: int) -> bool {
    0 <= i && i + pat.len() <= b.len() && b.subrange(i, i + pat.len()) == pat
}

/// The marker buffer, for run-time search.
fn name_marker_bytes() -> (r: Vec<u8>)
    ensures
        r@ =~= name_marker(),
{
    let mut v: Vec<u8> = Vec::new();
    v.push(0x5F);
    v.push(0x24);
    v.push(0x41);
    v.push(0x73);
    v.push(0x73);
    v.push(0x69);
    v.push(0x6D);
    v.push(0x70);
    v.push(0x46);
    v.push(0x62);
    v.push(0x78);
    v.push(0x24);
    v.push(0x5F);
    v
}

/// Checks whether `pat` occurs in `b` at offset `i`.
fn matches_at(b: &Vec<u8>, pat: &Vec<u8>, i: usize) -> (r: bool)
    requires
        i + pat@.len() <= b@.len(),
    ensures
        r == spec_matches_at(b@, pat@, i as int),
{
    let plen: usize = pat.len();
    let blen: usize = b.len();
    let mut k: usize = 0;
    while k < plen
        invariant
            k <= plen,
            plen == pat@.len(),
            blen == b@.len(),
            i + plen <= blen,
            forall|m: int| 0 <= m < k ==> b@[i + m] == pat@[m],
        decreases plen - k,
    {
        if b[i + k] != pat[k] {
            proof {
                if spec_matches_at(b@, pat@, i as int) {
                    assert(pat@[k as int] == b@.subrange(i as int, i + pat@.len())[k as int]);
                }
            }
            return false;
        }
        k = k + 1;
    }
    proof {
        assert(b@.subrange(i as int, i + pat@.len()) =~= pat@);
    }
    true
}

/// Finds the first occurrence of `pat` in `b`.
pub fn find_first(b: &Vec<u8>, pat: &Vec<u8>) -> (r: Option<usize>)
    requires
        pat@.len() > 0,
    ensures
        match r {
            Some(i) => spec_matches_at(b@, pat@, i as int) && forall|j: int|
                0 <= j < i ==> !spec_matches_at(b@, pat@, j),
            None => forall|j: int| !spec_matches_at(b@, pat@, j),
        },
{
    let blen: usize = b.len();
    let plen: usize = pat.len();
    if blen < plen {
        return None;
    }
    let last: usize = blen - plen;
    let mut i: usize = 0;
    while i <= last
        invariant
            blen == b@.len(),
            plen == pat@.len(),
            plen > 0,
            last + plen == blen,
            i <= last + 1,
            forall|j: int| 0 <= j < i ==> !spec_matches_at(b@, pat@, j),
        decreases last + 1 - i,
    {
        if matches_at(b, pat, i) {
            return Some(i);
        }
        i = i + 1;
    }
    proof {
        assert(forall|j: int| j > last ==> !spec_matches_at(b@, pat@, j));
    }
    None
}

/// A length-prefixed byte string: a 32-bit count followed by that many bytes.
fn read_str(s: &mut Stream) -> (r: Result<Vec<u8>, DecodeError>)
    requires
        old(s).wf(),
    ensures
        final(s).wf(),
        final(s).d() == old(s).d(),
        match r {
            Ok(v) => {
                let n = spec_u32_le(old(s).d(), old(s).p()) as int;
                &&& old(s).p() + 4 + n <= old(s).d().len()
                &&& v@ == old(s).d().subrange(old(s).p() + 4, old(s).p() + 4 + n)
                &&& final(s).p() == old(s).p() + 4 + n
            },
            Err(e) => {
                &&& e == DecodeError::UnexpectedEnd
                &&& (old(s).p() + 4 > old(s).d().len() || old(s).p() + 4 + spec_u32_le(
                    old(s).d(),
                    old(s).p(),
                ) > old(s).d().len())
            },
        },
{
    let n = match s.read_u32_le() {
        Ok(v) => v,
        Err(e) => {
            return Err(DecodeError::UnexpectedEnd);
        },
    };
    match s.read_bytes(n as usize) {
        Ok(v) => Ok(v),
        Err(e) => Err(DecodeError::UnexpectedEnd),
    }
}

/// Links a parent to its children, in stream order, through first-child and
/// next-sibling indices.
///
/// This is the law of the forest layout: a parent with children
/// `[c0, c1, .., ck]` points at `c0` as its first child, every adjacent pair
/// of children is linked from the earlier to the later, the last child keeps
/// the sibling link it had (none, for a freshly decoded node), and no other
/// node changes.
#[verifier::loop_isolation(false)]
pub fn link_children(nodes: &mut Vec<PrefabNode>, parent: usize, children: &Vec<usize>)
    requires
        parent < old(nodes)@.len(),
        forall|k: int| 0 <= k < children@.len() ==> parent < #[trigger] children@[k] < old(nodes)@.len(),
        forall|a: int, b: int|
            0 <= a < b < children@.len() ==> #[trigger] children@[a] < #[trigger] children@[b],
    ensures
        final(nodes)@.len() == old(nodes)@.len(),
        final(nodes)@[parent as int].first_child == if children@.len() == 0 {
            Option::<usize>::None
        } else {
            Some(children@[0])
        },
        final(nodes)@[parent as int].name == old(nodes)@[parent as int].name,
        final(nodes)@[parent as int].next_sib == old(nodes)@[parent as int].next_sib,
        final(nodes)@[parent as int].mesh_renderer == old(nodes)@[parent as int].mesh_renderer,
        forall|k: int| #![trigger children@[k]]
            0 <= k && k + 1 < children@.len() ==> final(nodes)@[children@[k] as int].next_sib
                == Some(children@[k + 1]),
        children@.len() > 0 ==> final(nodes)@[children@.last() as int].next_sib == old(
            nodes,
        )@[children@.last() as int].next_sib,
        forall|k: int| #![trigger children@[k]]
            0 <= k < children@.len() ==> {
                &&& final(nodes)@[children@[k] as int].name == old(
                    nodes,
                )@[children@[k] as int].name
                &&& final(nodes)@[children@[k] as int].first_child == old(
                    nodes,
                )@[children@[k] as int].first_child
                &&& final(nodes)@[children@[k] as int].mesh_renderer == old(
                    nodes,
                )@[children@[k] as int].mesh_renderer
            },
        forall|j: int|
            0 <= j < old(nodes)@.len() && j != parent && !children@.contains(j as usize)
                ==> final(nodes)@[j] == old(nodes)@[j],
{
    let n = children.len();
    let mut k: usize = 0;
    while k + 1 < n
        invariant
            n == children@.len(),
            n > 0 ==> k < n,
            n == 0 ==> k == 0,
            nodes@.len() == old(nodes)@.len(),
            forall|m: int| #![trigger children@[m]]
                0 <= m < k ==> nodes@[children@[m] as int].next_sib == Some(children@[m + 1]),
            forall|j: int|
                0 <= j < nodes@.len() ==> {
                    &&& (#[trigger] nodes@[j]).name == old(nodes)@[j].name
                    &&& nodes@[j].first_child == old(nodes)@[j].first_child
                    &&& nodes@[j].mesh_renderer == old(nodes)@[j].mesh_renderer
                },
            forall|j: int|
                0 <= j < nodes@.len() && (forall|m: int|
                    0 <= m < k ==> #[trigger] children@[m] != j) ==> (#[trigger] nodes@[j]).next_sib
                    == old(nodes)@[j].next_sib,
        decreases n - k,
    {
        let c = children[k];
        let succ = children[k + 1];
        nodes[c].next_sib = Some(succ);
        k = k + 1;
    }
    let fc: Option<usize> = if n == 0 {
        None
    } else {
        Some(children[0])
    };
    proof {
        // The loop stopped linking before the last child, and every child is
        // distinct from the parent and from the last child.
        if n > 0 {
            assert(forall|m: int| 0 <= m < k ==> #[trigger] children@[m] != children@[n - 1]);
            assert(nodes@[children@[n - 1] as int].next_sib == old(nodes)@[children@[n
                - 1] as int].next_sib);
        }
        assert(forall|m: int| 0 <= m < k ==> #[trigger] children@[m] != parent as int);
        assert(nodes@[parent as int].next_sib == old(nodes)@[parent as int].next_sib);
    }
    nodes[parent].first_child = fc;
    proof {
        assert forall|kk: int|
            0 <= kk && kk + 1 < children@.len() implies nodes@[#[trigger] children@[kk] as int].next_sib
            == Some(children@[kk + 1]) by {
            assert(parent < children@[kk]);
        }
        assert forall|j: int| #![trigger children@.contains(j as usize)]
            0 <= j < old(nodes)@.len() && j != parent && !children@.contains(
                j as usize,
            ) implies (forall|m: int| 0 <= m < k ==> #[trigger] children@[m] != j) by {
            assert(forall|m: int| 0 <= m < children@.len() ==> #[trigger] children@[m] != j);
        }
    }
}

/// The synthetic name given to a mesh that no scene node references: the
/// word `mesh`, an underscore, and the mesh's list index in decimal.
pub open spec fn synthetic_mesh_name(index: nat) -> Seq<u8> {
    seq![0x6Du8, 0x65u8, 0x73u8, 0x68u8, 0x5Fu8] + spec_decimal(index)
}

/// Resolves the name of the mesh at list position `index`: the name of the
/// first node whose mesh-slot reference equals `index`, or, when no node
/// references it, the synthetic name built from the index.
pub fn find_mesh_name(nodes: &Vec<PrefabNode>, index: usize) -> (r: Vec<u8>)
    ensures
        is_mesh_name(nodes@, index, r@),
{
    let n = nodes.len();
    let mut i: usize = 0;
    while i < n
        invariant
            n == nodes@.len(),
            i <= n,
            forall|m: int| 0 <= m < i ==> (#[trigger] nodes@[m]).mesh_renderer != Some(index),
        decreases n - i,
    {
        let hit = match nodes[i].mesh_renderer {
            Some(v) => v == index,
            None => false,
        };
        if hit {
            let r = clone_bytes(&nodes[i].name);
            return r;
        }
        i = i + 1;
    }
    let mut r: Vec<u8> = Vec::new();
    r.push(0x6D);
    r.push(0x65);
    r.push(0x73);
    r.push(0x68);
    r.push(0x5F);
    let mut digits = decimal(index as u64);
    r.append(&mut digits);
    proof {
        assert(r@ =~= synthetic_mesh_name(index as nat));
    }
    r
}

/// A plain copy of a byte buffer.
pub fn clone_bytes(b: &Vec<u8>) -> (r: Vec<u8>)
    ensures
        r@ == b@,
{
    let mut r: Vec<u8> = Vec::new();
    let n = b.len();
    let mut i: usize = 0;
    while i < n
        invariant
            n == b@.len(),
            i <= n,
            r@ == b@.subrange(0, i as int),
        decreases n - i,
    {
        r.push(b[i]);
        proof {
            assert(r@ =~= b@.subrange(0, i + 1));
        }
        i = i + 1;
    }
    proof {
        assert(b@.subrange(0, n as int) =~= b@);
    }
    r
}

/// End of the chunk at `pos`: its data start plus its declared length,
/// clamped at the end of the buffer, exactly where the decoder resumes.
pub open spec fn spec_chunk_end(b: Seq<u8>, pos: int) -> int {
    let unclamped = pos + 8 + spec_u32_le(b, pos + 4);
    if unclamped <= b.len() {
        unclamped
    } else {
        b.len() as int
    }
}

/// `i` is the first position where `pat` occurs in `s`.
pub open spec fn is_first_match(s: Seq<u8>, pat: Seq<u8>, i: int) -> bool {
    spec_matches_at(s, pat, i) && forall|j: int| 0 <= j < i ==> !spec_matches_at(s, pat, j)
}

/// A node name as decoded: the raw stream name, truncated before the first
/// occurrence of the synthetic-name marker when one is present.
pub open spec fn spec_truncated_name(s: Seq<u8>) -> Seq<u8> {
    if exists|i: int| is_first_match(s, name_marker(), i) {
        s.take(choose|i: int| is_first_match(s, name_marker(), i))
    } else {
        s
    }
}

/// Length of the name stored in the node chunk at `pos`.
pub open spec fn node_name_len(b: Seq<u8>, pos: int) -> int {
    spec_u32_le(b, pos + 8) as int
}

/// Offset just past the node chunk's name field.
pub open spec fn node_after_name(b: Seq<u8>, pos: int) -> int {
    pos + 12 + node_name_len(b, pos)
}

/// The declared child count of the node chunk at `pos`.
pub open spec fn node_num_children(b: Seq<u8>, pos: int) -> int {
    spec_u32_le(b, node_after_name(b, pos) + 64) as int
}

/// The declared mesh-slot count of the node chunk at `pos`.
pub open spec fn node_num_meshes(b: Seq<u8>, pos: int) -> int {
    spec_u32_le(b, node_after_name(b, pos) + 68) as int
}

/// The first mesh-slot value of the node chunk at `pos`.
pub open spec fn node_first_slot(b: Seq<u8>, pos: int) -> int {
    spec_u32_le(b, node_after_name(b, pos) + 76) as int
}

/// Offset of the first child chunk of the node chunk at `pos`.
pub open spec fn node_children_start(b: Seq<u8>, pos: int) -> int {
    node_after_name(b, pos) + 76 + 4 * node_num_meshes(b, pos)
}

/// The node chunk's own fields all lie inside the buffer and its tag is
/// right: exactly the conditions under which the decoder reads past the
/// header into the children.
pub open spec fn node_header_wf(b: Seq<u8>, pos: int) -> bool {
    &&& 0 <= pos
    &&& pos + 12 <= b.len()
    &&& spec_u32_le(b, pos) == CHUNK_NODE
    &&& node_after_name(b, pos) + 76 <= b.len()
    &&& node_children_start(b, pos) <= b.len()
}

/// The stream holds a decodable node subtree at `pos`: a well-formed header
/// followed by the declared number of decodable children, each beginning
/// where the previous chunk declared its end.
pub open spec fn node_wf(b: Seq<u8>, pos: int) -> bool
    decreases b.len() - pos, 0int,
{
    &&& node_header_wf(b, pos)
    &&& children_wf(b, node_children_start(b, pos), node_num_children(b, pos))
}

/// `count` decodable sibling subtrees starting at `pos`.
pub open spec fn children_wf(b: Seq<u8>, pos: int, count: int) -> bool
    decreases b.len() - pos, 1int + count,
{
    if count <= 0 {
        true
    } else {
        &&& 0 <= pos
        &&& pos + 8 <= b.len()
        &&& node_wf(b, pos)
        &&& children_wf(b, spec_chunk_end(b, pos), count - 1)
    }
}

/// `kids` lists the arena indices of the direct children that the decoder
/// appended for the node at `idx`: one per declared child, the first right
/// after the parent, in increasing arena order, with every adjacent pair
/// linked from the earlier to the later and the last left unlinked — the
/// first-child/next-sibling law at the decoder itself.
pub open spec fn decoded_children(
    b: Seq<u8>,
    pos: int,
    arena: Seq<PrefabNode>,
    idx: int,
    kids: Seq<usize>,
) -> bool {
    &&& kids.len() == node_num_children(b, pos)
    &&& kids.len() > 0 ==> kids[0] == idx + 1
    &&& forall|k: int| 0 <= k < kids.len() ==> idx < #[trigger] kids[k] < arena.len()
    &&& forall|a: int, b2: int| 0 <= a < b2 < kids.len() ==> #[trigger] kids[a] < #[trigger] kids[b2]
    &&& forall|k: int| #![trigger kids[k]]
        0 <= k && k + 1 < kids.len() ==> arena[kids[k] as int].next_sib == Some(kids[k + 1])
    &&& kids.len() > 0 ==> arena[kids.last() as int].next_sib == None::<usize>
}

/// What the decoder guarantees of a successful node decode at `pos`: the
/// chunk's declared end, a well-formed header, and the decoded node's exact
/// fields and child links.
pub open spec fn node_decoded(b: Seq<u8>, pos: int, arena: Seq<PrefabNode>, idx: int, end: int) -> bool {
    &&& pos < end <= b.len()
    &&& end == spec_chunk_end(b, pos)
    &&& node_header_wf(b, pos)
    &&& 0 <= idx < arena.len()
    &&& arena[idx].name@ == spec_truncated_name(b.subrange(pos + 12, node_after_name(b, pos)))
    &&& arena[idx].mesh_renderer == (if node_num_meshes(b, pos) > 0 {
        Some(node_first_slot(b, pos) as usize)
    } else {
        None::<usize>
    })
    &&& arena[idx].first_child == (if node_num_children(b, pos) > 0 {
        Some((idx + 1) as usize)
    } else {
        None::<usize>
    })
    &&& arena[idx].next_sib == None::<usize>
    &&& exists|kids: Seq<usize>| decoded_children(b, pos, arena, idx, kids)
}

/// The arena's first node is the decode of the node chunk at `pos`: its
/// fields and child links are what the stream holds, per `load_node`'s law.
pub open spec fn decoded_root(b: Seq<u8>, pos: int, arena: Seq<PrefabNode>) -> bool {
    &&& arena.len() > 0
    &&& node_header_wf(b, pos)
    &&& arena[0].name@ == spec_truncated_name(b.subrange(pos + 12, node_after_name(b, pos)))
    &&& arena[0].mesh_renderer == (if node_num_meshes(b, pos) > 0 {
        Some(node_first_slot(b, pos) as usize)
    } else {
        None::<usize>
    })
    &&& arena[0].first_child == (if node_num_children(b, pos) > 0 {
        Some(1usize)
    } else {
        None::<usize>
    })
    &&& exists|kids: Seq<usize>| decoded_children(b, pos, arena, 0, kids)
}

/// The header fields of one node chunk: everything before the child
/// chunks, with the name already truncated at the synthetic-name marker.
struct NodeHeader {
    name: Vec<u8>,
    mesh_renderer: Option<usize>,
    num_children: u32,
    children_start: usize,
    end: usize,
}

/// Reads the header of the node chunk at `pos`: tag, declared size, name,
/// transform, counts and mesh slots. Fails exactly when the header is not
/// well formed.
#[verifier::loop_isolation(false)]
#[verifier::rlimit(100)]
fn read_node_header(data: &Vec<u8>, pos: usize) -> (r: Result<NodeHeader, DecodeError>)
    requires
        pos <= data@.len(),
    ensures
        match r {
            Ok(h) => {
                &&& node_header_wf(data@, pos as int)
                &&& h.name@ == spec_truncated_name(
                    data@.subrange(pos + 12, node_after_name(data@, pos as int)),
                )
                &&& h.mesh_renderer == (if node_num_meshes(data@, pos as int) > 0 {
                    Some(node_first_slot(data@, pos as int) as usize)
                } else {
                    None::<usize>
                })
                &&& h.num_children == node_num_children(data@, pos as int)
                &&& h.children_start == node_children_start(data@, pos as int)
                &&& h.end == spec_chunk_end(data@, pos as int)
                &&& pos < h.end <= data@.len()
                &&& h.children_start <= data@.len()
            },
            Err(e) => !node_header_wf(data@, pos as int),
        },
{
    let ghost b = data@;
    let ghost posi = pos as int;
    let mut s = Stream::new(data);
    s.seek_to(pos);
    let chunk_id = match s.read_u32_le() {
        Ok(v) => v,
        Err(e) => {
            return Err(DecodeError::UnexpectedEnd);
        },
    };
    if chunk_id != CHUNK_NODE {
        return Err(DecodeError::BadChunk);
    }
    let chunk_size = match s.read_u32_le() {
        Ok(v) => v,
        Err(e) => {
            return Err(DecodeError::UnexpectedEnd);
        },
    };
    let chunk_cursor = s.tell();
    let mut name = match read_str(&mut s) {
        Ok(v) => v,
        Err(e) => {
            // Either the length word or the name bytes overran the buffer;
            // both put the post-name offset out of range.
            return Err(DecodeError::UnexpectedEnd);
        },
    };
    let ghost nlen = node_name_len(b, posi);
    let ghost pan = node_after_name(b, posi);
    let ghost raw = name@;
    proof {
        assert(raw == b.subrange(posi + 12, pan));
        assert(s.p() == pan);
    }
    let marker = name_marker_bytes();
    match find_first(&name, &marker) {
        Some(cut) => {
            proof {
                assert(is_first_match(raw, name_marker(), cut as int));
                let c0 = choose|i: int| is_first_match(raw, name_marker(), i);
                assert(is_first_match(raw, name_marker(), c0));
                if c0 < cut as int {
                    assert(spec_matches_at(raw, name_marker(), c0));
                } else if c0 > cut as int {
                    assert(spec_matches_at(raw, name_marker(), cut as int));
                }
                assert(c0 == cut as int);
            }
            name.truncate(cut);
            proof {
                assert(name@ == spec_truncated_name(raw));
            }
        },
        None => {
            proof {
                if exists|i: int| is_first_match(raw, name_marker(), i) {
                    let c0 = choose|i: int| is_first_match(raw, name_marker(), i);
                    assert(spec_matches_at(raw, name_marker(), c0));
                }
                assert(name@ == spec_truncated_name(raw));
            }
        },
    }
    // The sixteen transform entries are decoded and discarded: only their
    // presence in the stream matters here.
    let _transform = match s.read_bytes(64) {
        Ok(v) => v,
        Err(e) => {
            return Err(DecodeError::UnexpectedEnd);
        },
    };
    let num_children = match s.read_u32_le() {
        Ok(v) => v,
        Err(e) => {
            return Err(DecodeError::UnexpectedEnd);
        },
    };
    let num_meshes = match s.read_u32_le() {
        Ok(v) => v,
        Err(e) => {
            return Err(DecodeError::UnexpectedEnd);
        },
    };
    match s.read_u32_le() {
        Ok(v) => {},
        Err(e) => {
            return Err(DecodeError::UnexpectedEnd);
        },
    }
    proof {
        assert(num_children == node_num_children(b, posi));
        assert(num_meshes == node_num_meshes(b, posi));
        assert(s.p() == pan + 76);
    }
    let mut mesh_renderer: Option<usize> = None;
    let mut m: u32 = 0;
    while m < num_meshes
        invariant
            m <= num_meshes,
            s.wf(),
            s.d() == b,
            s.p() == pan + 76 + 4 * m,
            mesh_renderer == (if m > 0 {
                Some(node_first_slot(b, posi) as usize)
            } else {
                None::<usize>
            }),
        decreases num_meshes - m,
    {
        let slot = match s.read_u32_le() {
            Ok(v) => v,
            Err(e) => {
                proof {
                    assert(node_children_start(b, posi) >= pan + 76 + 4 * (m + 1));
                }
                return Err(DecodeError::UnexpectedEnd);
            },
        };
        if mesh_renderer.is_none() {
            mesh_renderer = Some(slot as usize);
        }
        m = m + 1;
    }
    let children_start = s.tell();
    proof {
        assert(children_start == node_children_start(b, posi));
        assert(node_header_wf(b, posi));
    }
    let rest = data.len() - chunk_cursor;
    let end: usize = if chunk_size as usize <= rest {
        chunk_cursor + chunk_size as usize
    } else {
        data.len()
    };
    Ok(NodeHeader { name, mesh_renderer, num_children, children_start, end })
}

/// One sibling subtree, with only what the sibling loop needs of it: the
/// new root's index, its unlinked sibling field, and the chunk's end.
#[verifier::loop_isolation(false)]
fn load_subtree(data: &Vec<u8>, pos: usize, nodes: &mut Vec<PrefabNode>) -> (r: Result<
    (usize, usize),
    DecodeError,
>)
    requires
        pos <= data@.len(),
    ensures
        final(nodes)@.len() >= old(nodes)@.len(),
        final(nodes)@.subrange(0, old(nodes)@.len() as int) == old(nodes)@,
        match r {
            Ok((idx, end)) => {
                &&& idx == old(nodes)@.len()
                &&& final(nodes)@.len() > old(nodes)@.len()
                &&& final(nodes)@[idx as int].next_sib == None::<usize>
                &&& pos < end <= data@.len()
                &&& end == spec_chunk_end(data@, pos as int)
                &&& node_wf(data@, pos as int)
            },
            Err(e) => !node_wf(data@, pos as int),
        },
    decreases data@.len() - pos, 1int,
{
    load_node(data, pos, nodes)
}

/// Decodes `count` sibling subtrees starting at `start`, each beginning
/// where the previous chunk declared its end, and returns their arena
/// indices in stream order. Fails exactly when the stream does not hold
/// that many decodable subtrees.
#[verifier::loop_isolation(false)]
#[verifier::rlimit(100)]
fn load_children(data: &Vec<u8>, start: usize, count: u32, nodes: &mut Vec<PrefabNode>) -> (r:
    Result<Vec<usize>, DecodeError>)
    requires
        start <= data@.len(),
    ensures
        final(nodes)@.len() >= old(nodes)@.len(),
        final(nodes)@.subrange(0, old(nodes)@.len() as int) == old(nodes)@,
        match r {
            Ok(kids) => {
                &&& kids@.len() == count
                &&& count > 0 ==> kids@[0] == old(nodes)@.len()
                &&& forall|k: int|
                    0 <= k < kids@.len() ==> old(nodes)@.len() <= #[trigger] kids@[k]
                        < final(nodes)@.len()
                &&& forall|a: int, b2: int|
                    0 <= a < b2 < kids@.len() ==> #[trigger] kids@[a] < #[trigger] kids@[b2]
                &&& forall|k: int|
                    0 <= k < kids@.len() ==> final(nodes)@[#[trigger] kids@[k] as int].next_sib
                        == None::<usize>
                &&& children_wf(data@, start as int, count as int)
            },
            Err(e) => !children_wf(data@, start as int, count as int),
        },
    decreases data@.len() - start, 2int,
{
    let ghost b = data@;
    let ghost prefix = nodes@;
    let mut children: Vec<usize> = Vec::new();
    let mut cur: usize = start;
    let mut c: u32 = 0;
    while c < count
        invariant
            c <= count,
            start <= cur <= b.len(),
            c > 0 ==> start < cur,
            nodes@.len() >= prefix.len(),
            nodes@.subrange(0, prefix.len() as int) == prefix,
            c == 0 ==> nodes@.len() == prefix.len(),
            children@.len() == c,
            c > 0 ==> children@[0] == prefix.len(),
            forall|k: int|
                0 <= k < children@.len() ==> prefix.len() <= #[trigger] children@[k]
                    < nodes@.len(),
            forall|a: int, b2: int|
                0 <= a < b2 < children@.len() ==> #[trigger] children@[a] < #[trigger] children@[b2],
            forall|k: int|
                0 <= k < children@.len() ==> nodes@[#[trigger] children@[k] as int].next_sib
                    == None::<usize>,
            children_wf(b, start as int, count as int) ==> children_wf(
                b,
                cur as int,
                count - c,
            ),
            children_wf(b, cur as int, count - c) ==> children_wf(b, start as int, count as int),
        decreases count - c,
    {
        let ghost nodes_before = nodes@;
        let child = match load_subtree(data, cur, nodes) {
            Ok(v) => v,
            Err(e) => {
                proof {
                    assert(nodes@.subrange(0, prefix.len() as int) =~= nodes@.subrange(
                        0,
                        nodes_before.len() as int,
                    ).subrange(0, prefix.len() as int));
                    if children_wf(b, start as int, count as int) {
                        assert(children_wf(b, cur as int, count - c));
                        assert(node_wf(b, cur as int));
                    }
                }
                return Err(e);
            },
        };
        proof {
            assert(nodes@.subrange(0, prefix.len() as int) =~= nodes@.subrange(
                0,
                nodes_before.len() as int,
            ).subrange(0, prefix.len() as int));
            assert(forall|k: int|
                0 <= k < children@.len() ==> prefix.len() <= #[trigger] children@[k]
                    < nodes_before.len());
            assert(forall|k: int|
                0 <= k < children@.len() ==> nodes@[#[trigger] children@[k] as int]
                    == nodes_before[children@[k] as int]);
            if children_wf(b, start as int, count as int) {
                assert(children_wf(b, cur as int, count - c));
            }
            if children_wf(b, child.1 as int, count - c - 1) {
                assert(children_wf(b, cur as int, count - c));
            }
        }
        children.push(child.0);
        cur = child.1;
        c = c + 1;
    }
    proof {
        assert(children_wf(b, cur as int, 0));
    }
    Ok(children)
}

/// Decodes one node chunk at `pos` and, depth first, its whole subtree.
/// Each decoded node is appended to the flat arena; the returned pair is the
/// index of this node and the chunk's declared end. On success the decoded
/// node's fields are exactly what the stream holds — the marker-truncated
/// name, the first mesh slot, and the first-child/next-sibling links over
/// the appended children — and the decoder fails exactly on streams that do
/// not hold a decodable subtree at `pos`.
#[verifier::loop_isolation(false)]
#[verifier::rlimit(100)]
pub fn load_node(data: &Vec<u8>, pos: usize, nodes: &mut Vec<PrefabNode>) -> (r: Result<
    (usize, usize),
    DecodeError,
>)
    requires
        pos <= data@.len(),
    ensures
        match r {
            Ok((idx, end)) => {
                &&& idx == old(nodes)@.len()
                &&& final(nodes)@.len() > old(nodes)@.len()
                &&& final(nodes)@.subrange(0, old(nodes)@.len() as int) == old(nodes)@
                &&& node_decoded(data@, pos as int, final(nodes)@, idx as int, end as int)
                &&& node_wf(data@, pos as int)
            },
            Err(e) => {
                &&& final(nodes)@.len() >= old(nodes)@.len()
                &&& final(nodes)@.subrange(0, old(nodes)@.len() as int) == old(nodes)@
                &&& !node_wf(data@, pos as int)
            },
        },
    decreases data@.len() - pos, 0int,
{
    let ghost b = data@;
    let ghost posi = pos as int;
    let ghost prefix = nodes@;
    let h = match read_node_header(data, pos) {
        Ok(v) => v,
        Err(e) => {
            return Err(e);
        },
    };
    let idx = nodes.len();
    nodes.push(
        PrefabNode {
            name: h.name,
            first_child: None,
            next_sib: None,
            mesh_renderer: h.mesh_renderer,
        },
    );
    let ghost own = nodes@[idx as int];
    let children = match load_children(data, h.children_start, h.num_children, nodes) {
        Ok(v) => v,
        Err(e) => {
            proof {
                assert(nodes@.subrange(0, idx as int) =~= nodes@.subrange(
                    0,
                    idx as int + 1,
                ).subrange(0, idx as int));
                if node_wf(b, posi) {
                    assert(children_wf(
                        b,
                        node_children_start(b, posi),
                        node_num_children(b, posi),
                    ));
                }
            }
            return Err(e);
        },
    };
    proof {
        assert(nodes@.subrange(0, idx as int) =~= nodes@.subrange(0, idx as int + 1).subrange(
            0,
            idx as int,
        ));
        assert(nodes@[idx as int] == own);
        assert forall|j: int| 0 <= j < idx implies nodes@[j] == prefix[j] by {
            assert(nodes@.subrange(0, idx as int)[j] == nodes@[j]);
        }
    }
    let ghost mid = nodes@;
    link_children(nodes, idx, &children);
    proof {
        assert forall|j: int| 0 <= j < idx implies nodes@[j] == prefix[j] by {
            assert(forall|k: int| 0 <= k < children@.len() ==> #[trigger] children@[k] != j);
            assert(nodes@[j] == mid[j]);
        }
        assert(nodes@.subrange(0, idx as int) =~= prefix);
        assert(nodes@[idx as int].name == own.name);
        assert(nodes@[idx as int].mesh_renderer == own.mesh_renderer);
        assert(nodes@[idx as int].next_sib == own.next_sib);
        if children@.len() > 0 {
            assert(nodes@[children@.last() as int].next_sib == None::<usize>);
        }
        assert(decoded_children(b, posi, nodes@, idx as int, children@.map_values(|x: usize| x)))
            by {
            let kids = children@.map_values(|x: usize| x);
            assert(kids =~= children@);
        };
        assert(node_decoded(b, posi, nodes@, idx as int, h.end as int));
        assert(node_wf(b, posi));
    }
    Ok((idx, h.end))
}

/// Attribute bit for per-vertex positions.
pub const MESH_HAS_POSITIONS: u32 = 0x1;

/// Attribute bit for per-vertex normals.
pub const MESH_HAS_NORMALS: u32 = 0x2;

/// Attribute bit for the tangent and bitangent pair.
pub const MESH_HAS_TANGENTS: u32 = 0x4;

/// The primitive kind a mesh is built from.
#[derive(Debug, Clone, Copy, PartialEq, Eq, Structural)]
pub enum MeshPrimitive {
    Points,
    Lines,
    Triangles,
}

/// One decoded mesh: the interleaved vertex buffer, the flattened face
/// indices, and the header facts the runtime needs.
#[derive(Debug)]
pub struct Mesh {
    /// Name resolved from the node that references this mesh, or synthetic.
    pub name: Vec<u8>,
    pub primitive: MeshPrimitive,
    pub num_vertices: u32,
    /// The raw attribute-presence bitmask from the stream.
    pub attributes: u32,
    /// Vertex-major interleaved attribute data.
    pub vertices: Vec<u8>,
    /// Face indices, flattened in stream order.
    pub indices: Vec<u16>,
}

/// The attribute blocks as (bytes, per-vertex width) pairs, in spec form.
pub open spec fn blocks_model(blocks: Seq<(Vec<u8>, usize)>) -> Seq<(Seq<u8>, int)> {
    blocks.map_values(|p: (Vec<u8>, usize)| (p.0@, p.1 as int))
}

/// The bytes of block `j` that belong to vertex `v`.
pub open spec fn spec_vertex_chunk(blocks: Seq<(Seq<u8>, int)>, v: int, j: int) -> Seq<u8> {
    blocks[j].0.subrange(v * blocks[j].1, v * blocks[j].1 + blocks[j].1)
}

/// The bytes of blocks `0 .. j` that belong to vertex `v`, concatenated.
pub open spec fn spec_vertex_bytes(blocks: Seq<(Seq<u8>, int)>, v: int, j: int) -> Seq<u8>
    decreases j,
{
    if j <= 0 {
        Seq::empty()
    } else {
        spec_vertex_bytes(blocks, v, j - 1) + spec_vertex_chunk(blocks, v, j - 1)
    }
}

/// The vertex-major interleaving of attribute-major blocks, for the first
/// `n` vertices.
pub open spec fn spec_interleave(blocks: Seq<(Seq<u8>, int)>, n: int) -> Seq<u8>
    decreases n,
{
    if n <= 0 {
        Seq::empty()
    } else {
        spec_interleave(blocks, n - 1) + spec_vertex_bytes(blocks, n - 1, blocks.len() as int)
    }
}

/// Transposes attribute-major blocks into one vertex-major buffer: vertex
/// order outermost, block order within a vertex. This is the exact layout
/// change between the stream and the runtime vertex buffer.
#[verifier::loop_isolation(false)]
pub fn interleave(blocks: &Vec<(Vec<u8>, usize)>, n: usize) -> (out: Vec<u8>)
    requires
        forall|j: int|
            0 <= j < blocks@.len() ==> (#[trigger] blocks@[j]).0@.len() == n * blocks@[j].1,
    ensures
        out@ == spec_interleave(blocks_model(blocks@), n as int),
{
    let ghost model = blocks_model(blocks@);
    let nb = blocks.len();
    let mut out: Vec<u8> = Vec::new();
    let mut v: usize = 0;
    while v < n
        invariant
            v <= n,
            out@ == spec_interleave(model, v as int),
        decreases n - v,
    {
        let mut j: usize = 0;
        while j < nb
            invariant
                j <= nb,
                v < n,
                out@ == spec_interleave(model, v as int) + spec_vertex_bytes(model, v as int, j as int),
            decreases nb - j,
        {
            let w = blocks[j].1;
            let bj_len: usize = blocks[j].0.len();
            proof {
                assert(blocks@[j as int].0@.len() == n * blocks@[j as int].1);
                assert((v + 1) * w <= n * w && v * w >= 0 && v * w + w <= n * w)
                    by (nonlinear_arith)
                    requires
                        v < n,
                        w >= 0,
                ;
                assert(v * w + w <= bj_len);
            }
            let base: usize = v * w;
            let mut t: usize = 0;
            while t < w
                invariant
                    t <= w,
                    j < nb,
                    v < n,
                    w == blocks@[j as int].1,
                    base == v * w,
                    bj_len == blocks@[j as int].0@.len(),
                    base + w <= bj_len,
                    out@ == spec_interleave(model, v as int) + spec_vertex_bytes(
                        model,
                        v as int,
                        j as int,
                    ) + blocks@[j as int].0@.subrange(base as int, base + t),
                decreases w - t,
            {
                let byte = blocks[j].0[base + t];
                out.push(byte);
                proof {
                    assert(out@ =~= spec_interleave(model, v as int) + spec_vertex_bytes(
                        model,
                        v as int,
                        j as int,
                    ) + blocks@[j as int].0@.subrange(base as int, base + t + 1));
                }
                t = t + 1;
            }
            j = j + 1;
            proof {
                assert(spec_vertex_chunk(model, v as int, j - 1) == blocks@[j - 1].0@.subrange(
                    base as int,
                    base + w,
                ));
                assert(out@ =~= spec_interleave(model, v as int) + spec_vertex_bytes(
                    model,
                    v as int,
                    j as int,
                ));
            }
        }
        v = v + 1;
        proof {
            assert(out@ =~= spec_interleave(model, v as int));
        }
    }
    out
}

/// Reads `count` records of `width` bytes each, as one contiguous block.
fn read_block(s: &mut Stream, count: u32, width: usize) -> (r: Result<Vec<u8>, DecodeError>)
    requires
        old(s).wf(),
        1 <= width <= 16,
    ensures
        final(s).wf(),
        final(s).d() == old(s).d(),
        match r {
            Ok(b) => {
                &&& old(s).p() + count * width <= old(s).d().len()
                &&& b@ == old(s).d().subrange(old(s).p(), old(s).p() + count * width)
                &&& b@.len() == count * width
                &&& final(s).p() == old(s).p() + count * width
            },
            Err(e) => {
                &&& e == DecodeError::UnexpectedEnd
                &&& old(s).p() + count * width > old(s).d().len()
                &&& final(s).p() == old(s).p()
            },
        },
{
    let rem = s.remaining();
    if rem / width < count as usize {
        proof {
            assert(count * width > rem) by (nonlinear_arith)
                requires
                    rem / width < count as usize,
                    width >= 1,
                    rem >= 0,
                    rem / width == rem as int / width as int,
            ;
        }
        return Err(DecodeError::UnexpectedEnd);
    }
    proof {
        assert(count * width <= rem) by (nonlinear_arith)
            requires
                rem / width >= count as usize,
                width >= 1,
                rem >= 0,
                rem / width == rem as int / width as int,
        ;
    }
    let total: usize = count as usize * width;
    match s.read_bytes(total) {
        Ok(b) => Ok(b),
        Err(e) => Err(DecodeError::UnexpectedEnd),
    }
}

/// Reads `count` little-endian 16-bit values.
#[verifier::loop_isolation(false)]
fn read_u16_block(s: &mut Stream, count: u16) -> (r: Result<Vec<u16>, DecodeError>)
    requires
        old(s).wf(),
    ensures
        final(s).wf(),
        final(s).d() == old(s).d(),
        match r {
            Ok(v) => {
                &&& old(s).p() + 2 * count <= old(s).d().len()
                &&& v@ == Seq::new(count as nat, |t: int| spec_u16_le(old(s).d(), old(s).p() + 2 * t))
                &&& final(s).p() == old(s).p() + 2 * count
            },
            Err(e) => {
                &&& e == DecodeError::UnexpectedEnd
                &&& old(s).p() + 2 * count > old(s).d().len()
                &&& final(s).p() == old(s).p()
            },
        },
{
    let rem = s.remaining();
    if rem / 2 < count as usize {
        return Err(DecodeError::UnexpectedEnd);
    }
    let ghost p0 = s.p();
    let mut v: Vec<u16> = Vec::new();
    let mut t: usize = 0;
    while t < count as usize
        invariant
            t <= count,
            s.wf(),
            s.d() == old(s).d(),
            s.p() == p0 + 2 * t,
            p0 + 2 * count <= s.d().len(),
            v@ == Seq::new(t as nat, |q: int| spec_u16_le(old(s).d(), p0 + 2 * q)),
        decreases count - t,
    {
        let x = match s.read_u16_le() {
            Ok(x) => x,
            Err(e) => {
                return Err(DecodeError::UnexpectedEnd);
            },
        };
        v.push(x);
        proof {
            assert(v@ =~= Seq::new((t + 1) as nat, |q: int| spec_u16_le(old(s).d(), p0 + 2 * q)));
        }
        t = t + 1;
    }
    Ok(v)
}

/// The face records stored at `pos`: `count` faces, each a 16-bit index
/// count followed by that many 16-bit indices, flattened in stream order.
pub open spec fn spec_faces(b: Seq<u8>, pos: int, count: nat) -> Option<(Seq<u16>, int)>
    decreases count,
{
    if count == 0 {
        Some((Seq::empty(), pos))
    } else if pos + 2 > b.len() {
        None
    } else {
        let c = spec_u16_le(b, pos) as int;
        if pos + 2 + 2 * c > b.len() {
            None
        } else {
            let idxs = Seq::new(c as nat, |t: int| spec_u16_le(b, pos + 2 + 2 * t));
            match spec_faces(b, pos + 2 + 2 * c, (count - 1) as nat) {
                Some((rest, end)) => Some((idxs + rest, end)),
                None => None,
            }
        }
    }
}

/// Reads `count` variable-length faces, flattening their indices.
#[verifier::loop_isolation(false)]
fn read_faces(s: &mut Stream, count: u32) -> (r: Result<Vec<u16>, DecodeError>)
    requires
        old(s).wf(),
    ensures
        final(s).wf(),
        final(s).d() == old(s).d(),
        match r {
            Ok(v) => {
                &&& spec_faces(old(s).d(), old(s).p(), count as nat) matches Some((idxs, end))
                    && v@ == idxs && final(s).p() == end
            },
            Err(e) => e == DecodeError::UnexpectedEnd && spec_faces(
                old(s).d(),
                old(s).p(),
                count as nat,
            ) is None,
        },
{
    let ghost b = old(s).d();
    let mut out: Vec<u16> = Vec::new();
    let mut f: u32 = 0;
    while f < count
        invariant
            f <= count,
            s.wf(),
            s.d() == b,
            spec_faces(b, old(s).p(), count as nat) == match spec_faces(
                b,
                s.p(),
                (count - f) as nat,
            ) {
                Some((rest, end)) => Some((out@ + rest, end)),
                None => None::<(Seq<u16>, int)>,
            },
        decreases count - f,
    {
        let ghost p0 = s.p();
        let ghost t0 = out@;
        let ghost rem = (count - f) as nat;
        let c = match s.read_u16_le() {
            Ok(v) => v,
            Err(e) => {
                proof {
                    assert(spec_faces(b, p0, rem) is None);
                }
                return Err(DecodeError::UnexpectedEnd);
            },
        };
        let mut idxs = match read_u16_block(s, c) {
            Ok(v) => v,
            Err(e) => {
                proof {
                    assert(spec_faces(b, p0, rem) is None);
                }
                return Err(DecodeError::UnexpectedEnd);
            },
        };
        proof {
            let ci = spec_u16_le(b, p0) as int;
            assert(idxs@ =~= Seq::new(ci as nat, |t: int| spec_u16_le(b, p0 + 2 + 2 * t)));
        }
        let ghost idxs_view = idxs@;
        out.append(&mut idxs);
        f = f + 1;
        proof {
            if spec_faces(b, s.p(), (count - f) as nat) is Some {
                let (rest1, end1) = spec_faces(b, s.p(), (count - f) as nat)->Some_0;
                assert(t0 + (idxs_view + rest1) =~= (t0 + idxs_view) + rest1);
            }
        }
    }
    proof {
        assert(out@ + Seq::<u16>::empty() =~= out@);
    }
    Ok(out)
}

/// Bytes that one vertex occupies in the interleaved buffer, given the
/// attribute bitmask. Colour and texture-coordinate channels count only as
/// far as the set bits form an unbroken prefix, which is how the stream
/// stores them; a kept texture coordinate holds two of the three decoded
/// components.
pub open spec fn spec_stride_of(attrs: u32) -> int {
    (if attrs & 0x1u32 != 0 {
        12int
    } else {
        0int
    }) + (if attrs & 0x2u32 != 0 {
        12int
    } else {
        0int
    }) + (if attrs & 0x4u32 != 0 {
        24int
    } else {
        0int
    }) + (if attrs & 0x10000u32 != 0 {
        16int
    } else {
        0int
    }) + (if attrs & 0x10000u32 != 0 && attrs & 0x20000u32 != 0 {
        16int
    } else {
        0int
    }) + (if attrs & 0x100u32 != 0 {
        8int
    } else {
        0int
    }) + (if attrs & 0x100u32 != 0 && attrs & 0x200u32 != 0 {
        8int
    } else {
        0int
    }) + (if attrs & 0x100u32 != 0 && attrs & 0x200u32 != 0 && attrs & 0x400u32 != 0 {
        8int
    } else {
        0int
    }) + (if attrs & 0x100u32 != 0 && attrs & 0x200u32 != 0 && attrs & 0x400u32 != 0 && attrs
        & 0x800u32 != 0 {
        8int
    } else {
        0int
    })
}

/// Sum of the widths of the first `j` blocks.
pub open spec fn spec_width_sum(blocks: Seq<(Seq<u8>, int)>, j: int) -> int
    decreases j,
{
    if j <= 0 {
        0
    } else {
        spec_width_sum(blocks, j - 1) + blocks[j - 1].1
    }
}

/// Each vertex contributes the sum of the block widths.
pub proof fn lemma_vertex_bytes_len(blocks: Seq<(Seq<u8>, int)>, v: int, j: int)
    requires
        forall|q: int| 0 <= q < blocks.len() ==> (#[trigger] blocks[q]).1 >= 0,
        forall|q: int| #![trigger blocks[q]]
            0 <= q < blocks.len() ==> 0 <= (v + 1) * blocks[q].1 <= blocks[q].0.len(),
        0 <= v,
        j <= blocks.len(),
    ensures
        spec_vertex_bytes(blocks, v, j).len() == spec_width_sum(blocks, j),
    decreases j,
{
    if j > 0 {
        lemma_vertex_bytes_len(blocks, v, j - 1);
        assert(v * blocks[j - 1].1 >= 0 && (v + 1) * blocks[j - 1].1 == v * blocks[j - 1].1
            + blocks[j - 1].1) by (nonlinear_arith)
            requires
                v >= 0,
                blocks[j - 1].1 >= 0,
        ;
    }
}

/// The interleaved buffer holds `n` vertices of the summed stride.
pub proof fn lemma_interleave_len(blocks: Seq<(Seq<u8>, int)>, n: int)
    requires
        forall|q: int| 0 <= q < blocks.len() ==> (#[trigger] blocks[q]).1 >= 0,
        forall|q: int| #![trigger blocks[q]]
            0 <= q < blocks.len() ==> blocks[q].0.len() >= n * blocks[q].1,
        0 <= n,
    ensures
        spec_interleave(blocks, n).len() == n * spec_width_sum(blocks, blocks.len() as int),
    decreases n,
{
    let s = spec_width_sum(blocks, blocks.len() as int);
    if n > 0 {
        assert forall|q: int| #![trigger blocks[q]]
            0 <= q < blocks.len() implies blocks[q].0.len() >= (n - 1) * blocks[q].1
            && 0 <= (n - 1 + 1) * blocks[q].1 <= blocks[q].0.len() by {
            assert((n - 1) * blocks[q].1 <= n * blocks[q].1 && n * blocks[q].1 >= 0 && (n - 1 + 1)
                * blocks[q].1 == n * blocks[q].1) by (nonlinear_arith)
                requires
                    n >= 1,
                    blocks[q].1 >= 0,
            ;
        }
        lemma_interleave_len(blocks, n - 1);
        lemma_vertex_bytes_len(blocks, n - 1, blocks.len() as int);
        assert((n - 1) * s + s == n * s) by (nonlinear_arith);
    } else {
        assert(n * s == 0) by (nonlinear_arith)
            requires
                n == 0,
        ;
    }
}

/// Keeps, from each twelve-byte record, the last eight bytes: the stream
/// stores three components per texture coordinate and only the last two are
/// carried into the vertex buffer.
#[verifier::loop_isolation(false)]
fn keep_tail_pairs(b: &Vec<u8>, count: u32) -> (r: Vec<u8>)
    requires
        b@.len() == count * 12,
    ensures
        r@.len() == count * 8,
        forall|q: int| 0 <= q < r@.len() ==> r@[q] == b@[12 * (q / 8) + 4 + q % 8],
        r@ == spec_tail_pairs(b@, count as int),
{
    let b_len: usize = b.len();
    let mut r: Vec<u8> = Vec::new();
    let mut v: usize = 0;
    while v < count as usize
        invariant
            v <= count,
            b_len == b@.len(),
            b_len == count * 12,
            r@.len() == 8 * v,
            forall|q: int| 0 <= q < r@.len() ==> r@[q] == b@[12 * (q / 8) + 4 + q % 8],
        decreases count - v,
    {
        let mut t: usize = 0;
        while t < 8
            invariant
                t <= 8,
                v < count,
                b_len == b@.len(),
                b_len == count * 12,
                r@.len() == 8 * v + t,
                forall|q: int| 0 <= q < r@.len() ==> r@[q] == b@[12 * (q / 8) + 4 + q % 8],
            decreases 8 - t,
        {
            proof {
                assert(12 * v + 12 <= count * 12) by (nonlinear_arith)
                    requires
                        v < count,
                ;
            }
            r.push(b[12 * v + 4 + t]);
            proof {
                let q = r@.len() - 1;
                assert(q == 8 * v + t);
                assert(q / 8 == v && q % 8 == t) by (nonlinear_arith)
                    requires
                        q == 8 * v + t,
                        0 <= t < 8,
                        v >= 0,
                ;
            }
            t = t + 1;
        }
        v = v + 1;
    }
    proof {
        assert(r@ =~= spec_tail_pairs(b@, count as int));
    }
    r
}

/// Width sums agree on a shared prefix.
proof fn lemma_width_sum_same_prefix(a: Seq<(Seq<u8>, int)>, b: Seq<(Seq<u8>, int)>, j: int)
    requires
        0 <= j <= a.len(),
        j <= b.len(),
        forall|i: int| 0 <= i < j ==> a[i] == b[i],
    ensures
        spec_width_sum(a, j) == spec_width_sum(b, j),
    decreases j,
{
    if j > 0 {
        lemma_width_sum_same_prefix(a, b, j - 1);
    }
}


/// Bytes the decoder reads for the geometry and colour blocks of one
/// vertex, discarded channels included: the colour channels are read as far
/// as the set bits form an unbroken prefix.
pub open spec fn spec_geom_read_len(attrs: u32) -> int {
    (if attrs & 0x1u32 != 0 {
        12int
    } else {
        0int
    }) + (if attrs & 0x2u32 != 0 {
        12int
    } else {
        0int
    }) + (if attrs & 0x4u32 != 0 {
        24int
    } else {
        0int
    }) + (if attrs & 0x10000u32 != 0 {
        16int
    } else {
        0int
    }) + (if attrs & 0x10000u32 != 0 && attrs & 0x20000u32 != 0 {
        16int
    } else {
        0int
    }) + (if attrs & 0x10000u32 != 0 && attrs & 0x20000u32 != 0 && attrs & 0x40000u32 != 0 {
        16int
    } else {
        0int
    }) + (if attrs & 0x10000u32 != 0 && attrs & 0x20000u32 != 0 && attrs & 0x40000u32 != 0 && attrs & 0x80000u32 != 0 {
        16int
    } else {
        0int
    }) + (if attrs & 0x10000u32 != 0 && attrs & 0x20000u32 != 0 && attrs & 0x40000u32 != 0 && attrs & 0x80000u32 != 0 && attrs & 0x100000u32 != 0 {
        16int
    } else {
        0int
    }) + (if attrs & 0x10000u32 != 0 && attrs & 0x20000u32 != 0 && attrs & 0x40000u32 != 0 && attrs & 0x80000u32 != 0 && attrs & 0x100000u32 != 0 && attrs & 0x200000u32 != 0 {
        16int
    } else {
        0int
    }) + (if attrs & 0x10000u32 != 0 && attrs & 0x20000u32 != 0 && attrs & 0x40000u32 != 0 && attrs & 0x80000u32 != 0 && attrs & 0x100000u32 != 0 && attrs & 0x200000u32 != 0 && attrs & 0x400000u32 != 0 {
        16int
    } else {
        0int
    }) + (if attrs & 0x10000u32 != 0 && attrs & 0x20000u32 != 0 && attrs & 0x40000u32 != 0 && attrs & 0x80000u32 != 0 && attrs & 0x100000u32 != 0 && attrs & 0x200000u32 != 0 && attrs & 0x400000u32 != 0 && attrs & 0x800000u32 != 0 {
        16int
    } else {
        0int
    })
}

/// Bytes the decoder reads for the texture-coordinate blocks of one vertex,
/// discarded channels included: three decoded components per channel, as
/// far as the set bits form an unbroken prefix.
pub open spec fn spec_uv_read_len(attrs: u32) -> int {
    (if attrs & 0x100u32 != 0 {
        12int
    } else {
        0int
    }) + (if attrs & 0x100u32 != 0 && attrs & 0x200u32 != 0 {
        12int
    } else {
        0int
    }) + (if attrs & 0x100u32 != 0 && attrs & 0x200u32 != 0 && attrs & 0x400u32 != 0 {
        12int
    } else {
        0int
    }) + (if attrs & 0x100u32 != 0 && attrs & 0x200u32 != 0 && attrs & 0x400u32 != 0 && attrs & 0x800u32 != 0 {
        12int
    } else {
        0int
    }) + (if attrs & 0x100u32 != 0 && attrs & 0x200u32 != 0 && attrs & 0x400u32 != 0 && attrs & 0x800u32 != 0 && attrs & 0x1000u32 != 0 {
        12int
    } else {
        0int
    }) + (if attrs & 0x100u32 != 0 && attrs & 0x200u32 != 0 && attrs & 0x400u32 != 0 && attrs & 0x800u32 != 0 && attrs & 0x1000u32 != 0 && attrs & 0x2000u32 != 0 {
        12int
    } else {
        0int
    }) + (if attrs & 0x100u32 != 0 && attrs & 0x200u32 != 0 && attrs & 0x400u32 != 0 && attrs & 0x800u32 != 0 && attrs & 0x1000u32 != 0 && attrs & 0x2000u32 != 0 && attrs & 0x4000u32 != 0 {
        12int
    } else {
        0int
    }) + (if attrs & 0x100u32 != 0 && attrs & 0x200u32 != 0 && attrs & 0x400u32 != 0 && attrs & 0x800u32 != 0 && attrs & 0x1000u32 != 0 && attrs & 0x2000u32 != 0 && attrs & 0x4000u32 != 0 && attrs & 0x8000u32 != 0 {
        12int
    } else {
        0int
    })
}

/// Bytes the decoder reads for positions, normals and tangents per vertex.
pub open spec fn spec_base_read_len(attrs: u32) -> int {
    (if attrs & 0x1u32 != 0 {
        12int
    } else {
        0int
    }) + (if attrs & 0x2u32 != 0 {
        12int
    } else {
        0int
    }) + (if attrs & 0x4u32 != 0 {
        24int
    } else {
        0int
    })
}

/// Bytes the decoder reads for the colour channels per vertex.
pub open spec fn spec_colors_read_len(attrs: u32) -> int {
    spec_geom_read_len(attrs) - spec_base_read_len(attrs)
}

/// The stride contribution of positions, normals and tangents.
pub open spec fn spec_stride_base(attrs: u32) -> int {
    (if attrs & 0x1u32 != 0 {
        12int
    } else {
        0int
    }) + (if attrs & 0x2u32 != 0 {
        12int
    } else {
        0int
    }) + (if attrs & 0x4u32 != 0 {
        24int
    } else {
        0int
    })
}

/// The stride contribution of the kept colour channels.
pub open spec fn spec_stride_colors(attrs: u32) -> int {
    (if attrs & 0x10000u32 != 0 {
        16int
    } else {
        0int
    }) + (if attrs & 0x10000u32 != 0 && attrs & 0x20000u32 != 0 {
        16int
    } else {
        0int
    })
}

/// Bytes the attribute region of a mesh chunk occupies per vertex.
pub open spec fn spec_read_stride(attrs: u32) -> int {
    spec_geom_read_len(attrs) + spec_uv_read_len(attrs)
}

/// Every per-vertex read length is nonnegative.
pub proof fn lemma_read_lens_nonneg(attrs: u32)
    ensures
        spec_geom_read_len(attrs) >= 0,
        spec_uv_read_len(attrs) >= 0,
        spec_read_stride(attrs) >= 0,
{
}

/// The stride contribution of positions, normals, tangents and colours.
pub open spec fn spec_stride_geometry(attrs: u32) -> int {
    (if attrs & 0x1u32 != 0 {
        12int
    } else {
        0int
    }) + (if attrs & 0x2u32 != 0 {
        12int
    } else {
        0int
    }) + (if attrs & 0x4u32 != 0 {
        24int
    } else {
        0int
    }) + (if attrs & 0x10000u32 != 0 {
        16int
    } else {
        0int
    }) + (if attrs & 0x10000u32 != 0 && attrs & 0x20000u32 != 0 {
        16int
    } else {
        0int
    })
}

/// The stride contribution of the kept texture-coordinate channels.
pub open spec fn spec_stride_uvs(attrs: u32) -> int {
    (if attrs & 0x100u32 != 0 {
        8int
    } else {
        0int
    }) + (if attrs & 0x100u32 != 0 && attrs & 0x200u32 != 0 {
        8int
    } else {
        0int
    }) + (if attrs & 0x100u32 != 0 && attrs & 0x200u32 != 0 && attrs & 0x400u32 != 0 {
        8int
    } else {
        0int
    }) + (if attrs & 0x100u32 != 0 && attrs & 0x200u32 != 0 && attrs & 0x400u32 != 0 && attrs
        & 0x800u32 != 0 {
        8int
    } else {
        0int
    })
}

/// The last two decoded components of each texture-coordinate record.
pub open spec fn spec_tail_pairs(block: Seq<u8>, count: int) -> Seq<u8> {
    Seq::new((count * 8) as nat, |q: int| block[12 * (q / 8) + 4 + q % 8])
}

/// The position, normal and tangent blocks the stream stores at `p`.
pub open spec fn spec_blocks_base(b: Seq<u8>, p: int, attrs: u32, nv: int) -> Seq<(Seq<u8>, int)> {
    let o1 = if attrs & 0x1u32 != 0 {
        nv * 12
    } else {
        0int
    };
    let o2 = if attrs & 0x2u32 != 0 {
        nv * 12
    } else {
        0int
    };
    (if attrs & 0x1u32 != 0 {
        seq![(b.subrange(p, p + nv * 12), 12int)]
    } else {
        Seq::empty()
    }) + (if attrs & 0x2u32 != 0 {
        seq![(b.subrange(p + o1, p + o1 + nv * 12), 12int)]
    } else {
        Seq::empty()
    }) + (if attrs & 0x4u32 != 0 {
        seq![
            (b.subrange(p + o1 + o2, p + o1 + o2 + nv * 12), 12int),
            (b.subrange(p + o1 + o2 + nv * 12, p + o1 + o2 + 2 * nv * 12), 12int),
        ]
    } else {
        Seq::empty()
    })
}

/// The kept colour blocks the stream stores at `p`.
pub open spec fn spec_blocks_colors(b: Seq<u8>, p: int, attrs: u32, nv: int) -> Seq<
    (Seq<u8>, int),
> {
    (if attrs & 0x10000u32 != 0 {
        seq![(b.subrange(p, p + nv * 16), 16int)]
    } else {
        Seq::empty()
    }) + (if attrs & 0x10000u32 != 0 && attrs & 0x20000u32 != 0 {
        seq![(b.subrange(p + nv * 16, p + 2 * nv * 16), 16int)]
    } else {
        Seq::empty()
    })
}

/// The kept texture-coordinate blocks the stream stores at `p`, each
/// reduced to its last two components.
pub open spec fn spec_blocks_uvs(b: Seq<u8>, p: int, attrs: u32, nv: int) -> Seq<(Seq<u8>, int)> {
    (if attrs & 0x100u32 != 0 {
        seq![(spec_tail_pairs(b.subrange(p, p + nv * 12), nv), 8int)]
    } else {
        Seq::empty()
    }) + (if attrs & 0x100u32 != 0 && attrs & 0x200u32 != 0 {
        seq![(spec_tail_pairs(b.subrange(p + nv * 12, p + 2 * nv * 12), nv), 8int)]
    } else {
        Seq::empty()
    }) + (if attrs & 0x100u32 != 0 && attrs & 0x200u32 != 0 && attrs & 0x400u32 != 0 {
        seq![(spec_tail_pairs(b.subrange(p + 2 * nv * 12, p + 3 * nv * 12), nv), 8int)]
    } else {
        Seq::empty()
    }) + (if attrs & 0x100u32 != 0 && attrs & 0x200u32 != 0 && attrs & 0x400u32 != 0 && attrs
        & 0x800u32 != 0 {
        seq![(spec_tail_pairs(b.subrange(p + 3 * nv * 12, p + 4 * nv * 12), nv), 8int)]
    } else {
        Seq::empty()
    })
}

/// The attribute blocks of the mesh chunk whose block region starts at `p`:
/// what the vertex buffer is interleaved from.
pub open spec fn spec_blocks(b: Seq<u8>, p: int, attrs: u32, nv: int) -> Seq<(Seq<u8>, int)> {
    spec_blocks_base(b, p, attrs, nv) + spec_blocks_colors(
        b,
        p + nv * spec_base_read_len(attrs),
        attrs,
        nv,
    ) + spec_blocks_uvs(
        b,
        p + nv * spec_base_read_len(attrs) + nv * spec_colors_read_len(attrs),
        attrs,
        nv,
    )
}

/// What holds of a block list under construction for `nv` vertices whose
/// widths so far sum to `ws`.
pub open spec fn blocks_inv(blocks: Seq<(Vec<u8>, usize)>, nv: u32, ws: int) -> bool {
    &&& forall|q: int| 0 <= q < blocks.len() ==> 1 <= (#[trigger] blocks[q]).1 <= 16
    &&& forall|q: int| #![trigger blocks[q]]
        0 <= q < blocks.len() ==> blocks[q].0@.len() == nv * blocks[q].1
    &&& spec_width_sum(blocks_model(blocks), blocks.len() as int) == ws
}

/// Reads the position, normal and tangent blocks that the bitmask
/// declares.
#[verifier::loop_isolation(false)]
#[verifier::rlimit(100)]
fn collect_base(
    s: &mut Stream,
    attributes: u32,
    num_vertices: u32,
    blocks: &mut Vec<(Vec<u8>, usize)>,
) -> (r: Result<usize, DecodeError>)
    requires
        old(s).wf(),
        old(blocks)@.len() == 0,
    ensures
        final(s).wf(),
        final(s).d() == old(s).d(),
        match r {
            Ok(ws) => {
                &&& blocks_inv(final(blocks)@, num_vertices, ws as int)
                &&& ws as int == spec_stride_base(attributes)
                &&& final(s).p() == old(s).p() + num_vertices * spec_base_read_len(attributes)
                &&& blocks_model(final(blocks)@) == blocks_model(old(blocks)@) + spec_blocks_base(
                    old(s).d(),
                    old(s).p(),
                    attributes,
                    num_vertices as int,
                )
            },
            Err(e) => e == DecodeError::UnexpectedEnd && old(s).p() + num_vertices
                * spec_base_read_len(attributes) > old(s).d().len(),
        },
{
    let ghost p0 = old(s).p();
    let mut ws: usize = 0;
    let mut rw: usize = 0;
    if attributes & MESH_HAS_POSITIONS != 0 {
        let b = match read_block(s, num_vertices, 12) {
            Ok(v) => v,
            Err(e) => {
                proof {
                    assert(num_vertices * (rw + 12) == num_vertices * rw + num_vertices * 12)
                        by (nonlinear_arith);
                    assert(spec_base_read_len(attributes) >= rw + 12);
                    assert(num_vertices * spec_base_read_len(attributes) >= num_vertices * (rw
                        + 12)) by (nonlinear_arith)
                        requires
                            spec_base_read_len(attributes) >= rw + 12,
                    ;
                }
                return Err(DecodeError::UnexpectedEnd);
            },
        };
        rw = rw + 12;
        proof {
            assert(num_vertices * rw == num_vertices * (rw - 12) + num_vertices * 12)
                by (nonlinear_arith);
            assert(s.p() == p0 + num_vertices * rw);
        }
        let ghost bprev = blocks@;
        blocks.push((b, 12));
        ws = ws + 12;
        proof {
            assert(blocks@.drop_last() =~= bprev);
            lemma_width_sum_same_prefix(blocks_model(bprev), blocks_model(blocks@), bprev.len() as int);
        }
    }
    if attributes & MESH_HAS_NORMALS != 0 {
        let b = match read_block(s, num_vertices, 12) {
            Ok(v) => v,
            Err(e) => {
                proof {
                    assert(num_vertices * (rw + 12) == num_vertices * rw + num_vertices * 12)
                        by (nonlinear_arith);
                    assert(spec_base_read_len(attributes) >= rw + 12);
                    assert(num_vertices * spec_base_read_len(attributes) >= num_vertices * (rw
                        + 12)) by (nonlinear_arith)
                        requires
                            spec_base_read_len(attributes) >= rw + 12,
                    ;
                }
                return Err(DecodeError::UnexpectedEnd);
            },
        };
        rw = rw + 12;
        proof {
            assert(num_vertices * rw == num_vertices * (rw - 12) + num_vertices * 12)
                by (nonlinear_arith);
            assert(s.p() == p0 + num_vertices * rw);
        }
        let ghost bprev = blocks@;
        blocks.push((b, 12));
        ws = ws + 12;
        proof {
            assert(blocks@.drop_last() =~= bprev);
            lemma_width_sum_same_prefix(blocks_model(bprev), blocks_model(blocks@), bprev.len() as int);
        }
    }
    if attributes & MESH_HAS_TANGENTS != 0 {
        let b = match read_block(s, num_vertices, 12) {
            Ok(v) => v,
            Err(e) => {
                proof {
                    assert(num_vertices * (rw + 12) == num_vertices * rw + num_vertices * 12)
                        by (nonlinear_arith);
                    assert(spec_base_read_len(attributes) >= rw + 12);
                    assert(num_vertices * spec_base_read_len(attributes) >= num_vertices * (rw
                        + 12)) by (nonlinear_arith)
                        requires
                            spec_base_read_len(attributes) >= rw + 12,
                    ;
                }
                return Err(DecodeError::UnexpectedEnd);
            },
        };
        rw = rw + 12;
        proof {
            assert(num_vertices * rw == num_vertices * (rw - 12) + num_vertices * 12)
                by (nonlinear_arith);
            assert(s.p() == p0 + num_vertices * rw);
        }
        let ghost bprev = blocks@;
        blocks.push((b, 12));
        ws = ws + 12;
        proof {
            assert(blocks@.drop_last() =~= bprev);
            lemma_width_sum_same_prefix(blocks_model(bprev), blocks_model(blocks@), bprev.len() as int);
        }
        let b2 = match read_block(s, num_vertices, 12) {
            Ok(v) => v,
            Err(e) => {
                proof {
                    assert(num_vertices * (rw + 12) == num_vertices * rw + num_vertices * 12)
                        by (nonlinear_arith);
                    assert(spec_base_read_len(attributes) >= rw + 12);
                    assert(num_vertices * spec_base_read_len(attributes) >= num_vertices * (rw
                        + 12)) by (nonlinear_arith)
                        requires
                            spec_base_read_len(attributes) >= rw + 12,
                    ;
                }
                return Err(DecodeError::UnexpectedEnd);
            },
        };
        rw = rw + 12;
        proof {
            assert(num_vertices * rw == num_vertices * (rw - 12) + num_vertices * 12)
                by (nonlinear_arith);
            assert(s.p() == p0 + num_vertices * rw);
        }
        let ghost bprev2 = blocks@;
        let ghost bc2 = b2@;
        blocks.push((b2, 12));
        ws = ws + 12;
        proof {
            assert(blocks@.drop_last() =~= bprev2);
            lemma_width_sum_same_prefix(blocks_model(bprev2), blocks_model(blocks@), bprev2.len() as int);
            assert(blocks_model(blocks@) =~= blocks_model(bprev2) + seq![(bc2, 12int)]);
            assert(bc2 == old(s).d().subrange(
                p0 + num_vertices * (rw - 12),
                p0 + num_vertices * rw,
            ));
        }
    }
    proof {
        assert(rw == spec_base_read_len(attributes));
    }
    Ok(ws)
}

/// Reads the colour blocks that the bitmask declares, keeping the first
/// two channels.
#[verifier::loop_isolation(false)]
#[verifier::rlimit(100)]
fn collect_colors(
    s: &mut Stream,
    attributes: u32,
    num_vertices: u32,
    blocks: &mut Vec<(Vec<u8>, usize)>,
    ws0: usize,
) -> (r: Result<usize, DecodeError>)
    requires
        old(s).wf(),
        blocks_inv(old(blocks)@, num_vertices, ws0 as int),
        ws0 <= 1000,
    ensures
        final(s).wf(),
        final(s).d() == old(s).d(),
        match r {
            Ok(ws) => {
                &&& blocks_inv(final(blocks)@, num_vertices, ws as int)
                &&& ws as int == ws0 + spec_stride_colors(attributes)
                &&& final(s).p() == old(s).p() + num_vertices * spec_colors_read_len(attributes)
                &&& blocks_model(final(blocks)@) == blocks_model(old(blocks)@)
                    + spec_blocks_colors(old(s).d(), old(s).p(), attributes, num_vertices as int)
            },
            Err(e) => e == DecodeError::UnexpectedEnd && old(s).p() + num_vertices
                * spec_colors_read_len(attributes) > old(s).d().len(),
        },
{
    let ghost p0 = old(s).p();
    let mut ws: usize = ws0;
    let mut rw: usize = 0;
    let c0 = attributes & 0x10000u32 != 0;
    let c1 = c0 && attributes & 0x20000u32 != 0;
    let c2 = c1 && attributes & 0x40000u32 != 0;
    let c3 = c2 && attributes & 0x80000u32 != 0;
    let c4 = c3 && attributes & 0x100000u32 != 0;
    let c5 = c4 && attributes & 0x200000u32 != 0;
    let c6 = c5 && attributes & 0x400000u32 != 0;
    let c7 = c6 && attributes & 0x800000u32 != 0;
    if c0 {
        let b = match read_block(s, num_vertices, 16) {
            Ok(v) => v,
            Err(e) => {
                proof {
                    assert(num_vertices * (rw + 16) == num_vertices * rw + num_vertices * 16)
                        by (nonlinear_arith);
                    assert(spec_colors_read_len(attributes) >= rw + 16);
                    assert(num_vertices * spec_colors_read_len(attributes) >= num_vertices * (rw
                        + 16)) by (nonlinear_arith)
                        requires
                            spec_colors_read_len(attributes) >= rw + 16,
                    ;
                }
                return Err(DecodeError::UnexpectedEnd);
            },
        };
        rw = rw + 16;
        proof {
            assert(num_vertices * rw == num_vertices * (rw - 16) + num_vertices * 16)
                by (nonlinear_arith);
            assert(s.p() == p0 + num_vertices * rw);
        }
        let ghost bprev = blocks@;
        let ghost bc = b@;
        blocks.push((b, 16));
        ws = ws + 16;
        proof {
            assert(blocks@.drop_last() =~= bprev);
            lemma_width_sum_same_prefix(blocks_model(bprev), blocks_model(blocks@), bprev.len() as int);
            assert(blocks_model(blocks@) =~= blocks_model(bprev) + seq![(bc, 16int)]);
            assert(bc == old(s).d().subrange(
                p0 + num_vertices * (rw - 16),
                p0 + num_vertices * rw,
            ));
        }
    }
    if c1 {
        let b = match read_block(s, num_vertices, 16) {
            Ok(v) => v,
            Err(e) => {
                proof {
                    assert(num_vertices * (rw + 16) == num_vertices * rw + num_vertices * 16)
                        by (nonlinear_arith);
                    assert(spec_colors_read_len(attributes) >= rw + 16);
                    assert(num_vertices * spec_colors_read_len(attributes) >= num_vertices * (rw
                        + 16)) by (nonlinear_arith)
                        requires
                            spec_colors_read_len(attributes) >= rw + 16,
                    ;
                }
                return Err(DecodeError::UnexpectedEnd);
            },
        };
        rw = rw + 16;
        proof {
            assert(num_vertices * rw == num_vertices * (rw - 16) + num_vertices * 16)
                by (nonlinear_arith);
            assert(s.p() == p0 + num_vertices * rw);
        }
        let ghost bprev = blocks@;
        let ghost bc = b@;
        blocks.push((b, 16));
        ws = ws + 16;
        proof {
            assert(blocks@.drop_last() =~= bprev);
            lemma_width_sum_same_prefix(blocks_model(bprev), blocks_model(blocks@), bprev.len() as int);
            assert(blocks_model(blocks@) =~= blocks_model(bprev) + seq![(bc, 16int)]);
            assert(bc == old(s).d().subrange(
                p0 + num_vertices * (rw - 16),
                p0 + num_vertices * rw,
            ));
        }
    }
    let mut extra_colors: u32 = 0;
    if c2 {
        extra_colors = 1;
    }
    if c3 {
        extra_colors = 2;
    }
    if c4 {
        extra_colors = 3;
    }
    if c5 {
        extra_colors = 4;
    }
    if c6 {
        extra_colors = 5;
    }
    if c7 {
        extra_colors = 6;
    }
    proof {
        assert(spec_colors_read_len(attributes) == rw + 16 * extra_colors);
    }
    let ghost rw_base = rw as int;
    let mut ec: u32 = 0;
    while ec < extra_colors
        invariant
            ec <= extra_colors,
            s.wf(),
            s.d() == old(s).d(),
            rw == rw_base + 16 * ec,
            rw + 16 * (extra_colors - ec) == spec_colors_read_len(attributes),
            s.p() == p0 + num_vertices * rw,
        decreases extra_colors - ec,
    {
        match read_block(s, num_vertices, 16) {
            Ok(v) => {},
            Err(e) => {
                proof {
                    assert(num_vertices * (rw + 16) == num_vertices * rw + num_vertices * 16)
                        by (nonlinear_arith);
                    assert(spec_colors_read_len(attributes) >= rw + 16);
                    assert(num_vertices * spec_colors_read_len(attributes) >= num_vertices * (rw
                        + 16)) by (nonlinear_arith)
                        requires
                            spec_colors_read_len(attributes) >= rw + 16,
                    ;
                }
                return Err(DecodeError::UnexpectedEnd);
            },
        }
        rw = rw + 16;
        proof {
            assert(num_vertices * rw == num_vertices * (rw - 16) + num_vertices * 16)
                by (nonlinear_arith);
        }
        ec = ec + 1;
    }
    proof {
        assert(blocks_model(blocks@) =~= blocks_model(old(blocks)@) + spec_blocks_colors(
            old(s).d(),
            p0,
            attributes,
            num_vertices as int,
        ));
    }
    Ok(ws)
}

/// Reads the texture-coordinate blocks that the bitmask declares, keeping
/// the last two decoded components of each kept channel.
#[verifier::loop_isolation(false)]
#[verifier::rlimit(100)]
fn collect_uvs(
    s: &mut Stream,
    attributes: u32,
    num_vertices: u32,
    blocks: &mut Vec<(Vec<u8>, usize)>,
    ws0: usize,
) -> (r: Result<usize, DecodeError>)
    requires
        old(s).wf(),
        blocks_inv(old(blocks)@, num_vertices, ws0 as int),
        ws0 <= 1000,
    ensures
        final(s).wf(),
        final(s).d() == old(s).d(),
        match r {
            Ok(ws) => {
                &&& blocks_inv(final(blocks)@, num_vertices, ws as int)
                &&& ws as int == ws0 + spec_stride_uvs(attributes)
                &&& final(s).p() == old(s).p() + num_vertices * spec_uv_read_len(attributes)
                &&& blocks_model(final(blocks)@) == blocks_model(old(blocks)@) + spec_blocks_uvs(
                    old(s).d(),
                    old(s).p(),
                    attributes,
                    num_vertices as int,
                )
            },
            Err(e) => e == DecodeError::UnexpectedEnd && old(s).p() + num_vertices
                * spec_uv_read_len(attributes) > old(s).d().len(),
        },
{
    let ghost p0 = old(s).p();
    let mut ws: usize = ws0;
    let mut rw: usize = 0;
    let t0 = attributes & 0x100u32 != 0;
    let t1 = t0 && attributes & 0x200u32 != 0;
    let t2 = t1 && attributes & 0x400u32 != 0;
    let t3 = t2 && attributes & 0x800u32 != 0;
    let t4 = t3 && attributes & 0x1000u32 != 0;
    let t5 = t4 && attributes & 0x2000u32 != 0;
    let t6 = t5 && attributes & 0x4000u32 != 0;
    let t7 = t6 && attributes & 0x8000u32 != 0;
    if t0 {
        let b = match read_block(s, num_vertices, 12) {
            Ok(v) => v,
            Err(e) => {
                proof {
                    assert(num_vertices * (rw + 12) == num_vertices * rw + num_vertices * 12)
                        by (nonlinear_arith);
                    assert(spec_uv_read_len(attributes) >= rw + 12);
                    assert(num_vertices * spec_uv_read_len(attributes) >= num_vertices * (rw
                        + 12)) by (nonlinear_arith)
                        requires
                            spec_uv_read_len(attributes) >= rw + 12,
                    ;
                }
                return Err(DecodeError::UnexpectedEnd);
            },
        };
        rw = rw + 12;
        proof {
            assert(num_vertices * rw == num_vertices * (rw - 12) + num_vertices * 12)
                by (nonlinear_arith);
            assert(s.p() == p0 + num_vertices * rw);
        }
        let ghost bprev = blocks@;
        let tp = keep_tail_pairs(&b, num_vertices);
        let ghost tc = tp@;
        blocks.push((tp, 8));
        ws = ws + 8;
        proof {
            assert(blocks@.drop_last() =~= bprev);
            lemma_width_sum_same_prefix(blocks_model(bprev), blocks_model(blocks@), bprev.len() as int);
            assert(blocks_model(blocks@) =~= blocks_model(bprev) + seq![(tc, 8int)]);
            assert(tc == spec_tail_pairs(
                old(s).d().subrange(p0 + num_vertices * (rw - 12), p0 + num_vertices * rw),
                num_vertices as int,
            ));
        }
    }
    if t1 {
        let b = match read_block(s, num_vertices, 12) {
            Ok(v) => v,
            Err(e) => {
                proof {
                    assert(num_vertices * (rw + 12) == num_vertices * rw + num_vertices * 12)
                        by (nonlinear_arith);
                    assert(spec_uv_read_len(attributes) >= rw + 12);
                    assert(num_vertices * spec_uv_read_len(attributes) >= num_vertices * (rw
                        + 12)) by (nonlinear_arith)
                        requires
                            spec_uv_read_len(attributes) >= rw + 12,
                    ;
                }
                return Err(DecodeError::UnexpectedEnd);
            },
        };
        rw = rw + 12;
        proof {
            assert(num_vertices * rw == num_vertices * (rw - 12) + num_vertices * 12)
                by (nonlinear_arith);
            assert(s.p() == p0 + num_vertices * rw);
        }
        let ghost bprev = blocks@;
        let tp = keep_tail_pairs(&b, num_vertices);
        let ghost tc = tp@;
        blocks.push((tp, 8));
        ws = ws + 8;
        proof {
            assert(blocks@.drop_last() =~= bprev);
            lemma_width_sum_same_prefix(blocks_model(bprev), blocks_model(blocks@), bprev.len() as int);
            assert(blocks_model(blocks@) =~= blocks_model(bprev) + seq![(tc, 8int)]);
            assert(tc == spec_tail_pairs(
                old(s).d().subrange(p0 + num_vertices * (rw - 12), p0 + num_vertices * rw),
                num_vertices as int,
            ));
        }
    }
    if t2 {
        let b = match read_block(s, num_vertices, 12) {
            Ok(v) => v,
            Err(e) => {
                proof {
                    assert(num_vertices * (rw + 12) == num_vertices * rw + num_vertices * 12)
                        by (nonlinear_arith);
                    assert(spec_uv_read_len(attributes) >= rw + 12);
                    assert(num_vertices * spec_uv_read_len(attributes) >= num_vertices * (rw
                        + 12)) by (nonlinear_arith)
                        requires
                            spec_uv_read_len(attributes) >= rw + 12,
                    ;
                }
                return Err(DecodeError::UnexpectedEnd);
            },
        };
        rw = rw + 12;
        proof {
            assert(num_vertices * rw == num_vertices * (rw - 12) + num_vertices * 12)
                by (nonlinear_arith);
            assert(s.p() == p0 + num_vertices * rw);
        }
        let ghost bprev = blocks@;
        let tp = keep_tail_pairs(&b, num_vertices);
        let ghost tc = tp@;
        blocks.push((tp, 8));
        ws = ws + 8;
        proof {
            assert(blocks@.drop_last() =~= bprev);
            lemma_width_sum_same_prefix(blocks_model(bprev), blocks_model(blocks@), bprev.len() as int);
            assert(blocks_model(blocks@) =~= blocks_model(bprev) + seq![(tc, 8int)]);
            assert(tc == spec_tail_pairs(
                old(s).d().subrange(p0 + num_vertices * (rw - 12), p0 + num_vertices * rw),
                num_vertices as int,
            ));
        }
    }
    if t3 {
        let b = match read_block(s, num_vertices, 12) {
            Ok(v) => v,
            Err(e) => {
                proof {
                    assert(num_vertices * (rw + 12) == num_vertices * rw + num_vertices * 12)
                        by (nonlinear_arith);
                    assert(spec_uv_read_len(attributes) >= rw + 12);
                    assert(num_vertices * spec_uv_read_len(attributes) >= num_vertices * (rw
                        + 12)) by (nonlinear_arith)
                        requires
                            spec_uv_read_len(attributes) >= rw + 12,
                    ;
                }
                return Err(DecodeError::UnexpectedEnd);
            },
        };
        rw = rw + 12;
        proof {
            assert(num_vertices * rw == num_vertices * (rw - 12) + num_vertices * 12)
                by (nonlinear_arith);
            assert(s.p() == p0 + num_vertices * rw);
        }
        let ghost bprev = blocks@;
        let tp = keep_tail_pairs(&b, num_vertices);
        let ghost tc = tp@;
        blocks.push((tp, 8));
        ws = ws + 8;
        proof {
            assert(blocks@.drop_last() =~= bprev);
            lemma_width_sum_same_prefix(blocks_model(bprev), blocks_model(blocks@), bprev.len() as int);
            assert(blocks_model(blocks@) =~= blocks_model(bprev) + seq![(tc, 8int)]);
            assert(tc == spec_tail_pairs(
                old(s).d().subrange(p0 + num_vertices * (rw - 12), p0 + num_vertices * rw),
                num_vertices as int,
            ));
        }
    }
    let mut extra_uvs: u32 = 0;
    if t4 {
        extra_uvs = 1;
    }
    if t5 {
        extra_uvs = 2;
    }
    if t6 {
        extra_uvs = 3;
    }
    if t7 {
        extra_uvs = 4;
    }
    proof {
        assert(spec_uv_read_len(attributes) == rw + 12 * extra_uvs);
    }
    let ghost rw_base = rw as int;
    let mut eu: u32 = 0;
    while eu < extra_uvs
        invariant
            eu <= extra_uvs,
            s.wf(),
            s.d() == old(s).d(),
            rw == rw_base + 12 * eu,
            rw + 12 * (extra_uvs - eu) == spec_uv_read_len(attributes),
            s.p() == p0 + num_vertices * rw,
        decreases extra_uvs - eu,
    {
        match read_block(s, num_vertices, 12) {
            Ok(v) => {},
            Err(e) => {
                proof {
                    assert(num_vertices * (rw + 12) == num_vertices * rw + num_vertices * 12)
                        by (nonlinear_arith);
                    assert(spec_uv_read_len(attributes) >= rw + 12);
                    assert(num_vertices * spec_uv_read_len(attributes) >= num_vertices * (rw
                        + 12)) by (nonlinear_arith)
                        requires
                            spec_uv_read_len(attributes) >= rw + 12,
                    ;
                }
                return Err(DecodeError::UnexpectedEnd);
            },
        }
        rw = rw + 12;
        proof {
            assert(num_vertices * rw == num_vertices * (rw - 12) + num_vertices * 12)
                by (nonlinear_arith);
        }
        eu = eu + 1;
    }
    proof {
        assert(blocks_model(blocks@) =~= blocks_model(old(blocks)@) + spec_blocks_uvs(
            old(s).d(),
            p0,
            attributes,
            num_vertices as int,
        ));
    }
    Ok(ws)
}

/// Reads the attribute blocks that the bitmask declares, in stream order,
/// keeping those that the vertex buffer carries. The widths of the kept
/// blocks sum to the stride of the bitmask.
fn collect_blocks(s: &mut Stream, attributes: u32, num_vertices: u32) -> (r: Result<
    Vec<(Vec<u8>, usize)>,
    DecodeError,
>)
    requires
        old(s).wf(),
    ensures
        final(s).wf(),
        final(s).d() == old(s).d(),
        match r {
            Ok(blocks) => {
                &&& blocks_inv(blocks@, num_vertices, spec_stride_of(attributes))
                &&& final(s).p() == old(s).p() + num_vertices * spec_read_stride(attributes)
                &&& blocks_model(blocks@) == spec_blocks(
                    old(s).d(),
                    old(s).p(),
                    attributes,
                    num_vertices as int,
                )
            },
            Err(e) => e == DecodeError::UnexpectedEnd && old(s).p() + num_vertices
                * spec_read_stride(attributes) > old(s).d().len(),
        },
{
    let ghost p0 = old(s).p();
    let ghost nv = num_vertices as int;
    proof {
        lemma_read_lens_nonneg(attributes);
        assert(nv * spec_read_stride(attributes) == nv * spec_base_read_len(attributes) + nv
            * spec_colors_read_len(attributes) + nv * spec_uv_read_len(attributes))
            by (nonlinear_arith);
        assert(nv * spec_colors_read_len(attributes) >= 0 && nv * spec_uv_read_len(attributes)
            >= 0 && nv * spec_base_read_len(attributes) >= 0) by (nonlinear_arith)
            requires
                nv >= 0,
                spec_colors_read_len(attributes) >= 0,
                spec_uv_read_len(attributes) >= 0,
                spec_base_read_len(attributes) >= 0,
        ;
    }
    let mut blocks: Vec<(Vec<u8>, usize)> = Vec::new();
    let ghost b = old(s).d();
    let ws0 = match collect_base(s, attributes, num_vertices, &mut blocks) {
        Ok(v) => v,
        Err(e) => {
            return Err(DecodeError::UnexpectedEnd);
        },
    };
    let ghost mb = blocks_model(blocks@);
    proof {
        assert(blocks_model(Seq::<(Vec<u8>, usize)>::empty()) =~= Seq::<(Seq<u8>, int)>::empty());
        assert(mb == blocks_model(Seq::<(Vec<u8>, usize)>::empty()) + spec_blocks_base(
            b,
            p0,
            attributes,
            nv,
        ));
        assert(mb =~= spec_blocks_base(b, p0, attributes, nv));
        assert(s.p() == p0 + nv * spec_base_read_len(attributes));
    }
    let ws1 = match collect_colors(s, attributes, num_vertices, &mut blocks, ws0) {
        Ok(v) => v,
        Err(e) => {
            return Err(DecodeError::UnexpectedEnd);
        },
    };
    let ghost mc = blocks_model(blocks@);
    proof {
        assert(mc == mb + spec_blocks_colors(
            b,
            p0 + nv * spec_base_read_len(attributes),
            attributes,
            nv,
        ));
        assert(s.p() == p0 + nv * spec_base_read_len(attributes) + nv * spec_colors_read_len(
            attributes,
        ));
    }
    let ws = match collect_uvs(s, attributes, num_vertices, &mut blocks, ws1) {
        Ok(v) => v,
        Err(e) => {
            return Err(DecodeError::UnexpectedEnd);
        },
    };
    proof {
        assert(ws as int == spec_stride_of(attributes));
        assert(blocks_model(blocks@) == mc + spec_blocks_uvs(
            b,
            p0 + nv * spec_base_read_len(attributes) + nv * spec_colors_read_len(attributes),
            attributes,
            nv,
        ));
        assert(blocks_model(blocks@) =~= spec_blocks(b, p0, attributes, num_vertices as int));
    }
    Ok(blocks)
}

/// The vertex count declared by the mesh chunk at `pos`.
pub open spec fn mesh_num_vertices(b: Seq<u8>, pos: int) -> int {
    spec_u32_le(b, pos + 12) as int
}

/// The face count declared by the mesh chunk at `pos`.
pub open spec fn mesh_num_faces(b: Seq<u8>, pos: int) -> int {
    spec_u32_le(b, pos + 16) as int
}

/// The attribute bitmask declared by the mesh chunk at `pos`.
pub open spec fn mesh_attributes(b: Seq<u8>, pos: int) -> u32 {
    spec_u32_le(b, pos + 28)
}

/// Where the face records of the mesh chunk at `pos` begin: past the fixed
/// header and the whole attribute-major block region.
pub open spec fn mesh_faces_start(b: Seq<u8>, pos: int) -> int {
    pos + 32 + mesh_num_vertices(b, pos) * spec_read_stride(mesh_attributes(b, pos))
}

/// The stream holds a decodable mesh chunk at `pos`: the right tag, a known
/// primitive, and attribute blocks and faces that lie inside the buffer.
pub open spec fn mesh_wf(b: Seq<u8>, pos: int) -> bool {
    &&& 0 <= pos
    &&& pos + 32 <= b.len()
    &&& spec_u32_le(b, pos) == CHUNK_MESH
    &&& {
        let tag = spec_u32_le(b, pos + 8);
        tag == 1 || tag == 2 || tag == 4
    }
    &&& mesh_faces_start(b, pos) <= b.len()
    &&& spec_faces(b, mesh_faces_start(b, pos), mesh_num_faces(b, pos) as nat) is Some
}

/// `count` decodable mesh chunks starting at `pos`, each beginning where
/// the previous one declared its end.
pub open spec fn meshes_wf(b: Seq<u8>, pos: int, count: int) -> bool
    decreases count,
{
    if count <= 0 {
        true
    } else {
        mesh_wf(b, pos) && meshes_wf(b, spec_chunk_end(b, pos), count - 1)
    }
}

/// Decodes one mesh chunk at `pos`: header counts, the attribute blocks in
/// attribute-major order, and the variable-length faces; the vertex data is
/// re-serialised vertex-major. The mesh name is resolved by the caller.
#[verifier::loop_isolation(false)]
#[verifier::rlimit(100)]
fn load_mesh(data: &Vec<u8>, pos: usize) -> (r: Result<(Mesh, usize), DecodeError>)
    requires
        pos <= data@.len(),
    ensures
        match r {
            Ok((mesh, end)) => {
                &&& pos < end <= data@.len()
                &&& end == spec_chunk_end(data@, pos as int)
                &&& mesh_wf(data@, pos as int)
                &&& mesh.num_vertices == spec_u32_le(data@, pos + 12)
                &&& mesh.attributes == spec_u32_le(data@, pos + 28)
                &&& mesh.vertices@.len() == mesh.num_vertices * spec_stride_of(mesh.attributes)
                &&& mesh.vertices@ == spec_interleave(
                    spec_blocks(data@, pos + 32, mesh.attributes, mesh.num_vertices as int),
                    mesh.num_vertices as int,
                )
                &&& mesh.indices@ == spec_faces(
                    data@,
                    mesh_faces_start(data@, pos as int),
                    mesh_num_faces(data@, pos as int) as nat,
                )->Some_0.0
                &&& mesh.name@.len() == 0
                &&& {
                    let tag = spec_u32_le(data@, pos + 8);
                    &&& (tag == 1 ==> mesh.primitive is Points)
                    &&& (tag == 2 ==> mesh.primitive is Lines)
                    &&& (tag == 4 ==> mesh.primitive is Triangles)
                    &&& (tag == 1 || tag == 2 || tag == 4)
                }
            },
            Err(e) => {
                &&& (e == DecodeError::UnexpectedEnd || e == DecodeError::BadChunk || e
                    == DecodeError::BadPrimitive)
                &&& !mesh_wf(data@, pos as int)
            },
        },
{
    let ghost b = data@;
    let ghost posi = pos as int;
    let mut s = Stream::new(data);
    s.seek_to(pos);
    let chunk_id = match s.read_u32_le() {
        Ok(v) => v,
        Err(e) => {
            return Err(DecodeError::UnexpectedEnd);
        },
    };
    if chunk_id != CHUNK_MESH {
        return Err(DecodeError::BadChunk);
    }
    let chunk_size = match s.read_u32_le() {
        Ok(v) => v,
        Err(e) => {
            return Err(DecodeError::UnexpectedEnd);
        },
    };
    let chunk_cursor = s.tell();
    let primitive_tag = match s.read_u32_le() {
        Ok(v) => v,
        Err(e) => {
            return Err(DecodeError::UnexpectedEnd);
        },
    };
    let primitive = match primitive_tag {
        1u32 => MeshPrimitive::Points,
        2u32 => MeshPrimitive::Lines,
        4u32 => MeshPrimitive::Triangles,
        _ => {
            return Err(DecodeError::BadPrimitive);
        },
    };
    let num_vertices = match s.read_u32_le() {
        Ok(v) => v,
        Err(e) => {
            return Err(DecodeError::UnexpectedEnd);
        },
    };
    let num_faces = match s.read_u32_le() {
        Ok(v) => v,
        Err(e) => {
            return Err(DecodeError::UnexpectedEnd);
        },
    };
    match s.read_u32_le() {
        Ok(v) => {},
        Err(e) => {
            return Err(DecodeError::UnexpectedEnd);
        },
    }
    match s.read_u32_le() {
        Ok(v) => {},
        Err(e) => {
            return Err(DecodeError::UnexpectedEnd);
        },
    }
    let attributes = match s.read_u32_le() {
        Ok(v) => v,
        Err(e) => {
            return Err(DecodeError::UnexpectedEnd);
        },
    };
    proof {
        assert(s.p() == posi + 32);
        assert(num_vertices == mesh_num_vertices(b, posi));
        assert(attributes == mesh_attributes(b, posi));
        assert(num_faces == mesh_num_faces(b, posi));
    }
    let blocks = match collect_blocks(&mut s, attributes, num_vertices) {
        Ok(v) => v,
        Err(e) => {
            proof {
                assert(mesh_faces_start(b, posi) > b.len());
            }
            return Err(DecodeError::UnexpectedEnd);
        },
    };
    proof {
        assert(s.p() == mesh_faces_start(b, posi));
    }
    let indices = match read_faces(&mut s, num_faces) {
        Ok(v) => v,
        Err(e) => {
            return Err(DecodeError::UnexpectedEnd);
        },
    };
    let vertices = interleave(&blocks, num_vertices as usize);
    proof {
        lemma_interleave_len(blocks_model(blocks@), num_vertices as int);
    }
    let rest = data.len() - chunk_cursor;
    let end: usize = if chunk_size as usize <= rest {
        chunk_cursor + chunk_size as usize
    } else {
        data.len()
    };
    let mesh = Mesh {
        name: Vec::new(),
        primitive,
        num_vertices,
        attributes,
        vertices,
        indices,
    };
    Ok((mesh, end))
}

/// `name` is the name that mesh list position `index` resolves to among
/// `nodes`: the name of the first node whose mesh-slot reference equals the
/// index, or the synthetic name when no node references it.
pub open spec fn is_mesh_name(nodes: Seq<PrefabNode>, index: usize, name: Seq<u8>) -> bool {
    &&& (forall|j: int|
        0 <= j < nodes.len() ==> (#[trigger] nodes[j]).mesh_renderer != Some(index)) ==> name
        == synthetic_mesh_name(index as nat)
    &&& (exists|j: int|
        0 <= j < nodes.len() && (#[trigger] nodes[j]).mesh_renderer == Some(index)) ==> (exists|
        j: int,
    |
        {
            &&& 0 <= j < nodes.len()
            &&& (#[trigger] nodes[j]).mesh_renderer == Some(index)
            &&& name == nodes[j].name@
            &&& forall|m: int| 0 <= m < j ==> (#[trigger] nodes[m]).mesh_renderer != Some(index)
        })
}

/// The stream holds a fully decodable, unshortened, uncompressed scene
/// container: flags clear, the scene chunk in place, a decodable node tree,
/// and one decodable mesh chunk per declared mesh. Exactly on these streams
/// the loader succeeds.
pub open spec fn scene_wf(b: Seq<u8>) -> bool {
    &&& b.len() >= 548
    &&& spec_u16_le(b, 60) == 0
    &&& spec_u16_le(b, 62) == 0
    &&& spec_u32_le(b, 512) == CHUNK_SCENE
    &&& node_wf(b, 548)
    &&& meshes_wf(b, spec_chunk_end(b, 548), spec_u32_le(b, 524) as int)
}

/// A decoded scene container: version triple, the flat node forest, and the
/// meshes with their resolved names.
#[derive(Debug)]
pub struct Assbin {
    pub version_major: u32,
    pub version_minor: u32,
    pub version_reversion: u32,
    pub nodes: Vec<PrefabNode>,
    pub meshes: Vec<Mesh>,
}

/// The resource names that a scene decomposes into, without the mesh data:
/// what the metadata-compilation phase needs.
#[derive(Debug)]
pub struct AssbinMetadata {
    pub meshes: Vec<Vec<u8>>,
}

/// Reads the scene chunk header at `pos` and returns the declared mesh
/// count, leaving the stream at the node chunk.
fn read_scene_header(s: &mut Stream) -> (r: Result<u32, DecodeError>)
    requires
        old(s).wf(),
    ensures
        final(s).wf(),
        final(s).d() == old(s).d(),
        match r {
            Ok(n) => {
                &&& old(s).p() + 36 <= old(s).d().len()
                &&& spec_u32_le(old(s).d(), old(s).p()) == CHUNK_SCENE
                &&& n == spec_u32_le(old(s).d(), old(s).p() + 12)
                &&& final(s).p() == old(s).p() + 36
            },
            Err(e) => {
                &&& (e == DecodeError::UnexpectedEnd || e == DecodeError::BadChunk)
                &&& (old(s).p() + 36 > old(s).d().len() || spec_u32_le(old(s).d(), old(s).p())
                    != CHUNK_SCENE)
            },
        },
{
    let chunk_id = match s.read_u32_le() {
        Ok(v) => v,
        Err(e) => {
            return Err(DecodeError::UnexpectedEnd);
        },
    };
    if chunk_id != CHUNK_SCENE {
        return Err(DecodeError::BadChunk);
    }
    // Chunk length and flags, read to keep the stream aligned.
    match s.read_u32_le() {
        Ok(v) => {},
        Err(e) => {
            return Err(DecodeError::UnexpectedEnd);
        },
    }
    match s.read_u32_le() {
        Ok(v) => {},
        Err(e) => {
            return Err(DecodeError::UnexpectedEnd);
        },
    }
    let num_meshes = match s.read_u32_le() {
        Ok(v) => v,
        Err(e) => {
            return Err(DecodeError::UnexpectedEnd);
        },
    };
    // Material, animation, texture, light and camera counts: read and
    // discarded to keep the stream aligned.
    let mut q: u32 = 0;
    while q < 5
        invariant
            s.wf(),
            s.d() == old(s).d(),
            q <= 5,
            s.p() == old(s).p() + 16 + 4 * q,
        decreases 5 - q,
    {
        match s.read_u32_le() {
            Ok(v) => {},
            Err(e) => {
                return Err(DecodeError::UnexpectedEnd);
            },
        }
        q = q + 1;
    }
    Ok(num_meshes)
}

impl Assbin {
    /// Decodes a whole scene container: the fixed header, the node forest,
    /// and one mesh per declared mesh, each named after the first node that
    /// references it. The loader fails exactly on streams that are not well
    /// formed; on success the arena's root is the decode of the node chunk
    /// and every mesh obeys the naming law over the decoded forest.
    #[verifier::loop_isolation(false)]
    #[verifier::rlimit(100)]
    pub fn load(data: &Vec<u8>) -> (r: Result<Assbin, DecodeError>)
        ensures
            data@.len() >= 62 && spec_u16_le(data@, 60) != 0 ==> r == Err::<Assbin, DecodeError>(
                DecodeError::ShortenedUnsupported,
            ),
            data@.len() >= 64 && spec_u16_le(data@, 60) == 0 && spec_u16_le(data@, 62) != 0 ==> r
                == Err::<Assbin, DecodeError>(DecodeError::CompressedUnsupported),
            match r {
                Ok(a) => {
                    &&& scene_wf(data@)
                    &&& a.version_major == spec_u32_le(data@, 44)
                    &&& a.version_minor == spec_u32_le(data@, 48)
                    &&& a.version_reversion == spec_u32_le(data@, 52)
                    &&& decoded_root(data@, 548, a.nodes@)
                    &&& a.meshes@.len() == spec_u32_le(data@, 524)
                    &&& forall|i: int|
                        0 <= i < a.meshes@.len() ==> is_mesh_name(
                            a.nodes@,
                            i as usize,
                            (#[trigger] a.meshes@[i]).name@,
                        )
                },
                Err(e) => !scene_wf(data@),
            },
    {
        let ghost b = data@;
        let mut s = Stream::new(data);
        // Opaque signature region.
        s.skip(44);
        let version_major = match s.read_u32_le() {
            Ok(v) => v,
            Err(e) => {
                return Err(DecodeError::UnexpectedEnd);
            },
        };
        let version_minor = match s.read_u32_le() {
            Ok(v) => v,
            Err(e) => {
                return Err(DecodeError::UnexpectedEnd);
            },
        };
        let version_reversion = match s.read_u32_le() {
            Ok(v) => v,
            Err(e) => {
                return Err(DecodeError::UnexpectedEnd);
            },
        };
        // Exporter compile flags, read and discarded.
        match s.read_u32_le() {
            Ok(v) => {},
            Err(e) => {
                return Err(DecodeError::UnexpectedEnd);
            },
        }
        let shortened = match s.read_u16_le() {
            Ok(v) => v,
            Err(e) => {
                return Err(DecodeError::UnexpectedEnd);
            },
        };
        if shortened != 0 {
            return Err(DecodeError::ShortenedUnsupported);
        }
        let compressed = match s.read_u16_le() {
            Ok(v) => v,
            Err(e) => {
                return Err(DecodeError::UnexpectedEnd);
            },
        };
        if compressed != 0 {
            return Err(DecodeError::CompressedUnsupported);
        }
        // Source file name, command line and padding, skipped by byte count.
        s.skip(448);
        let num_meshes = match read_scene_header(&mut s) {
            Ok(v) => v,
            Err(e) => {
                return Err(e);
            },
        };
        let mut nodes: Vec<PrefabNode> = Vec::new();
        let node_pos = s.tell();
        proof {
            assert(node_pos == 548);
        }
        let after_nodes = match load_node(data, node_pos, &mut nodes) {
            Ok(v) => v.1,
            Err(e) => {
                return Err(e);
            },
        };
        proof {
            assert(after_nodes == spec_chunk_end(b, 548));
            assert(decoded_root(b, 548, nodes@));
        }
        let mut meshes: Vec<Mesh> = Vec::new();
        let mut cur: usize = after_nodes;
        let mut i: u32 = 0;
        while i < num_meshes
            invariant
                i <= num_meshes,
                cur <= b.len(),
                meshes@.len() == i,
                nodes@.len() > 0,
                forall|q: int|
                    0 <= q < meshes@.len() ==> is_mesh_name(
                        nodes@,
                        q as usize,
                        (#[trigger] meshes@[q]).name@,
                    ),
                scene_wf(b) ==> meshes_wf(b, cur as int, num_meshes - i),
                meshes_wf(b, cur as int, num_meshes - i) ==> meshes_wf(
                    b,
                    after_nodes as int,
                    num_meshes as int,
                ),
            decreases num_meshes - i,
        {
            let (mut mesh, end) = match load_mesh(data, cur) {
                Ok(v) => v,
                Err(e) => {
                    proof {
                        if scene_wf(b) {
                            assert(meshes_wf(b, cur as int, num_meshes - i));
                            assert(mesh_wf(b, cur as int));
                        }
                    }
                    return Err(e);
                },
            };
            proof {
                if scene_wf(b) {
                    assert(meshes_wf(b, cur as int, num_meshes - i));
                }
                if meshes_wf(b, end as int, num_meshes - i - 1) {
                    assert(meshes_wf(b, cur as int, num_meshes - i));
                }
            }
            mesh.name = find_mesh_name(&nodes, i as usize);
            meshes.push(mesh);
            cur = end;
            i = i + 1;
        }
        proof {
            assert(meshes_wf(b, cur as int, 0));
            assert(meshes_wf(b, after_nodes as int, num_meshes as int));
            assert(scene_wf(b));
        }
        Ok(Assbin { version_major, version_minor, version_reversion, nodes, meshes })
    }
}

impl AssbinMetadata {
    /// Decodes only what the metadata phase needs: the node forest is walked
    /// and each declared mesh resolved to its name; the mesh data itself is
    /// not decoded. Success is owed whenever the scene chunk is in place and
    /// the stream holds a decodable node tree, and every returned name obeys
    /// the mesh-naming law over the decoded forest.
    #[verifier::loop_isolation(false)]
    #[verifier::rlimit(100)]
    pub fn load(data: &Vec<u8>) -> (r: Result<AssbinMetadata, DecodeError>)
        ensures
            match r {
                Ok(md) => {
                    &&& data@.len() >= 548
                    &&& md.meshes@.len() == spec_u32_le(data@, 524)
                    &&& exists|arena: Seq<PrefabNode>|
                        decoded_root(data@, 548, arena) && (forall|i: int|
                            0 <= i < md.meshes@.len() ==> is_mesh_name(
                                arena,
                                i as usize,
                                (#[trigger] md.meshes@[i])@,
                            ))
                },
                Err(e) => !(data@.len() >= 548 && spec_u32_le(data@, 512) == CHUNK_SCENE
                    && node_wf(data@, 548)),
            },
    {
        let mut s = Stream::new(data);
        // The whole fixed header region is skipped; only chunked content is
        // read here.
        s.skip(512);
        if data.len() < 512 {
            return Err(DecodeError::UnexpectedEnd);
        }
        let num_meshes = match read_scene_header(&mut s) {
            Ok(v) => v,
            Err(e) => {
                return Err(e);
            },
        };
        let mut nodes: Vec<PrefabNode> = Vec::new();
        let node_pos = s.tell();
        match load_node(data, node_pos, &mut nodes) {
            Ok(v) => {},
            Err(e) => {
                return Err(e);
            },
        }
        let mut meshes: Vec<Vec<u8>> = Vec::new();
        let mut i: u32 = 0;
        while i < num_meshes
            invariant
                i <= num_meshes,
                meshes@.len() == i,
                forall|q: int|
                    0 <= q < meshes@.len() ==> is_mesh_name(
                        nodes@,
                        q as usize,
                        (#[trigger] meshes@[q])@,
                    ),
            decreases num_meshes - i,
        {
            meshes.push(find_mesh_name(&nodes, i as usize));
            i = i + 1;
        }
        proof {
            assert(decoded_root(data@, 548, nodes@));
        }
        Ok(AssbinMetadata { meshes })
    }
}

} // verus!
