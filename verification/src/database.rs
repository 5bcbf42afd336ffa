use vstd::prelude::*;

use crate::assets::AssetType;
use crate::bytes_util::{bytes_eq, ends_with, spec_ends_with};

verus! {

/// The suffix that marks a sidecar file.
pub open spec fn meta_suffix() -> Seq<u8> {
    seq![0x2Eu8, 0x6Du8, 0x65u8, 0x74u8, 0x61u8, 0x2Eu8, 0x74u8, 0x6Fu8, 0x6Du8, 0x6Cu8]
}

/// The sidecar suffix as a buffer.
pub fn meta_suffix_bytes() -> (r: Vec<u8>)
    ensures
        r@ =~= meta_suffix(),
{
    let mut v: Vec<u8> = Vec::new();
    v.push(0x2E);
    v.push(0x6D);
    v.push(0x65);
    v.push(0x74);
    v.push(0x61);
    v.push(0x2E);
    v.push(0x74);
    v.push(0x6F);
    v.push(0x6D);
    v.push(0x6C);
    v
}

/// The sidecar file name of an asset: the asset path with the sidecar
/// suffix appended.
pub fn metafile_name(name: &Vec<u8>) -> (r: Vec<u8>)
    ensures
        r@ == name@ + meta_suffix(),
{
    let mut r = crate::assbin::clone_bytes(name);
    let mut suffix = meta_suffix_bytes();
    r.append(&mut suffix);
    r
}

/// Whether a scanned path is a sidecar file rather than an asset.
pub fn is_metafile(name: &Vec<u8>) -> (r: bool)
    ensures
        r == spec_ends_with(name@, meta_suffix()),
{
    let suffix = meta_suffix_bytes();
    ends_with(name, &suffix)
}

/// The asset path a sidecar file belongs to.
pub fn strip_meta_suffix(name: &Vec<u8>) -> (r: Vec<u8>)
    requires
        spec_ends_with(name@, meta_suffix()),
    ensures
        r@ == name@.take(name@.len() - 10),
        r@ + meta_suffix() == name@,
{
    let end = name.len() - 10;
    let mut r: Vec<u8> = Vec::new();
    let mut i: usize = 0;
    while i < end
        invariant
            i <= end,
            end == name@.len() - 10,
            r@ == name@.take(i as int),
        decreases end - i,
    {
        r.push(name[i]);
        proof {
            assert(r@ =~= name@.take(i + 1));
        }
        i = i + 1;
    }
    proof {
        assert(name@.subrange(name@.len() - 10, name@.len() as int) == meta_suffix());
        assert(r@ + meta_suffix() =~= name@);
    }
    r
}

/// Extension table entries with unique extensions.
pub open spec fn et_unique(s: Seq<(Vec<u8>, AssetType)>) -> bool {
    forall|a: int, b: int|
        0 <= a < b < s.len() ==> (#[trigger] s[a]).0@ != (#[trigger] s[b]).0@
}

pub open spec fn et_contains(s: Seq<(Vec<u8>, AssetType)>, e: Seq<u8>) -> bool {
    exists|i: int| 0 <= i < s.len() && (#[trigger] s[i]).0@ == e
}

pub open spec fn et_at(s: Seq<(Vec<u8>, AssetType)>, e: Seq<u8>) -> AssetType {
    s[choose|i: int| 0 <= i < s.len() && (#[trigger] s[i]).0@ == e].1
}

/// Adds one extension route to the table. A second importer for one
/// extension is refused, leaving the table unchanged: every extension routes
/// to exactly one importer.
#[verifier::loop_isolation(false)]
pub fn register_extension(table: &mut Vec<(Vec<u8>, AssetType)>, ext: &Vec<u8>, tp: AssetType) -> (r:
    bool)
    requires
        et_unique(old(table)@),
    ensures
        et_unique(final(table)@),
        r == !et_contains(old(table)@, ext@),
        !r ==> final(table)@ == old(table)@,
        r ==> {
            &&& et_contains(final(table)@, ext@)
            &&& et_at(final(table)@, ext@) == tp
            &&& final(table)@.drop_last() == old(table)@
        },
{
    let n = table.len();
    let mut i: usize = 0;
    while i < n
        invariant
            i <= n,
            n == table@.len(),
            forall|j: int| 0 <= j < i ==> (#[trigger] table@[j]).0@ != ext@,
        decreases n - i,
    {
        if bytes_eq(&table[i].0, ext) {
            return false;
        }
        i = i + 1;
    }
    let ghost pre = table@;
    table.push((crate::assbin::clone_bytes(ext), tp));
    proof {
        assert(table@.drop_last() =~= pre);
        assert(table@[pre.len() as int].0@ == ext@);
        assert forall|a: int, b: int|
            0 <= a < b < table@.len() implies (#[trigger] table@[a]).0@
            != (#[trigger] table@[b]).0@ by {
            if b == pre.len() {
                assert(table@[a].0@ == pre[a].0@);
            } else {
                assert(table@[a].0@ == pre[a].0@ && table@[b].0@ == pre[b].0@);
            }
        }
        let j = choose|j: int| 0 <= j < table@.len() && (#[trigger] table@[j]).0@ == ext@;
        if j < pre.len() {
            assert(pre[j].0@ == ext@);
        }
    }
    true
}

/// Routes a file extension to an asset kind. An extension without a route,
/// and a file without an extension, fall back to the opaque bytes kind, so
/// every file is importable.
#[verifier::loop_isolation(false)]
pub fn classify(table: &Vec<(Vec<u8>, AssetType)>, ext: &Option<Vec<u8>>) -> (r: AssetType)
    requires
        et_unique(table@),
    ensures
        match ext {
            Some(e) => {
                &&& et_contains(table@, e@) ==> r == et_at(table@, e@)
                &&& !et_contains(table@, e@) ==> r == AssetType::Bytes
            },
            None => r == AssetType::Bytes,
        },
{
    match ext {
        Some(e) => {
            let n = table.len();
            let mut i: usize = 0;
            while i < n
                invariant
                    i <= n,
                    n == table@.len(),
                    forall|j: int| 0 <= j < i ==> (#[trigger] table@[j]).0@ != e@,
                decreases n - i,
            {
                if bytes_eq(&table[i].0, e) {
                    proof {
                        let j = choose|j: int|
                            0 <= j < table@.len() && (#[trigger] table@[j]).0@ == e@;
                        assert(table@[i as int].0@ == e@);
                        assert(j == i);
                    }
                    return table[i].1;
                }
                i = i + 1;
            }
            AssetType::Bytes
        },
        None => AssetType::Bytes,
    }
}

/// The sidecar files whose asset no longer exists: stale leftovers of a
/// rename or delete, which the driver removes with a warning.
#[verifier::loop_isolation(false)]
pub fn orphan_metafiles(metas: &Vec<Vec<u8>>, assets: &Vec<Vec<u8>>) -> (r: Vec<Vec<u8>>)
    ensures
        forall|q: int|
            0 <= q < r@.len() ==> crate::cache::spec_has_key(metas@, (#[trigger] r@[q])@)
                && !crate::cache::spec_has_key(assets@, r@[q]@),
        forall|q: int|
            0 <= q < metas@.len() && !crate::cache::spec_has_key(assets@, (#[trigger] metas@[q])@)
                ==> crate::cache::spec_has_key(r@, metas@[q]@),
{
    let n = metas.len();
    let mut r: Vec<Vec<u8>> = Vec::new();
    let mut i: usize = 0;
    while i < n
        invariant
            i <= n,
            n == metas@.len(),
            forall|q: int|
                0 <= q < r@.len() ==> crate::cache::spec_has_key(metas@, (#[trigger] r@[q])@)
                    && !crate::cache::spec_has_key(assets@, r@[q]@),
            forall|q: int|
                0 <= q < i && !crate::cache::spec_has_key(assets@, (#[trigger] metas@[q])@)
                    ==> crate::cache::spec_has_key(r@, metas@[q]@),
        decreases n - i,
    {
        let ghost pre = r@;
        if !crate::cache::has_key(assets, &metas[i]) {
            r.push(crate::assbin::clone_bytes(&metas[i]));
            proof {
                assert(r@[r@.len() - 1]@ == metas@[i as int]@);
                assert(crate::cache::spec_has_key(metas@, r@[r@.len() - 1]@));
                assert forall|q: int|
                    0 <= q < r@.len() implies crate::cache::spec_has_key(
                    metas@,
                    (#[trigger] r@[q])@,
                ) && !crate::cache::spec_has_key(assets@, r@[q]@) by {
                    if q < pre.len() {
                        assert(r@[q] == pre[q]);
                    }
                }
                assert forall|f: Seq<u8>|
                    crate::cache::spec_has_key(pre, f) implies crate::cache::spec_has_key(
                    r@,
                    f,
                ) by {
                    let w = choose|w: int| 0 <= w < pre.len() && (#[trigger] pre[w])@ == f;
                    assert(r@[w]@ == f);
                }
            }
        }
        i = i + 1;
    }
    r
}

/// The manifest location of one resource: the asset path itself for a one
/// resource asset, the asset path and the resource name otherwise.
pub fn manifest_location(asset: &Vec<u8>, resource: &Vec<u8>) -> (r: Vec<u8>)
    ensures
        asset@ == resource@ ==> r@ == asset@,
        asset@ != resource@ ==> r@ == asset@ + seq![0x2Fu8] + resource@,
{
    if bytes_eq(asset, resource) {
        crate::assbin::clone_bytes(asset)
    } else {
        let mut r = crate::assbin::clone_bytes(asset);
        r.push(0x2F);
        let mut tail = crate::assbin::clone_bytes(resource);
        r.append(&mut tail);
        proof {
            assert(r@ =~= asset@ + seq![0x2Fu8] + resource@);
        }
        r
    }
}

} // verus!
