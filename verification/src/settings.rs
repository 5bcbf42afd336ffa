use vstd::prelude::*;

use crate::assets::AssetType;

verus! {

/// Workspace-level configuration.
pub struct Settings {
    pub assets: AssetSettings,
}

/// Where assets are read from and resources written to, and how extensions
/// route to importers.
pub struct AssetSettings {
    pub source: Vec<u8>,
    pub destination: Vec<u8>,
    pub importers: Vec<AssetExtensions>,
}

/// One importer route: the extensions that map to an asset kind.
pub struct AssetExtensions {
    pub tp: AssetType,
    pub extensions: Vec<Vec<u8>>,
}

/// True when path `a` lies inside the tree rooted at `b`: `b` is a
/// component-wise prefix of `a`.
pub open spec fn spec_path_under(a: Seq<u8>, b: Seq<u8>) -> bool {
    b.len() <= a.len() && a.take(b.len() as int) == b && (a.len() == b.len() || a[b.len() as int]
        == 0x2F)
}

/// Checks whether `a` lies inside the tree rooted at `b`.
#[verifier::loop_isolation(false)]
pub fn path_under(a: &Vec<u8>, b: &Vec<u8>) -> (r: bool)
    ensures
        r == spec_path_under(a@, b@),
{
    let alen = a.len();
    let blen = b.len();
    if blen > alen {
        return false;
    }
    if blen < alen && a[blen] != 0x2F {
        proof {
            assert(!spec_path_under(a@, b@));
        }
        return false;
    }
    let mut i: usize = 0;
    while i < blen
        invariant
            i <= blen,
            blen == b@.len(),
            alen == a@.len(),
            blen <= alen,
            forall|j: int| 0 <= j < i ==> a@[j] == b@[j],
        decreases blen - i,
    {
        if a[i] != b[i] {
            proof {
                if spec_path_under(a@, b@) {
                    assert(a@.take(b@.len() as int)[i as int] == b@[i as int]);
                }
            }
            return false;
        }
        i = i + 1;
    }
    proof {
        assert(a@.take(b@.len() as int) =~= b@);
    }
    true
}

/// Whether the source and destination trees overlap: one lying inside the
/// other makes the workspace invalid, fatally, before any work is done.
pub fn trees_overlap(source: &Vec<u8>, destination: &Vec<u8>) -> (r: bool)
    ensures
        r == (spec_path_under(source@, destination@) || spec_path_under(destination@, source@)),
{
    path_under(source, destination) || path_under(destination, source)
}

} // verus!
