use vstd::prelude::*;

use crate::assets::{AssetParams, ResourceType};
use crate::digest::fresh_uuid;

verus! {

/// One produced resource of an asset: its path-like name, its kind, and the
/// stable identifier the runtime loads it by.
#[derive(Debug)]
pub struct ResourceMetadata {
    pub tp: ResourceType,
    pub name: Vec<u8>,
    pub uuid: u128,
}

/// Mathematical model of a resource record.
#[verifier::ext_equal]
pub struct ResourceModel {
    pub tp: ResourceType,
    pub name: Seq<u8>,
    pub uuid: u128,
}

impl View for ResourceMetadata {
    type V = ResourceModel;

    open spec fn view(&self) -> ResourceModel {
        ResourceModel { tp: self.tp, name: self.name@, uuid: self.uuid }
    }
}

/// The models of a resource list.
pub open spec fn rms(s: Seq<ResourceMetadata>) -> Seq<ResourceModel> {
    Seq::new(s.len(), |i: int| s[i]@)
}

/// The sidecar record of one asset: its relative path, its own stable
/// identifier, its import parameters, and the resources it decomposes into.
#[derive(Debug)]
pub struct AssetMetadata {
    pub name: Vec<u8>,
    pub uuid: u128,
    pub resources: Vec<ResourceMetadata>,
    pub params: AssetParams,
}

/// Resource lists with unique names.
pub open spec fn rm_unique(s: Seq<ResourceModel>) -> bool {
    forall|a: int, b: int|
        0 <= a < b < s.len() ==> (#[trigger] s[a]).name != (#[trigger] s[b]).name
}

pub open spec fn rm_contains(s: Seq<ResourceModel>, n: Seq<u8>) -> bool {
    exists|i: int| 0 <= i < s.len() && (#[trigger] s[i]).name == n
}

pub open spec fn rm_idx(s: Seq<ResourceModel>, n: Seq<u8>) -> int {
    choose|i: int| 0 <= i < s.len() && (#[trigger] s[i]).name == n
}

pub open spec fn rm_at(s: Seq<ResourceModel>, n: Seq<u8>) -> ResourceModel {
    s[rm_idx(s, n)]
}

/// Finds the resource record named `n`.
fn rm_find(s: &Vec<ResourceMetadata>, n: &Vec<u8>) -> (r: Option<usize>)
    ensures
        match r {
            Some(i) => i < s@.len() && s@[i as int].name@ == n@,
            None => !rm_contains(rms(s@), n@),
        },
{
    let len = s.len();
    let mut i: usize = 0;
    while i < len
        invariant
            i <= len,
            len == s@.len(),
            forall|j: int| 0 <= j < i ==> (#[trigger] s@[j]).name@ != n@,
        decreases len - i,
    {
        if crate::bytes_util::bytes_eq(&s[i].name, n) {
            return Some(i);
        }
        i = i + 1;
    }
    proof {
        if rm_contains(rms(s@), n@) {
            let w = rm_idx(rms(s@), n@);
            assert(rms(s@)[w].name == n@);
            assert(s@[w].name@ == n@);
        }
    }
    None
}

/// The resource list with every duplicate name dropped, keeping the first
/// occurrence of each name.
pub open spec fn spec_dedup(rs: Seq<ResourceModel>) -> Seq<ResourceModel>
    decreases rs.len(),
{
    if rs.len() == 0 {
        Seq::empty()
    } else {
        let prev = spec_dedup(rs.drop_last());
        if rm_contains(prev, rs.last().name) {
            prev
        } else {
            prev.push(rs.last())
        }
    }
}

impl AssetMetadata {
    /// The models of this asset's resource list.
    pub open spec fn resource_models(&self) -> Seq<ResourceModel> {
        rms(self.resources@)
    }

    /// Drops duplicate resource names as a correctness backstop, keeping the
    /// first occurrence of each name; reports whether anything was dropped,
    /// which counts as a metadata mutation.
    #[verifier::loop_isolation(false)]
    pub fn dedup_resources(&mut self) -> (modified: bool)
        ensures
            final(self).resource_models() == spec_dedup(old(self).resource_models()),
            rm_unique(final(self).resource_models()),
            modified == (final(self).resource_models().len()
                != old(self).resource_models().len()),
            final(self).name == old(self).name,
            final(self).uuid == old(self).uuid,
            final(self).params == old(self).params,
    {
        let ghost origm = rms(old(self).resources@);
        let n = self.resources.len();
        let mut out: Vec<ResourceMetadata> = Vec::new();
        let mut i: usize = 0;
        while i < n
            invariant
                i <= n,
                n == origm.len(),
                self.resources@ == old(self).resources@,
                self.name@ == old(self).name@,
                rms(out@) == spec_dedup(origm.take(i as int)),
                rm_unique(rms(out@)),
            decreases n - i,
        {
            let ghost pre = rms(out@);
            proof {
                assert(origm.take(i + 1).drop_last() =~= origm.take(i as int));
                assert(origm.take(i + 1).last() == origm[i as int]);
                assert(origm[i as int] == self.resources@[i as int]@);
            }
            let dup = rm_find(&out, &self.resources[i].name);
            match dup {
                Some(w) => {
                    proof {
                        assert(rms(out@)[w as int].name == self.resources@[i as int].name@);
                        assert(rm_contains(pre, origm[i as int].name));
                    }
                },
                None => {
                    let rm = ResourceMetadata {
                        tp: self.resources[i].tp,
                        name: crate::assbin::clone_bytes(&self.resources[i].name),
                        uuid: self.resources[i].uuid,
                    };
                    proof {
                        assert(rm@ =~= origm[i as int]);
                    }
                    out.push(rm);
                    proof {
                        assert(rms(out@) =~= pre.push(origm[i as int]));
                        assert forall|a: int, b: int|
                            0 <= a < b < rms(out@).len() implies (#[trigger] rms(out@)[a]).name
                            != (#[trigger] rms(out@)[b]).name by {
                            if b == pre.len() {
                                assert(!rm_contains(pre, rms(out@)[b].name));
                                assert(rms(out@)[a] == pre[a]);
                            }
                        }
                    }
                },
            }
            i = i + 1;
        }
        proof {
            assert(origm.take(n as int) =~= origm);
        }
        let was = self.resources.len();
        let now = out.len();
        self.resources = out;
        now != was
    }

    /// Adds a resource entry. A name already present with the same kind is a
    /// no-op: nothing changes and no new identifier is drawn. A name present
    /// with a different kind replaces the record, with a fresh identifier,
    /// and marks the asset dirty; a new name appends a fresh record.
    #[verifier::loop_isolation(false)]
    pub fn add_resource(&mut self, name: &Vec<u8>, tp: ResourceType) -> (modified: bool)
        requires
            rm_unique(old(self).resource_models()),
        ensures
            rm_unique(final(self).resource_models()),
            final(self).name == old(self).name,
            final(self).uuid == old(self).uuid,
            final(self).params == old(self).params,
            rm_contains(final(self).resource_models(), name@),
            rm_at(final(self).resource_models(), name@).tp == tp,
            (rm_contains(old(self).resource_models(), name@) && rm_at(
                old(self).resource_models(),
                name@,
            ).tp == tp) ==> {
                &&& !modified
                &&& final(self).resource_models() == old(self).resource_models()
            },
            (rm_contains(old(self).resource_models(), name@) && rm_at(
                old(self).resource_models(),
                name@,
            ).tp != tp) ==> {
                &&& modified
                &&& final(self).resource_models().len() == old(self).resource_models().len()
                &&& forall|n2: Seq<u8>|
                    n2 != name@ ==> (rm_contains(final(self).resource_models(), n2)
                        <==> rm_contains(old(self).resource_models(), n2))
                &&& forall|n2: Seq<u8>|
                    n2 != name@ && rm_contains(old(self).resource_models(), n2) ==> rm_at(
                        final(self).resource_models(),
                        n2,
                    ) == rm_at(old(self).resource_models(), n2)
            },
            !rm_contains(old(self).resource_models(), name@) ==> {
                &&& modified
                &&& final(self).resource_models().len() == old(self).resource_models().len() + 1
                &&& rms(final(self).resources@).drop_last() == old(self).resource_models()
            },
    {
        let found = rm_find(&self.resources, name);
        match found {
            Some(i) => {
                proof {
                    let j = rm_idx(rms(self.resources@), name@);
                    assert(rms(self.resources@)[j].name == name@ && 0 <= j < rms(
                        self.resources@,
                    ).len());
                    assert(rms(self.resources@)[i as int].name == name@);
                    assert(j == i);
                }
                if self.resources[i].tp == tp {
                    return false;
                }
                let ghost mid = rms(self.resources@);
                let rm = ResourceMetadata {
                    tp,
                    name: crate::assbin::clone_bytes(name),
                    uuid: fresh_uuid(),
                };
                self.resources[i] = rm;
                proof {
                    let post = rms(self.resources@);
                    assert(post[i as int].name == name@);
                    assert(forall|j: int|
                        0 <= j < mid.len() && j != i ==> post[j] == mid[j]);
                    assert forall|a: int, b: int|
                        0 <= a < b < post.len() implies (#[trigger] post[a]).name
                        != (#[trigger] post[b]).name by {
                        assert(post[a].name == mid[a].name && post[b].name == mid[b].name);
                    }
                    let j2 = rm_idx(post, name@);
                    assert(0 <= j2 < post.len() && post[j2].name == name@);
                    if j2 != i {
                        assert(mid[j2].name == name@ && mid[i as int].name == name@);
                    }
                    assert forall|n2: Seq<u8>| n2 != name@ implies (rm_contains(post, n2)
                        <==> rm_contains(mid, n2)) by {
                        if rm_contains(post, n2) {
                            let w = choose|w: int|
                                0 <= w < post.len() && (#[trigger] post[w]).name == n2;
                            assert(mid[w].name == n2);
                        }
                        if rm_contains(mid, n2) {
                            let w = choose|w: int|
                                0 <= w < mid.len() && (#[trigger] mid[w]).name == n2;
                            assert(post[w].name == n2);
                        }
                    }
                    assert forall|n2: Seq<u8>| n2 != name@ && rm_contains(mid, n2) implies rm_at(
                        post,
                        n2,
                    ) == rm_at(mid, n2) by {
                        let j1 = rm_idx(mid, n2);
                        assert(0 <= j1 < mid.len() && mid[j1].name == n2);
                        assert(j1 != i);
                        assert(post[j1].name == n2);
                        assert(rm_contains(post, n2));
                        let j3 = rm_idx(post, n2);
                        assert(0 <= j3 < post.len() && post[j3].name == n2);
                        if j3 != j1 {
                            assert(mid[j3].name == n2);
                        }
                    }
                }
                true
            },
            None => {
                let ghost mid = rms(self.resources@);
                let rm = ResourceMetadata {
                    tp,
                    name: crate::assbin::clone_bytes(name),
                    uuid: fresh_uuid(),
                };
                self.resources.push(rm);
                proof {
                    let post = rms(self.resources@);
                    assert(post[post.len() - 1].name == name@);
                    assert(post.drop_last() =~= mid);
                    assert forall|a: int, b: int|
                        0 <= a < b < post.len() implies (#[trigger] post[a]).name
                        != (#[trigger] post[b]).name by {
                        if b == mid.len() {
                            assert(post[a] == mid[a]);
                            if post[a].name == name@ {
                                assert(rm_contains(mid, name@));
                            }
                        } else {
                            assert(post[a] == mid[a] && post[b] == mid[b]);
                        }
                    }
                    let j2 = rm_idx(post, name@);
                    assert(0 <= j2 < post.len() && post[j2].name == name@);
                    if j2 < mid.len() {
                        assert(mid[j2].name == name@);
                    }
                }
                true
            },
        }
    }
}

} // verus!
