use vstd::prelude::*;

use crate::digest::{crc32, crc32_of, fresh_uuid, spec_uuid_hex, uuid_hex};
use crate::paths::spec_extension;

verus! {

/// One staleness record: a stable identifier, the checksum and timestamp of
/// the last observed state, and the in-memory dirty flag, which is never
/// persisted.
#[derive(Debug, Clone, Copy, PartialEq, Eq, Structural)]
pub struct Metadata {
    pub uuid: u128,
    pub checksum: u32,
    pub last_modified_time: u32,
    pub modified: bool,
}

/// What a look at the filesystem found: nothing, or a write timestamp and,
/// when a checksum is wanted, the file's full contents.
pub enum Observation {
    Missing,
    Present { wtime: u32, content: Option<Vec<u8>> },
}

/// The record after a check against an observation. A missing file is
/// always dirty and resets checksum and timestamp to zero. In strict mode
/// the contents are re-hashed and compared against the stored checksum; in
/// loose mode only the write timestamp is compared. Either way the stored
/// fields afterwards reflect the observation, so a second check against the
/// same observation is clean.
pub open spec fn spec_checked(m: Metadata, obs: Observation, strict: bool) -> Metadata {
    match obs {
        Observation::Missing => Metadata {
            uuid: m.uuid,
            checksum: 0,
            last_modified_time: 0,
            modified: true,
        },
        Observation::Present { wtime, content } => {
            if strict {
                let crc = crc32_of(content->0@);
                Metadata {
                    uuid: m.uuid,
                    checksum: crc,
                    last_modified_time: wtime,
                    modified: crc != m.checksum,
                }
            } else {
                Metadata {
                    uuid: m.uuid,
                    checksum: m.checksum,
                    last_modified_time: wtime,
                    modified: wtime != m.last_modified_time,
                }
            }
        },
    }
}

/// In strict mode a present observation must carry the file's contents.
pub open spec fn obs_ok(obs: Observation, strict: bool) -> bool {
    strict ==> match obs {
        Observation::Missing => true,
        Observation::Present { wtime, content } => content is Some,
    }
}

impl Metadata {
    /// A fresh record: no state observed yet, dirty until checked.
    pub fn new(uuid: u128) -> (r: Metadata)
        ensures
            r.uuid == uuid,
            r.checksum == 0,
            r.last_modified_time == 0,
            r.modified,
    {
        Metadata { uuid, checksum: 0, last_modified_time: 0, modified: true }
    }

    /// Applies one filesystem observation to this record, exactly as
    /// `spec_checked` describes.
    pub fn check(&mut self, obs: &Observation, strict: bool)
        requires
            obs_ok(*obs, strict),
        ensures
            *final(self) == spec_checked(*old(self), *obs, strict),
    {
        match obs {
            Observation::Missing => {
                self.checksum = 0;
                self.last_modified_time = 0;
                self.modified = true;
            },
            Observation::Present { wtime, content } => {
                if strict {
                    let crc = match content {
                        Some(bytes) => crc32(bytes),
                        None => 0,
                    };
                    self.modified = crc != self.checksum;
                    self.checksum = crc;
                    self.last_modified_time = *wtime;
                } else {
                    self.modified = *wtime != self.last_modified_time;
                    self.last_modified_time = *wtime;
                }
            },
        }
    }
}

/// Checking twice against one observation leaves a clean record: with no
/// filesystem change between two runs, the second run raises no dirty flag
/// for any file that exists.
pub proof fn lemma_check_idempotent(m: Metadata, obs: Observation, strict: bool)
    requires
        (obs is Present),
    ensures
        !spec_checked(spec_checked(m, obs, strict), obs, strict).modified,
        spec_checked(spec_checked(m, obs, strict), obs, strict) == (Metadata {
            modified: false,
            ..spec_checked(m, obs, strict)
        }),
{
}

/// A touch that changes only the timestamp of unchanged bytes: the strict
/// mode sees clean, the loose mode sees dirty.
pub proof fn lemma_strict_mode_touch(m: Metadata, wtime: u32, content: Vec<u8>)
    requires
        m.checksum == crc32_of(content@),
        wtime != m.last_modified_time,
    ensures
        !spec_checked(m, Observation::Present { wtime, content: Some(content) }, true).modified,
        spec_checked(m, Observation::Present { wtime, content: Some(content) }, false).modified,
{
}

/// Named staleness records with unique names.
pub open spec fn md_unique(s: Seq<(Vec<u8>, Metadata)>) -> bool {
    forall|a: int, b: int|
        0 <= a < b < s.len() ==> (#[trigger] s[a]).0@ != (#[trigger] s[b]).0@
}

pub open spec fn md_contains(s: Seq<(Vec<u8>, Metadata)>, k: Seq<u8>) -> bool {
    exists|i: int| 0 <= i < s.len() && (#[trigger] s[i]).0@ == k
}

pub open spec fn md_idx(s: Seq<(Vec<u8>, Metadata)>, k: Seq<u8>) -> int {
    choose|i: int| 0 <= i < s.len() && (#[trigger] s[i]).0@ == k
}

pub open spec fn md_at(s: Seq<(Vec<u8>, Metadata)>, k: Seq<u8>) -> Metadata {
    s[md_idx(s, k)].1
}

/// Finds the record named `k`.
fn md_find(s: &Vec<(Vec<u8>, Metadata)>, k: &Vec<u8>) -> (r: Option<usize>)
    ensures
        match r {
            Some(i) => i < s@.len() && s@[i as int].0@ == k@,
            None => !md_contains(s@, k@),
        },
{
    let n = s.len();
    let mut i: usize = 0;
    while i < n
        invariant
            i <= n,
            n == s@.len(),
            forall|j: int| 0 <= j < i ==> (#[trigger] s@[j]).0@ != k@,
        decreases n - i,
    {
        if crate::bytes_util::bytes_eq(&s[i].0, k) {
            return Some(i);
        }
        i = i + 1;
    }
    None
}

/// Overwrites the record named `k` with `md`.
#[verifier::loop_isolation(false)]
pub fn md_set(s: &mut Vec<(Vec<u8>, Metadata)>, k: &Vec<u8>, md: Metadata)
    requires
        md_unique(old(s)@),
        md_contains(old(s)@, k@),
    ensures
        md_unique(final(s)@),
        md_contains(final(s)@, k@),
        md_at(final(s)@, k@) == md,
        forall|k2: Seq<u8>|
            k2 != k@ ==> (md_contains(final(s)@, k2) <==> md_contains(old(s)@, k2)),
        forall|k2: Seq<u8>|
            k2 != k@ && md_contains(old(s)@, k2) ==> md_at(final(s)@, k2) == md_at(old(s)@, k2),
{
    let found = md_find(s, k);
    match found {
        Some(i) => {
            proof {
                let j = md_idx(s@, k@);
                assert(0 <= j < s@.len() && s@[j].0@ == k@);
                assert(j == i);
            }
            s[i].1 = md;
            proof {
                lemma_md_update_others(old(s)@, s@, k@, i as int);
            }
        },
        None => {
            proof {
                assert(false);
            }
        },
    }
}

/// What `touch` leaves behind and hands out, at the spec level.
pub open spec fn touched(m: Metadata, writable: bool) -> Metadata {
    if writable {
        Metadata { modified: true, ..m }
    } else {
        m
    }
}

/// Gets the record named `k`, creating a fresh one on first reference, and
/// marks it dirty when the caller is about to write the named artifact. A
/// name that is already present keeps its record, and with it its
/// identifier, whatever the new reference does.
#[verifier::loop_isolation(false)]
pub fn md_touch(s: &mut Vec<(Vec<u8>, Metadata)>, k: &Vec<u8>, writable: bool) -> (r: Metadata)
    requires
        md_unique(old(s)@),
    ensures
        md_unique(final(s)@),
        md_contains(final(s)@, k@),
        r == md_at(final(s)@, k@),
        md_contains(old(s)@, k@) ==> {
            &&& r == touched(md_at(old(s)@, k@), writable)
            &&& r.uuid == md_at(old(s)@, k@).uuid
        },
        !md_contains(old(s)@, k@) ==> r.checksum == 0 && r.last_modified_time == 0 && r.modified,
        forall|k2: Seq<u8>|
            k2 != k@ ==> (md_contains(final(s)@, k2) <==> md_contains(old(s)@, k2)),
        forall|k2: Seq<u8>|
            k2 != k@ && md_contains(old(s)@, k2) ==> md_at(final(s)@, k2) == md_at(old(s)@, k2),
{
    let found = md_find(s, k);
    match found {
        Some(i) => {
            proof {
                let j = md_idx(s@, k@);
                assert(0 <= j < s@.len() && s@[j].0@ == k@);
                assert(j == i);
            }
            if writable {
                s[i].1.modified = true;
            }
            let r = s[i].1;
            proof {
                lemma_md_update_others(old(s)@, s@, k@, i as int);
            }
            r
        },
        None => {
            let id = fresh_uuid();
            let md = Metadata::new(id);
            let kk = crate::assbin::clone_bytes(k);
            let ghost pre = s@;
            s.push((kk, md));
            proof {
                assert forall|a: int, b: int|
                    0 <= a < b < s@.len() implies (#[trigger] s@[a]).0@ != (#[trigger] s@[b]).0@ by {
                    if b < pre.len() {
                    } else {
                        assert(s@[b].0@ == k@);
                        assert(s@[a].0@ == pre[a].0@);
                        assert(!md_contains(pre, k@));
                    }
                }
                let j = md_idx(s@, k@);
                assert(s@[pre.len() as int].0@ == k@);
                assert(0 <= j < s@.len() && s@[j].0@ == k@);
                if j < pre.len() {
                    assert(md_contains(pre, k@));
                }
                assert forall|k2: Seq<u8>| k2 != k@ implies (md_contains(s@, k2) <==> md_contains(
                    pre,
                    k2,
                )) by {
                    if md_contains(s@, k2) {
                        let w = choose|w: int| 0 <= w < s@.len() && (#[trigger] s@[w]).0@ == k2;
                        assert(w < pre.len() && pre[w].0@ == k2);
                    }
                    if md_contains(pre, k2) {
                        let w = choose|w: int| 0 <= w < pre.len() && (#[trigger] pre[w]).0@ == k2;
                        assert(s@[w].0@ == k2);
                    }
                }
                assert forall|k2: Seq<u8>| k2 != k@ && md_contains(pre, k2) implies md_at(s@, k2)
                    == md_at(pre, k2) by {
                    let j2 = md_idx(s@, k2);
                    let j1 = md_idx(pre, k2);
                    assert(0 <= j1 < pre.len() && pre[j1].0@ == k2);
                    assert(md_contains(s@, k2));
                    assert(0 <= j2 < s@.len() && s@[j2].0@ == k2);
                    assert(j2 != pre.len() as int);
                    assert(s@[j1].0@ == k2);
                    assert(j1 == j2);
                }
            }
            md
        },
    }
}

/// Values at other names survive an in-place update of the record at `i`.
proof fn lemma_md_update_others(pre: Seq<(Vec<u8>, Metadata)>, post: Seq<(Vec<u8>, Metadata)>, k: Seq<u8>, i: int)
    requires
        md_unique(pre),
        pre.len() == post.len(),
        0 <= i < pre.len(),
        pre[i].0@ == k,
        post[i].0@ == k,
        forall|j: int| 0 <= j < pre.len() && j != i ==> post[j] == pre[j],
    ensures
        md_unique(post),
        md_contains(post, k),
        md_at(post, k) == post[i].1,
        forall|k2: Seq<u8>| k2 != k ==> (md_contains(post, k2) <==> md_contains(pre, k2)),
        forall|k2: Seq<u8>| k2 != k && md_contains(pre, k2) ==> md_at(post, k2) == md_at(pre, k2),
{
    assert forall|a: int, b: int|
        0 <= a < b < post.len() implies (#[trigger] post[a]).0@ != (#[trigger] post[b]).0@ by {
        assert(post[a].0@ == pre[a].0@ && post[b].0@ == pre[b].0@);
    }
    assert(post[i].0@ == k);
    let j = md_idx(post, k);
    assert(0 <= j < post.len() && post[j].0@ == k);
    if j != i {
        assert(pre[j].0@ == k && pre[i].0@ == k);
    }
    assert forall|k2: Seq<u8>| k2 != k implies (md_contains(post, k2) <==> md_contains(
        pre,
        k2,
    )) by {
        if md_contains(post, k2) {
            let w = choose|w: int| 0 <= w < post.len() && (#[trigger] post[w]).0@ == k2;
            assert(pre[w].0@ == k2);
        }
        if md_contains(pre, k2) {
            let w = choose|w: int| 0 <= w < pre.len() && (#[trigger] pre[w]).0@ == k2;
            assert(post[w].0@ == k2);
        }
    }
    assert forall|k2: Seq<u8>| k2 != k && md_contains(pre, k2) implies md_at(post, k2) == md_at(
        pre,
        k2,
    ) by {
        let j1 = md_idx(pre, k2);
        assert(0 <= j1 < pre.len() && pre[j1].0@ == k2);
        assert(j1 != i);
        assert(post[j1].0@ == k2);
        assert(md_contains(post, k2));
        let j2 = md_idx(post, k2);
        assert(0 <= j2 < post.len() && post[j2].0@ == k2);
        if j2 != j1 {
            assert(pre[j2].0@ == k2);
        }
    }
}

/// Applies an observation to the record named `k`.
#[verifier::loop_isolation(false)]
pub fn md_check(s: &mut Vec<(Vec<u8>, Metadata)>, k: &Vec<u8>, obs: &Observation, strict: bool)
    requires
        md_unique(old(s)@),
        md_contains(old(s)@, k@),
        obs_ok(*obs, strict),
    ensures
        md_unique(final(s)@),
        md_contains(final(s)@, k@),
        md_at(final(s)@, k@) == spec_checked(md_at(old(s)@, k@), *obs, strict),
        forall|k2: Seq<u8>|
            k2 != k@ ==> (md_contains(final(s)@, k2) <==> md_contains(old(s)@, k2)),
        forall|k2: Seq<u8>|
            k2 != k@ && md_contains(old(s)@, k2) ==> md_at(final(s)@, k2) == md_at(old(s)@, k2),
{
    let found = md_find(s, k);
    match found {
        Some(i) => {
            proof {
                let j = md_idx(s@, k@);
                assert(0 <= j < s@.len() && s@[j].0@ == k@);
                assert(j == i);
            }
            let mut md = s[i].1;
            md.check(obs, strict);
            s[i].1 = md;
            proof {
                lemma_md_update_others(old(s)@, s@, k@, i as int);
            }
        },
        None => {
            proof {
                assert(false);
            }
        },
    }
}

/// The per-asset staleness records: the source file, its sidecar, and the
/// named intermediate and resource artifacts.
pub struct AssetCacheItem {
    pub file: Metadata,
    pub metafile: Metadata,
    pub resources: Vec<(Vec<u8>, Metadata)>,
    pub intermediates: Vec<(Vec<u8>, Metadata)>,
}

impl AssetCacheItem {
    /// Names are unique within each artifact table.
    pub open spec fn wf(&self) -> bool {
        md_unique(self.resources@) && md_unique(self.intermediates@)
    }
}

/// Asset entries with unique source paths.
pub open spec fn it_unique(s: Seq<(Vec<u8>, AssetCacheItem)>) -> bool {
    forall|a: int, b: int|
        0 <= a < b < s.len() ==> (#[trigger] s[a]).0@ != (#[trigger] s[b]).0@
}

pub open spec fn it_contains(s: Seq<(Vec<u8>, AssetCacheItem)>, k: Seq<u8>) -> bool {
    exists|i: int| 0 <= i < s.len() && (#[trigger] s[i]).0@ == k
}

pub open spec fn it_idx(s: Seq<(Vec<u8>, AssetCacheItem)>, k: Seq<u8>) -> int {
    choose|i: int| 0 <= i < s.len() && (#[trigger] s[i]).0@ == k
}

pub open spec fn it_at(s: Seq<(Vec<u8>, AssetCacheItem)>, k: Seq<u8>) -> AssetCacheItem {
    s[it_idx(s, k)].1
}

pub open spec fn it_all_wf(s: Seq<(Vec<u8>, AssetCacheItem)>) -> bool {
    forall|i: int| 0 <= i < s.len() ==> (#[trigger] s[i]).1.wf()
}

/// True when `keys` holds `k`.
pub open spec fn spec_has_key(keys: Seq<Vec<u8>>, k: Seq<u8>) -> bool {
    exists|i: int| 0 <= i < keys.len() && (#[trigger] keys[i])@ == k
}

/// Checks whether `keys` holds `k`.
pub fn has_key(keys: &Vec<Vec<u8>>, k: &Vec<u8>) -> (r: bool)
    ensures
        r == spec_has_key(keys@, k@),
{
    let n = keys.len();
    let mut i: usize = 0;
    while i < n
        invariant
            i <= n,
            n == keys@.len(),
            forall|j: int| 0 <= j < i ==> (#[trigger] keys@[j])@ != k@,
        decreases n - i,
    {
        if crate::bytes_util::bytes_eq(&keys[i], k) {
            return true;
        }
        i = i + 1;
    }
    false
}

/// The staleness cache: one entry per source-asset path, plus the mode in
/// which observations are compared.
pub struct AssetCache {
    strict: bool,
    assets: Vec<(Vec<u8>, AssetCacheItem)>,
}

impl AssetCache {
    /// The entry table, for contracts.
    pub closed spec fn entries(&self) -> Seq<(Vec<u8>, AssetCacheItem)> {
        self.assets@
    }

    pub open spec fn wf(&self) -> bool {
        it_unique(self.entries()) && it_all_wf(self.entries())
    }

    pub closed spec fn spec_strict(&self) -> bool {
        self.strict
    }

    /// An empty cache; restored entries are added one by one.
    pub fn new(strict: bool) -> (r: AssetCache)
        ensures
            r.wf(),
            r.entries().len() == 0,
            r.spec_strict() == strict,
    {
        AssetCache { strict, assets: Vec::new() }
    }

    pub fn is_strict(&self) -> (r: bool)
        ensures
            r == self.spec_strict(),
    {
        self.strict
    }

    /// The source paths currently cached, for the driver to walk.
    pub fn asset_keys(&self) -> (r: Vec<Vec<u8>>)
        ensures
            r@.len() == self.entries().len(),
            forall|i: int| 0 <= i < r@.len() ==> (#[trigger] r@[i])@ == self.entries()[i].0@,
    {
        let n = self.assets.len();
        let mut r: Vec<Vec<u8>> = Vec::new();
        let mut i: usize = 0;
        while i < n
            invariant
                i <= n,
                n == self.assets@.len(),
                r@.len() == i,
                forall|j: int| 0 <= j < i ==> (#[trigger] r@[j])@ == self.assets@[j].0@,
            decreases n - i,
        {
            r.push(crate::assbin::clone_bytes(&self.assets[i].0));
            i = i + 1;
        }
        r
    }

    /// Finds the entry of `key`.
    fn find(&self, key: &Vec<u8>) -> (r: Option<usize>)
        ensures
            match r {
                Some(i) => i < self.entries().len() && self.entries()[i as int].0@ == key@,
                None => !it_contains(self.entries(), key@),
            },
    {
        let n = self.assets.len();
        let mut i: usize = 0;
        while i < n
            invariant
                i <= n,
                n == self.assets@.len(),
                forall|j: int| 0 <= j < i ==> (#[trigger] self.assets@[j]).0@ != key@,
            decreases n - i,
        {
            if crate::bytes_util::bytes_eq(&self.assets[i].0, key) {
                return Some(i);
            }
            i = i + 1;
        }
        None
    }

    /// Gets the entry of `key`, creating one with fresh identifiers on first
    /// reference: a path already cached keeps its records and identifiers.
    #[verifier::loop_isolation(false)]
    pub fn ensure_item(&mut self, key: &Vec<u8>) -> (i: usize)
        requires
            old(self).wf(),
        ensures
            final(self).wf(),
            final(self).spec_strict() == old(self).spec_strict(),
            i < final(self).entries().len(),
            final(self).entries()[i as int].0@ == key@,
            it_contains(final(self).entries(), key@),
            it_contains(old(self).entries(), key@) ==> final(self).entries() == old(
                self,
            ).entries(),
            !it_contains(old(self).entries(), key@) ==> {
                let it = it_at(final(self).entries(), key@);
                &&& it.resources@.len() == 0
                &&& it.intermediates@.len() == 0
                &&& it.file.modified && it.file.checksum == 0 && it.file.last_modified_time == 0
                &&& it.metafile.modified && it.metafile.checksum == 0
                    && it.metafile.last_modified_time == 0
            },
            forall|k2: Seq<u8>|
                k2 != key@ ==> (it_contains(final(self).entries(), k2) <==> it_contains(
                    old(self).entries(),
                    k2,
                )),
            forall|k2: Seq<u8>|
                k2 != key@ && it_contains(old(self).entries(), k2) ==> it_at(
                    final(self).entries(),
                    k2,
                ) == it_at(old(self).entries(), k2),
    {
        let found = self.find(key);
        match found {
            Some(i) => i,
            None => {
                let ghost pre = self.assets@;
                let item = AssetCacheItem {
                    file: Metadata::new(fresh_uuid()),
                    metafile: Metadata::new(fresh_uuid()),
                    resources: Vec::new(),
                    intermediates: Vec::new(),
                };
                let ghost item_g = item;
                let kk = crate::assbin::clone_bytes(key);
                self.assets.push((kk, item));
                proof {
                    assert forall|a: int, b: int|
                        0 <= a < b < self.assets@.len() implies (#[trigger] self.assets@[a]).0@
                        != (#[trigger] self.assets@[b]).0@ by {
                        if b == pre.len() {
                            assert(!it_contains(pre, key@));
                            assert(self.assets@[a].0@ == pre[a].0@);
                        }
                    }
                    assert(self.assets@[pre.len() as int].0@ == key@);
                    let j = it_idx(self.assets@, key@);
                    assert(0 <= j < self.assets@.len() && self.assets@[j].0@ == key@);
                    if j < pre.len() {
                        assert(pre[j].0@ == key@);
                    }
                    assert(it_at(self.assets@, key@) == item_g);
                    assert forall|k2: Seq<u8>| k2 != key@ implies (it_contains(self.assets@, k2)
                        <==> it_contains(pre, k2)) by {
                        if it_contains(self.assets@, k2) {
                            let w = choose|w: int|
                                0 <= w < self.assets@.len() && (#[trigger] self.assets@[w]).0@
                                    == k2;
                            assert(w < pre.len() && pre[w].0@ == k2);
                        }
                        if it_contains(pre, k2) {
                            let w = choose|w: int|
                                0 <= w < pre.len() && (#[trigger] pre[w]).0@ == k2;
                            assert(self.assets@[w].0@ == k2);
                        }
                    }
                    assert forall|k2: Seq<u8>| k2 != key@ && it_contains(pre, k2) implies it_at(
                        self.assets@,
                        k2,
                    ) == it_at(pre, k2) by {
                        let j1 = it_idx(pre, k2);
                        assert(0 <= j1 < pre.len() && pre[j1].0@ == k2);
                        assert(it_contains(self.assets@, k2));
                        let j2 = it_idx(self.assets@, k2);
                        assert(0 <= j2 < self.assets@.len() && self.assets@[j2].0@ == k2);
                        assert(j2 != pre.len() as int);
                        assert(self.assets@[j1].0@ == k2);
                        if j1 != j2 {
                            assert(self.assets@[j1].0@ == k2 && self.assets@[j2].0@ == k2);
                        }
                    }
                }
                self.assets.len() - 1
            },
        }
    }
}

/// Values at other keys survive an in-place update of the entry at `i`.
proof fn lemma_it_update_others(
    pre: Seq<(Vec<u8>, AssetCacheItem)>,
    post: Seq<(Vec<u8>, AssetCacheItem)>,
    k: Seq<u8>,
    i: int,
)
    requires
        it_unique(pre),
        pre.len() == post.len(),
        0 <= i < pre.len(),
        pre[i].0@ == k,
        post[i].0@ == k,
        forall|j: int| 0 <= j < pre.len() && j != i ==> post[j] == pre[j],
    ensures
        it_unique(post),
        it_contains(post, k),
        it_idx(post, k) == i,
        it_at(post, k) == post[i].1,
        forall|k2: Seq<u8>| k2 != k ==> (it_contains(post, k2) <==> it_contains(pre, k2)),
        forall|k2: Seq<u8>| k2 != k && it_contains(pre, k2) ==> it_at(post, k2) == it_at(pre, k2),
{
    assert forall|a: int, b: int|
        0 <= a < b < post.len() implies (#[trigger] post[a]).0@ != (#[trigger] post[b]).0@ by {
        assert(post[a].0@ == pre[a].0@ && post[b].0@ == pre[b].0@);
    }
    assert(post[i].0@ == k);
    let j = it_idx(post, k);
    assert(0 <= j < post.len() && post[j].0@ == k);
    if j != i {
        assert(pre[j].0@ == k && pre[i].0@ == k);
    }
    assert forall|k2: Seq<u8>| k2 != k implies (it_contains(post, k2) <==> it_contains(
        pre,
        k2,
    )) by {
        if it_contains(post, k2) {
            let w = choose|w: int| 0 <= w < post.len() && (#[trigger] post[w]).0@ == k2;
            assert(pre[w].0@ == k2);
        }
        if it_contains(pre, k2) {
            let w = choose|w: int| 0 <= w < pre.len() && (#[trigger] pre[w]).0@ == k2;
            assert(post[w].0@ == k2);
        }
    }
    assert forall|k2: Seq<u8>| k2 != k && it_contains(pre, k2) implies it_at(post, k2) == it_at(
        pre,
        k2,
    ) by {
        let j1 = it_idx(pre, k2);
        assert(0 <= j1 < pre.len() && pre[j1].0@ == k2);
        assert(j1 != i);
        assert(post[j1].0@ == k2);
        assert(it_contains(post, k2));
        let j2 = it_idx(post, k2);
        assert(0 <= j2 < post.len() && post[j2].0@ == k2);
        if j2 != j1 {
            assert(pre[j2].0@ == k2);
        }
    }
}

/// Which record of an entry an operation addresses.
pub enum Slot {
    File,
    Metafile,
    Intermediate(Vec<u8>),
    Resource(Vec<u8>),
}

/// The record a slot holds in an entry, where it is present.
pub open spec fn slot_at(it: AssetCacheItem, slot: Slot) -> Metadata {
    match slot {
        Slot::File => it.file,
        Slot::Metafile => it.metafile,
        Slot::Intermediate(n) => md_at(it.intermediates@, n@),
        Slot::Resource(n) => md_at(it.resources@, n@),
    }
}

pub open spec fn slot_present(it: AssetCacheItem, slot: Slot) -> bool {
    match slot {
        Slot::File => true,
        Slot::Metafile => true,
        Slot::Intermediate(n) => md_contains(it.intermediates@, n@),
        Slot::Resource(n) => md_contains(it.resources@, n@),
    }
}

impl AssetCache {
    /// Gets the record of one slot of `key`, creating the entry or the named
    /// record on first reference, and marks it dirty when the caller is
    /// about to write the artifact. An entry or record already present keeps
    /// its identifier, whatever the new reference does.
    #[verifier::loop_isolation(false)]
    pub fn touch(&mut self, key: &Vec<u8>, slot: &Slot, writable: bool) -> (r: Metadata)
        requires
            old(self).wf(),
        ensures
            final(self).wf(),
            final(self).spec_strict() == old(self).spec_strict(),
            it_contains(final(self).entries(), key@),
            slot_present(it_at(final(self).entries(), key@), *slot),
            r == slot_at(it_at(final(self).entries(), key@), *slot),
            it_contains(old(self).entries(), key@) && slot_present(
                it_at(old(self).entries(), key@),
                *slot,
            ) ==> r == touched(slot_at(it_at(old(self).entries(), key@), *slot), writable),
            !(it_contains(old(self).entries(), key@) && slot_present(
                it_at(old(self).entries(), key@),
                *slot,
            )) ==> r.checksum == 0 && r.last_modified_time == 0 && r.modified,
            forall|k2: Seq<u8>|
                k2 != key@ ==> (it_contains(final(self).entries(), k2) <==> it_contains(
                    old(self).entries(),
                    k2,
                )),
            forall|k2: Seq<u8>|
                k2 != key@ && it_contains(old(self).entries(), k2) ==> it_at(
                    final(self).entries(),
                    k2,
                ) == it_at(old(self).entries(), k2),
    {
        let i = self.ensure_item(key);
        let ghost mid = self.assets@;
        proof {
            let j = it_idx(mid, key@);
            assert(0 <= j < mid.len() && mid[j].0@ == key@);
            assert(j == i);
        }
        let r: Metadata;
        match slot {
            Slot::File => {
                if writable {
                    self.assets[i].1.file.modified = true;
                }
                r = self.assets[i].1.file;
            },
            Slot::Metafile => {
                if writable {
                    self.assets[i].1.metafile.modified = true;
                }
                r = self.assets[i].1.metafile;
            },
            Slot::Intermediate(name) => {
                r = md_touch(&mut self.assets[i].1.intermediates, name, writable);
            },
            Slot::Resource(name) => {
                r = md_touch(&mut self.assets[i].1.resources, name, writable);
            },
        }
        proof {
            lemma_it_update_others(mid, self.assets@, key@, i as int);
            if it_contains(old(self).entries(), key@) {
                let j0 = it_idx(old(self).entries(), key@);
                assert(0 <= j0 < old(self).entries().len() && old(self).entries()[j0].0@ == key@);
                assert(j0 == i);
            }
        }
        r
    }

    /// Puts a persisted record back into one slot of `key`, creating the
    /// entry or the named record as needed: how a cache read from disk is
    /// rebuilt before the first scan.
    #[verifier::loop_isolation(false)]
    pub fn restore_slot(&mut self, key: &Vec<u8>, slot: &Slot, md: Metadata)
        requires
            old(self).wf(),
        ensures
            final(self).wf(),
            final(self).spec_strict() == old(self).spec_strict(),
            it_contains(final(self).entries(), key@),
            slot_present(it_at(final(self).entries(), key@), *slot),
            slot_at(it_at(final(self).entries(), key@), *slot) == md,
            forall|k2: Seq<u8>|
                k2 != key@ ==> (it_contains(final(self).entries(), k2) <==> it_contains(
                    old(self).entries(),
                    k2,
                )),
            forall|k2: Seq<u8>|
                k2 != key@ && it_contains(old(self).entries(), k2) ==> it_at(
                    final(self).entries(),
                    k2,
                ) == it_at(old(self).entries(), k2),
    {
        let i = self.ensure_item(key);
        let ghost mid = self.assets@;
        proof {
            let j = it_idx(mid, key@);
            assert(0 <= j < mid.len() && mid[j].0@ == key@);
            assert(j == i);
        }
        match slot {
            Slot::File => {
                self.assets[i].1.file = md;
            },
            Slot::Metafile => {
                self.assets[i].1.metafile = md;
            },
            Slot::Intermediate(name) => {
                md_touch(&mut self.assets[i].1.intermediates, name, false);
                md_set(&mut self.assets[i].1.intermediates, name, md);
            },
            Slot::Resource(name) => {
                md_touch(&mut self.assets[i].1.resources, name, false);
                md_set(&mut self.assets[i].1.resources, name, md);
            },
        }
        proof {
            lemma_it_update_others(mid, self.assets@, key@, i as int);
        }
    }

    /// Applies one filesystem observation to one slot of `key`, exactly as
    /// `spec_checked` describes, in the cache's own mode.
    #[verifier::loop_isolation(false)]
    pub fn check_slot(&mut self, key: &Vec<u8>, slot: &Slot, obs: &Observation)
        requires
            old(self).wf(),
            it_contains(old(self).entries(), key@),
            slot_present(it_at(old(self).entries(), key@), *slot),
            obs_ok(*obs, old(self).spec_strict()),
        ensures
            final(self).wf(),
            final(self).spec_strict() == old(self).spec_strict(),
            it_contains(final(self).entries(), key@),
            slot_present(it_at(final(self).entries(), key@), *slot),
            slot_at(it_at(final(self).entries(), key@), *slot) == spec_checked(
                slot_at(it_at(old(self).entries(), key@), *slot),
                *obs,
                old(self).spec_strict(),
            ),
            forall|k2: Seq<u8>|
                k2 != key@ ==> (it_contains(final(self).entries(), k2) <==> it_contains(
                    old(self).entries(),
                    k2,
                )),
            forall|k2: Seq<u8>|
                k2 != key@ && it_contains(old(self).entries(), k2) ==> it_at(
                    final(self).entries(),
                    k2,
                ) == it_at(old(self).entries(), k2),
    {
        let strict = self.strict;
        let found = self.find(key);
        let i = match found {
            Some(i) => i,
            None => {
                proof {
                    assert(false);
                }
                0
            },
        };
        let ghost mid = self.assets@;
        proof {
            let j = it_idx(mid, key@);
            assert(0 <= j < mid.len() && mid[j].0@ == key@);
            assert(j == i);
        }
        match slot {
            Slot::File => {
                let mut md = self.assets[i].1.file;
                md.check(obs, strict);
                self.assets[i].1.file = md;
            },
            Slot::Metafile => {
                let mut md = self.assets[i].1.metafile;
                md.check(obs, strict);
                self.assets[i].1.metafile = md;
            },
            Slot::Intermediate(name) => {
                md_check(&mut self.assets[i].1.intermediates, name, obs, strict);
            },
            Slot::Resource(name) => {
                md_check(&mut self.assets[i].1.resources, name, obs, strict);
            },
        }
        proof {
            lemma_it_update_others(mid, self.assets@, key@, i as int);
        }
    }

    /// The intermediate names of `key`'s entry, for the driver to walk.
    pub fn intermediate_names(&self, key: &Vec<u8>) -> (r: Vec<Vec<u8>>)
        requires
            self.wf(),
        ensures
            it_contains(self.entries(), key@) ==> {
                let tbl = it_at(self.entries(), key@).intermediates@;
                r@.len() == tbl.len() && forall|i: int|
                    0 <= i < r@.len() ==> (#[trigger] r@[i])@ == tbl[i].0@
            },
            !it_contains(self.entries(), key@) ==> r@.len() == 0,
    {
        let found = self.find(key);
        match found {
            Some(i) => {
                proof {
                    let j = it_idx(self.entries(), key@);
                    assert(0 <= j < self.entries().len() && self.entries()[j].0@ == key@);
                    assert(j == i);
                }
                let tbl = &self.assets[i].1.intermediates;
                let n = tbl.len();
                let mut r: Vec<Vec<u8>> = Vec::new();
                let mut q: usize = 0;
                while q < n
                    invariant
                        q <= n,
                        n == tbl@.len(),
                        r@.len() == q,
                        forall|w: int| 0 <= w < q ==> (#[trigger] r@[w])@ == tbl@[w].0@,
                    decreases n - q,
                {
                    r.push(crate::assbin::clone_bytes(&tbl[q].0));
                    q = q + 1;
                }
                r
            },
            None => Vec::new(),
        }
    }

    /// The resource names of `key`'s entry, for the driver to walk.
    pub fn resource_names(&self, key: &Vec<u8>) -> (r: Vec<Vec<u8>>)
        requires
            self.wf(),
        ensures
            it_contains(self.entries(), key@) ==> {
                let tbl = it_at(self.entries(), key@).resources@;
                r@.len() == tbl.len() && forall|i: int|
                    0 <= i < r@.len() ==> (#[trigger] r@[i])@ == tbl[i].0@
            },
            !it_contains(self.entries(), key@) ==> r@.len() == 0,
    {
        let found = self.find(key);
        match found {
            Some(i) => {
                proof {
                    let j = it_idx(self.entries(), key@);
                    assert(0 <= j < self.entries().len() && self.entries()[j].0@ == key@);
                    assert(j == i);
                }
                let tbl = &self.assets[i].1.resources;
                let n = tbl.len();
                let mut r: Vec<Vec<u8>> = Vec::new();
                let mut q: usize = 0;
                while q < n
                    invariant
                        q <= n,
                        n == tbl@.len(),
                        r@.len() == q,
                        forall|w: int| 0 <= w < q ==> (#[trigger] r@[w])@ == tbl@[w].0@,
                    decreases n - q,
                {
                    r.push(crate::assbin::clone_bytes(&tbl[q].0));
                    q = q + 1;
                }
                r
            },
            None => Vec::new(),
        }
    }

    /// Drops every entry whose source path is no longer in the live set:
    /// after the call the cache references exactly the cached paths that are
    /// still live, each with its entry unchanged.
    #[verifier::loop_isolation(false)]
    pub fn retain_assets(&mut self, live: &Vec<Vec<u8>>)
        requires
            old(self).wf(),
        ensures
            final(self).wf(),
            final(self).spec_strict() == old(self).spec_strict(),
            forall|k: Seq<u8>|
                it_contains(final(self).entries(), k) <==> (it_contains(old(self).entries(), k)
                    && spec_has_key(live@, k)),
            forall|k: Seq<u8>|
                it_contains(final(self).entries(), k) ==> it_at(final(self).entries(), k) == it_at(
                    old(self).entries(),
                    k,
                ),
    {
        let ghost orig = self.assets@;
        let mut kept: Vec<(Vec<u8>, AssetCacheItem)> = Vec::new();
        while self.assets.len() > 0
            invariant
                self.spec_strict() == old(self).spec_strict(),
                it_unique(self.assets@),
                it_all_wf(self.assets@),
                it_unique(kept@),
                it_all_wf(kept@),
                forall|k: Seq<u8>| !(it_contains(self.assets@, k) && it_contains(kept@, k)),
                forall|k: Seq<u8>|
                    it_contains(self.assets@, k) || it_contains(kept@, k) ==> it_contains(orig, k),
                forall|k: Seq<u8>|
                    it_contains(orig, k) && spec_has_key(live@, k) ==> (it_contains(
                        self.assets@,
                        k,
                    ) || it_contains(kept@, k)),
                forall|k: Seq<u8>|
                    it_contains(self.assets@, k) ==> it_at(self.assets@, k) == it_at(orig, k),
                forall|k: Seq<u8>| it_contains(kept@, k) ==> it_at(kept@, k) == it_at(orig, k),
                forall|k: Seq<u8>| it_contains(kept@, k) ==> spec_has_key(live@, k),
            decreases self.assets@.len(),
        {
            let ghost pre = self.assets@;
            let ghost kpre = kept@;
            let entry = match self.assets.pop() {
                Some(e) => e,
                None => {
                    proof {
                        assert(false);
                    }
                    return ;
                },
            };
            proof {
                assert(entry == pre.last());
                assert(self.assets@ =~= pre.drop_last());
                assert forall|k: Seq<u8>| it_contains(self.assets@, k) implies it_contains(
                    pre,
                    k,
                ) by {
                    let w = choose|w: int|
                        0 <= w < self.assets@.len() && (#[trigger] self.assets@[w]).0@ == k;
                    assert(pre[w].0@ == k);
                }
                assert forall|k: Seq<u8>|
                    it_contains(pre, k) implies (it_contains(self.assets@, k) || k
                    == entry.0@) by {
                    let w = choose|w: int| 0 <= w < pre.len() && (#[trigger] pre[w]).0@ == k;
                    if w < pre.len() - 1 {
                        assert(self.assets@[w].0@ == k);
                    }
                }
                assert(it_contains(pre, entry.0@));
                assert(!it_contains(self.assets@, entry.0@)) by {
                    if it_contains(self.assets@, entry.0@) {
                        let w = choose|w: int|
                            0 <= w < self.assets@.len() && (#[trigger] self.assets@[w]).0@
                                == entry.0@;
                        assert(pre[w].0@ == entry.0@ && pre[pre.len() - 1].0@ == entry.0@);
                    }
                };
                assert(it_at(pre, entry.0@) == entry.1) by {
                    let j = it_idx(pre, entry.0@);
                    assert(0 <= j < pre.len() && pre[j].0@ == entry.0@);
                    if j != pre.len() - 1 {
                        assert(pre[j].0@ == entry.0@ && pre[pre.len() - 1].0@ == entry.0@);
                    }
                };
            }
            let ghost ek = entry.0@;
            let ghost ev = entry.1;
            if has_key(live, &entry.0) {
                kept.push(entry);
                proof {
                    assert forall|a: int, b: int|
                        0 <= a < b < kept@.len() implies (#[trigger] kept@[a]).0@
                        != (#[trigger] kept@[b]).0@ by {
                        if b == kpre.len() {
                            assert(!it_contains(kpre, ek));
                            assert(kept@[a].0@ == kpre[a].0@);
                        }
                    }
                    assert(it_contains(kept@, ek)) by {
                        assert(kept@[kpre.len() as int].0@ == ek);
                    };
                    assert forall|k: Seq<u8>| it_contains(kept@, k) implies (it_contains(kpre, k)
                        || k == ek) by {
                        let w = choose|w: int| 0 <= w < kept@.len() && (#[trigger] kept@[w]).0@ == k;
                        if w < kpre.len() {
                            assert(kpre[w].0@ == k);
                        }
                    }
                    assert forall|k: Seq<u8>| it_contains(kpre, k) implies it_contains(
                        kept@,
                        k,
                    ) by {
                        let w = choose|w: int| 0 <= w < kpre.len() && (#[trigger] kpre[w]).0@ == k;
                        assert(kept@[w].0@ == k);
                    }
                    assert forall|k: Seq<u8>| it_contains(kept@, k) implies it_at(kept@, k)
                        == it_at(orig, k) by {
                        let j = it_idx(kept@, k);
                        assert(0 <= j < kept@.len() && kept@[j].0@ == k);
                        if j < kpre.len() {
                            assert(kpre[j].0@ == k);
                            assert(it_contains(kpre, k));
                            let j0 = it_idx(kpre, k);
                            if j0 != j {
                                assert(kpre[j0].0@ == k && kpre[j].0@ == k);
                            }
                            assert(it_at(kpre, k) == kpre[j].1);
                            assert(kept@[j].1 == kpre[j].1);
                            assert(it_at(kept@, k) == kept@[j].1);
                        } else {
                            assert(k == ek);
                            assert(it_at(kept@, k) == ev);
                            assert(it_at(pre, ek) == ev);
                        }
                    }
                    assert(it_all_wf(kept@)) by {
                        assert(forall|i: int|
                            0 <= i < kpre.len() ==> (#[trigger] kept@[i]).1 == kpre[i].1);
                        assert(kept@[kpre.len() as int].1 == ev);
                        assert(it_at(pre, ek) == ev && it_contains(pre, ek));
                        let j = it_idx(pre, ek);
                        assert(pre[j].1.wf());
                    };
                }
            } else {
                proof {
                    assert(!spec_has_key(live@, ek));
                }
            }
            proof {
                assert forall|k: Seq<u8>| it_contains(kept@, k) implies (it_contains(kpre, k) || k
                    == ek) by {
                    let w = choose|w: int| 0 <= w < kept@.len() && (#[trigger] kept@[w]).0@ == k;
                    if w < kpre.len() {
                        assert(kpre[w].0@ == k);
                    }
                }
                assert forall|k: Seq<u8>|
                    !(it_contains(self.assets@, k) && it_contains(kept@, k)) by {
                    if it_contains(self.assets@, k) {
                        assert(it_contains(pre, k));
                        assert(k != ek);
                        if it_contains(kept@, k) {
                            assert(it_contains(kpre, k));
                        }
                    }
                }
            }
        }
        self.assets = kept;
    }

    /// Drops, from `key`'s entry, every resource record whose name is no
    /// longer in the asset's current resource list; other slots and other
    /// entries stay as they are.
    #[verifier::loop_isolation(false)]
    pub fn retain_resources(&mut self, key: &Vec<u8>, names: &Vec<Vec<u8>>)
        requires
            old(self).wf(),
        ensures
            final(self).wf(),
            final(self).spec_strict() == old(self).spec_strict(),
            forall|k2: Seq<u8>|
                it_contains(final(self).entries(), k2) <==> it_contains(old(self).entries(), k2),
            forall|k2: Seq<u8>|
                k2 != key@ && it_contains(old(self).entries(), k2) ==> it_at(
                    final(self).entries(),
                    k2,
                ) == it_at(old(self).entries(), k2),
            it_contains(old(self).entries(), key@) ==> {
                let pre = it_at(old(self).entries(), key@);
                let post = it_at(final(self).entries(), key@);
                &&& post.file == pre.file
                &&& post.metafile == pre.metafile
                &&& post.intermediates == pre.intermediates
                &&& forall|n: Seq<u8>|
                    md_contains(post.resources@, n) <==> (md_contains(pre.resources@, n)
                        && spec_has_key(names@, n))
                &&& forall|n: Seq<u8>|
                    md_contains(post.resources@, n) ==> md_at(post.resources@, n) == md_at(
                        pre.resources@,
                        n,
                    )
            },
    {
        let found = self.find(key);
        let i = match found {
            Some(i) => i,
            None => {
                return ;
            },
        };
        let ghost mid = self.assets@;
        proof {
            let j = it_idx(mid, key@);
            assert(0 <= j < mid.len() && mid[j].0@ == key@);
            assert(j == i);
        }
        let mut table: Vec<(Vec<u8>, Metadata)> = Vec::new();
        std::mem::swap(&mut table, &mut self.assets[i].1.resources);
        let ghost orig = table@;
        let mut kept: Vec<(Vec<u8>, Metadata)> = Vec::new();
        while table.len() > 0
            invariant
                md_unique(table@),
                md_unique(kept@),
                forall|n: Seq<u8>| !(md_contains(table@, n) && md_contains(kept@, n)),
                forall|n: Seq<u8>|
                    md_contains(table@, n) || md_contains(kept@, n) ==> md_contains(orig, n),
                forall|n: Seq<u8>|
                    md_contains(orig, n) && spec_has_key(names@, n) ==> (md_contains(table@, n)
                        || md_contains(kept@, n)),
                forall|n: Seq<u8>|
                    md_contains(table@, n) ==> md_at(table@, n) == md_at(orig, n),
                forall|n: Seq<u8>| md_contains(kept@, n) ==> md_at(kept@, n) == md_at(orig, n),
                forall|n: Seq<u8>| md_contains(kept@, n) ==> spec_has_key(names@, n),
            decreases table@.len(),
        {
            let ghost pre = table@;
            let ghost kpre = kept@;
            let entry = match table.pop() {
                Some(e) => e,
                None => {
                    proof {
                        assert(false);
                    }
                    break ;
                },
            };
            proof {
                assert(entry == pre.last());
                assert(table@ =~= pre.drop_last());
                assert forall|n: Seq<u8>| md_contains(table@, n) implies md_contains(pre, n) by {
                    let w = choose|w: int|
                        0 <= w < table@.len() && (#[trigger] table@[w]).0@ == n;
                    assert(pre[w].0@ == n);
                }
                assert forall|n: Seq<u8>| md_contains(pre, n) implies (md_contains(
                    table@,
                    n,
                ) || n == entry.0@) by {
                    let w = choose|w: int| 0 <= w < pre.len() && (#[trigger] pre[w]).0@ == n;
                    if w < pre.len() - 1 {
                        assert(table@[w].0@ == n);
                    }
                }
                assert(md_contains(pre, entry.0@));
                assert(!md_contains(table@, entry.0@)) by {
                    if md_contains(table@, entry.0@) {
                        let w = choose|w: int|
                            0 <= w < table@.len() && (#[trigger] table@[w]).0@ == entry.0@;
                        assert(pre[w].0@ == entry.0@ && pre[pre.len() - 1].0@ == entry.0@);
                    }
                };
                assert(md_at(pre, entry.0@) == entry.1) by {
                    let j = md_idx(pre, entry.0@);
                    assert(0 <= j < pre.len() && pre[j].0@ == entry.0@);
                    if j != pre.len() - 1 {
                        assert(pre[j].0@ == entry.0@ && pre[pre.len() - 1].0@ == entry.0@);
                    }
                };
            }
            let ghost ek = entry.0@;
            let ghost ev = entry.1;
            if has_key(names, &entry.0) {
                kept.push(entry);
                proof {
                    assert forall|a: int, b: int|
                        0 <= a < b < kept@.len() implies (#[trigger] kept@[a]).0@
                        != (#[trigger] kept@[b]).0@ by {
                        if b == kpre.len() {
                            assert(!md_contains(kpre, ek));
                            assert(kept@[a].0@ == kpre[a].0@);
                        }
                    }
                    assert(md_contains(kept@, ek)) by {
                        assert(kept@[kpre.len() as int].0@ == ek);
                    };
                    assert forall|n: Seq<u8>| md_contains(kept@, n) implies (md_contains(kpre, n)
                        || n == ek) by {
                        let w = choose|w: int| 0 <= w < kept@.len() && (#[trigger] kept@[w]).0@ == n;
                        if w < kpre.len() {
                            assert(kpre[w].0@ == n);
                        }
                    }
                    assert forall|n: Seq<u8>| md_contains(kpre, n) implies md_contains(
                        kept@,
                        n,
                    ) by {
                        let w = choose|w: int| 0 <= w < kpre.len() && (#[trigger] kpre[w]).0@ == n;
                        assert(kept@[w].0@ == n);
                    }
                    assert forall|n: Seq<u8>| md_contains(kept@, n) implies md_at(kept@, n)
                        == md_at(orig, n) by {
                        let j = md_idx(kept@, n);
                        assert(0 <= j < kept@.len() && kept@[j].0@ == n);
                        if j < kpre.len() {
                            assert(kpre[j].0@ == n);
                            assert(md_contains(kpre, n));
                            let j0 = md_idx(kpre, n);
                            if j0 != j {
                                assert(kpre[j0].0@ == n && kpre[j].0@ == n);
                            }
                            assert(md_at(kpre, n) == kpre[j].1);
                            assert(kept@[j].1 == kpre[j].1);
                            assert(md_at(kept@, n) == kept@[j].1);
                        } else {
                            assert(n == ek);
                            assert(md_at(kept@, n) == ev);
                            assert(md_at(pre, ek) == ev);
                        }
                    }
                }
            } else {
                proof {
                    assert(!spec_has_key(names@, ek));
                }
            }
            proof {
                assert forall|n: Seq<u8>| md_contains(kept@, n) implies (md_contains(kpre, n) || n
                    == ek) by {
                    let w = choose|w: int| 0 <= w < kept@.len() && (#[trigger] kept@[w]).0@ == n;
                    if w < kpre.len() {
                        assert(kpre[w].0@ == n);
                    }
                }
                assert forall|n: Seq<u8>| !(md_contains(table@, n) && md_contains(kept@, n)) by {
                    if md_contains(table@, n) {
                        assert(md_contains(pre, n));
                        assert(n != ek);
                        if md_contains(kept@, n) {
                            assert(md_contains(kpre, n));
                        }
                    }
                }
            }
        }
        self.assets[i].1.resources = kept;
        proof {
            lemma_it_update_others(mid, self.assets@, key@, i as int);
        }
    }
}

/// True when some entry of the cache owns the blob file named `f`: an
/// intermediate record derives its name with the extension of its own name,
/// a resource record from its identifier alone.
pub open spec fn owns_blob(s: Seq<(Vec<u8>, AssetCacheItem)>, f: Seq<u8>) -> bool {
    exists|i: int, j: int|
        #![trigger s[i].1.intermediates@[j]]
        #![trigger s[i].1.resources@[j]]
        0 <= i < s.len() && ((0 <= j < s[i].1.intermediates@.len() && f == spec_blob_name(
            s[i].1.intermediates@[j].1.uuid,
            spec_extension(s[i].1.intermediates@[j].0@),
        )) || (0 <= j < s[i].1.resources@.len() && f == spec_blob_name(
            s[i].1.resources@[j].1.uuid,
            None,
        )))
}

impl AssetCache {
    /// The derived file names of every blob a cache entry still references:
    /// what the collector keeps; every other file in the cache directory is
    /// dead. Each name in the result is owned by some entry, and every
    /// record's name is in the result.
    #[verifier::loop_isolation(false)]
    pub fn live_blob_names(&self) -> (r: Vec<Vec<u8>>)
        ensures
            forall|q: int| 0 <= q < r@.len() ==> owns_blob(self.entries(), (#[trigger] r@[q])@),
            forall|i: int, j: int|
                #![trigger self.entries()[i].1.intermediates@[j]]
                0 <= i < self.entries().len() && 0 <= j
                    < self.entries()[i].1.intermediates@.len() ==> spec_has_key(
                    r@,
                    spec_blob_name(
                        self.entries()[i].1.intermediates@[j].1.uuid,
                        spec_extension(self.entries()[i].1.intermediates@[j].0@),
                    ),
                ),
            forall|i: int, j: int|
                #![trigger self.entries()[i].1.resources@[j]]
                0 <= i < self.entries().len() && 0 <= j < self.entries()[i].1.resources@.len()
                    ==> spec_has_key(
                    r@,
                    spec_blob_name(self.entries()[i].1.resources@[j].1.uuid, None),
                ),
    {
        let n = self.assets.len();
        let mut r: Vec<Vec<u8>> = Vec::new();
        let mut i: usize = 0;
        while i < n
            invariant
                i <= n,
                n == self.entries().len(),
                forall|q: int| 0 <= q < r@.len() ==> owns_blob(self.entries(), (#[trigger] r@[q])@),
                forall|a: int, j: int|
                    #![trigger self.entries()[a].1.intermediates@[j]]
                    0 <= a < i && 0 <= j < self.entries()[a].1.intermediates@.len()
                        ==> spec_has_key(
                        r@,
                        spec_blob_name(
                            self.entries()[a].1.intermediates@[j].1.uuid,
                            spec_extension(self.entries()[a].1.intermediates@[j].0@),
                        ),
                    ),
                forall|a: int, j: int|
                    #![trigger self.entries()[a].1.resources@[j]]
                    0 <= a < i && 0 <= j < self.entries()[a].1.resources@.len() ==> spec_has_key(
                        r@,
                        spec_blob_name(self.entries()[a].1.resources@[j].1.uuid, None),
                    ),
            decreases n - i,
        {
            let ghost r_snap_outer = r@;
            let m = self.assets[i].1.intermediates.len();
            let mut j: usize = 0;
            while j < m
                invariant
                    i < n,
                    j <= m,
                    n == self.entries().len(),
                    m == self.entries()[i as int].1.intermediates@.len(),
                    forall|q: int|
                        0 <= q < r@.len() ==> owns_blob(self.entries(), (#[trigger] r@[q])@),
                    forall|a: int, w: int|
                        #![trigger self.entries()[a].1.intermediates@[w]]
                        0 <= a < i && 0 <= w < self.entries()[a].1.intermediates@.len()
                            ==> spec_has_key(
                            r@,
                            spec_blob_name(
                                self.entries()[a].1.intermediates@[w].1.uuid,
                                spec_extension(self.entries()[a].1.intermediates@[w].0@),
                            ),
                        ),
                    forall|a: int, w: int|
                        #![trigger self.entries()[a].1.resources@[w]]
                        0 <= a < i && 0 <= w < self.entries()[a].1.resources@.len()
                            ==> spec_has_key(
                            r@,
                            spec_blob_name(self.entries()[a].1.resources@[w].1.uuid, None),
                        ),
                    forall|w: int|
                        0 <= w < j ==> spec_has_key(
                            r@,
                            spec_blob_name(
                                (#[trigger] self.entries()[i as int].1.intermediates@[w]).1.uuid,
                                spec_extension(self.entries()[i as int].1.intermediates@[w].0@),
                            ),
                        ),
                decreases m - j,
            {
                let ghost r_snap = r@;
                let rec = &self.assets[i].1.intermediates[j];
                let f = blob_name(rec.1.uuid, Some(&rec.0));
                r.push(f);
                proof {
                    assert(r@[r@.len() - 1]@ == spec_blob_name(
                        self.entries()[i as int].1.intermediates@[j as int].1.uuid,
                        spec_extension(self.entries()[i as int].1.intermediates@[j as int].0@),
                    ));
                    assert forall|q: int|
                        0 <= q < r@.len() implies owns_blob(
                        self.entries(),
                        (#[trigger] r@[q])@,
                    ) by {
                        if q < r_snap.len() {
                            assert(r@[q] == r_snap[q]);
                        }
                    }
                    assert forall|fk: Seq<u8>| spec_has_key(r_snap, fk) implies spec_has_key(
                        r@,
                        fk,
                    ) by {
                        let w = choose|w: int|
                            0 <= w < r_snap.len() && (#[trigger] r_snap[w])@ == fk;
                        assert(r@[w]@ == fk);
                    }
                    assert(spec_has_key(r@, r@[r@.len() - 1]@));
                }
                j = j + 1;
            }
            let m2 = self.assets[i].1.resources.len();
            let mut j2: usize = 0;
            while j2 < m2
                invariant
                    i < n,
                    j2 <= m2,
                    n == self.entries().len(),
                    m2 == self.entries()[i as int].1.resources@.len(),
                    forall|q: int|
                        0 <= q < r@.len() ==> owns_blob(self.entries(), (#[trigger] r@[q])@),
                    forall|a: int, w: int|
                        #![trigger self.entries()[a].1.intermediates@[w]]
                        0 <= a < i && 0 <= w < self.entries()[a].1.intermediates@.len()
                            ==> spec_has_key(
                            r@,
                            spec_blob_name(
                                self.entries()[a].1.intermediates@[w].1.uuid,
                                spec_extension(self.entries()[a].1.intermediates@[w].0@),
                            ),
                        ),
                    forall|a: int, w: int|
                        #![trigger self.entries()[a].1.resources@[w]]
                        0 <= a < i && 0 <= w < self.entries()[a].1.resources@.len()
                            ==> spec_has_key(
                            r@,
                            spec_blob_name(self.entries()[a].1.resources@[w].1.uuid, None),
                        ),
                    forall|w: int|
                        0 <= w < self.entries()[i as int].1.intermediates@.len()
                            ==> spec_has_key(
                            r@,
                            spec_blob_name(
                                (#[trigger] self.entries()[i as int].1.intermediates@[w]).1.uuid,
                                spec_extension(self.entries()[i as int].1.intermediates@[w].0@),
                            ),
                        ),
                    forall|w: int|
                        0 <= w < j2 ==> spec_has_key(
                            r@,
                            spec_blob_name(
                                (#[trigger] self.entries()[i as int].1.resources@[w]).1.uuid,
                                None,
                            ),
                        ),
                decreases m2 - j2,
            {
                let ghost r_snap = r@;
                let rec = &self.assets[i].1.resources[j2];
                let f = blob_name(rec.1.uuid, None);
                r.push(f);
                proof {
                    assert(r@[r@.len() - 1]@ == spec_blob_name(
                        self.entries()[i as int].1.resources@[j2 as int].1.uuid,
                        None,
                    ));
                    assert forall|q: int|
                        0 <= q < r@.len() implies owns_blob(
                        self.entries(),
                        (#[trigger] r@[q])@,
                    ) by {
                        if q < r_snap.len() {
                            assert(r@[q] == r_snap[q]);
                        }
                    }
                    assert forall|fk: Seq<u8>| spec_has_key(r_snap, fk) implies spec_has_key(
                        r@,
                        fk,
                    ) by {
                        let w = choose|w: int|
                            0 <= w < r_snap.len() && (#[trigger] r_snap[w])@ == fk;
                        assert(r@[w]@ == fk);
                    }
                    assert(spec_has_key(r@, r@[r@.len() - 1]@));
                }
                j2 = j2 + 1;
            }
            i = i + 1;
        }
        r
    }
}

/// The derived blob file name of a record: the identifier in hexadecimal,
/// with the original extension kept for intermediates.
pub open spec fn spec_blob_name(uuid: u128, name_ext: Option<Seq<u8>>) -> Seq<u8> {
    match name_ext {
        Some(e) => spec_uuid_hex(uuid) + seq![0x2Eu8] + e,
        None => spec_uuid_hex(uuid),
    }
}

/// Derives the on-disk blob name for the record of `name`: hexadecimal
/// identifier, then the extension of `name` where it has one.
pub fn blob_name(uuid: u128, name: Option<&Vec<u8>>) -> (r: Vec<u8>)
    ensures
        match name {
            Some(n) => r@ == spec_blob_name(uuid, spec_extension(n@)),
            None => r@ == spec_blob_name(uuid, None),
        },
{
    let mut r = uuid_hex(uuid);
    match name {
        Some(n) => {
            match crate::paths::extension(n) {
                Some(e) => {
                    r.push(0x2E);
                    let mut tail = e;
                    r.append(&mut tail);
                    proof {
                        assert(r@ =~= spec_blob_name(uuid, spec_extension(n@)));
                    }
                },
                None => {},
            }
        },
        None => {},
    }
    r
}

/// Two different logical entities never collide on a derived blob file
/// name: records with distinct identifiers always name distinct files, so
/// the collector never confuses one entity's blob with another's.
pub proof fn lemma_blob_names_injective(
    u1: u128,
    e1: Option<Seq<u8>>,
    u2: u128,
    e2: Option<Seq<u8>>,
)
    requires
        spec_blob_name(u1, e1) == spec_blob_name(u2, e2),
    ensures
        u1 == u2,
{
    crate::digest::lemma_hex_digits_len(u1 as nat, 32);
    crate::digest::lemma_hex_digits_len(u2 as nat, 32);
    let b1 = spec_blob_name(u1, e1);
    let b2 = spec_blob_name(u2, e2);
    assert(b1.subrange(0, 32) =~= spec_uuid_hex(u1));
    assert(b2.subrange(0, 32) =~= spec_uuid_hex(u2));
    crate::digest::lemma_uuid_hex_injective(u1, u2);
}

} // verus!
