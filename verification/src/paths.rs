use vstd::prelude::*;

verus! {

/// Normalization of a component path, or nothing where a parent reference
/// would climb out of the tree: current-directory components vanish, and a
/// parent component removes the component before it.
pub open spec fn spec_canonicalize(parts: Seq<Seq<u8>>) -> Option<Seq<Seq<u8>>>
    decreases parts.len(),
{
    if parts.len() == 0 {
        Some(Seq::empty())
    } else {
        match spec_canonicalize(parts.drop_last()) {
            None => None,
            Some(acc) => {
                let last = parts.last();
                if last == seq![0x2Eu8] {
                    Some(acc)
                } else if last == seq![0x2Eu8, 0x2Eu8] {
                    if acc.len() == 0 {
                        None
                    } else {
                        Some(acc.drop_last())
                    }
                } else {
                    Some(acc.push(last))
                }
            },
        }
    }
}

/// Normalizes a relative path given as components: `.` components are
/// dropped and `..` removes the preceding component. Paths that would climb
/// out of the assets tree are excluded by the caller.
#[verifier::loop_isolation(false)]
pub fn canonicalize(parts: &Vec<Vec<u8>>) -> (r: Vec<Vec<u8>>)
    requires
        spec_canonicalize(parts.deep_view()) is Some,
    ensures
        r.deep_view() == spec_canonicalize(parts.deep_view())->Some_0,
{
    let n = parts.len();
    let mut acc: Vec<Vec<u8>> = Vec::new();
    let mut i: usize = 0;
    while i < n
        invariant
            i <= n,
            spec_canonicalize(parts.deep_view().take(i as int)) == Some(acc.deep_view()),
        decreases n - i,
    {
        let ghost pre = parts.deep_view().take(i as int);
        let ghost acc0 = acc.deep_view();
        let p = &parts[i];
        let is_cur = p.len() == 1 && p[0] == 0x2E;
        let is_parent = p.len() == 2 && p[0] == 0x2E && p[1] == 0x2E;
        proof {
            assert(parts.deep_view().take(i + 1).drop_last() =~= pre);
            assert(parts.deep_view().take(i + 1).last() == parts.deep_view()[i as int]);
            assert(parts.deep_view()[i as int] == parts@[i as int]@);
            if is_cur {
                assert(parts@[i as int]@ =~= seq![0x2Eu8]);
            }
            if is_parent {
                assert(parts@[i as int]@ =~= seq![0x2Eu8, 0x2Eu8]);
            }
            if !is_cur && parts@[i as int]@ == seq![0x2Eu8] {
                assert(parts@[i as int]@.len() == 1 && parts@[i as int]@[0] == 0x2E);
            }
            if !is_parent && parts@[i as int]@ == seq![0x2Eu8, 0x2Eu8] {
                assert(parts@[i as int]@.len() == 2 && parts@[i as int]@[0] == 0x2E
                    && parts@[i as int]@[1] == 0x2E);
            }
        }
        if is_cur {
            // dropped
        } else if is_parent {
            proof {
                if spec_canonicalize(parts.deep_view().take(i + 1)) is None {
                    lemma_canonicalize_prefix(parts.deep_view(), i + 1);
                    assert(false);
                }
            }
            acc.pop();
            proof {
                assert(acc.deep_view() =~= acc0.drop_last());
            }
        } else {
            let c = crate::assbin::clone_bytes(p);
            acc.push(c);
            proof {
                assert(acc.deep_view() =~= acc0.push(parts@[i as int]@));
            }
        }
        i = i + 1;
    }
    proof {
        assert(parts.deep_view().take(n as int) =~= parts.deep_view());
    }
    acc
}

/// A failed normalization of a prefix fails the whole path.
pub proof fn lemma_canonicalize_prefix(parts: Seq<Seq<u8>>, i: int)
    requires
        0 <= i <= parts.len(),
        spec_canonicalize(parts.take(i)) is None,
    ensures
        spec_canonicalize(parts) is None,
    decreases parts.len() - i,
{
    if i < parts.len() {
        assert(parts.take(i + 1).drop_last() =~= parts.take(i));
        lemma_canonicalize_prefix(parts, i + 1);
    } else {
        assert(parts.take(i) =~= parts);
    }
}

/// The extension of a file name: what follows the last dot, where that dot
/// is not the leading byte.
pub open spec fn spec_extension(name: Seq<u8>) -> Option<Seq<u8>> {
    if exists|i: int| 0 < i < name.len() && name[i] == 0x2E {
        let i = last_dot(name);
        Some(name.subrange(i + 1, name.len() as int))
    } else {
        None
    }
}

/// The position of the last dot after the leading byte.
pub open spec fn last_dot(name: Seq<u8>) -> int {
    choose|i: int|
        0 < i < name.len() && name[i] == 0x2E && (forall|j: int|
            i < j < name.len() ==> name[j] != 0x2E)
}

/// Finds the extension of a file name, as its spec describes it.
#[verifier::loop_isolation(false)]
pub fn extension(name: &Vec<u8>) -> (r: Option<Vec<u8>>)
    ensures
        match r {
            Some(e) => spec_extension(name@) == Some(e@),
            None => spec_extension(name@) is None,
        },
{
    let n = name.len();
    let mut i: usize = n;
    while i > 1
        invariant
            i <= n,
            n == name@.len(),
            forall|j: int| i <= j < n ==> name@[j] != 0x2E,
        decreases i,
    {
        i = i - 1;
        if name[i] == 0x2E {
            proof {
                assert(0 < i < name@.len() && name@[i as int] == 0x2E);
                let d = last_dot(name@);
                assert(0 < d < name@.len() && name@[d] == 0x2E && (forall|j: int|
                    d < j < name@.len() ==> name@[j] != 0x2E));
                assert(d == i);
            }
            let mut e: Vec<u8> = Vec::new();
            let mut k: usize = i + 1;
            while k < n
                invariant
                    i + 1 <= k <= n,
                    n == name@.len(),
                    e@ == name@.subrange(i + 1, k as int),
                decreases n - k,
            {
                e.push(name[k]);
                proof {
                    assert(e@ =~= name@.subrange(i + 1, k + 1));
                }
                k = k + 1;
            }
            return Some(e);
        }
    }
    proof {
        if spec_extension(name@) is Some {
            let d = choose|d: int| 0 < d < name@.len() && name@[d] == 0x2E;
            assert(false);
        }
    }
    None
}

/// Well-formed split parts: at least one, none empty, none holding a
/// separator. Joining such parts is injective, so they are the one split of
/// the joined path.
pub open spec fn parts_wf(parts: Seq<Seq<u8>>) -> bool {
    &&& parts.len() > 0
    &&& forall|i: int| 0 <= i < parts.len() ==> (#[trigger] parts[i]).len() > 0
    &&& forall|i: int, j: int|
        0 <= i < parts.len() && 0 <= j < parts[i].len() ==> (#[trigger] parts[i][j]) != 0x2F
}

/// The parts joined with the path separator.
pub open spec fn spec_join(parts: Seq<Seq<u8>>) -> Seq<u8>
    decreases parts.len(),
{
    if parts.len() == 0 {
        Seq::empty()
    } else if parts.len() == 1 {
        parts[0]
    } else {
        spec_join(parts.drop_last()) + seq![0x2Fu8] + parts.last()
    }
}

/// A path with an empty component: empty, a leading or trailing separator,
/// or two separators in a row. Such a name has no well-formed split.
pub open spec fn has_empty_component(b: Seq<u8>) -> bool {
    ||| b.len() == 0
    ||| b[0] == 0x2F
    ||| b.last() == 0x2F
    ||| exists|i: int| 0 <= i < b.len() - 1 && b[i] == 0x2F && #[trigger] b[i + 1] == 0x2F
}

/// Normalizes a path-like name before it keys a cache or metadata table:
/// the name is split at separators, `.` components are dropped, `..`
/// removes the preceding component, and the result is joined back. A name
/// with an empty component, or one whose parent references climb out of the
/// tree, has no normal form.
#[verifier::loop_isolation(false)]
#[verifier::rlimit(60)]
pub fn normalize_name(name: &Vec<u8>) -> (r: Option<Vec<u8>>)
    ensures
        has_empty_component(name@) ==> r is None,
        !has_empty_component(name@) ==> exists|parts: Seq<Seq<u8>>|
            {
                &&& #[trigger] parts_wf(parts)
                &&& spec_join(parts) == name@
                &&& match spec_canonicalize(parts) {
                    None => r is None,
                    Some(cs) => r matches Some(n) && n@ == spec_join(cs),
                }
            },
{
    let n = name.len();
    if n == 0 {
        return None;
    }
    let mut parts: Vec<Vec<u8>> = Vec::new();
    let mut cur: Vec<u8> = Vec::new();
    let mut i: usize = 0;
    while i < n
        invariant
            i <= n,
            n == name@.len(),
            n > 0,
            forall|k: int| 0 <= k < parts.deep_view().len() ==> (#[trigger] parts.deep_view()[k]).len() > 0,
            forall|k: int, j: int|
                0 <= k < parts.deep_view().len() && 0 <= j < parts.deep_view()[k].len()
                    ==> (#[trigger] parts.deep_view()[k][j]) != 0x2F,
            forall|j: int| 0 <= j < cur@.len() ==> (#[trigger] cur@[j]) != 0x2F,
            parts.deep_view().len() == 0 ==> cur@ == name@.take(i as int),
            parts.deep_view().len() > 0 ==> spec_join(parts.deep_view()) + seq![0x2Fu8] + cur@
                == name@.take(i as int),
            forall|j: int|
                0 <= j < i ==> !(#[trigger] name@[j] == 0x2F && (j == 0 || name@[j - 1] == 0x2F)),
        decreases n - i,
    {
        let ghost pd = parts.deep_view();
        let ghost cd = cur@;
        let byte = name[i];
        if byte == 0x2F {
            proof {
                if cur@.len() > 0 {
                    if pd.len() == 0 {
                        assert(name@[i - 1] == cur@.last());
                    } else {
                        assert(name@.take(i as int)[i - 1] == cur@.last());
                    }
                    assert(name@[i - 1] != 0x2F);
                }
            }
            if cur.len() == 0 {
                proof {
                    if pd.len() == 0 {
                        assert(name@[0] == 0x2F);
                    } else {
                        assert(name@.take(i as int).last() == 0x2F);
                        assert(name@[i - 1] == 0x2F && name@[i as int] == 0x2F);
                        assert(has_empty_component(name@));
                    }
                }
                return None;
            }
            parts.push(cur);
            cur = Vec::new();
            proof {
                assert(parts.deep_view() =~~= pd.push(cd));
                if pd.len() == 0 {
                    assert(spec_join(parts.deep_view()) + seq![0x2Fu8] + cur@ =~= name@.take(
                        i + 1,
                    ));
                } else {
                    assert(parts.deep_view().drop_last() =~= pd);
                    assert(spec_join(parts.deep_view()) + seq![0x2Fu8] + cur@ =~= name@.take(
                        i + 1,
                    ));
                }
            }
        } else {
            cur.push(byte);
            proof {
                if pd.len() == 0 {
                    assert(cur@ =~= name@.take(i + 1));
                } else {
                    assert(spec_join(parts.deep_view()) + seq![0x2Fu8] + cur@ =~= name@.take(
                        i + 1,
                    ));
                }
            }
        }
        i = i + 1;
    }
    proof {
        assert(name@.take(n as int) =~= name@);
    }
    if cur.len() == 0 {
        proof {
            assert(name@.last() == 0x2F);
        }
        return None;
    }
    proof {
        assert(!has_empty_component(name@)) by {
            assert(name@.len() > 0);
            assert(name@[0] != 0x2F);
            if name@.last() == 0x2F {
                if parts.deep_view().len() == 0 {
                    assert(name@.take(n as int).last() == cur@.last());
                } else {
                    assert(name@.take(n as int)[n - 1] == cur@.last());
                }
            }
            if exists|i: int| 0 <= i < name@.len() - 1 && name@[i] == 0x2F && #[trigger] name@[i
                + 1] == 0x2F {
                let i = choose|i: int|
                    0 <= i < name@.len() - 1 && name@[i] == 0x2F && #[trigger] name@[i + 1]
                        == 0x2F;
                assert(!(name@[i + 1] == 0x2F && (i + 1 == 0 || name@[i + 1 - 1] == 0x2F)));
            }
        };
    }
    let ghost pd = parts.deep_view();
    let ghost cd = cur@;
    parts.push(cur);
    proof {
        assert(parts.deep_view() =~~= pd.push(cd));
        if pd.len() > 0 {
            assert(parts.deep_view().drop_last() =~= pd);
        }
        assert(spec_join(parts.deep_view()) == name@);
        assert(parts_wf(parts.deep_view()));
    }
    let ghost full = parts.deep_view();
    // Normalize the component list, refusing a climb out of the tree.
    let m = parts.len();
    let mut acc: Vec<Vec<u8>> = Vec::new();
    let mut k: usize = 0;
    while k < m
        invariant
            k <= m,
            m == full.len(),
            parts.deep_view() == full,
            spec_canonicalize(full.take(k as int)) == Some(acc.deep_view()),
        decreases m - k,
    {
        let ghost acc0 = acc.deep_view();
        let p = &parts[k];
        let is_cur = p.len() == 1 && p[0] == 0x2E;
        let is_parent = p.len() == 2 && p[0] == 0x2E && p[1] == 0x2E;
        proof {
            assert(full.take(k + 1).drop_last() =~= full.take(k as int));
            assert(full.take(k + 1).last() == full[k as int]);
            assert(full[k as int] == parts@[k as int]@);
            if is_cur {
                assert(parts@[k as int]@ =~= seq![0x2Eu8]);
            }
            if is_parent {
                assert(parts@[k as int]@ =~= seq![0x2Eu8, 0x2Eu8]);
            }
            if !is_cur && parts@[k as int]@ == seq![0x2Eu8] {
                assert(parts@[k as int]@.len() == 1 && parts@[k as int]@[0] == 0x2E);
            }
            if !is_parent && parts@[k as int]@ == seq![0x2Eu8, 0x2Eu8] {
                assert(parts@[k as int]@.len() == 2 && parts@[k as int]@[0] == 0x2E
                    && parts@[k as int]@[1] == 0x2E);
            }
        }
        if is_cur {
            // dropped
        } else if is_parent {
            if acc.len() == 0 {
                proof {
                    assert(spec_canonicalize(full.take(k + 1)) is None);
                    lemma_canonicalize_prefix(full, k + 1);
                }
                return None;
            }
            acc.pop();
            proof {
                assert(acc.deep_view() =~= acc0.drop_last());
            }
        } else {
            let c = crate::assbin::clone_bytes(p);
            acc.push(c);
            proof {
                assert(acc.deep_view() =~= acc0.push(parts@[k as int]@));
            }
        }
        k = k + 1;
    }
    proof {
        assert(full.take(m as int) =~= full);
    }
    // Join the normalized components back into one name.
    let ghost cs = acc.deep_view();
    let mut out: Vec<u8> = Vec::new();
    let q = acc.len();
    let mut w: usize = 0;
    while w < q
        invariant
            w <= q,
            q == cs.len(),
            acc.deep_view() == cs,
            out@ == spec_join(cs.take(w as int)),
        decreases q - w,
    {
        if w > 0 {
            out.push(0x2F);
        }
        let mut piece = crate::assbin::clone_bytes(&acc[w]);
        out.append(&mut piece);
        proof {
            assert(cs.take(w + 1).drop_last() =~= cs.take(w as int));
            assert(cs.take(w + 1).last() == cs[w as int]);
            if w == 0 {
                assert(out@ =~= spec_join(cs.take(1)));
            } else {
                assert(out@ =~= spec_join(cs.take(w as int)) + seq![0x2Fu8] + cs[w as int]);
            }
        }
        w = w + 1;
    }
    proof {
        assert(cs.take(q as int) =~= cs);
    }
    Some(out)
}

} // verus!
