use vstd::prelude::*;

verus! {

/// Exact content equality of two byte buffers.
pub fn bytes_eq(a: &Vec<u8>, b: &Vec<u8>) -> (r: bool)
    ensures
        r == (a@ == b@),
{
    if a.len() != b.len() {
        return false;
    }
    let mut i: usize = 0;
    while i < a.len()
        invariant
            a@.len() == b@.len(),
            i <= a@.len(),
            forall|j: int| 0 <= j < i ==> a@[j] == b@[j],
        decreases a@.len() - i,
    {
        if a[i] != b[i] {
            return false;
        }
        i = i + 1;
    }
    proof {
        assert(a@ =~= b@);
    }
    true
}

/// True when `b` ends with the byte suffix `suffix`.
pub open spec fn spec_ends_with(b: Seq<u8>, suffix: Seq<u8>) -> bool {
    b.len() >= suffix.len() && b.subrange(b.len() - suffix.len(), b.len() as int) == suffix
}

/// Checks whether `b` ends with `suffix`.
pub fn ends_with(b: &Vec<u8>, suffix: &Vec<u8>) -> (r: bool)
    ensures
        r == spec_ends_with(b@, suffix@),
{
    if b.len() < suffix.len() {
        return false;
    }
    let blen: usize = b.len();
    let n: usize = suffix.len();
    let off: usize = blen - n;
    let mut i: usize = 0;
    while i < n
        invariant
            n == suffix@.len(),
            blen == b@.len(),
            off + n == blen,
            i <= n,
            forall|j: int| 0 <= j < i ==> b@[off + j] == suffix@[j],
        decreases n - i,
    {
        if b[off + i] != suffix[i] {
            proof {
                assert(b@.subrange(off as int, b@.len() as int)[i as int] != suffix@[i as int]);
            }
            return false;
        }
        i = i + 1;
    }
    proof {
        assert(b@.subrange(off as int, b@.len() as int) =~= suffix@);
    }
    true
}

/// The decimal digits of `n`, most significant first, as ASCII bytes.
pub open spec fn spec_decimal(n: nat) -> Seq<u8>
    decreases n,
{
    if n < 10 {
        seq![(0x30 + n) as u8]
    } else {
        spec_decimal(n / 10).push((0x30 + n % 10) as u8)
    }
}

/// Formats `n` in decimal ASCII.
pub fn decimal(n: u64) -> (r: Vec<u8>)
    ensures
        r@ == spec_decimal(n as nat),
    decreases n,
{
    let mut r: Vec<u8> = if n >= 10 {
        decimal(n / 10)
    } else {
        Vec::new()
    };
    r.push(0x30 + (n % 10) as u8);
    r
}

} // verus!
