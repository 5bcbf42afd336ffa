use vstd::prelude::*;

verus! {

/// The CRC-32 digest of a byte sequence, as the checksum routine of the crc
/// crate computes it. The algorithm would take pages to state; the digest is
/// a function of the bytes alone, so it only gets a name here.
pub uninterp spec fn crc32_of(b: Seq<u8>) -> u32;

/// Relies on crc::crc32::checksum_ieee: the digest depends on the bytes
/// alone, so equal contents always hash equal.
#[verifier::external_body]
pub fn crc32(b: &Vec<u8>) -> (r: u32)
    ensures
        r == crc32_of(b@),
{
    crc::crc32::checksum_ieee(b)
}

/// Relies on uuid::Uuid::new_v4, which draws a random identifier; nothing
/// can be promised of the value, so nothing is.
#[verifier::external_body]
pub fn fresh_uuid() -> (r: u128) {
    uuid::Uuid::new_v4().as_u128()
}

/// The hexadecimal digits of `v`, `n` of them, most significant first,
/// upper case, zero padded.
pub open spec fn spec_hex_digits(v: nat, n: nat) -> Seq<u8>
    decreases n,
{
    if n == 0 {
        Seq::empty()
    } else {
        spec_hex_digits(v / 16, (n - 1) as nat).push(
            if v % 16 < 10 {
                (0x30 + v % 16) as u8
            } else {
                (0x37 + v % 16) as u8
            },
        )
    }
}

/// The on-disk name of a cached blob: the identifier as thirty-two upper
/// case hexadecimal digits.
pub open spec fn spec_uuid_hex(v: u128) -> Seq<u8> {
    spec_hex_digits(v as nat, 32)
}

/// Formats `v` as `n` hexadecimal digits, most significant first.
fn hex_digits(v: u128, n: u32) -> (r: Vec<u8>)
    ensures
        r@ == spec_hex_digits(v as nat, n as nat),
    decreases n,
{
    if n == 0 {
        Vec::new()
    } else {
        let mut r = hex_digits(v / 16, n - 1);
        let d: u8 = (v % 16) as u8;
        r.push(
            if d < 10 {
                0x30 + d
            } else {
                0x37 + d
            },
        );
        r
    }
}

/// Formats an identifier as its thirty-two-digit blob name.
pub fn uuid_hex(v: u128) -> (r: Vec<u8>)
    ensures
        r@ == spec_uuid_hex(v),
{
    hex_digits(v, 32)
}

/// Hex names have a fixed width, so equal names mean equal digit sequences.
pub proof fn lemma_hex_digits_len(v: nat, n: nat)
    ensures
        spec_hex_digits(v, n).len() == n,
    decreases n,
{
    if n > 0 {
        lemma_hex_digits_len(v / 16, (n - 1) as nat);
    }
}

/// Sixteen to the `n`-th power: the count of `n`-digit hexadecimal values.
pub open spec fn pow16(n: nat) -> nat
    decreases n,
{
    if n == 0 {
        1
    } else {
        16 * pow16((n - 1) as nat)
    }
}

/// Fixed-width hexadecimal is injective: equal digit strings of values in
/// range mean equal values.
pub proof fn lemma_hex_digits_injective(v1: nat, v2: nat, n: nat)
    requires
        spec_hex_digits(v1, n) == spec_hex_digits(v2, n),
        v1 < pow16(n),
        v2 < pow16(n),
    ensures
        v1 == v2,
    decreases n,
{
    if n == 0 {
    } else {
        let d1 = spec_hex_digits(v1, n);
        let d2 = spec_hex_digits(v2, n);
        lemma_hex_digits_len(v1, n);
        lemma_hex_digits_len(v2, n);
        assert(d1.last() == d2.last());
        assert(v1 % 16 == v2 % 16);
        assert(d1.drop_last() =~= spec_hex_digits(v1 / 16, (n - 1) as nat));
        assert(d2.drop_last() =~= spec_hex_digits(v2 / 16, (n - 1) as nat));
        assert(v1 / 16 < pow16((n - 1) as nat) && v2 / 16 < pow16((n - 1) as nat))
            by (nonlinear_arith)
            requires
                v1 < 16 * pow16((n - 1) as nat),
                v2 < 16 * pow16((n - 1) as nat),
        ;
        lemma_hex_digits_injective(v1 / 16, v2 / 16, (n - 1) as nat);
        assert(v1 == 16 * (v1 / 16) + v1 % 16 && v2 == 16 * (v2 / 16) + v2 % 16)
            by (nonlinear_arith)
        ;
    }
}

/// Every 128-bit value has thirty-two hexadecimal digits.
pub proof fn lemma_u128_in_hex_range(v: u128)
    ensures
        (v as nat) < pow16(32),
{
    reveal_with_fuel(pow16, 33);
    assert(pow16(8) == 0x100000000);
    assert(pow16(16) == 16 * pow16(15) && pow16(16) == 0x10000000000000000);
    assert(pow16(24) == 0x1000000000000000000000000);
    assert(pow16(32) == 0x100000000000000000000000000000000);
}

/// Distinct identifiers never share a hexadecimal blob name.
pub proof fn lemma_uuid_hex_injective(u1: u128, u2: u128)
    requires
        spec_uuid_hex(u1) == spec_uuid_hex(u2),
    ensures
        u1 == u2,
{
    lemma_u128_in_hex_range(u1);
    lemma_u128_in_hex_range(u2);
    lemma_hex_digits_injective(u1 as nat, u2 as nat, 32);
}

} // verus!
