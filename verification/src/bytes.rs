//! Fixed-width integers as runs of bytes, in both byte orders.

use vstd::prelude::*;

verus! {

/// The number that four bytes spell, most significant byte first.
pub open spec fn spec_be_u32(s: Seq<u8>) -> nat
    recommends
        s.len() == 4,
{
    (s[0] as nat) * 0x100_0000 + (s[1] as nat) * 0x1_0000 + (s[2] as nat) * 0x100 + (s[3] as nat)
}

/// The number that eight bytes spell, most significant byte first.
pub open spec fn spec_be_u64(s: Seq<u8>) -> nat
    recommends
        s.len() == 8,
{
    spec_be_u32(s.subrange(0, 4)) * 0x1_0000_0000 + spec_be_u32(s.subrange(4, 8))
}

/// The number that sixteen bytes spell, most significant byte first.
pub open spec fn spec_be_u128(s: Seq<u8>) -> nat
    recommends
        s.len() == 16,
{
    spec_be_u64(s.subrange(0, 8)) * 0x1_0000_0000_0000_0000 + spec_be_u64(s.subrange(8, 16))
}

/// The four bytes of `v`, most significant first.
pub open spec fn spec_be_bytes_u32(v: u32) -> Seq<u8> {
    seq![
        (v / 0x100_0000) as u8,
        (v / 0x1_0000 % 0x100) as u8,
        (v / 0x100 % 0x100) as u8,
        (v % 0x100) as u8,
    ]
}

/// The eight bytes of `v`, most significant first.
pub open spec fn spec_be_bytes_u64(v: u64) -> Seq<u8> {
    spec_be_bytes_u32((v / 0x1_0000_0000) as u32) + spec_be_bytes_u32((v % 0x1_0000_0000) as u32)
}

/// The sixteen bytes of `v`, most significant first.
pub open spec fn spec_be_bytes_u128(v: u128) -> Seq<u8> {
    spec_be_bytes_u64((v / 0x1_0000_0000_0000_0000) as u64) + spec_be_bytes_u64(
        (v % 0x1_0000_0000_0000_0000) as u64,
    )
}

/// The four bytes of `v`, least significant first.
pub open spec fn spec_le_bytes_u32(v: u32) -> Seq<u8> {
    seq![
        (v % 0x100) as u8,
        (v / 0x100 % 0x100) as u8,
        (v / 0x1_0000 % 0x100) as u8,
        (v / 0x100_0000) as u8,
    ]
}

/// The eight bytes of `v`, least significant first.
pub open spec fn spec_le_bytes_u64(v: u64) -> Seq<u8> {
    spec_le_bytes_u32((v % 0x1_0000_0000) as u32) + spec_le_bytes_u32((v / 0x1_0000_0000) as u32)
}

/// Reads a big-endian `u32` at offset `at` of `b`.
pub fn be_u32(b: &[u8], at: usize) -> (v: u32)
    requires
        at + 4 <= b.len(),
    ensures
        v == spec_be_u32(b@.subrange(at as int, at + 4)),
{
    let b0: u32 = b[at] as u32;
    let b1: u32 = b[at + 1] as u32;
    let b2: u32 = b[at + 2] as u32;
    let b3: u32 = b[at + 3] as u32;
    b0 * 0x100_0000 + b1 * 0x1_0000 + b2 * 0x100 + b3
}

/// Reads a big-endian `u64` at offset `at` of `b`.
pub fn be_u64(b: &[u8], at: usize) -> (v: u64)
    requires
        at + 8 <= b.len(),
    ensures
        v == spec_be_u64(b@.subrange(at as int, at + 8)),
{
    let hi: u64 = be_u32(b, at) as u64;
    let lo: u64 = be_u32(b, at + 4) as u64;
    proof {
        let s = b@.subrange(at as int, at + 8);
        assert(s.subrange(0, 4) == b@.subrange(at as int, at + 4));
        assert(s.subrange(4, 8) == b@.subrange(at + 4, at + 8));
    }
    hi * 0x1_0000_0000 + lo
}

/// Reads a big-endian `u128` at offset `at` of `b`.
pub fn be_u128(b: &[u8], at: usize) -> (v: u128)
    requires
        at + 16 <= b.len(),
    ensures
        v == spec_be_u128(b@.subrange(at as int, at + 16)),
{
    let hi: u128 = be_u64(b, at) as u128;
    let lo: u128 = be_u64(b, at + 8) as u128;
    proof {
        let s = b@.subrange(at as int, at + 16);
        assert(s.subrange(0, 8) == b@.subrange(at as int, at + 8));
        assert(s.subrange(8, 16) == b@.subrange(at + 8, at + 16));
    }
    hi * 0x1_0000_0000_0000_0000 + lo
}

/// Appends the big-endian bytes of `v` to `out`.
pub fn push_be_u32(out: &mut Vec<u8>, v: u32)
    ensures
        final(out)@ == old(out)@ + spec_be_bytes_u32(v),
{
    out.push((v / 0x100_0000) as u8);
    out.push((v / 0x1_0000 % 0x100) as u8);
    out.push((v / 0x100 % 0x100) as u8);
    out.push((v % 0x100) as u8);
}

/// Appends the big-endian bytes of `v` to `out`.
pub fn push_be_u64(out: &mut Vec<u8>, v: u64)
    ensures
        final(out)@ == old(out)@ + spec_be_bytes_u64(v),
{
    push_be_u32(out, (v / 0x1_0000_0000) as u32);
    push_be_u32(out, (v % 0x1_0000_0000) as u32);
}

/// Appends the big-endian bytes of `v` to `out`.
pub fn push_be_u128(out: &mut Vec<u8>, v: u128)
    ensures
        final(out)@ == old(out)@ + spec_be_bytes_u128(v),
{
    push_be_u64(out, (v / 0x1_0000_0000_0000_0000) as u64);
    push_be_u64(out, (v % 0x1_0000_0000_0000_0000) as u64);
}

/// Appends the little-endian bytes of `v` to `out`.
pub fn push_le_u32(out: &mut Vec<u8>, v: u32)
    ensures
        final(out)@ == old(out)@ + spec_le_bytes_u32(v),
{
    out.push((v % 0x100) as u8);
    out.push((v / 0x100 % 0x100) as u8);
    out.push((v / 0x1_0000 % 0x100) as u8);
    out.push((v / 0x100_0000) as u8);
}

/// Appends the little-endian bytes of `v` to `out`.
pub fn push_le_u64(out: &mut Vec<u8>, v: u64)
    ensures
        final(out)@ == old(out)@ + spec_le_bytes_u64(v),
{
    push_le_u32(out, (v % 0x1_0000_0000) as u32);
    push_le_u32(out, (v / 0x1_0000_0000) as u32);
}

/// Appends all of `bytes` to `out`.
pub fn push_all(out: &mut Vec<u8>, bytes: &[u8])
    ensures
        final(out)@ == old(out)@ + bytes@,
{
    let mut i: usize = 0;
    while i < bytes.len()
        invariant
            i <= bytes.len(),
            out@ == old(out)@ + bytes@.subrange(0, i as int),
        decreases bytes.len() - i,
    {
        out.push(bytes[i]);
        i += 1;
    }
    assert(bytes@.subrange(0, bytes.len() as int) == bytes@);
}

/// The decimal digits of `v`, without leading zeros.
pub open spec fn spec_decimal_text(v: nat) -> Seq<u8>
    decreases v,
{
    if v < 10 {
        seq![(0x30 + v) as u8]
    } else {
        spec_decimal_text(v / 10).push((0x30 + v % 10) as u8)
    }
}

/// Appends the decimal digits of `v` to `out`.
pub fn push_decimal(out: &mut Vec<u8>, v: u32)
    ensures
        final(out)@ == old(out)@ + spec_decimal_text(v as nat),
{
    let mut digits: Vec<u8> = Vec::new();
    let mut rest: u32 = v;
    // The digits of `v` are those of `rest` followed by `digits` reversed.
    while rest >= 10
        invariant
            spec_decimal_text(v as nat) == spec_decimal_text(rest as nat) + digits@.reverse(),
        decreases rest,
    {
        let digit = (0x30 + rest % 10) as u8;
        let ghost before = digits@;
        digits.push(digit);
        assert(digits@.reverse() == seq![digit] + before.reverse());
        assert(spec_decimal_text(rest as nat) == spec_decimal_text((rest / 10) as nat).push(digit));
        assert(spec_decimal_text((rest / 10) as nat).push(digit) + before.reverse()
            == spec_decimal_text((rest / 10) as nat) + (seq![digit] + before.reverse()));
        rest = rest / 10;
    }
    out.push((0x30 + rest) as u8);
    assert(spec_decimal_text(rest as nat) == seq![(0x30 + rest) as u8]);
    let mut i: usize = digits.len();
    while i > 0
        invariant
            i <= digits.len(),
            out@ == old(out)@ + spec_decimal_text(rest as nat) + digits@.reverse().subrange(
                0,
                digits.len() - i,
            ),
        decreases i,
    {
        i -= 1;
        out.push(digits[i]);
        assert(digits@.reverse().subrange(0, digits.len() - i) == digits@.reverse().subrange(
            0,
            digits.len() - i - 1,
        ).push(digits@[i as int]));
    }
    assert(digits@.reverse().subrange(0, digits.len() as int) == digits@.reverse());
}

/// The first `n` bytes of `bytes`, with zeros where `bytes` is shorter.
pub open spec fn spec_padded(bytes: Seq<u8>, n: nat) -> Seq<u8> {
    Seq::new(
        n,
        |i: int|
            if i < bytes.len() {
                bytes[i]
            } else {
                0u8
            },
    )
}

/// The first 256 bytes of `bytes`, with zeros where `bytes` is shorter.
pub fn pad_256(bytes: &[u8]) -> (out: [u8; 256])
    ensures
        out@ == spec_padded(bytes@, 256),
{
    let mut out = [0u8; 256];
    let mut i: usize = 0;
    while i < 256 && i < bytes.len()
        invariant
            i <= 256,
            i <= bytes.len(),
            forall|j: int| 0 <= j < i ==> out@[j] == bytes@[j],
            forall|j: int| i <= j < 256 ==> out@[j] == 0,
        decreases 256 - i,
    {
        out[i] = bytes[i];
        i += 1;
    }
    assert(out@ =~= spec_padded(bytes@, 256));
    out
}

/// The first 140 bytes of `bytes`, with zeros where `bytes` is shorter.
pub fn pad_140(bytes: &[u8]) -> (out: [u8; 140])
    ensures
        out@ == spec_padded(bytes@, 140),
{
    let mut out = [0u8; 140];
    let mut i: usize = 0;
    while i < 140 && i < bytes.len()
        invariant
            i <= 140,
            i <= bytes.len(),
            forall|j: int| 0 <= j < i ==> out@[j] == bytes@[j],
            forall|j: int| i <= j < 140 ==> out@[j] == 0,
        decreases 140 - i,
    {
        out[i] = bytes[i];
        i += 1;
    }
    assert(out@ =~= spec_padded(bytes@, 140));
    out
}

/// Copies four bytes of `b`, from offset `at` on.
pub fn take_4(b: &[u8], at: usize) -> (out: [u8; 4])
    requires
        at + 4 <= b.len(),
    ensures
        out@ == b@.subrange(at as int, at + 4),
{
    let out: [u8; 4] = [b[at], b[at + 1], b[at + 2], b[at + 3]];
    assert(out@ =~= b@.subrange(at as int, at + 4));
    out
}

/// Copies sixteen bytes of `b`, from offset `at` on.
pub fn take_16(b: &[u8], at: usize) -> (out: [u8; 16])
    requires
        at + 16 <= b.len(),
    ensures
        out@ == b@.subrange(at as int, at + 16),
{
    let mut out = [0u8; 16];
    let mut i: usize = 0;
    while i < 16
        invariant
            i <= 16,
            at + 16 <= b.len(),
            forall|j: int| 0 <= j < i ==> out@[j] == b@[at + j],
        decreases 16 - i,
    {
        out[i] = b[at + i];
        i += 1;
    }
    assert(out@ =~= b@.subrange(at as int, at + 16));
    out
}

/// Copies sixty-four bytes of `b`, from offset `at` on.
pub fn take_64(b: &[u8], at: usize) -> (out: [u8; 64])
    requires
        at + 64 <= b.len(),
    ensures
        out@ == b@.subrange(at as int, at + 64),
{
    let mut out = [0u8; 64];
    let mut i: usize = 0;
    while i < 64
        invariant
            i <= 64,
            at + 64 <= b.len(),
            forall|j: int| 0 <= j < i ==> out@[j] == b@[at + j],
        decreases 64 - i,
    {
        out[i] = b[at + i];
        i += 1;
    }
    assert(out@ =~= b@.subrange(at as int, at + 64));
    out
}

/// The big-endian bytes of `v`.
pub fn be_bytes_u128(v: u128) -> (out: [u8; 16])
    ensures
        out@ == spec_be_bytes_u128(v),
{
    let mut bytes: Vec<u8> = Vec::new();
    push_be_u128(&mut bytes, v);
    take_16(bytes.as_slice(), 0)
}

/// Reading back the big-endian bytes of a `u32` gives the number again.
pub proof fn lemma_be_u32_of_bytes(v: u32)
    ensures
        spec_be_bytes_u32(v).len() == 4,
        spec_be_u32(spec_be_bytes_u32(v)) == v,
{
}

/// Reading back the big-endian bytes of a `u64` gives the number again.
pub proof fn lemma_be_u64_of_bytes(v: u64)
    ensures
        spec_be_bytes_u64(v).len() == 8,
        spec_be_u64(spec_be_bytes_u64(v)) == v,
{
    let hi = (v / 0x1_0000_0000) as u32;
    let lo = (v % 0x1_0000_0000) as u32;
    lemma_be_u32_of_bytes(hi);
    lemma_be_u32_of_bytes(lo);
    let s = spec_be_bytes_u64(v);
    assert(s.subrange(0, 4) == spec_be_bytes_u32(hi));
    assert(s.subrange(4, 8) == spec_be_bytes_u32(lo));
}

/// Reading back the big-endian bytes of a `u128` gives the number again.
pub proof fn lemma_be_u128_of_bytes(v: u128)
    ensures
        spec_be_bytes_u128(v).len() == 16,
        spec_be_u128(spec_be_bytes_u128(v)) == v,
{
    let hi = (v / 0x1_0000_0000_0000_0000) as u64;
    let lo = (v % 0x1_0000_0000_0000_0000) as u64;
    lemma_be_u64_of_bytes(hi);
    lemma_be_u64_of_bytes(lo);
    let s = spec_be_bytes_u128(v);
    assert(s.subrange(0, 8) == spec_be_bytes_u64(hi));
    assert(s.subrange(8, 16) == spec_be_bytes_u64(lo));
}

/// A number made of a high part and a low part below `m` splits into
/// them again.
proof fn lemma_split(hi: nat, lo: nat, m: nat)
    requires
        lo < m,
    ensures
        (hi * m + lo) / m == hi,
        (hi * m + lo) % m == lo,
{
    assert((hi * m + lo) / m == hi && (hi * m + lo) % m == lo) by (nonlinear_arith)
        requires
            lo < m,
    ;
}

/// Four bytes are the big-endian bytes of the number that they spell.
pub proof fn lemma_be_bytes_of_u32(s: Seq<u8>)
    requires
        s.len() == 4,
    ensures
        spec_be_u32(s) <= u32::MAX,
        spec_be_bytes_u32(spec_be_u32(s) as u32) == s,
{
    let a = s[0] as nat;
    let b = s[1] as nat;
    let c = s[2] as nat;
    let d = s[3] as nat;
    let n = spec_be_u32(s);
    assert(n == a * 0x100_0000 + (b * 0x1_0000 + c * 0x100 + d));
    assert(n == (a * 0x100 + b) * 0x1_0000 + (c * 0x100 + d));
    assert(n == (a * 0x1_0000 + b * 0x100 + c) * 0x100 + d);
    lemma_split(a, b * 0x1_0000 + c * 0x100 + d, 0x100_0000);
    lemma_split(a * 0x100 + b, c * 0x100 + d, 0x1_0000);
    lemma_split(a, b, 0x100);
    lemma_split(a * 0x1_0000 + b * 0x100 + c, d, 0x100);
    assert(a * 0x1_0000 + b * 0x100 + c == (a * 0x100 + b) * 0x100 + c);
    lemma_split(a * 0x100 + b, c, 0x100);
    let v = n as u32;
    assert(v / 0x100_0000 == a);
    assert(v / 0x1_0000 % 0x100 == b);
    assert(v / 0x100 % 0x100 == c);
    assert(v % 0x100 == d);
    assert(spec_be_bytes_u32(v) =~= s);
}

/// Eight bytes are the big-endian bytes of the number that they spell.
pub proof fn lemma_be_bytes_of_u64(s: Seq<u8>)
    requires
        s.len() == 8,
    ensures
        spec_be_u64(s) <= u64::MAX,
        spec_be_bytes_u64(spec_be_u64(s) as u64) == s,
{
    let high = s.subrange(0, 4);
    let low = s.subrange(4, 8);
    lemma_be_bytes_of_u32(high);
    lemma_be_bytes_of_u32(low);
    let hi = spec_be_u32(high);
    let lo = spec_be_u32(low);
    lemma_split(hi, lo, 0x1_0000_0000);
    assert(hi * 0x1_0000_0000 + lo <= u64::MAX) by (nonlinear_arith)
        requires
            hi <= 0xFFFF_FFFF,
            lo <= 0xFFFF_FFFF,
    ;
    let v = spec_be_u64(s) as u64;
    assert(v == hi * 0x1_0000_0000 + lo);
    assert((v / 0x1_0000_0000) as u32 == hi);
    assert((v % 0x1_0000_0000) as u32 == lo);
    assert(spec_be_bytes_u64(v) == high + low);
    assert(high + low =~= s);
}

/// Sixteen bytes are the big-endian bytes of the number that they spell.
pub proof fn lemma_be_bytes_of_u128(s: Seq<u8>)
    requires
        s.len() == 16,
    ensures
        spec_be_u128(s) <= u128::MAX,
        spec_be_bytes_u128(spec_be_u128(s) as u128) == s,
{
    let high = s.subrange(0, 8);
    let low = s.subrange(8, 16);
    lemma_be_bytes_of_u64(high);
    lemma_be_bytes_of_u64(low);
    let hi = spec_be_u64(high);
    let lo = spec_be_u64(low);
    lemma_split(hi, lo, 0x1_0000_0000_0000_0000);
    assert(hi * 0x1_0000_0000_0000_0000 + lo <= u128::MAX) by (nonlinear_arith)
        requires
            hi <= 0xFFFF_FFFF_FFFF_FFFF,
            lo <= 0xFFFF_FFFF_FFFF_FFFF,
    ;
    let v = spec_be_u128(s) as u128;
    assert(v == hi * 0x1_0000_0000_0000_0000 + lo);
    assert((v / 0x1_0000_0000_0000_0000) as u64 == hi);
    assert((v % 0x1_0000_0000_0000_0000) as u64 == lo);
    assert(spec_be_bytes_u128(v) == high + low);
    assert(high + low =~= s);
}

} // verus!
