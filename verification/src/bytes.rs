//! Numbers in bytes, the least significant byte first.

use vstd::prelude::*;

verus! {

pub open spec fn le16_at(b: Seq<u8>, at: int) -> nat {
    (b[at] + 0x100 * b[at + 1]) as nat
}

pub open spec fn le32_at(b: Seq<u8>, at: int) -> nat {
    (b[at] + 0x100 * b[at + 1] + 0x1_0000 * b[at + 2] + 0x100_0000 * b[at + 3]) as nat
}

pub open spec fn le64_at(b: Seq<u8>, at: int) -> nat {
    le32_at(b, at) + 0x1_0000_0000 * le32_at(b, at + 4)
}

pub open spec fn le16_bytes(v: u16) -> Seq<u8> {
    seq![(v % 256) as u8, (v / 256) as u8]
}

pub open spec fn le32_bytes(v: u32) -> Seq<u8> {
    seq![
        (v % 256) as u8,
        (v / 0x100 % 256) as u8,
        (v / 0x1_0000 % 256) as u8,
        (v / 0x100_0000) as u8,
    ]
}

pub open spec fn le64_bytes(v: u64) -> Seq<u8> {
    le32_bytes((v % 0x1_0000_0000) as u32) + le32_bytes((v / 0x1_0000_0000) as u32)
}

/// `s` with `b` written over it from `at`.
pub open spec fn written(s: Seq<u8>, at: int, b: Seq<u8>) -> Seq<u8> {
    Seq::new(
        s.len(),
        |i: int|
            if at <= i < at + b.len() {
                b[i - at]
            } else {
                s[i]
            },
    )
}

pub open spec fn zeros(n: nat) -> Seq<u8> {
    Seq::new(n, |i: int| 0u8)
}

pub fn le16(b: &[u8], at: usize) -> (r: u16)
    requires
        at + 2 <= b@.len(),
    ensures
        r == le16_at(b@, at as int),
{
    let _len: usize = b.len();
    b[at] as u16 + 0x100 * b[at + 1] as u16
}

pub fn le32(b: &[u8], at: usize) -> (r: u32)
    requires
        at + 4 <= b@.len(),
    ensures
        r == le32_at(b@, at as int),
{
    let _len: usize = b.len();
    b[at] as u32 + 0x100 * b[at + 1] as u32 + 0x1_0000 * b[at + 2] as u32 + 0x100_0000 * b[at
        + 3] as u32
}

pub fn le64(b: &[u8], at: usize) -> (r: u64)
    requires
        at + 8 <= b@.len(),
    ensures
        r == le64_at(b@, at as int),
{
    let _len: usize = b.len();
    le32(b, at) as u64 + 0x1_0000_0000 * le32(b, at + 4) as u64
}

pub fn of_u16(v: u16) -> (r: Vec<u8>)
    ensures
        r@ == le16_bytes(v),
{
    let mut r: Vec<u8> = Vec::new();
    r.push((v % 256) as u8);
    r.push((v / 256) as u8);
    assert(r@ =~= le16_bytes(v));
    r
}

pub fn of_u32(v: u32) -> (r: Vec<u8>)
    ensures
        r@ == le32_bytes(v),
{
    let mut r: Vec<u8> = Vec::new();
    r.push((v % 256) as u8);
    r.push((v / 0x100 % 256) as u8);
    r.push((v / 0x1_0000 % 256) as u8);
    r.push((v / 0x100_0000) as u8);
    assert(r@ =~= le32_bytes(v));
    r
}

pub fn of_u64(v: u64) -> (r: Vec<u8>)
    ensures
        r@ == le64_bytes(v),
{
    let mut r = of_u32((v % 0x1_0000_0000) as u32);
    let mut high = of_u32((v / 0x1_0000_0000) as u32);
    r.append(&mut high);
    r
}

/// Writes `b` over `s` from `at`.
pub fn write(s: &mut Vec<u8>, at: usize, b: &[u8])
    requires
        at + b@.len() <= old(s)@.len(),
    ensures
        final(s)@ == written(old(s)@, at as int, b@),
{
    let len: usize = s.len();
    let mut i: usize = 0;
    while i < b.len()
        invariant
            i <= b@.len(),
            at + b@.len() <= len == s@.len(),
            s@.len() == old(s)@.len(),
            forall|j: int|
                0 <= j < s@.len() ==> #[trigger] s@[j] == if at <= j < at + i {
                    b@[j - at]
                } else {
                    old(s)@[j]
                },
        decreases b@.len() - i,
    {
        s.set(at + i, b[i]);
        i = i + 1;
    }
    assert(s@ =~= written(old(s)@, at as int, b@));
}

pub fn zeroed(n: usize) -> (r: Vec<u8>)
    ensures
        r@ == zeros(n as nat),
{
    let r = vec![0u8; n];
    assert(r@ =~= zeros(n as nat));
    r
}

/// A copy of the bytes from `from` up to `to`.
pub fn copied(b: &[u8], from: usize, to: usize) -> (r: Vec<u8>)
    requires
        from <= to <= b@.len(),
    ensures
        r@ == b@.subrange(from as int, to as int),
{
    let mut r: Vec<u8> = Vec::new();
    let mut i: usize = from;
    while i < to
        invariant
            from <= i <= to <= b@.len(),
            r@ == b@.subrange(from as int, i as int),
        decreases to - i,
    {
        r.push(b[i]);
        i = i + 1;
        assert(b@.subrange(from as int, i as int) == b@.subrange(from as int, i - 1).push(
            b@[i - 1],
        ));
    }
    r
}

// ---------------------------------------------------------------------------
// Laws

/// A number that is written reads back.
pub proof fn law_numbers_read_back(a: u16, b: u32, c: u64)
    ensures
        le16_at(le16_bytes(a), 0) == a,
        le32_at(le32_bytes(b), 0) == b,
        le64_at(le64_bytes(c), 0) == c,
{
    let low = (c % 0x1_0000_0000) as u32;
    let high = (c / 0x1_0000_0000) as u32;
    lemma_u32_reads_back(b);
    lemma_u32_reads_back(low);
    lemma_u32_reads_back(high);
    let s = le64_bytes(c);
    assert(le32_at(s, 0) == le32_at(le32_bytes(low), 0));
    assert(le32_at(s, 4) == le32_at(le32_bytes(high), 0));
}

proof fn lemma_u32_reads_back(v: u32)
    ensures
        le32_at(le32_bytes(v), 0) == v,
{
    let b = le32_bytes(v);
    assert(b[0] == v % 256 && b[1] == v / 0x100 % 256 && b[2] == v / 0x1_0000 % 256 && b[3] == v
        / 0x100_0000);
    assert(v == v % 256 + 0x100 * (v / 0x100 % 256) + 0x1_0000 * (v / 0x1_0000 % 256) + 0x100_0000
        * (v / 0x100_0000)) by (bit_vector);
}

} // verus!
