//! Little-endian integers, byte comparison and copying between byte strings.
use vstd::prelude::*;

verus! {

/// The little-endian 16 bit integer at offset `at` of `s`.
pub open spec fn le_u16(s: Seq<u8>, at: int) -> u16 {
    (s[at] + 0x100 * s[at + 1]) as u16
}

/// The little-endian 32 bit integer at offset `at` of `s`.
pub open spec fn le_u32(s: Seq<u8>, at: int) -> u32 {
    (s[at] + 0x100 * s[at + 1] + 0x1_0000 * s[at + 2] + 0x100_0000 * s[at + 3]) as u32
}

/// The little-endian 64 bit integer at offset `at` of `s`.
pub open spec fn le_u64(s: Seq<u8>, at: int) -> u64 {
    (le_u32(s, at) + 0x1_0000_0000 * le_u32(s, at + 4)) as u64
}

/// The two bytes of `x`, lowest first.
pub open spec fn u16_le_bytes(x: u16) -> Seq<u8> {
    seq![(x % 0x100) as u8, (x / 0x100) as u8]
}

/// The four bytes of `x`, lowest first.
pub open spec fn u32_le_bytes(x: u32) -> Seq<u8> {
    seq![
        (x % 0x100) as u8,
        ((x / 0x100) % 0x100) as u8,
        ((x / 0x1_0000) % 0x100) as u8,
        (x / 0x100_0000) as u8,
    ]
}

/// The eight bytes of `x`, lowest first.
pub open spec fn u64_le_bytes(x: u64) -> Seq<u8> {
    u32_le_bytes((x % 0x1_0000_0000) as u32) + u32_le_bytes((x / 0x1_0000_0000) as u32)
}

/// `s` with the bytes from offset `at` on replaced by those of `b`.
pub open spec fn splice(s: Seq<u8>, at: int, b: Seq<u8>) -> Seq<u8> {
    Seq::new(
        s.len(),
        |i: int|
            if at <= i < at + b.len() {
                b[i - at]
            } else {
                s[i]
            },
    )
}

/// The array whose elements are those of `s`.
pub open spec fn array_of<const N: usize>(s: Seq<u8>) -> [u8; N] {
    choose|a: [u8; N]| a@ == s
}

/// An array is determined by its elements.
pub proof fn lemma_array_of<const N: usize>(a: [u8; N])
    ensures
        array_of::<N>(a@) == a,
{
    let b = array_of::<N>(a@);
    assert(b@ == a@);
    assert forall|i: int| 0 <= i < N implies b[i] == a[i] by {
        assert(b@[i] == a@[i]);
    }
    assert(b =~= a);
}

/// Every byte string of length `N` is the contents of an array.
pub proof fn lemma_array_of_view<const N: usize>(s: Seq<u8>)
    requires
        s.len() == N,
    ensures
        array_of::<N>(s)@ == s,
{
    let a = array_with_prefix::<N>(s, N as nat);
    assert(a@ =~= s);
}

/// An array that starts with the first `n` bytes of `s`.
proof fn array_with_prefix<const N: usize>(s: Seq<u8>, n: nat) -> (a: [u8; N])
    requires
        s.len() == N,
        n <= N,
    ensures
        forall|i: int| 0 <= i < n ==> a@[i] == s[i],
    decreases n,
{
    if n == 0 {
        vstd::array::spec_array_fill_for_copy_type::<u8, N>(0u8)
    } else {
        let a = array_with_prefix::<N>(s, (n - 1) as nat);
        let b = vstd::array::spec_array_update(a, n - 1, s[n - 1]);
        assert(b@ == a@.update(n - 1, s[n - 1]));
        b
    }
}

/// Reading the bytes of a 16 bit integer gives the integer back.
pub proof fn lemma_le_u16_round_trip(x: u16)
    ensures
        u16_le_bytes(x).len() == 2,
        le_u16(u16_le_bytes(x), 0) == x,
{
}

/// Reading the bytes of a 32 bit integer gives the integer back.
pub proof fn lemma_le_u32_round_trip(x: u32)
    ensures
        u32_le_bytes(x).len() == 4,
        le_u32(u32_le_bytes(x), 0) == x,
{
}

/// Reading the bytes of a 64 bit integer gives the integer back.
pub proof fn lemma_le_u64_round_trip(x: u64)
    ensures
        u64_le_bytes(x).len() == 8,
        le_u64(u64_le_bytes(x), 0) == x,
{
    let lo = (x % 0x1_0000_0000) as u32;
    let hi = (x / 0x1_0000_0000) as u32;
    let s = u64_le_bytes(x);
    lemma_le_u32_round_trip(lo);
    lemma_le_u32_round_trip(hi);
    assert(le_u32(s, 0) == le_u32(u32_le_bytes(lo), 0));
    assert(le_u32(s, 4) == le_u32(u32_le_bytes(hi), 0));
}

/// Reads the little-endian 16 bit integer at offset `at`.
pub fn read_u16(s: &[u8], at: usize) -> (x: u16)
    requires
        at + 2 <= s.len(),
    ensures
        x == le_u16(s@, at as int),
{
    s[at] as u16 + 0x100 * (s[at + 1] as u16)
}

/// Reads the little-endian 32 bit integer at offset `at`.
pub fn read_u32(s: &[u8], at: usize) -> (x: u32)
    requires
        at + 4 <= s.len(),
    ensures
        x == le_u32(s@, at as int),
{
    s[at] as u32 + 0x100 * (s[at + 1] as u32) + 0x1_0000 * (s[at + 2] as u32) + 0x100_0000 * (s[at
        + 3] as u32)
}

/// Reads the little-endian 64 bit integer at offset `at`.
pub fn read_u64(s: &[u8], at: usize) -> (x: u64)
    requires
        at + 8 <= s.len(),
    ensures
        x == le_u64(s@, at as int),
{
    read_u32(s, at) as u64 + 0x1_0000_0000 * (read_u32(s, at + 4) as u64)
}

/// The two bytes of `x`, lowest first.
pub fn bytes_of_u16(x: u16) -> (b: [u8; 2])
    ensures
        b@ == u16_le_bytes(x),
{
    let b: [u8; 2] = [(x % 0x100) as u8, (x / 0x100) as u8];
    assert(b@ =~= u16_le_bytes(x));
    b
}

/// The four bytes of `x`, lowest first.
pub fn bytes_of_u32(x: u32) -> (b: [u8; 4])
    ensures
        b@ == u32_le_bytes(x),
{
    let b: [u8; 4] = [
        (x % 0x100) as u8,
        ((x / 0x100) % 0x100) as u8,
        ((x / 0x1_0000) % 0x100) as u8,
        (x / 0x100_0000) as u8,
    ];
    assert(b@ =~= u32_le_bytes(x));
    b
}

/// The eight bytes of `x`, lowest first.
pub fn bytes_of_u64(x: u64) -> (b: [u8; 8])
    ensures
        b@ == u64_le_bytes(x),
{
    let lo = bytes_of_u32((x % 0x1_0000_0000) as u32);
    let hi = bytes_of_u32((x / 0x1_0000_0000) as u32);
    let b: [u8; 8] = [lo[0], lo[1], lo[2], lo[3], hi[0], hi[1], hi[2], hi[3]];
    assert(b@ =~= u64_le_bytes(x));
    b
}

/// Whether `a` and `b` hold the same bytes.
pub fn bytes_eq(a: &[u8], b: &[u8]) -> (eq: bool)
    ensures
        eq == (a@ == b@),
{
    if a.len() != b.len() {
        return false;
    }
    let mut i: usize = 0;
    while i < a.len()
        invariant
            i <= a.len(),
            a.len() == b.len(),
            forall|j: int| 0 <= j < i ==> a@[j] == b@[j],
        decreases a.len() - i,
    {
        if a[i] != b[i] {
            return false;
        }
        i += 1;
    }
    assert(a@ =~= b@);
    true
}

/// Copies the `N` bytes from offset `at` on.
pub fn read_array<const N: usize>(s: &[u8], at: usize) -> (a: [u8; N])
    requires
        at + N <= s.len(),
    ensures
        a@ == s@.subrange(at as int, at + N),
        a == array_of::<N>(s@.subrange(at as int, at + N)),
{
    let mut a: [u8; N] = [0u8; N];
    let mut i: usize = 0;
    while i < N
        invariant
            i <= N,
            at + N <= s.len(),
            forall|j: int| 0 <= j < i ==> a@[j] == s@[at + j],
        decreases N - i,
    {
        a[i] = s[at + i];
        i += 1;
    }
    assert(a@ =~= s@.subrange(at as int, at + N));
    proof {
        lemma_array_of::<N>(a);
    }
    a
}

/// Overwrites the bytes of `dst` from offset `at` on with those of `src`.
pub fn write_at(dst: &mut [u8], at: usize, src: &[u8])
    requires
        at + src@.len() <= old(dst)@.len(),
    ensures
        final(dst)@ == splice(old(dst)@, at as int, src@),
{
    let ghost orig = dst@;
    assert(dst.len() == orig.len());
    let mut i: usize = 0;
    while i < src.len()
        invariant
            i <= src.len(),
            at + src@.len() <= orig.len(),
            orig.len() == dst@.len(),
            at + src@.len() <= usize::MAX,
            dst@ =~= splice(orig, at as int, src@.subrange(0, i as int)),
        decreases src.len() - i,
    {
        dst[at + i] = src[i];
        i += 1;
    }
    assert(src@.subrange(0, src@.len() as int) =~= src@);
}

} // verus!
