//! Fixed-width words: rotations, wrapping addition and byte-order conversions.
use vstd::prelude::*;

verus! {

/// Rotation of a 32-bit word to the left by `n` bits (`n < 32`).
pub open spec fn rotl32(x: u32, n: u32) -> u32 {
    if n == 0 {
        x
    } else {
        (x << n) | (x >> (32 - n) as u32)
    }
}

/// Rotation of a 32-bit word to the right by `n` bits (`n < 32`).
pub open spec fn rotr32(x: u32, n: u32) -> u32 {
    if n == 0 {
        x
    } else {
        (x >> n) | (x << (32 - n) as u32)
    }
}

/// Rotation of a 64-bit word to the left by `n` bits (`n < 64`).
pub open spec fn rotl64(x: u64, n: u64) -> u64 {
    if n == 0 {
        x
    } else {
        (x << n) | (x >> (64 - n) as u64)
    }
}

/// Rotation of a 64-bit word to the right by `n` bits (`n < 64`).
pub open spec fn rotr64(x: u64, n: u64) -> u64 {
    if n == 0 {
        x
    } else {
        (x >> n) | (x << (64 - n) as u64)
    }
}

/// Addition modulo 2^32.
pub open spec fn add32(a: u32, b: u32) -> u32 {
    if a + b > u32::MAX {
        (a + b - 0x1_0000_0000) as u32
    } else {
        (a + b) as u32
    }
}

/// Addition modulo 2^64.
pub open spec fn add64(a: u64, b: u64) -> u64 {
    if a + b > u64::MAX {
        (a + b - 0x1_0000_0000_0000_0000) as u64
    } else {
        (a + b) as u64
    }
}

/// The 32-bit word whose big-endian bytes start at `i` in `s`.
pub open spec fn be32_at(s: Seq<u8>, i: int) -> u32 {
    ((s[i] as u32) << 24u32) | ((s[i + 1] as u32) << 16u32) | ((s[i + 2] as u32) << 8u32) | (s[i
        + 3] as u32)
}

/// The 64-bit word whose big-endian bytes start at `i` in `s`.
pub open spec fn be64_at(s: Seq<u8>, i: int) -> u64 {
    ((be32_at(s, i) as u64) << 32u64) | (be32_at(s, i + 4) as u64)
}

/// The 64-bit word whose little-endian bytes start at `i` in `s`.
pub open spec fn le64_at(s: Seq<u8>, i: int) -> u64 {
    (s[i] as u64) | ((s[i + 1] as u64) << 8u64) | ((s[i + 2] as u64) << 16u64) | ((s[i + 3] as u64)
        << 24u64) | ((s[i + 4] as u64) << 32u64) | ((s[i + 5] as u64) << 40u64) | ((s[i + 6] as u64)
        << 48u64) | ((s[i + 7] as u64) << 56u64)
}

/// The words of `ws`, each as four bytes, most significant first.
pub open spec fn words32_to_be(ws: Seq<u32>) -> Seq<u8> {
    Seq::new(4 * ws.len(), |i: int| (ws[i / 4] >> ((24 - 8 * (i % 4)) as u32)) as u8)
}

/// The words of `ws`, each as eight bytes, most significant first.
pub open spec fn words64_to_be(ws: Seq<u64>) -> Seq<u8> {
    Seq::new(8 * ws.len(), |i: int| (ws[i / 8] >> ((56 - 8 * (i % 8)) as u64)) as u8)
}

/// The words of `ws`, each as eight bytes, least significant first.
pub open spec fn words64_to_le(ws: Seq<u64>) -> Seq<u8> {
    Seq::new(8 * ws.len(), |i: int| (ws[i / 8] >> ((8 * (i % 8)) as u64)) as u8)
}

/// Rotates `x` left by `n` bits.
pub fn rotate_left(x: u32, n: u32) -> (r: u32)
    requires
        n < 32,
    ensures
        r == rotl32(x, n),
{
    if n == 0 {
        x
    } else {
        (x << n) | (x >> (32 - n))
    }
}

/// Rotates `x` right by `n` bits.
pub fn rotate_right(x: u32, n: u32) -> (r: u32)
    requires
        n < 32,
    ensures
        r == rotr32(x, n),
{
    if n == 0 {
        x
    } else {
        (x >> n) | (x << (32 - n))
    }
}

/// Rotates `x` left by `n` bits.
pub fn rotate_left64(x: u64, n: u64) -> (r: u64)
    requires
        n < 64,
    ensures
        r == rotl64(x, n),
{
    if n == 0 {
        x
    } else {
        (x << n) | (x >> (64 - n))
    }
}

/// Rotates `x` right by `n` bits.
pub fn rotate_right64(x: u64, n: u64) -> (r: u64)
    requires
        n < 64,
    ensures
        r == rotr64(x, n),
{
    if n == 0 {
        x
    } else {
        (x >> n) | (x << (64 - n))
    }
}

/// Reads the big-endian 32-bit word at `i`.
pub fn read_be32(s: &[u8], i: usize) -> (r: u32)
    requires
        i + 4 <= s@.len(),
    ensures
        r == be32_at(s@, i as int),
{
    ((s[i] as u32) << 24u32) | ((s[i + 1] as u32) << 16u32) | ((s[i + 2] as u32) << 8u32) | (s[i
        + 3] as u32)
}

/// Reads the big-endian 64-bit word at `i`.
pub fn read_be64(s: &[u8], i: usize) -> (r: u64)
    requires
        i + 8 <= s@.len(),
    ensures
        r == be64_at(s@, i as int),
{
    let len = s.len();
    assert(i + 8 <= len);
    ((read_be32(s, i) as u64) << 32u64) | (read_be32(s, i + 4) as u64)
}

/// Reads the little-endian 64-bit word at `i`.
pub fn read_le64(s: &[u8], i: usize) -> (r: u64)
    requires
        i + 8 <= s@.len(),
    ensures
        r == le64_at(s@, i as int),
{
    (s[i] as u64) | ((s[i + 1] as u64) << 8u64) | ((s[i + 2] as u64) << 16u64) | ((s[i + 3] as u64)
        << 24u64) | ((s[i + 4] as u64) << 32u64) | ((s[i + 5] as u64) << 40u64) | ((s[i + 6] as u64)
        << 48u64) | ((s[i + 7] as u64) << 56u64)
}

/// The first `N` bytes of the big-endian encoding of `ws`.
pub fn be_bytes_of_words32<const N: usize>(ws: &[u32; 8]) -> (r: [u8; N])
    requires
        N <= 32,
    ensures
        r@ == words32_to_be(ws@).take(N as int),
{
    let mut out = [0u8; N];
    let mut i: usize = 0;
    while i < N
        invariant
            i <= N <= 32,
            out@.len() == N,
            forall|j: int| 0 <= j < i ==> out@[j] == words32_to_be(ws@)[j],
        decreases N - i,
    {
        out[i] = (ws[i / 4] >> ((24 - 8 * (i % 4)) as u32)) as u8;
        i += 1;
    }
    proof {
        assert(out@ =~= words32_to_be(ws@).take(N as int));
    }
    out
}

/// The first `N` bytes of the big-endian encoding of `ws`.
pub fn be_bytes_of_words64<const N: usize>(ws: &[u64; 8]) -> (r: [u8; N])
    requires
        N <= 64,
    ensures
        r@ == words64_to_be(ws@).take(N as int),
{
    let mut out = [0u8; N];
    let mut i: usize = 0;
    while i < N
        invariant
            i <= N <= 64,
            out@.len() == N,
            forall|j: int| 0 <= j < i ==> out@[j] == words64_to_be(ws@)[j],
        decreases N - i,
    {
        out[i] = (ws[i / 8] >> ((56 - 8 * (i % 8)) as u64)) as u8;
        i += 1;
    }
    proof {
        assert(out@ =~= words64_to_be(ws@).take(N as int));
    }
    out
}

/// A fixed-width unsigned word: the operations that the compression
/// functions are written against, so that one routine serves 32-bit and 64-bit
/// words.
pub trait Word: Copy + Sized {
    /// Width in bytes.
    spec fn spec_bytes() -> nat;

    /// Addition modulo 2^W.
    spec fn spec_add(a: Self, b: Self) -> Self;

    spec fn spec_xor(a: Self, b: Self) -> Self;

    spec fn spec_and(a: Self, b: Self) -> Self;

    spec fn spec_not(a: Self) -> Self;

    /// Rotation to the right by `n` bits.
    spec fn spec_rotr(x: Self, n: u32) -> Self;

    /// Logical shift to the right by `n` bits.
    spec fn spec_shr(x: Self, n: u32) -> Self;

    /// The word whose big-endian bytes are `b`.
    spec fn spec_from_be(b: Seq<u8>) -> Self;

    /// The words of `ws`, each as big-endian bytes.
    spec fn spec_to_be(ws: Seq<Self>) -> Seq<u8>;

    fn bytes() -> (r: usize)
        ensures
            r == Self::spec_bytes(),
            r == 4 || r == 8,
    ;

    fn zero() -> Self;

    fn add_wrapping(a: Self, b: Self) -> (r: Self)
        ensures
            r == Self::spec_add(a, b),
    ;

    fn bit_xor(a: Self, b: Self) -> (r: Self)
        ensures
            r == Self::spec_xor(a, b),
    ;

    fn bit_and(a: Self, b: Self) -> (r: Self)
        ensures
            r == Self::spec_and(a, b),
    ;

    fn bit_not(a: Self) -> (r: Self)
        ensures
            r == Self::spec_not(a),
    ;

    fn rotr(x: Self, n: u32) -> (r: Self)
        requires
            n < 8 * Self::spec_bytes(),
        ensures
            r == Self::spec_rotr(x, n),
    ;

    fn shr(x: Self, n: u32) -> (r: Self)
        requires
            n < 8 * Self::spec_bytes(),
        ensures
            r == Self::spec_shr(x, n),
    ;

    fn read_be(s: &[u8], i: usize) -> (r: Self)
        requires
            i + Self::spec_bytes() <= s@.len(),
        ensures
            r == Self::spec_from_be(s@.subrange(i as int, i + Self::spec_bytes())),
    ;

    /// The first `N` bytes of the big-endian encoding of `ws`.
    fn to_be_bytes<const N: usize>(ws: &[Self; 8]) -> (r: [u8; N])
        requires
            N <= 8 * Self::spec_bytes(),
        ensures
            r@ == Self::spec_to_be(ws@).take(N as int),
    ;
}

impl Word for u32 {
    open spec fn spec_bytes() -> nat {
        4
    }

    open spec fn spec_add(a: u32, b: u32) -> u32 {
        add32(a, b)
    }

    open spec fn spec_xor(a: u32, b: u32) -> u32 {
        a ^ b
    }

    open spec fn spec_and(a: u32, b: u32) -> u32 {
        a & b
    }

    open spec fn spec_not(a: u32) -> u32 {
        !a
    }

    open spec fn spec_rotr(x: u32, n: u32) -> u32 {
        rotr32(x, n)
    }

    open spec fn spec_shr(x: u32, n: u32) -> u32 {
        x >> n
    }

    open spec fn spec_from_be(b: Seq<u8>) -> u32 {
        be32_at(b, 0)
    }

    open spec fn spec_to_be(ws: Seq<u32>) -> Seq<u8> {
        words32_to_be(ws)
    }

    fn bytes() -> (r: usize) {
        4
    }

    fn zero() -> u32 {
        0
    }

    fn add_wrapping(a: u32, b: u32) -> (r: u32) {
        a.wrapping_add(b)
    }

    fn bit_xor(a: u32, b: u32) -> (r: u32) {
        a ^ b
    }

    fn bit_and(a: u32, b: u32) -> (r: u32) {
        a & b
    }

    fn bit_not(a: u32) -> (r: u32) {
        !a
    }

    fn rotr(x: u32, n: u32) -> (r: u32) {
        rotate_right(x, n)
    }

    fn shr(x: u32, n: u32) -> (r: u32) {
        x >> n
    }

    fn read_be(s: &[u8], i: usize) -> (r: u32) {
        let r = read_be32(s, i);
        proof {
            let b = s@.subrange(i as int, i + 4);
            assert(b[0] == s@[i as int] && b[1] == s@[i + 1] && b[2] == s@[i + 2] && b[3] == s@[i + 3]);
        }
        r
    }

    fn to_be_bytes<const N: usize>(ws: &[u32; 8]) -> (r: [u8; N]) {
        be_bytes_of_words32::<N>(ws)
    }
}

impl Word for u64 {
    open spec fn spec_bytes() -> nat {
        8
    }

    open spec fn spec_add(a: u64, b: u64) -> u64 {
        add64(a, b)
    }

    open spec fn spec_xor(a: u64, b: u64) -> u64 {
        a ^ b
    }

    open spec fn spec_and(a: u64, b: u64) -> u64 {
        a & b
    }

    open spec fn spec_not(a: u64) -> u64 {
        !a
    }

    open spec fn spec_rotr(x: u64, n: u32) -> u64 {
        rotr64(x, n as u64)
    }

    open spec fn spec_shr(x: u64, n: u32) -> u64 {
        x >> (n as u64)
    }

    open spec fn spec_from_be(b: Seq<u8>) -> u64 {
        be64_at(b, 0)
    }

    open spec fn spec_to_be(ws: Seq<u64>) -> Seq<u8> {
        words64_to_be(ws)
    }

    fn bytes() -> (r: usize) {
        8
    }

    fn zero() -> u64 {
        0
    }

    fn add_wrapping(a: u64, b: u64) -> (r: u64) {
        a.wrapping_add(b)
    }

    fn bit_xor(a: u64, b: u64) -> (r: u64) {
        a ^ b
    }

    fn bit_and(a: u64, b: u64) -> (r: u64) {
        a & b
    }

    fn bit_not(a: u64) -> (r: u64) {
        !a
    }

    fn rotr(x: u64, n: u32) -> (r: u64) {
        rotate_right64(x, n as u64)
    }

    fn shr(x: u64, n: u32) -> (r: u64) {
        x >> (n as u64)
    }

    fn read_be(s: &[u8], i: usize) -> (r: u64) {
        let r = read_be64(s, i);
        proof {
            let b = s@.subrange(i as int, i + 8);
            assert(forall|k: int| 0 <= k < 8 ==> b[k] == s@[i + k]);
            assert(b[0] == s@[i as int] && b[4] == s@[i + 4]);
        }
        r
    }

    fn to_be_bytes<const N: usize>(ws: &[u64; 8]) -> (r: [u8; N]) {
        be_bytes_of_words64::<N>(ws)
    }
}

} // verus!
