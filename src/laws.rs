//! Properties relating several calls: how the digest depends on the way the
//! input was split across writes.
use vstd::prelude::*;
use crate::engine::{be_bytes, md_pad, zero_pad_len};
use crate::sha1::sha1;
use crate::sha256::{sha224, sha256};
use crate::sha3::{sha3_384, sha3_suffix};
use crate::sha512::{sha384, sha512, sha512_224, sha512_256};

verus! {

/// The message a hasher holds after it held `m` and was then given each of
/// `chunks` in turn, one `write` per chunk: every `write` appends its bytes.
pub open spec fn after_writes(m: Seq<u8>, chunks: Seq<Seq<u8>>) -> Seq<u8>
    decreases chunks.len(),
{
    if chunks.len() == 0 {
        m
    } else {
        after_writes(m + chunks[0], chunks.drop_first())
    }
}

/// Writing chunks one by one leaves the same message as writing their
/// concatenation.
pub proof fn lemma_after_writes(m: Seq<u8>, chunks: Seq<Seq<u8>>)
    ensures
        after_writes(m, chunks) == m + chunks.flatten(),
    decreases chunks.len(),
{
    if chunks.len() == 0 {
        assert(m + chunks.flatten() =~= m);
    } else {
        lemma_after_writes(m + chunks[0], chunks.drop_first());
        assert(m + chunks[0] + chunks.drop_first().flatten() =~= m + chunks.flatten());
    }
}

/// Chunking invariance: for every way of splitting a message into consecutive
/// writes, a fresh hasher of each algorithm ends with the digest of the whole
/// message written at once.
pub proof fn lemma_chunking_invariance(chunks: Seq<Seq<u8>>)
    ensures
        sha1(after_writes(Seq::empty(), chunks)) == sha1(chunks.flatten()),
        sha224(after_writes(Seq::empty(), chunks)) == sha224(chunks.flatten()),
        sha256(after_writes(Seq::empty(), chunks)) == sha256(chunks.flatten()),
        sha384(after_writes(Seq::empty(), chunks)) == sha384(chunks.flatten()),
        sha512(after_writes(Seq::empty(), chunks)) == sha512(chunks.flatten()),
        sha512_224(after_writes(Seq::empty(), chunks)) == sha512_224(chunks.flatten()),
        sha512_256(after_writes(Seq::empty(), chunks)) == sha512_256(chunks.flatten()),
        sha3_384(after_writes(Seq::empty(), chunks)) == sha3_384(chunks.flatten()),
{
    lemma_after_writes(Seq::empty(), chunks);
    assert(Seq::<u8>::empty() + chunks.flatten() =~= chunks.flatten());
}

/// An empty write between two writes changes nothing: the digest of `a`, then
/// nothing, then `b` is the digest of `a` then `b`.
pub proof fn lemma_empty_write(a: Seq<u8>, b: Seq<u8>)
    ensures
        sha1(after_writes(Seq::empty(), seq![a, Seq::empty(), b])) == sha1(a + b),
        sha224(after_writes(Seq::empty(), seq![a, Seq::empty(), b])) == sha224(a + b),
        sha256(after_writes(Seq::empty(), seq![a, Seq::empty(), b])) == sha256(a + b),
        sha384(after_writes(Seq::empty(), seq![a, Seq::empty(), b])) == sha384(a + b),
        sha512(after_writes(Seq::empty(), seq![a, Seq::empty(), b])) == sha512(a + b),
        sha512_224(after_writes(Seq::empty(), seq![a, Seq::empty(), b])) == sha512_224(a + b),
        sha512_256(after_writes(Seq::empty(), seq![a, Seq::empty(), b])) == sha512_256(a + b),
        sha3_384(after_writes(Seq::empty(), seq![a, Seq::empty(), b])) == sha3_384(a + b),
{
    let chunks = seq![a, Seq::<u8>::empty(), b];
    lemma_after_writes(Seq::empty(), chunks);
    assert(chunks.drop_first().drop_first().drop_first().flatten() =~= Seq::<u8>::empty());
    assert(chunks.drop_first().drop_first().flatten() =~= b);
    assert(chunks.drop_first().flatten() =~= b);
    assert(Seq::<u8>::empty() + chunks.flatten() =~= a + b);
}

/// The big-endian length field has exactly `k` bytes.
pub proof fn lemma_be_bytes_len(n: nat, k: nat)
    ensures
        be_bytes(n, k).len() == k,
    decreases k,
{
    if k > 0 {
        lemma_be_bytes_len(n / 256, (k - 1) as nat);
    }
}

/// Padding at a block boundary, for blocks of `b` bytes and an `l`-byte length
/// field: a message `l + 1` bytes short of `k` blocks is padded to exactly `k`
/// blocks with a single `0x80`; one byte longer, and the padding spills into a
/// block of its own.
pub proof fn lemma_padding_at_block_boundary(m: Seq<u8>, b: nat, l: nat, k: nat)
    requires
        1 <= l,
        l + 1 < b,
        k >= 1,
    ensures
        m.len() + l + 1 == k * b ==> zero_pad_len(m.len(), b, l) == 1 && md_pad(m, b, l).len()
            == k * b,
        m.len() + l == k * b ==> zero_pad_len(m.len(), b, l) == b && md_pad(m, b, l).len() == (k
            + 1) * b,
{
    lemma_be_bytes_len(m.len() * 8, l);
    let bi = b as int;
    assert(k * bi == (k - 1) * bi + bi) by (nonlinear_arith);
    assert((k - 1) * bi >= 0) by (nonlinear_arith)
        requires k >= 1, bi > 0;
    if m.len() + l + 1 == k * b {
        vstd::arithmetic::div_mod::lemma_fundamental_div_mod_converse(
            m.len() as int,
            bi,
            k - 1,
            bi - l - 1,
        );
    }
    if m.len() + l == k * b {
        vstd::arithmetic::div_mod::lemma_fundamental_div_mod_converse(
            m.len() as int,
            bi,
            k - 1,
            bi - l,
        );
        assert((k + 1) * bi == k * bi + bi) by (nonlinear_arith);
    }
}

/// For SHA3-384, a message one byte short of a whole number of 104-byte
/// blocks takes the single padding byte `0x86`; a whole number of blocks takes
/// a full block of padding.
pub proof fn lemma_sha3_padding_at_block_boundary(m: Seq<u8>, k: nat)
    requires
        k >= 1,
    ensures
        m.len() + 1 == k * 104 ==> sha3_suffix(m.len(), 104) == seq![0x86u8],
        m.len() == k * 104 ==> sha3_suffix(m.len(), 104).len() == 104,
{
    if m.len() + 1 == k * 104 {
        vstd::arithmetic::div_mod::lemma_fundamental_div_mod_converse(m.len() as int, 104, k - 1, 103);
    }
    if m.len() == k * 104 {
        vstd::arithmetic::div_mod::lemma_fundamental_div_mod_converse(m.len() as int, 104, k as int, 0);
    }
}

} // verus!
