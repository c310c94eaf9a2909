//! SHA3-384: the Keccak sponge with a rate of 832 bits, fed through the block
//! hasher and padded with the SHA-3 domain suffix.
use vstd::prelude::*;
use crate::engine::{BlockHasher, hash_blocks, max_message_len};
use crate::keccak::{KeccakSponge, squeeze_bytes};

verus! {

/// Rate of SHA3-384 in bits.
pub const SHA3_384_RATE: usize = 832;

/// Digest length of SHA3-384 in bytes.
pub const SHA3_384_OUTPUT: usize = 48;

/// The sponge of SHA3-384.
pub type Sha3_384State = KeccakSponge<SHA3_384_RATE, SHA3_384_OUTPUT>;

/// The padding that SHA-3 appends to a message of `len` bytes for a rate of
/// `r` bytes: the domain bits `01`, then `10*1`, filling the last block. The
/// first padding byte is `0x06` and the last `0x80`; when they coincide the
/// single byte is `0x86`.
pub open spec fn sha3_suffix(len: nat, r: nat) -> Seq<u8> {
    let q = r - len % r;
    if q == 1 {
        seq![0x86u8]
    } else {
        seq![0x06u8] + Seq::new((q - 2) as nat, |i: int| 0u8) + seq![0x80u8]
    }
}

/// SHA3-384 of `m`.
pub open spec fn sha3_384(m: Seq<u8>) -> Seq<u8> {
    squeeze_bytes(
        hash_blocks::<Sha3_384State>(Seq::new(25, |i: int| 0u64), m + sha3_suffix(m.len(), 104)),
        48,
        104,
    )
}

/// Streaming SHA3-384.
pub struct Sha3_384Hasher {
    inner: BlockHasher<Sha3_384State>,
}

impl Sha3_384Hasher {
    /// Every byte written so far.
    pub closed spec fn message(&self) -> Seq<u8> {
        self.inner.message()
    }

    pub closed spec fn inv(&self) -> bool {
        &&& self.inner.inv()
        &&& self.inner.initial() == Seq::new(25, |i: int| 0u64)
        &&& self.inner.message().len() <= max_message_len(16)
    }

    /// A hasher that has taken in nothing yet.
    pub fn new() -> (r: Self)
        ensures
            r.inv(),
            r.message() == Seq::<u8>::empty(),
    {
        Sha3_384Hasher { inner: BlockHasher::new(Sha3_384State::new()) }
    }

    /// Feeds `bytes` to the hasher.
    pub fn write(&mut self, bytes: &[u8])
        requires
            old(self).inv(),
            old(self).message().len() + bytes@.len() <= max_message_len(16),
        ensures
            final(self).inv(),
            final(self).message() == old(self).message() + bytes@,
    {
        self.inner.write(bytes)
    }

    /// The message a consistent hasher holds fits the length limit.
    pub proof fn lemma_message_bound(&self)
        requires
            self.inv(),
        ensures
            self.message().len() <= max_message_len(16),
    {
    }

    /// Number of bytes written so far.
    pub fn size(&self) -> (r: u128)
        requires
            self.inv(),
        ensures
            r == self.message().len(),
            r <= max_message_len(16),
    {
        self.inner.size()
    }

    /// The compression state: the initial state with every complete block of
    /// the message compressed into it.
    pub fn state(&self) -> (r: Sha3_384State)
        requires
            self.inv(),
        ensures
            r@ == hash_blocks::<Sha3_384State>(Seq::new(25, |i: int| 0u64), self.message()),
    {
        *self.inner.state()
    }

    /// An independent copy of the hasher, to be continued separately.
    pub fn duplicate(&self) -> (r: Self)
        requires
            self.inv(),
        ensures
            r.inv(),
            r.message() == self.message(),
    {
        Sha3_384Hasher { inner: self.inner.duplicate() }
    }
    /// Pads the message, absorbs what is left and squeezes the digest.
    pub fn finish(self) -> (r: [u8; 48])
        requires
            self.inv(),
        ensures
            r@ == sha3_384(self.message()),
    {
        let mut inner = self.inner;
        let ghost m = inner.message();
        let q = 104 - (inner.size() % 104) as usize;
        let mut suffix: Vec<u8> = Vec::new();
        if q == 1 {
            suffix.push(0x86u8);
        } else {
            suffix.push(0x06u8);
            while suffix.len() < q - 1
                invariant
                    2 <= q <= 104,
                    1 <= suffix@.len() <= q - 1,
                    suffix@[0] == 0x06u8,
                    forall|j: int| 1 <= j < suffix@.len() ==> suffix@[j] == 0u8,
                decreases q - 1 - suffix.len(),
            {
                suffix.push(0u8);
            }
            suffix.push(0x80u8);
        }
        proof {
            assert(suffix@ =~= sha3_suffix(m.len(), 104));
        }
        inner.write(suffix.as_slice());
        let mut sponge = *inner.state();
        sponge.squeeze()
    }
}

} // verus!
