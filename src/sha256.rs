//! SHA-224 and SHA-256: the SHA-2 compression on 32-bit words, with their
//! initial values and output lengths.
use vstd::prelude::*;
use crate::engine::{
    BlockHasher, GenericStateHasher, hash_blocks, max_message_len, md_pad, pending_tail, zero_pad_len,
};
use crate::sha2::{Sha2State, compress};
use crate::word::words32_to_be;

verus! {

/// Initial state of SHA-256.
pub const SHA256_IV: [u32; 8] = [
    0x6A09E667, 0xBB67AE85, 0x3C6EF372, 0xA54FF53A,
    0x510E527F, 0x9B05688C, 0x1F83D9AB, 0x5BE0CD19,
];

/// Initial state of SHA-224.
pub const SHA224_IV: [u32; 8] = [
    0xC1059ED8, 0x367CD507, 0x3070DD17, 0xF70E5939,
    0xFFC00B31, 0x68581511, 0x64F98FA7, 0xBEFA4FA4,
];

/// SHA-256 of `m`.
pub open spec fn sha256(m: Seq<u8>) -> Seq<u8> {
    words32_to_be(hash_blocks::<Sha256BitsState>(SHA256_IV@, md_pad(m, 64, 8)))
}

/// SHA-224 of `m`: the first 28 bytes of the final state.
pub open spec fn sha224(m: Seq<u8>) -> Seq<u8> {
    words32_to_be(hash_blocks::<Sha224State>(SHA224_IV@, md_pad(m, 64, 8))).take(28)
}

/// The SHA-2 registers on 32-bit words.
pub type Sha256BitsState = Sha2State<u32>;

/// The SHA-224 state: the 32-bit SHA-2 registers, started from the SHA-224
/// initial values.
#[derive(Clone, Copy, Debug)]
pub struct Sha224State(pub Sha256BitsState);

impl View for Sha224State {
    type V = Seq<u32>;

    open spec fn view(&self) -> Seq<u32> {
        self.0@
    }
}

impl Sha224State {
    /// The SHA-224 initial state.
    pub fn new() -> (r: Self)
        ensures
            r@ == SHA224_IV@,
    {
        Sha224State(Sha256BitsState::from_words(SHA224_IV))
    }
}

impl GenericStateHasher for Sha224State {
    open spec fn spec_block_len() -> nat {
        64
    }

    open spec fn spec_hash_block(v: Seq<u32>, block: Seq<u8>) -> Seq<u32> {
        compress(v, block)
    }

    open spec fn inv(&self) -> bool {
        true
    }

    fn block_len(&self) -> (r: usize) {
        64
    }

    fn hash_block(&mut self, data: &[u8], offset: usize) {
        self.0.hash_block(data, offset)
    }
}

/// Streaming SHA-256.
pub struct Sha256Hasher {
    inner: BlockHasher<Sha256BitsState>,
}

impl Sha256Hasher {
    /// Every byte written so far.
    pub closed spec fn message(&self) -> Seq<u8> {
        self.inner.message()
    }

    pub closed spec fn inv(&self) -> bool {
        &&& self.inner.inv()
        &&& self.inner.initial() == SHA256_IV@
        &&& self.inner.message().len() <= max_message_len(8)
    }

    /// A hasher that has taken in nothing yet.
    pub fn new() -> (r: Self)
        ensures
            r.inv(),
            r.message() == Seq::<u8>::empty(),
    {
        Sha256Hasher { inner: BlockHasher::new(Sha256BitsState::from_words(SHA256_IV)) }
    }

    /// Feeds `bytes` to the hasher.
    pub fn write(&mut self, bytes: &[u8])
        requires
            old(self).inv(),
            old(self).message().len() + bytes@.len() <= max_message_len(8),
        ensures
            final(self).inv(),
            final(self).message() == old(self).message() + bytes@,
    {
        self.inner.write(bytes)
    }

    /// Length of the `0x80`-and-zeros run that padding would append now.
    pub fn zero_padding_length(&self) -> (r: usize)
        requires
            self.inv(),
        ensures
            r == zero_pad_len(self.message().len(), 64, 8),
    {
        self.inner.zero_padding_length(8)
    }

    /// The 64-byte block buffer.
    pub fn pad_buffer(&self) -> (r: &[u8])
        requires
            self.inv(),
        ensures
            r@.len() == 64,
            r@.take(self.message().len() as int % 64) == pending_tail(self.message(), 64),
    {
        self.inner.pad_buffer()
    }

    /// The message a consistent hasher holds fits the length limit.
    pub proof fn lemma_message_bound(&self)
        requires
            self.inv(),
        ensures
            self.message().len() <= max_message_len(8),
    {
    }

    /// Number of bytes written so far.
    pub fn size(&self) -> (r: u128)
        requires
            self.inv(),
        ensures
            r == self.message().len(),
            r <= max_message_len(8),
    {
        self.inner.size()
    }

    /// The compression state: the initial state with every complete block of
    /// the message compressed into it.
    pub fn state(&self) -> (r: Sha256BitsState)
        requires
            self.inv(),
        ensures
            r@ == hash_blocks::<Sha256BitsState>(SHA256_IV@, self.message()),
    {
        *self.inner.state()
    }

    /// An independent copy of the hasher, to be continued separately.
    pub fn duplicate(&self) -> (r: Self)
        requires
            self.inv(),
        ensures
            r.inv(),
            r.message() == self.message(),
    {
        Sha256Hasher { inner: self.inner.duplicate() }
    }
    /// Pads the message and returns its digest.
    pub fn finish(self) -> (r: [u8; 32])
        requires
            self.inv(),
        ensures
            r@ == sha256(self.message()),
    {
        let mut inner = self.inner;
        inner.pad_md(8);
        let r = inner.state().to_be_bytes::<32>();
        proof {
            assert(words32_to_be(inner.spec_state()@).take(32) =~= words32_to_be(inner.spec_state()@));
        }
        r
    }
}

/// Streaming SHA-224.
pub struct Sha224Hasher {
    inner: BlockHasher<Sha224State>,
}

impl Sha224Hasher {
    /// Every byte written so far.
    pub closed spec fn message(&self) -> Seq<u8> {
        self.inner.message()
    }

    pub closed spec fn inv(&self) -> bool {
        &&& self.inner.inv()
        &&& self.inner.initial() == SHA224_IV@
        &&& self.inner.message().len() <= max_message_len(8)
    }

    /// A hasher that has taken in nothing yet.
    pub fn new() -> (r: Self)
        ensures
            r.inv(),
            r.message() == Seq::<u8>::empty(),
    {
        Sha224Hasher { inner: BlockHasher::new(Sha224State::new()) }
    }

    /// Feeds `bytes` to the hasher.
    pub fn write(&mut self, bytes: &[u8])
        requires
            old(self).inv(),
            old(self).message().len() + bytes@.len() <= max_message_len(8),
        ensures
            final(self).inv(),
            final(self).message() == old(self).message() + bytes@,
    {
        self.inner.write(bytes)
    }

    /// The message a consistent hasher holds fits the length limit.
    pub proof fn lemma_message_bound(&self)
        requires
            self.inv(),
        ensures
            self.message().len() <= max_message_len(8),
    {
    }

    /// Number of bytes written so far.
    pub fn size(&self) -> (r: u128)
        requires
            self.inv(),
        ensures
            r == self.message().len(),
            r <= max_message_len(8),
    {
        self.inner.size()
    }

    /// The compression state: the initial state with every complete block of
    /// the message compressed into it.
    pub fn state(&self) -> (r: Sha224State)
        requires
            self.inv(),
        ensures
            r@ == hash_blocks::<Sha224State>(SHA224_IV@, self.message()),
    {
        *self.inner.state()
    }

    /// An independent copy of the hasher, to be continued separately.
    pub fn duplicate(&self) -> (r: Self)
        requires
            self.inv(),
        ensures
            r.inv(),
            r.message() == self.message(),
    {
        Sha224Hasher { inner: self.inner.duplicate() }
    }
    /// Pads the message and returns its digest.
    pub fn finish(self) -> (r: [u8; 28])
        requires
            self.inv(),
        ensures
            r@ == sha224(self.message()),
    {
        let mut inner = self.inner;
        inner.pad_md(8);
        inner.state().0.to_be_bytes::<28>()
    }
}

} // verus!
