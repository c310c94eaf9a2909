//! SHA-384, SHA-512, SHA-512/224 and SHA-512/256: the SHA-2 compression on
//! 64-bit words.
use vstd::prelude::*;
use crate::engine::{
    BlockHasher, GenericStateHasher, hash_blocks, max_message_len, md_pad, zero_pad_len,
};
use crate::sha2::{Sha2State, compress};
use crate::word::words64_to_be;

verus! {

/// Initial state of SHA-512.
pub const SHA512_IV: [u64; 8] = [
    0x6A09E667_F3BCC908, 0xBB67AE85_84CAA73B,
    0x3C6EF372_FE94F82B, 0xA54FF53A_5F1D36F1,
    0x510E527F_ADE682D1, 0x9B05688C_2B3E6C1F,
    0x1F83D9AB_FB41BD6B, 0x5BE0CD19_137E2179,
];

/// Initial state of SHA-384.
pub const SHA384_IV: [u64; 8] = [
    0xCBBB9D5D_C1059ED8, 0x629A292A_367CD507,
    0x9159015A_3070DD17, 0x152FECD8_F70E5939,
    0x67332667_FFC00B31, 0x8EB44A87_68581511,
    0xDB0C2E0D_64F98FA7, 0x47B5481D_BEFA4FA4,
];

/// Initial state of SHA-512/224.
pub const SHA512_224_IV: [u64; 8] = [
    0x8C3D37C8_19544DA2, 0x73E19966_89DCD4D6,
    0x1DFAB7AE_32FF9C82, 0x679DD514_582F9FCF,
    0x0F6D2B69_7BD44DA8, 0x77E36F73_04C48942,
    0x3F9D85A8_6A1D36C8, 0x1112E6AD_91D692A1,
];

/// Initial state of SHA-512/256.
pub const SHA512_256_IV: [u64; 8] = [
    0x22312194_FC2BF72C, 0x9F555FA3_C84C64C2,
    0x2393B86B_6F53B151, 0x96387719_5940EABD,
    0x96283EE2_A88EFFE3, 0xBE5E1E25_53863992,
    0x2B0199FC_2C85B8AA, 0x0EB72DDC_81C52CA2,
];

/// The final 64-bit SHA-2 state for `m` from initial state `iv`, as bytes.
pub open spec fn sha512_family(iv: Seq<u64>, m: Seq<u8>) -> Seq<u8> {
    words64_to_be(hash_blocks::<Sha512BitsState>(iv, md_pad(m, 128, 16)))
}

/// SHA-512 of `m`.
pub open spec fn sha512(m: Seq<u8>) -> Seq<u8> {
    sha512_family(SHA512_IV@, m)
}

/// SHA-384 of `m`.
pub open spec fn sha384(m: Seq<u8>) -> Seq<u8> {
    words64_to_be(hash_blocks::<Sha384State>(SHA384_IV@, md_pad(m, 128, 16))).take(48)
}

/// SHA-512/224 of `m`.
pub open spec fn sha512_224(m: Seq<u8>) -> Seq<u8> {
    sha512_family(SHA512_224_IV@, m).take(28)
}

/// SHA-512/256 of `m`.
pub open spec fn sha512_256(m: Seq<u8>) -> Seq<u8> {
    sha512_family(SHA512_256_IV@, m).take(32)
}

/// The SHA-2 registers on 64-bit words.
pub type Sha512BitsState = Sha2State<u64>;

/// The SHA-384 state: the 64-bit SHA-2 registers, started from the SHA-384
/// initial values.
#[derive(Clone, Copy, Debug)]
pub struct Sha384State(pub Sha512BitsState);

impl View for Sha384State {
    type V = Seq<u64>;

    open spec fn view(&self) -> Seq<u64> {
        self.0@
    }
}

impl Sha384State {
    /// The SHA-384 initial state.
    pub fn new() -> (r: Self)
        ensures
            r@ == SHA384_IV@,
    {
        Sha384State(Sha512BitsState::from_words(SHA384_IV))
    }
}

impl GenericStateHasher for Sha384State {
    open spec fn spec_block_len() -> nat {
        128
    }

    open spec fn spec_hash_block(v: Seq<u64>, block: Seq<u8>) -> Seq<u64> {
        compress(v, block)
    }

    open spec fn inv(&self) -> bool {
        true
    }

    fn block_len(&self) -> (r: usize) {
        128
    }

    fn hash_block(&mut self, data: &[u8], offset: usize) {
        self.0.hash_block(data, offset)
    }
}

/// Streaming SHA-384.
pub struct Sha384Hasher {
    inner: BlockHasher<Sha384State>,
}

impl Sha384Hasher {
    /// Every byte written so far.
    pub closed spec fn message(&self) -> Seq<u8> {
        self.inner.message()
    }

    pub closed spec fn inv(&self) -> bool {
        &&& self.inner.inv()
        &&& self.inner.initial() == SHA384_IV@
        &&& self.inner.message().len() <= max_message_len(16)
    }

    /// A hasher that has taken in nothing yet.
    pub fn new() -> (r: Self)
        ensures
            r.inv(),
            r.message() == Seq::<u8>::empty(),
    {
        Sha384Hasher { inner: BlockHasher::new(Sha384State::new()) }
    }

    /// Feeds `bytes` to the hasher.
    pub fn write(&mut self, bytes: &[u8])
        requires
            old(self).inv(),
            old(self).message().len() + bytes@.len() <= max_message_len(16),
        ensures
            final(self).inv(),
            final(self).message() == old(self).message() + bytes@,
    {
        self.inner.write(bytes)
    }

    /// Length of the `0x80`-and-zeros run that padding would append now.
    pub fn zero_padding_length(&self) -> (r: usize)
        requires
            self.inv(),
        ensures
            r == zero_pad_len(self.message().len(), 128, 16),
    {
        self.inner.zero_padding_length(16)
    }

    /// The message a consistent hasher holds fits the length limit.
    pub proof fn lemma_message_bound(&self)
        requires
            self.inv(),
        ensures
            self.message().len() <= max_message_len(16),
    {
    }

    /// Number of bytes written so far.
    pub fn size(&self) -> (r: u128)
        requires
            self.inv(),
        ensures
            r == self.message().len(),
            r <= max_message_len(16),
    {
        self.inner.size()
    }

    /// The compression state: the initial state with every complete block of
    /// the message compressed into it.
    pub fn state(&self) -> (r: Sha384State)
        requires
            self.inv(),
        ensures
            r@ == hash_blocks::<Sha384State>(SHA384_IV@, self.message()),
    {
        *self.inner.state()
    }

    /// An independent copy of the hasher, to be continued separately.
    pub fn duplicate(&self) -> (r: Self)
        requires
            self.inv(),
        ensures
            r.inv(),
            r.message() == self.message(),
    {
        Sha384Hasher { inner: self.inner.duplicate() }
    }
    /// Pads the message and returns its digest.
    pub fn finish(self) -> (r: [u8; 48])
        requires
            self.inv(),
        ensures
            r@ == sha384(self.message()),
    {
        let mut inner = self.inner;
        inner.pad_md(16);
        let r = inner.state().0.to_be_bytes::<48>();
        proof {
            assert(words64_to_be(inner.spec_state()@).take(48) =~= sha384(self.message()));
        }
        r
    }
}

/// Streaming SHA-512.
pub struct Sha512Hasher {
    inner: BlockHasher<Sha512BitsState>,
}

impl Sha512Hasher {
    /// Every byte written so far.
    pub closed spec fn message(&self) -> Seq<u8> {
        self.inner.message()
    }

    pub closed spec fn inv(&self) -> bool {
        &&& self.inner.inv()
        &&& self.inner.initial() == SHA512_IV@
        &&& self.inner.message().len() <= max_message_len(16)
    }

    /// A hasher that has taken in nothing yet.
    pub fn new() -> (r: Self)
        ensures
            r.inv(),
            r.message() == Seq::<u8>::empty(),
    {
        Sha512Hasher { inner: BlockHasher::new(Sha512BitsState::from_words(SHA512_IV)) }
    }

    /// Feeds `bytes` to the hasher.
    pub fn write(&mut self, bytes: &[u8])
        requires
            old(self).inv(),
            old(self).message().len() + bytes@.len() <= max_message_len(16),
        ensures
            final(self).inv(),
            final(self).message() == old(self).message() + bytes@,
    {
        self.inner.write(bytes)
    }

    /// The message a consistent hasher holds fits the length limit.
    pub proof fn lemma_message_bound(&self)
        requires
            self.inv(),
        ensures
            self.message().len() <= max_message_len(16),
    {
    }

    /// Number of bytes written so far.
    pub fn size(&self) -> (r: u128)
        requires
            self.inv(),
        ensures
            r == self.message().len(),
            r <= max_message_len(16),
    {
        self.inner.size()
    }

    /// The compression state: the initial state with every complete block of
    /// the message compressed into it.
    pub fn state(&self) -> (r: Sha512BitsState)
        requires
            self.inv(),
        ensures
            r@ == hash_blocks::<Sha512BitsState>(SHA512_IV@, self.message()),
    {
        *self.inner.state()
    }

    /// An independent copy of the hasher, to be continued separately.
    pub fn duplicate(&self) -> (r: Self)
        requires
            self.inv(),
        ensures
            r.inv(),
            r.message() == self.message(),
    {
        Sha512Hasher { inner: self.inner.duplicate() }
    }
    /// Pads the message and returns its digest.
    pub fn finish(self) -> (r: [u8; 64])
        requires
            self.inv(),
        ensures
            r@ == sha512(self.message()),
    {
        let mut inner = self.inner;
        inner.pad_md(16);
        let r = inner.state().to_be_bytes::<64>();
        proof {
            assert(words64_to_be(inner.spec_state()@).take(64) =~= sha512(self.message()));
        }
        r
    }
}

/// Streaming SHA-512/224.
pub struct Sha512_224Hasher {
    inner: BlockHasher<Sha512BitsState>,
}

impl Sha512_224Hasher {
    /// Every byte written so far.
    pub closed spec fn message(&self) -> Seq<u8> {
        self.inner.message()
    }

    pub closed spec fn inv(&self) -> bool {
        &&& self.inner.inv()
        &&& self.inner.initial() == SHA512_224_IV@
        &&& self.inner.message().len() <= max_message_len(16)
    }

    /// A hasher that has taken in nothing yet.
    pub fn new() -> (r: Self)
        ensures
            r.inv(),
            r.message() == Seq::<u8>::empty(),
    {
        Sha512_224Hasher { inner: BlockHasher::new(Sha512BitsState::from_words(SHA512_224_IV)) }
    }

    /// Feeds `bytes` to the hasher.
    pub fn write(&mut self, bytes: &[u8])
        requires
            old(self).inv(),
            old(self).message().len() + bytes@.len() <= max_message_len(16),
        ensures
            final(self).inv(),
            final(self).message() == old(self).message() + bytes@,
    {
        self.inner.write(bytes)
    }

    /// The message a consistent hasher holds fits the length limit.
    pub proof fn lemma_message_bound(&self)
        requires
            self.inv(),
        ensures
            self.message().len() <= max_message_len(16),
    {
    }

    /// Number of bytes written so far.
    pub fn size(&self) -> (r: u128)
        requires
            self.inv(),
        ensures
            r == self.message().len(),
            r <= max_message_len(16),
    {
        self.inner.size()
    }

    /// The compression state: the initial state with every complete block of
    /// the message compressed into it.
    pub fn state(&self) -> (r: Sha512BitsState)
        requires
            self.inv(),
        ensures
            r@ == hash_blocks::<Sha512BitsState>(SHA512_224_IV@, self.message()),
    {
        *self.inner.state()
    }

    /// An independent copy of the hasher, to be continued separately.
    pub fn duplicate(&self) -> (r: Self)
        requires
            self.inv(),
        ensures
            r.inv(),
            r.message() == self.message(),
    {
        Sha512_224Hasher { inner: self.inner.duplicate() }
    }
    /// Pads the message and returns its digest.
    pub fn finish(self) -> (r: [u8; 28])
        requires
            self.inv(),
        ensures
            r@ == sha512_224(self.message()),
    {
        let mut inner = self.inner;
        inner.pad_md(16);
        let r = inner.state().to_be_bytes::<28>();
        proof {
            assert(words64_to_be(inner.spec_state()@).take(28) =~= sha512_224(self.message()));
        }
        r
    }
}

/// Streaming SHA-512/256.
pub struct Sha512_256Hasher {
    inner: BlockHasher<Sha512BitsState>,
}

impl Sha512_256Hasher {
    /// Every byte written so far.
    pub closed spec fn message(&self) -> Seq<u8> {
        self.inner.message()
    }

    pub closed spec fn inv(&self) -> bool {
        &&& self.inner.inv()
        &&& self.inner.initial() == SHA512_256_IV@
        &&& self.inner.message().len() <= max_message_len(16)
    }

    /// A hasher that has taken in nothing yet.
    pub fn new() -> (r: Self)
        ensures
            r.inv(),
            r.message() == Seq::<u8>::empty(),
    {
        Sha512_256Hasher { inner: BlockHasher::new(Sha512BitsState::from_words(SHA512_256_IV)) }
    }

    /// Feeds `bytes` to the hasher.
    pub fn write(&mut self, bytes: &[u8])
        requires
            old(self).inv(),
            old(self).message().len() + bytes@.len() <= max_message_len(16),
        ensures
            final(self).inv(),
            final(self).message() == old(self).message() + bytes@,
    {
        self.inner.write(bytes)
    }

    /// The message a consistent hasher holds fits the length limit.
    pub proof fn lemma_message_bound(&self)
        requires
            self.inv(),
        ensures
            self.message().len() <= max_message_len(16),
    {
    }

    /// Number of bytes written so far.
    pub fn size(&self) -> (r: u128)
        requires
            self.inv(),
        ensures
            r == self.message().len(),
            r <= max_message_len(16),
    {
        self.inner.size()
    }

    /// The compression state: the initial state with every complete block of
    /// the message compressed into it.
    pub fn state(&self) -> (r: Sha512BitsState)
        requires
            self.inv(),
        ensures
            r@ == hash_blocks::<Sha512BitsState>(SHA512_256_IV@, self.message()),
    {
        *self.inner.state()
    }

    /// An independent copy of the hasher, to be continued separately.
    pub fn duplicate(&self) -> (r: Self)
        requires
            self.inv(),
        ensures
            r.inv(),
            r.message() == self.message(),
    {
        Sha512_256Hasher { inner: self.inner.duplicate() }
    }
    /// Pads the message and returns its digest.
    pub fn finish(self) -> (r: [u8; 32])
        requires
            self.inv(),
        ensures
            r@ == sha512_256(self.message()),
    {
        let mut inner = self.inner;
        inner.pad_md(16);
        let r = inner.state().to_be_bytes::<32>();
        proof {
            assert(words64_to_be(inner.spec_state()@).take(32) =~= sha512_256(self.message()));
        }
        r
    }
}

} // verus!
