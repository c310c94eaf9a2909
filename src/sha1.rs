//! SHA-1: five 32-bit registers, an 80-word message schedule and four round
//! functions selected by round number.
use vstd::prelude::*;
use crate::engine::{
    BlockHasher, GenericStateHasher, hash_blocks, max_message_len, md_pad, pending_tail,
    zero_pad_len,
};
use crate::word::{
    add32, be32_at, be_bytes_of_words32, read_be32, rotate_left, rotate_right, rotl32, rotr32,
    words32_to_be,
};

verus! {

pub const H0: u32 = 0x67452301;
pub const H1: u32 = 0xEFCDAB89;
pub const H2: u32 = 0x98BADCFE;
pub const H3: u32 = 0x10325476;
pub const H4: u32 = 0xC3D2E1F0;

/// Round constants of rounds 0-19, 20-39, 40-59 and 60-79.
pub const T_0_19: u32 = 0x5A827999;
pub const T_20_39: u32 = 0x6ED9EBA1;
pub const T_40_59: u32 = 0x8F1BBCDC;
pub const T_60_79: u32 = 0xCA62C1D6;

/// The SHA-1 initial state.
pub open spec fn sha1_iv() -> Seq<u32> {
    seq![H0, H1, H2, H3, H4]
}

/// Round function of round `t`.
pub open spec fn f_t(t: nat, b: u32, c: u32, d: u32) -> u32 {
    if t < 20 {
        (b & c) | (!b & d)
    } else if t < 40 {
        b ^ c ^ d
    } else if t < 60 {
        (b & c) | (b & d) | (c & d)
    } else {
        b ^ c ^ d
    }
}

/// Round constant of round `t`.
pub open spec fn k_t(t: nat) -> u32 {
    if t < 20 {
        T_0_19
    } else if t < 40 {
        T_20_39
    } else if t < 60 {
        T_40_59
    } else {
        T_60_79
    }
}

/// Word `t` of the message schedule of a 64-byte block.
pub open spec fn schedule1(block: Seq<u8>, t: nat) -> u32
    decreases t,
{
    if t < 16 {
        be32_at(block, 4 * t as int)
    } else {
        rotl32(
            schedule1(block, (t - 3) as nat) ^ schedule1(block, (t - 8) as nat) ^ schedule1(
                block,
                (t - 14) as nat,
            ) ^ schedule1(block, (t - 16) as nat),
            1,
        )
    }
}

/// Round `t` on the registers `(a, b, c, d, e)` with schedule word `w`.
pub open spec fn round1(s: Seq<u32>, t: nat, w: u32) -> Seq<u32> {
    let temp = add32(add32(add32(add32(rotl32(s[0], 5), f_t(t, s[1], s[2], s[3])), s[4]), k_t(t)), w);
    seq![temp, s[0], rotr32(s[1], 2), s[2], s[3]]
}

/// The registers after the first `t` rounds over `block`.
pub open spec fn rounds1(s: Seq<u32>, block: Seq<u8>, t: nat) -> Seq<u32>
    decreases t,
{
    if t == 0 {
        s
    } else {
        round1(rounds1(s, block, (t - 1) as nat), (t - 1) as nat, schedule1(block, (t - 1) as nat))
    }
}

/// The SHA-1 compression function: 80 rounds, then the input state is added
/// back register by register.
pub open spec fn compress1(h: Seq<u32>, block: Seq<u8>) -> Seq<u32> {
    let r = rounds1(h, block, 80);
    Seq::new(5, |i: int| add32(h[i], r[i]))
}

/// SHA-1 of `m`.
pub open spec fn sha1(m: Seq<u8>) -> Seq<u8> {
    words32_to_be(hash_blocks::<Sha1State>(sha1_iv(), md_pad(m, 64, 8)))
}

/// The five SHA-1 registers.
#[derive(Clone, Copy, Debug)]
pub struct Sha1State {
    pub h: [u32; 5],
}

impl View for Sha1State {
    type V = Seq<u32>;

    open spec fn view(&self) -> Seq<u32> {
        self.h@
    }
}

/// `(b & c) | (!b & d)`, the choice function of rounds 0-19.
pub fn f_1(b: u32, c: u32, d: u32) -> (r: u32)
    ensures
        r == f_t(0, b, c, d),
{
    (b & c) | (!b & d)
}

/// `b ^ c ^ d`, the parity function of rounds 20-39 and 60-79.
pub fn f_2(b: u32, c: u32, d: u32) -> (r: u32)
    ensures
        r == f_t(20, b, c, d),
        r == f_t(60, b, c, d),
{
    b ^ c ^ d
}

/// `(b & c) | (b & d) | (c & d)`, the majority function of rounds 40-59.
pub fn f_3(b: u32, c: u32, d: u32) -> (r: u32)
    ensures
        r == f_t(40, b, c, d),
{
    (b & c) | (b & d) | (c & d)
}

/// Round function and constant of round `t`.
fn round_parts(t: usize, b: u32, c: u32, d: u32) -> (r: (u32, u32))
    requires
        t < 80,
    ensures
        r.0 == f_t(t as nat, b, c, d),
        r.1 == k_t(t as nat),
{
    if t < 20 {
        (f_1(b, c, d), T_0_19)
    } else if t < 40 {
        (f_2(b, c, d), T_20_39)
    } else if t < 60 {
        (f_3(b, c, d), T_40_59)
    } else {
        (f_2(b, c, d), T_60_79)
    }
}

impl Sha1State {
    /// The SHA-1 initial state.
    pub fn new() -> (r: Self)
        ensures
            r@ == sha1_iv(),
    {
        let r = Sha1State { h: [H0, H1, H2, H3, H4] };
        proof {
            assert(r@ =~= sha1_iv());
        }
        r
    }

    /// The state holding `h`.
    pub fn from_words(h: [u32; 5]) -> (r: Self)
        ensures
            r@ == h@,
    {
        Sha1State { h }
    }

    /// One SHA-1 round: round `t` applied to the registers with schedule word
    /// `w`.
    pub fn round(&mut self, t: usize, w: u32)
        requires
            t < 80,
        ensures
            final(self)@ == round1(old(self)@, t as nat, w),
    {
        let (f, k) = round_parts(t, self.h[1], self.h[2], self.h[3]);
        let temp = rotate_left(self.h[0], 5).wrapping_add(f).wrapping_add(self.h[4]).wrapping_add(
            k,
        ).wrapping_add(w);
        let a = self.h[0];
        let b = self.h[1];
        let c = self.h[2];
        let d = self.h[3];
        self.h = [temp, a, rotate_right(b, 2), c, d];
        proof {
            assert(self.h@ =~= round1(old(self)@, t as nat, w));
        }
    }

    /// The registers as 20 bytes, most significant byte first.
    pub fn to_be_bytes(&self) -> (r: [u8; 20])
        ensures
            r@ == words32_to_be(self@),
    {
        let ws: [u32; 8] = [self.h[0], self.h[1], self.h[2], self.h[3], self.h[4], 0, 0, 0];
        let r = be_bytes_of_words32::<20>(&ws);
        proof {
            assert(r@ =~= words32_to_be(self@));
        }
        r
    }
}

impl GenericStateHasher for Sha1State {
    open spec fn spec_block_len() -> nat {
        64
    }

    open spec fn spec_hash_block(v: Seq<u32>, block: Seq<u8>) -> Seq<u32> {
        compress1(v, block)
    }

    open spec fn inv(&self) -> bool {
        true
    }

    fn block_len(&self) -> (r: usize) {
        64
    }

    fn hash_block(&mut self, data: &[u8], offset: usize) {
        let ghost block = data@.subrange(offset as int, offset + 64);
        let n = data.len();
        let mut w = [0u32; 80];
        let mut t: usize = 0;
        while t < 16
            invariant
                t <= 16,
                n == data@.len(),
                offset + 64 <= data@.len(),
                block == data@.subrange(offset as int, offset + 64),
                forall|i: int| 0 <= i < t ==> w@[i] == schedule1(block, i as nat),
            decreases 16 - t,
        {
            w[t] = read_be32(data, offset + 4 * t);
            proof {
                assert(be32_at(data@, offset + 4 * t) == be32_at(block, 4 * t));
            }
            t += 1;
        }
        while t < 80
            invariant
                16 <= t <= 80,
                forall|i: int| 0 <= i < t ==> w@[i] == schedule1(block, i as nat),
            decreases 80 - t,
        {
            w[t] = rotate_left(w[t - 3] ^ w[t - 8] ^ w[t - 14] ^ w[t - 16], 1);
            t += 1;
        }
        let h0 = self.h;
        let mut s = Sha1State { h: h0 };
        let mut t: usize = 0;
        while t < 80
            invariant
                t <= 80,
                forall|i: int| 0 <= i < 80 ==> w@[i] == schedule1(block, i as nat),
                s@ == rounds1(h0@, block, t as nat),
            decreases 80 - t,
        {
            s.round(t, w[t]);
            t += 1;
        }
        self.h[0] = h0[0].wrapping_add(s.h[0]);
        self.h[1] = h0[1].wrapping_add(s.h[1]);
        self.h[2] = h0[2].wrapping_add(s.h[2]);
        self.h[3] = h0[3].wrapping_add(s.h[3]);
        self.h[4] = h0[4].wrapping_add(s.h[4]);
        proof {
            assert(self.h@ =~= compress1(h0@, block));
        }
    }
}

/// The SHA-1 interface: start, feed bytes, take the digest.
pub trait Sha1: Sized {
    /// Every byte fed so far.
    spec fn message(&self) -> Seq<u8>;

    spec fn inv(&self) -> bool;

    fn init() -> (r: Self)
        ensures
            r.inv(),
            r.message() == Seq::<u8>::empty(),
    ;

    /// Feeds the first `len` bytes of `data_in`.
    fn update(&mut self, data_in: &[u8], len: usize)
        requires
            old(self).inv(),
            len <= data_in@.len(),
            old(self).message().len() + len <= max_message_len(8),
        ensures
            final(self).inv(),
            final(self).message() == old(self).message() + data_in@.take(len as int),
    ;

    /// Pads the message and returns its digest; the context is used up.
    fn finalize(self) -> (r: [u8; 20])
        requires
            self.inv(),
        ensures
            r@ == sha1(self.message()),
    ;
}

/// Streaming SHA-1.
pub struct ShaContext {
    inner: BlockHasher<Sha1State>,
}

impl Sha1 for ShaContext {
    closed spec fn message(&self) -> Seq<u8> {
        self.inner.message()
    }

    closed spec fn inv(&self) -> bool {
        &&& self.inner.inv()
        &&& self.inner.initial() == sha1_iv()
        &&& self.inner.message().len() <= max_message_len(8)
    }

    fn init() -> (r: Self) {
        ShaContext { inner: BlockHasher::new(Sha1State::new()) }
    }

    fn update(&mut self, data_in: &[u8], len: usize) {
        self.inner.write(&data_in[0..len])
    }

    fn finalize(self) -> (r: [u8; 20]) {
        let mut inner = self.inner;
        inner.pad_md(8);
        inner.state().to_be_bytes()
    }
}

impl ShaContext {
    /// Feeds all of `bytes`.
    pub fn write(&mut self, bytes: &[u8])
        requires
            old(self).inv(),
            old(self).message().len() + bytes@.len() <= max_message_len(8),
        ensures
            final(self).inv(),
            final(self).message() == old(self).message() + bytes@,
    {
        self.inner.write(bytes)
    }


    /// An independent copy of the hasher, to be continued separately.
    pub fn duplicate(&self) -> (r: Self)
        requires
            self.inv(),
        ensures
            r.inv(),
            r.message() == self.message(),
    {
        ShaContext { inner: self.inner.duplicate() }
    }
    /// The registers reached so far: the initial state with every complete
    /// block of the message compressed into it.
    pub fn state(&self) -> (r: Sha1State)
        requires
            self.inv(),
        ensures
            r@ == hash_blocks::<Sha1State>(sha1_iv(), self.message()),
    {
        *self.inner.state()
    }

    /// Number of bytes fed so far.
    pub fn size(&self) -> (r: u128)
        requires
            self.inv(),
        ensures
            r == self.message().len(),
            r <= max_message_len(8),
    {
        self.inner.size()
    }

    /// The message a consistent context holds fits the length limit.
    pub proof fn lemma_message_bound(&self)
        requires
            self.inv(),
        ensures
            self.message().len() <= max_message_len(8),
    {
    }

    /// Length of the `0x80`-and-zeros run that padding would append now.
    pub fn zero_padding_length(&self) -> (r: usize)
        requires
            self.inv(),
        ensures
            r == zero_pad_len(self.message().len(), 64, 8),
    {
        self.inner.zero_padding_length(8)
    }

    /// The 64-byte block buffer.
    pub fn pad_buffer(&self) -> (r: &[u8])
        requires
            self.inv(),
        ensures
            r@.len() == 64,
            r@.take(self.message().len() as int % 64) == pending_tail(self.message(), 64),
    {
        self.inner.pad_buffer()
    }
}

} // verus!
