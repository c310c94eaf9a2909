//! The SHA-2 compression function, written once over the word model and
//! instantiated at 32 bits (SHA-224/256) and 64 bits (SHA-384/512 and the
//! truncated variants).
use vstd::prelude::*;
use crate::engine::GenericStateHasher;
use crate::word::{Word, rotr32, rotr64};

verus! {

/// Round constants of the 32-bit SHA-2 family.
pub const K256: [u32; 64] = [
    0x428A2F98, 0x71374491, 0xB5C0FBCF, 0xE9B5DBA5,
    0x3956C25B, 0x59F111F1, 0x923F82A4, 0xAB1C5ED5,
    0xD807AA98, 0x12835B01, 0x243185BE, 0x550C7DC3,
    0x72BE5D74, 0x80DEB1FE, 0x9BDC06A7, 0xC19BF174,
    0xE49B69C1, 0xEFBE4786, 0x0FC19DC6, 0x240CA1CC,
    0x2DE92C6F, 0x4A7484AA, 0x5CB0A9DC, 0x76F988DA,
    0x983E5152, 0xA831C66D, 0xB00327C8, 0xBF597FC7,
    0xC6E00BF3, 0xD5A79147, 0x06CA6351, 0x14292967,
    0x27B70A85, 0x2E1B2138, 0x4D2C6DFC, 0x53380D13,
    0x650A7354, 0x766A0ABB, 0x81C2C92E, 0x92722C85,
    0xA2BFE8A1, 0xA81A664B, 0xC24B8B70, 0xC76C51A3,
    0xD192E819, 0xD6990624, 0xF40E3585, 0x106AA070,
    0x19A4C116, 0x1E376C08, 0x2748774C, 0x34B0BCB5,
    0x391C0CB3, 0x4ED8AA4A, 0x5B9CCA4F, 0x682E6FF3,
    0x748F82EE, 0x78A5636F, 0x84C87814, 0x8CC70208,
    0x90BEFFFA, 0xA4506CEB, 0xBEF9A3F7, 0xC67178F2,
];

/// Round constants of the 64-bit SHA-2 family.
pub const K512: [u64; 80] = [
    0x428A2F98_D728AE22, 0x71374491_23EF65CD,
    0xB5C0FBCF_EC4D3B2F, 0xE9B5DBA5_8189DBBC,
    0x3956C25B_F348B538, 0x59F111F1_B605D019,
    0x923F82A4_AF194F9B, 0xAB1C5ED5_DA6D8118,
    0xD807AA98_A3030242, 0x12835B01_45706FBE,
    0x243185BE_4EE4B28C, 0x550C7DC3_D5FFB4E2,
    0x72BE5D74_F27B896F, 0x80DEB1FE_3B1696B1,
    0x9BDC06A7_25C71235, 0xC19BF174_CF692694,
    0xE49B69C1_9EF14AD2, 0xEFBE4786_384F25E3,
    0x0FC19DC6_8B8CD5B5, 0x240CA1CC_77AC9C65,
    0x2DE92C6F_592B0275, 0x4A7484AA_6EA6E483,
    0x5CB0A9DC_BD41FBD4, 0x76F988DA_831153B5,
    0x983E5152_EE66DFAB, 0xA831C66D_2DB43210,
    0xB00327C8_98FB213F, 0xBF597FC7_BEEF0EE4,
    0xC6E00BF3_3DA88FC2, 0xD5A79147_930AA725,
    0x06CA6351_E003826F, 0x14292967_0A0E6E70,
    0x27B70A85_46D22FFC, 0x2E1B2138_5C26C926,
    0x4D2C6DFC_5AC42AED, 0x53380D13_9D95B3DF,
    0x650A7354_8BAF63DE, 0x766A0ABB_3C77B2A8,
    0x81C2C92E_47EDAEE6, 0x92722C85_1482353B,
    0xA2BFE8A1_4CF10364, 0xA81A664B_BC423001,
    0xC24B8B70_D0F89791, 0xC76C51A3_0654BE30,
    0xD192E819_D6EF5218, 0xD6990624_5565A910,
    0xF40E3585_5771202A, 0x106AA070_32BBD1B8,
    0x19A4C116_B8D2D0C8, 0x1E376C08_5141AB53,
    0x2748774C_DF8EEB99, 0x34B0BCB5_E19B48A8,
    0x391C0CB3_C5C95A63, 0x4ED8AA4A_E3418ACB,
    0x5B9CCA4F_7763E373, 0x682E6FF3_D6B2B8A3,
    0x748F82EE_5DEFB2FC, 0x78A5636F_43172F60,
    0x84C87814_A1F0AB72, 0x8CC70208_1A6439EC,
    0x90BEFFFA_23631E28, 0xA4506CEB_DE82BDE9,
    0xBEF9A3F7_B2C67915, 0xC67178F2_E372532B,
    0xCA273ECE_EA26619C, 0xD186B8C7_21C0C207,
    0xEADA7DD6_CDE0EB1E, 0xF57D4F7F_EE6ED178,
    0x06F067AA_72176FBA, 0x0A637DC5_A2C898A6,
    0x113F9804_BEF90DAE, 0x1B710B35_131C471B,
    0x28DB77F5_23047D84, 0x32CAAB7B_40C72493,
    0x3C9EBE0A_15C9BEBC, 0x431D67C4_9C100D4C,
    0x4CC5D4BE_CB3E42B6, 0x597F299C_FC657E2A,
    0x5FCB6FAB_3AD6FAEC, 0x6C44198C_4A475817,
];

/// What the two widths of SHA-2 differ in: the round count, the round
/// constants and the shift amounts of the four sigma functions.
pub trait Sha2Word: Word {
    spec fn spec_rounds() -> nat;

    spec fn spec_k(t: int) -> Self;

    spec fn spec_big_sigma0(x: Self) -> Self;

    spec fn spec_big_sigma1(x: Self) -> Self;

    spec fn spec_small_sigma0(x: Self) -> Self;

    spec fn spec_small_sigma1(x: Self) -> Self;

    fn rounds() -> (r: usize)
        ensures
            r == Self::spec_rounds(),
            16 <= r <= 80,
    ;

    fn k(t: usize) -> (r: Self)
        requires
            t < Self::spec_rounds(),
        ensures
            r == Self::spec_k(t as int),
    ;

    fn big_sigma0(x: Self) -> (r: Self)
        ensures
            r == Self::spec_big_sigma0(x),
    ;

    fn big_sigma1(x: Self) -> (r: Self)
        ensures
            r == Self::spec_big_sigma1(x),
    ;

    fn small_sigma0(x: Self) -> (r: Self)
        ensures
            r == Self::spec_small_sigma0(x),
    ;

    fn small_sigma1(x: Self) -> (r: Self)
        ensures
            r == Self::spec_small_sigma1(x),
    ;
}

impl Sha2Word for u32 {
    open spec fn spec_rounds() -> nat {
        64
    }

    open spec fn spec_k(t: int) -> u32 {
        K256[t]
    }

    open spec fn spec_big_sigma0(x: u32) -> u32 {
        rotr32(x, 2) ^ rotr32(x, 13) ^ rotr32(x, 22)
    }

    open spec fn spec_big_sigma1(x: u32) -> u32 {
        rotr32(x, 6) ^ rotr32(x, 11) ^ rotr32(x, 25)
    }

    open spec fn spec_small_sigma0(x: u32) -> u32 {
        rotr32(x, 7) ^ rotr32(x, 18) ^ (x >> 3u32)
    }

    open spec fn spec_small_sigma1(x: u32) -> u32 {
        rotr32(x, 17) ^ rotr32(x, 19) ^ (x >> 10u32)
    }

    fn rounds() -> (r: usize) {
        64
    }

    fn k(t: usize) -> (r: u32) {
        K256[t]
    }

    fn big_sigma0(x: u32) -> (r: u32) {
        u32::rotr(x, 2) ^ u32::rotr(x, 13) ^ u32::rotr(x, 22)
    }

    fn big_sigma1(x: u32) -> (r: u32) {
        u32::rotr(x, 6) ^ u32::rotr(x, 11) ^ u32::rotr(x, 25)
    }

    fn small_sigma0(x: u32) -> (r: u32) {
        u32::rotr(x, 7) ^ u32::rotr(x, 18) ^ (x >> 3u32)
    }

    fn small_sigma1(x: u32) -> (r: u32) {
        u32::rotr(x, 17) ^ u32::rotr(x, 19) ^ (x >> 10u32)
    }
}

impl Sha2Word for u64 {
    open spec fn spec_rounds() -> nat {
        80
    }

    open spec fn spec_k(t: int) -> u64 {
        K512[t]
    }

    open spec fn spec_big_sigma0(x: u64) -> u64 {
        rotr64(x, 28) ^ rotr64(x, 34) ^ rotr64(x, 39)
    }

    open spec fn spec_big_sigma1(x: u64) -> u64 {
        rotr64(x, 14) ^ rotr64(x, 18) ^ rotr64(x, 41)
    }

    open spec fn spec_small_sigma0(x: u64) -> u64 {
        rotr64(x, 1) ^ rotr64(x, 8) ^ (x >> 7u64)
    }

    open spec fn spec_small_sigma1(x: u64) -> u64 {
        rotr64(x, 19) ^ rotr64(x, 61) ^ (x >> 6u64)
    }

    fn rounds() -> (r: usize) {
        80
    }

    fn k(t: usize) -> (r: u64) {
        K512[t]
    }

    fn big_sigma0(x: u64) -> (r: u64) {
        u64::rotr(x, 28) ^ u64::rotr(x, 34) ^ u64::rotr(x, 39)
    }

    fn big_sigma1(x: u64) -> (r: u64) {
        u64::rotr(x, 14) ^ u64::rotr(x, 18) ^ u64::rotr(x, 41)
    }

    fn small_sigma0(x: u64) -> (r: u64) {
        u64::rotr(x, 1) ^ u64::rotr(x, 8) ^ (x >> 7u64)
    }

    fn small_sigma1(x: u64) -> (r: u64) {
        u64::rotr(x, 19) ^ u64::rotr(x, 61) ^ (x >> 6u64)
    }
}

/// The choice function: bits of `y` where `x` is set, of `z` elsewhere.
pub open spec fn ch<W: Word>(x: W, y: W, z: W) -> W {
    W::spec_xor(W::spec_and(x, y), W::spec_and(W::spec_not(x), z))
}

/// The majority function.
pub open spec fn maj<W: Word>(x: W, y: W, z: W) -> W {
    W::spec_xor(W::spec_xor(W::spec_and(x, y), W::spec_and(x, z)), W::spec_and(y, z))
}

/// Word `t` of the message schedule of a block of sixteen words.
pub open spec fn schedule<W: Sha2Word>(block: Seq<u8>, t: nat) -> W
    decreases t,
{
    if t < 16 {
        W::spec_from_be(block.subrange((t * W::spec_bytes()) as int, ((t + 1) * W::spec_bytes()) as int))
    } else {
        W::spec_add(
            W::spec_add(
                W::spec_add(
                    W::spec_small_sigma1(schedule::<W>(block, (t - 2) as nat)),
                    schedule::<W>(block, (t - 7) as nat),
                ),
                W::spec_small_sigma0(schedule::<W>(block, (t - 15) as nat)),
            ),
            schedule::<W>(block, (t - 16) as nat),
        )
    }
}

/// One round on the working variables `a..h`, with round constant `k` and
/// schedule word `w`.
pub open spec fn round<W: Sha2Word>(s: Seq<W>, k: W, w: W) -> Seq<W> {
    let t1 = W::spec_add(
        W::spec_add(
            W::spec_add(W::spec_add(s[7], W::spec_big_sigma1(s[4])), ch(s[4], s[5], s[6])),
            k,
        ),
        w,
    );
    let t2 = W::spec_add(W::spec_big_sigma0(s[0]), maj(s[0], s[1], s[2]));
    seq![W::spec_add(t1, t2), s[0], s[1], s[2], W::spec_add(s[3], t1), s[4], s[5], s[6]]
}

/// The working variables after the first `t` rounds over `block`.
pub open spec fn rounds<W: Sha2Word>(s: Seq<W>, block: Seq<u8>, t: nat) -> Seq<W>
    decreases t,
{
    if t == 0 {
        s
    } else {
        round(
            rounds(s, block, (t - 1) as nat),
            W::spec_k(t - 1),
            schedule::<W>(block, (t - 1) as nat),
        )
    }
}

/// The SHA-2 compression function: all rounds, then the input state is added
/// back word by word.
pub open spec fn compress<W: Sha2Word>(h: Seq<W>, block: Seq<u8>) -> Seq<W> {
    let r = rounds(h, block, W::spec_rounds());
    Seq::new(8, |i: int| W::spec_add(h[i], r[i]))
}

/// The eight SHA-2 registers.
#[derive(Clone, Copy, Debug)]
pub struct Sha2State<W> {
    pub h: [W; 8],
}

impl<W> View for Sha2State<W> {
    type V = Seq<W>;

    open spec fn view(&self) -> Seq<W> {
        self.h@
    }
}

impl<W: Sha2Word> Sha2State<W> {
    /// The state holding `h`.
    pub fn from_words(h: [W; 8]) -> (r: Self)
        ensures
            r@ == h@,
    {
        Sha2State { h }
    }

    /// The first `N` bytes of the registers, most significant byte first.
    pub fn to_be_bytes<const N: usize>(&self) -> (r: [u8; N])
        requires
            N <= 8 * W::spec_bytes(),
        ensures
            r@ == W::spec_to_be(self@).take(N as int),
    {
        W::to_be_bytes::<N>(&self.h)
    }
}

impl<W: Sha2Word> GenericStateHasher for Sha2State<W> {
    open spec fn spec_block_len() -> nat {
        16 * W::spec_bytes()
    }

    open spec fn spec_hash_block(v: Seq<W>, block: Seq<u8>) -> Seq<W> {
        compress(v, block)
    }

    open spec fn inv(&self) -> bool {
        W::spec_bytes() == 4 || W::spec_bytes() == 8
    }

    fn block_len(&self) -> (r: usize) {
        16 * W::bytes()
    }

    fn hash_block(&mut self, data: &[u8], offset: usize) {
        let sz = W::bytes();
        let bl = 16 * sz;
        let ghost block = data@.subrange(offset as int, offset + bl);
        let n = data.len();
        let nr = W::rounds();
        let mut w = [W::zero(); 80];
        let mut t: usize = 0;
        while t < 16
            invariant
                t <= 16,
                sz == W::spec_bytes(),
                sz == 4 || sz == 8,
                bl == 16 * sz,
                n == data@.len(),
                offset + bl <= data@.len(),
                block == data@.subrange(offset as int, offset + bl),
                forall|i: int| 0 <= i < t ==> w@[i] == schedule::<W>(block, i as nat),
            decreases 16 - t,
        {
            w[t] = W::read_be(data, offset + t * sz);
            proof {
                assert((t + 1) * sz == t * sz + sz) by (nonlinear_arith);
                assert(data@.subrange(offset + t * sz, offset + t * sz + sz) =~= block.subrange(
                    t * sz,
                    (t + 1) * sz,
                ));
            }
            t += 1;
        }
        while t < nr
            invariant
                16 <= t <= nr <= 80,
                nr == W::spec_rounds(),
                forall|i: int| 0 <= i < t ==> w@[i] == schedule::<W>(block, i as nat),
            decreases nr - t,
        {
            w[t] = W::add_wrapping(
                W::add_wrapping(
                    W::add_wrapping(W::small_sigma1(w[t - 2]), w[t - 7]),
                    W::small_sigma0(w[t - 15]),
                ),
                w[t - 16],
            );
            t += 1;
        }
        let h0 = self.h;
        let mut a = h0[0];
        let mut b = h0[1];
        let mut c = h0[2];
        let mut d = h0[3];
        let mut e = h0[4];
        let mut f = h0[5];
        let mut g = h0[6];
        let mut h = h0[7];
        let mut t: usize = 0;
        proof {
            assert(seq![a, b, c, d, e, f, g, h] =~= rounds(h0@, block, 0));
        }
        while t < nr
            invariant
                t <= nr <= 80,
                nr == W::spec_rounds(),
                forall|i: int| 0 <= i < nr ==> w@[i] == schedule::<W>(block, i as nat),
                seq![a, b, c, d, e, f, g, h] == rounds(h0@, block, t as nat),
            decreases nr - t,
        {
            let choice = W::bit_xor(W::bit_and(e, f), W::bit_and(W::bit_not(e), g));
            let majority = W::bit_xor(
                W::bit_xor(W::bit_and(a, b), W::bit_and(a, c)),
                W::bit_and(b, c),
            );
            let t1 = W::add_wrapping(
                W::add_wrapping(
                    W::add_wrapping(W::add_wrapping(h, W::big_sigma1(e)), choice),
                    W::k(t),
                ),
                w[t],
            );
            let t2 = W::add_wrapping(W::big_sigma0(a), majority);
            h = g;
            g = f;
            f = e;
            e = W::add_wrapping(d, t1);
            d = c;
            c = b;
            b = a;
            a = W::add_wrapping(t1, t2);
            t += 1;
            proof {
                assert(seq![a, b, c, d, e, f, g, h] =~= rounds(h0@, block, t as nat));
            }
        }
        self.h[0] = W::add_wrapping(h0[0], a);
        self.h[1] = W::add_wrapping(h0[1], b);
        self.h[2] = W::add_wrapping(h0[2], c);
        self.h[3] = W::add_wrapping(h0[3], d);
        self.h[4] = W::add_wrapping(h0[4], e);
        self.h[5] = W::add_wrapping(h0[5], f);
        self.h[6] = W::add_wrapping(h0[6], g);
        self.h[7] = W::add_wrapping(h0[7], h);
        proof {
            let r = rounds(h0@, block, nr as nat);
            assert(r == seq![a, b, c, d, e, f, g, h]);
            assert(self.h@ =~= compress(h0@, block));
        }
    }
}

} // verus!
