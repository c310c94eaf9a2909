//! The incremental block hasher: byte counting, block buffering and padding,
//! shared by every algorithm whose state consumes fixed-size blocks.
use vstd::prelude::*;
use vstd::arithmetic::div_mod::lemma_fundamental_div_mod_converse;

verus! {

/// A compression state that consumes input one fixed-size block at a time.
pub trait GenericStateHasher: Sized + View + Copy {
    /// Number of bytes consumed by one compression step.
    spec fn spec_block_len() -> nat;

    /// The state value after compressing `block` into `v`.
    spec fn spec_hash_block(v: Self::V, block: Seq<u8>) -> Self::V;

    /// Well-formedness of a state.
    spec fn inv(&self) -> bool;

    fn block_len(&self) -> (r: usize)
        requires
            self.inv(),
        ensures
            r == Self::spec_block_len(),
            0 < r <= 256,
    ;

    /// Compresses the block of `data` that starts at `offset`.
    fn hash_block(&mut self, data: &[u8], offset: usize)
        requires
            old(self).inv(),
            offset + Self::spec_block_len() <= data@.len(),
        ensures
            final(self).inv(),
            final(self)@ == Self::spec_hash_block(
                old(self)@,
                data@.subrange(offset as int, offset + Self::spec_block_len()),
            ),
    ;
}

/// The state reached from `v` by compressing every complete block of `msg`,
/// in order; a trailing partial block is left out.
pub open spec fn hash_blocks<S: GenericStateHasher>(v: S::V, msg: Seq<u8>) -> S::V
    decreases msg.len(),
{
    let b = S::spec_block_len();
    if b == 0 || msg.len() < b {
        v
    } else {
        hash_blocks::<S>(S::spec_hash_block(v, msg.take(b as int)), msg.skip(b as int))
    }
}

/// The bytes of `m` after its last complete block of `b` bytes.
pub open spec fn pending_tail(m: Seq<u8>, b: int) -> Seq<u8> {
    m.skip(m.len() as int - m.len() as int % b)
}

/// Number of bytes (`0x80` then zeros) that Merkle-Damgard padding puts
/// between a message of `len` bytes and its `l`-byte length field, for blocks of
/// `b` bytes: the least count of at least one that makes the padded length a
/// multiple of `b`. It is `1 + ((b - 1) & (b - l - 1 - len % b))` in wrapping
/// arithmetic, for a power-of-two `b`.
pub open spec fn zero_pad_len(len: nat, b: nat, l: nat) -> nat {
    let f = b - l - 1;
    let rem = len % b;
    if rem <= f {
        (f - rem + 1) as nat
    } else {
        (b + f - rem + 1) as nat
    }
}

/// The `k` low bytes of `n`, most significant first.
pub open spec fn be_bytes(n: nat, k: nat) -> Seq<u8>
    decreases k,
{
    if k == 0 {
        Seq::empty()
    } else {
        be_bytes(n / 256, (k - 1) as nat).push((n % 256) as u8)
    }
}

/// A message followed by its Merkle-Damgard padding: `0x80`, zeros, and the
/// bit length in `l` big-endian bytes.
pub open spec fn md_pad(m: Seq<u8>, b: nat, l: nat) -> Seq<u8> {
    m + seq![0x80u8] + Seq::new((zero_pad_len(m.len(), b, l) - 1) as nat, |i: int| 0u8) + be_bytes(
        m.len() * 8,
        l,
    )
}

/// Largest message, in bytes, whose bit length fits a length field of `l` bytes
/// (`l` is 8 or 16).
pub open spec fn max_message_len(l: nat) -> nat {
    if l == 8 {
        0x1FFF_FFFF_FFFF_FFFF
    } else {
        0x1FFF_FFFF_FFFF_FFFF_FFFF_FFFF_FFFF_FFFF
    }
}

/// Upper bound on the bytes one hasher may take in, padding included.
pub open spec fn max_total() -> nat {
    0x4000_0000_0000_0000_0000_0000_0000_0000
}

/// Compressing `a` (a whole number of blocks) and then `r` is compressing `a + r`.
pub proof fn lemma_hash_blocks_append<S: GenericStateHasher>(v: S::V, a: Seq<u8>, r: Seq<u8>, q: nat)
    requires
        S::spec_block_len() > 0,
        a.len() == q * S::spec_block_len(),
    ensures
        hash_blocks::<S>(v, a + r) == hash_blocks::<S>(hash_blocks::<S>(v, a), r),
    decreases q,
{
    let b = S::spec_block_len() as int;
    if q == 0 {
        assert(q * S::spec_block_len() == 0) by (nonlinear_arith)
            requires q == 0;
        assert(a + r =~= r);
        assert(hash_blocks::<S>(v, a) == v);
    } else {
        assert(a.len() == (q - 1) * b + b) by (nonlinear_arith)
            requires a.len() == q * b;
        let v1 = S::spec_hash_block(v, a.take(b));
        assert((a + r).take(b) =~= a.take(b));
        assert((a + r).skip(b) =~= a.skip(b) + r);
        lemma_hash_blocks_append::<S>(v1, a.skip(b), r, (q - 1) as nat);
    }
}

/// Only the complete blocks of a message count: a message of `q` blocks and
/// `r` more bytes compresses as its first `q` blocks do.
pub proof fn lemma_hash_blocks_prefix<S: GenericStateHasher>(v: S::V, m: Seq<u8>, q: int, r: int)
    requires
        S::spec_block_len() > 0,
        0 <= q,
        0 <= r < S::spec_block_len(),
        m.len() == q * S::spec_block_len() + r,
    ensures
        hash_blocks::<S>(v, m) == hash_blocks::<S>(v, m.take(q * S::spec_block_len())),
    decreases q,
{
    let b = S::spec_block_len() as int;
    if q == 0 {
        assert(q * b == 0) by (nonlinear_arith)
            requires q == 0;
        assert(m.take(0) =~= Seq::<u8>::empty());
    } else {
        assert(q * b == (q - 1) * b + b) by (nonlinear_arith);
        assert((q - 1) * b >= 0) by (nonlinear_arith)
            requires q >= 1, b > 0;
        let t = m.take(q * b);
        assert(t.take(b) =~= m.take(b));
        assert(t.skip(b) =~= m.skip(b).take((q - 1) * b));
        lemma_hash_blocks_prefix::<S>(S::spec_hash_block(v, m.take(b)), m.skip(b), q - 1, r);
    }
}

/// One whole block compresses to a single step.
pub proof fn lemma_hash_one_block<S: GenericStateHasher>(v: S::V, blk: Seq<u8>)
    requires
        S::spec_block_len() > 0,
        blk.len() == S::spec_block_len(),
    ensures
        hash_blocks::<S>(v, blk) == S::spec_hash_block(v, blk),
{
    let b = S::spec_block_len() as int;
    assert(blk.take(b) =~= blk);
    assert(blk.skip(b).len() == 0);
    assert(hash_blocks::<S>(S::spec_hash_block(v, blk), blk.skip(b)) == S::spec_hash_block(v, blk));
}

/// Streaming front end over a block compression state: buffers input until a
/// whole block is available and counts every byte written.
pub struct BlockHasher<S: GenericStateHasher> {
    size: u128,
    state: S,
    pad: Vec<u8>,
    initial: Ghost<S::V>,
    msg: Ghost<Seq<u8>>,
}

impl<S: GenericStateHasher> BlockHasher<S> {
    /// Every byte written so far.
    pub closed spec fn message(&self) -> Seq<u8> {
        self.msg@
    }

    /// The state value the hasher started from.
    pub closed spec fn initial(&self) -> S::V {
        self.initial@
    }

    /// The hasher is consistent: its state is every complete block of the
    /// message compressed into the initial state, its buffer starts with the
    /// bytes after the last complete block, and its counter is the message
    /// length.
    pub closed spec fn inv(&self) -> bool {
        let b = S::spec_block_len() as int;
        let m = self.msg@;
        &&& self.state.inv()
        &&& b > 0
        &&& self.pad@.len() == b
        &&& self.size == m.len()
        &&& m.len() <= max_total()
        &&& self.state@ == hash_blocks::<S>(self.initial@, m)
        &&& self.pad@.take(m.len() as int % b) == pending_tail(m, b)
    }

    /// The compression state held.
    pub closed spec fn spec_state(&self) -> S {
        self.state
    }

    /// A hasher that has taken in nothing yet, over `state`.
    pub fn new(state: S) -> (r: Self)
        requires
            state.inv(),
        ensures
            r.inv(),
            r.message() == Seq::<u8>::empty(),
            r.initial() == state@,
            r.spec_state() == state,
    {
        let b = state.block_len();
        let mut pad: Vec<u8> = Vec::new();
        while pad.len() < b
            invariant
                pad@.len() <= b,
            decreases b - pad.len(),
        {
            pad.push(0u8);
        }
        let ghost v = state@;
        proof {
            vstd::arithmetic::div_mod::lemma_small_mod(0, b as nat);
            assert(pad@.take(0) =~= pending_tail(Seq::<u8>::empty(), b as int));
        }
        BlockHasher { size: 0, state, pad, initial: Ghost(v), msg: Ghost(Seq::empty()) }
    }

    /// An independent copy: the same message, state and buffered bytes, so
    /// that either can be continued without affecting the other.
    pub fn duplicate(&self) -> (r: Self)
        requires
            self.inv(),
        ensures
            r.inv(),
            r.message() == self.message(),
            r.initial() == self.initial(),
    {
        let mut pad: Vec<u8> = Vec::new();
        let mut i: usize = 0;
        while i < self.pad.len()
            invariant
                i <= self.pad@.len(),
                pad@ == self.pad@.take(i as int),
            decreases self.pad@.len() - i,
        {
            pad.push(self.pad[i]);
            i += 1;
            proof {
                assert(pad@ =~= self.pad@.take(i as int));
            }
        }
        proof {
            assert(pad@ =~= self.pad@);
        }
        BlockHasher {
            size: self.size,
            state: self.state,
            pad,
            initial: Ghost(self.initial@),
            msg: Ghost(self.msg@),
        }
    }

    /// The compression state reached so far.
    pub fn state(&self) -> (r: &S)
        requires
            self.inv(),
        ensures
            r == self.spec_state(),
            r.inv(),
            r@ == hash_blocks::<S>(self.initial(), self.message()),
    {
        &self.state
    }

    /// Number of bytes written so far.
    pub fn size(&self) -> (r: u128)
        requires
            self.inv(),
        ensures
            r == self.message().len(),
    {
        self.size
    }

    /// The block buffer; its first `size % block_len` bytes are the pending tail
    /// of the message.
    pub fn pad_buffer(&self) -> (r: &[u8])
        requires
            self.inv(),
        ensures
            r@.len() == S::spec_block_len(),
            r@.take(self.message().len() as int % (S::spec_block_len() as int)) == pending_tail(
                self.message(),
                S::spec_block_len() as int,
            ),
    {
        self.pad.as_slice()
    }

    /// Feeds `bytes` to the hasher.
    pub fn write(&mut self, bytes: &[u8])
        requires
            old(self).inv(),
            old(self).message().len() + bytes@.len() <= max_total(),
        ensures
            final(self).inv(),
            final(self).message() == old(self).message() + bytes@,
            final(self).initial() == old(self).initial(),
    {
        let b = self.state.block_len();
        let n = bytes.len();
        let ghost bi = b as int;
        let ghost m0 = self.msg@;
        let ghost m1 = m0 + bytes@;
        let ghost init = self.initial@;
        let len_w = (self.size % (b as u128)) as usize;
        let ghost q0: int = m0.len() as int / bi;
        proof {
            vstd::arithmetic::div_mod::lemma_fundamental_div_mod(m0.len() as int, bi);
            vstd::arithmetic::div_mod::lemma_mod_pos_bound(m0.len() as int, bi);
            vstd::arithmetic::div_mod::lemma_div_pos_is_pos(m0.len() as int, bi);
            assert(bi * q0 == q0 * bi) by (nonlinear_arith);
            assert(m0.len() == q0 * bi + len_w);
            lemma_hash_blocks_prefix::<S>(init, m0, q0, len_w as int);
        }
        self.size = self.size + n as u128;
        self.msg = Ghost(m1);
        let mut k: usize = 0;
        let ghost mut q: int = q0;
        if len_w != 0 {
            let left = if n < b - len_w { n } else { b - len_w };
            let mut i: usize = 0;
            while i < left
                invariant
                    0 <= i <= left,
                    len_w + left <= b,
                    left <= n,
                    n == bytes@.len(),
                    self.pad@.len() == b,
                    forall|j: int| 0 <= j < len_w ==> self.pad@[j] == old(self).pad@[j],
                    self.msg@ == m1,
                    self.size == m1.len(),
                    self.initial@ == init,
                    self.state == old(self).state,
                    forall|j: int| 0 <= j < i ==> self.pad@[len_w + j] == bytes@[j],
                decreases left - i,
            {
                self.pad.set(len_w + i, bytes[i]);
                i += 1;
            }
            proof {
                assert(m0.len() as int % bi == len_w);
                assert(m1.len() == q0 * bi + len_w + n);
                assert forall|j: int| 0 <= j < len_w + left implies #[trigger] self.pad@[j] == m1[q0 * bi + j] by {
                    if j < len_w {
                        assert(old(self).pad@.take(len_w as int)[j] == m0.skip(q0 * bi)[j]);
                    } else {
                        assert(self.pad@[len_w + (j - len_w)] == bytes@[j - len_w]);
                    }
                }
            }
            if len_w + left < b {
                proof {
                    assert(m1.skip(q0 * bi).len() == len_w + n);
                    assert forall|j: int| 0 <= j < len_w + n implies #[trigger] self.pad@[j] == m1.skip(q0 * bi)[j] by {
                        assert(self.pad@[j] == m1[q0 * bi + j]);
                    }
                    lemma_fundamental_div_mod_converse(m1.len() as int, bi, q0, len_w + n);
                    assert(m1.take(q0 * bi) =~= m0.take(q0 * bi));
                    lemma_hash_blocks_prefix::<S>(init, m1, q0, len_w + n);
                    assert(self.pad@.take(m1.len() as int % bi) =~= pending_tail(m1, bi));
                }
                return;
            }
            proof {
                assert(self.pad@ =~= m1.subrange(q0 * bi, q0 * bi + bi));
                assert(m1.take(q0 * bi) =~= m0.take(q0 * bi));
                lemma_hash_one_block::<S>(hash_blocks::<S>(init, m0.take(q0 * bi)), self.pad@);
                lemma_hash_blocks_append::<S>(init, m1.take(q0 * bi), self.pad@, q0 as nat);
                assert(m1.take(q0 * bi) + self.pad@ =~= m1.take(q0 * bi + bi));
            }
            self.state.hash_block(self.pad.as_slice(), 0);
            proof {
                assert(self.pad@.subrange(0, bi) =~= self.pad@);
            }
            k = left;
            proof {
                q = q0 + 1;
                assert(q0 * bi + bi == (q0 + 1) * bi) by (nonlinear_arith);
            }
        } else {
            proof {
                assert(m0.len() == q0 * bi);
                assert(m0.take(q0 * bi) =~= m0);
                assert(m1.take(q0 * bi) =~= m0);
            }
        }
        while n - k >= b
            invariant
                n == bytes@.len(),
                bi == b,
                b == S::spec_block_len(),
                b > 0,
                k <= n,
                m1 == m0 + bytes@,
                m0.len() + k == q * bi,
                q >= 0,
                self.state.inv(),
                self.state@ == hash_blocks::<S>(init, m1.take(q * bi)),
                self.msg@ == m1,
                self.size == m1.len(),
                self.initial@ == init,
                self.pad@.len() == b,
            decreases n - k,
        {
            proof {
                let blk = m1.subrange(q * bi, q * bi + bi);
                assert(bytes@.subrange(k as int, k + bi) =~= blk);
                lemma_hash_one_block::<S>(self.state@, blk);
                lemma_hash_blocks_append::<S>(init, m1.take(q * bi), blk, q as nat);
                assert(m1.take(q * bi) + blk =~= m1.take(q * bi + bi));
                assert(q * bi + bi == (q + 1) * bi) by (nonlinear_arith);
            }
            self.state.hash_block(bytes, k);
            k = k + b;
            proof {
                q = q + 1;
            }
        }
        let mut i: usize = 0;
        while i < n - k
            invariant
                k <= n,
                n - k < b,
                n == bytes@.len(),
                0 <= i <= n - k,
                self.pad@.len() == b,
                forall|j: int| 0 <= j < i ==> self.pad@[j] == bytes@[k + j],
                self.msg@ == m1,
                self.size == m1.len(),
                self.initial@ == init,
                self.state.inv(),
                self.state@ == hash_blocks::<S>(init, m1.take(q * bi)),
            decreases n - k - i,
        {
            self.pad.set(i, bytes[k + i]);
            i += 1;
        }
        proof {
            lemma_fundamental_div_mod_converse(m1.len() as int, bi, q, (n - k) as int);
            lemma_hash_blocks_prefix::<S>(init, m1, q, (n - k) as int);
            assert(self.pad@.take(m1.len() as int % bi) =~= pending_tail(m1, bi));
        }
    }

    /// Length of the `0x80`-and-zeros run that padding appends, for a length
    /// field of `l` bytes.
    pub fn zero_padding_length(&self, l: usize) -> (r: usize)
        requires
            self.inv(),
            l + 1 < S::spec_block_len(),
        ensures
            r == zero_pad_len(self.message().len(), S::spec_block_len(), l as nat),
            1 <= r <= S::spec_block_len(),
    {
        let b = self.state.block_len();
        let rem = (self.size % (b as u128)) as usize;
        let f = b - l - 1;
        if rem <= f {
            f - rem + 1
        } else {
            (b - rem) + f + 1
        }
    }

    /// Appends Merkle-Damgard padding with an `l`-byte length field, which
    /// completes the last block.
    pub fn pad_md(&mut self, l: usize)
        requires
            old(self).inv(),
            l == 8 || l == 16,
            l + 1 < S::spec_block_len(),
            old(self).message().len() <= max_message_len(l as nat),
        ensures
            final(self).inv(),
            final(self).message() == md_pad(old(self).message(), S::spec_block_len(), l as nat),
            final(self).message().len() % S::spec_block_len() == 0,
            final(self).initial() == old(self).initial(),
    {
        let ghost m0 = self.msg@;
        let ghost b = S::spec_block_len();
        let zpl = self.zero_padding_length(l);
        let mut zeros: Vec<u8> = Vec::new();
        zeros.push(0x80u8);
        while zeros.len() < zpl
            invariant
                1 <= zeros@.len() <= zpl,
                zeros@[0] == 0x80u8,
                forall|j: int| 1 <= j < zeros@.len() ==> zeros@[j] == 0u8,
            decreases zpl - zeros.len(),
        {
            zeros.push(0u8);
        }
        let bits: u128 = self.size * 8;
        let mut field: Vec<u8> = Vec::new();
        while field.len() < l
            invariant
                field@.len() <= l,
            decreases l - field.len(),
        {
            field.push(0u8);
        }
        let mut x: u128 = bits;
        let mut j: usize = l;
        proof {
            assert(field@.subrange(l as int, l as int) =~= Seq::<u8>::empty());
            assert(be_bytes(bits as nat, l as nat) =~= be_bytes(x as nat, j as nat) + field@.subrange(j as int, l as int));
        }
        while j > 0
            invariant
                j <= l,
                field@.len() == l,
                be_bytes(bits as nat, l as nat) == be_bytes(x as nat, j as nat) + field@.subrange(j as int, l as int),
            decreases j,
        {
            let ghost old_field = field@;
            let ghost old_x = x;
            j = j - 1;
            field.set(j, (x % 256) as u8);
            x = x / 256;
            proof {
                assert(field@.subrange(j as int, l as int) =~= seq![(old_x % 256) as u8] + old_field.subrange(j + 1, l as int));
                assert(be_bytes(old_x as nat, (j + 1) as nat) == be_bytes(x as nat, j as nat).push((old_x % 256) as u8));
                assert(be_bytes(x as nat, j as nat).push((old_x % 256) as u8) + old_field.subrange(j + 1, l as int)
                    =~= be_bytes(x as nat, j as nat) + field@.subrange(j as int, l as int));
            }
        }
        proof {
            assert(field@.subrange(0, l as int) =~= field@);
            assert(be_bytes(x as nat, 0) =~= Seq::<u8>::empty());
            assert(be_bytes(bits as nat, l as nat) =~= field@);
        }
        self.write(zeros.as_slice());
        self.write(field.as_slice());
        proof {
            assert(zeros@ =~= seq![0x80u8] + Seq::new((zpl - 1) as nat, |i: int| 0u8));
            assert(self.msg@ =~= md_pad(m0, b, l as nat));
            let bi = b as int;
            let q = m0.len() as int / bi;
            let rem = m0.len() as int % bi;
            vstd::arithmetic::div_mod::lemma_fundamental_div_mod(m0.len() as int, bi);
            vstd::arithmetic::div_mod::lemma_mod_pos_bound(m0.len() as int, bi);
            assert(bi * q == q * bi) by (nonlinear_arith);
            if rem <= bi - l - 1 {
                assert(self.msg@.len() == q * bi + bi);
                assert(q * bi + bi == (q + 1) * bi) by (nonlinear_arith);
                vstd::arithmetic::div_mod::lemma_mod_multiples_basic(q + 1, bi);
            } else {
                assert(self.msg@.len() == q * bi + 2 * bi);
                assert(q * bi + 2 * bi == (q + 2) * bi) by (nonlinear_arith);
                vstd::arithmetic::div_mod::lemma_mod_multiples_basic(q + 2, bi);
            }
        }
    }
}

/// The state of a hasher depends on the bytes written to it and not on how
/// they were split across writes: two consistent hashers with the same initial
/// state and the same message hold the same compression state.
pub proof fn lemma_state_determined_by_message<S: GenericStateHasher>(
    h1: &BlockHasher<S>,
    h2: &BlockHasher<S>,
)
    requires
        h1.inv(),
        h2.inv(),
        h1.initial() == h2.initial(),
        h1.message() == h2.message(),
    ensures
        h1.spec_state()@ == h2.spec_state()@,
{
}

} // verus!
