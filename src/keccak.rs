//! The Keccak-f[1600] permutation and the sponge built on it.
use vstd::prelude::*;
use crate::engine::GenericStateHasher;
use crate::word::{le64_at, read_le64, rotate_left64, rotl64, words64_to_le};

verus! {

/// Number of rounds of Keccak-f[1600]: 12 + 2 * log2(64).
pub const ROUNDS: usize = 24;

/// Round constants, one per round, applied by iota.
pub const RC: [u64; 24] = [
    0x00000000_00000001, 0x00000000_00008082,
    0x80000000_0000808A, 0x80000000_80008000,
    0x00000000_0000808B, 0x00000000_80000001,
    0x80000000_80008081, 0x80000000_00008009,
    0x00000000_0000008A, 0x00000000_00000088,
    0x00000000_80008009, 0x00000000_8000000A,
    0x00000000_8000808B, 0x80000000_0000008B,
    0x80000000_00008089, 0x80000000_00008003,
    0x80000000_00008002, 0x80000000_00000080,
    0x00000000_0000800A, 0x80000000_8000000A,
    0x80000000_80008081, 0x80000000_00008080,
    0x00000000_80000001, 0x80000000_80008008,
];

/// Rotation offsets of rho, indexed by `x + 5 * y`.
pub const RHO: [u64; 25] = [
    0, 1, 62, 28, 27,
    36, 44, 6, 55, 20,
    3, 10, 43, 25, 39,
    41, 45, 15, 21, 8,
    18, 2, 61, 56, 14,
];

/// Parity of column `x`.
pub open spec fn column_parity(a: Seq<u64>, x: int) -> u64 {
    a[x] ^ a[x + 5] ^ a[x + 10] ^ a[x + 15] ^ a[x + 20]
}

/// What theta XORs into every lane of column `x`.
pub open spec fn theta_d(a: Seq<u64>, x: int) -> u64 {
    column_parity(a, (x + 4) % 5) ^ rotl64(column_parity(a, (x + 1) % 5), 1)
}

/// theta: each lane XORed with the parities of two neighbouring columns.
pub open spec fn theta_spec(a: Seq<u64>) -> Seq<u64> {
    Seq::new(25, |i: int| a[i] ^ theta_d(a, i % 5))
}

/// rho: each lane rotated by its fixed offset.
pub open spec fn rho_spec(a: Seq<u64>) -> Seq<u64> {
    Seq::new(25, |i: int| rotl64(a[i], RHO[i]))
}

/// pi: the lane at `(x, y)` moves to `(y, 2x + 3y mod 5)`; equivalently the
/// new lane at `(x, y)` is the old lane at `(x + 3y mod 5, x)`.
pub open spec fn pi_spec(a: Seq<u64>) -> Seq<u64> {
    Seq::new(25, |i: int| a[(i % 5 + 3 * (i / 5)) % 5 + 5 * (i % 5)])
}

/// chi: each lane XORed with the complement of its right neighbour ANDed
/// with the lane after that, along its row.
pub open spec fn chi_spec(a: Seq<u64>) -> Seq<u64> {
    Seq::new(
        25,
        |i: int| a[i] ^ (!a[5 * (i / 5) + (i % 5 + 1) % 5] & a[5 * (i / 5) + (i % 5 + 2) % 5]),
    )
}

/// iota: the first lane XORed with the constant of round `r`.
pub open spec fn iota_spec(a: Seq<u64>, r: int) -> Seq<u64> {
    a.update(0, a[0] ^ RC[r])
}

/// Round `r` of the permutation.
pub open spec fn keccak_round(a: Seq<u64>, r: int) -> Seq<u64> {
    iota_spec(chi_spec(pi_spec(rho_spec(theta_spec(a)))), r)
}

/// The state after the first `n` rounds.
pub open spec fn keccak_rounds(a: Seq<u64>, n: nat) -> Seq<u64>
    decreases n,
{
    if n == 0 {
        a
    } else {
        keccak_round(keccak_rounds(a, (n - 1) as nat), n - 1)
    }
}

/// Keccak-f[1600].
pub open spec fn keccak_f(a: Seq<u64>) -> Seq<u64> {
    keccak_rounds(a, 24)
}

/// The 5x5 matrix of 64-bit lanes; lane `(x, y)` is at index `x + 5 * y`.
#[derive(Clone, Copy, Debug)]
pub struct KeccakState {
    lanes: [u64; 25],
}

impl View for KeccakState {
    type V = Seq<u64>;

    closed spec fn view(&self) -> Seq<u64> {
        self.lanes@
    }
}

impl KeccakState {
    /// The all-zero state.
    pub fn new() -> (r: Self)
        ensures
            r@ == Seq::new(25, |i: int| 0u64),
    {
        let r = KeccakState { lanes: [0u64; 25] };
        proof {
            assert(r@ =~= Seq::new(25, |i: int| 0u64));
        }
        r
    }

    /// A state always has 25 lanes.
    pub proof fn lemma_len(&self)
        ensures
            self@.len() == 25,
    {
    }

    /// The state whose lane `(x, y)` is `rows[y][x]`.
    pub fn from_rows(rows: [[u64; 5]; 5]) -> (r: Self)
        ensures
            forall|x: int, y: int| 0 <= x < 5 && 0 <= y < 5 ==> r@[x + 5 * y] == rows@[y]@[x],
    {
        KeccakState { lanes: [rows[0][0], rows[0][1], rows[0][2], rows[0][3], rows[0][4], rows[1][0], rows[1][1], rows[1][2], rows[1][3], rows[1][4], rows[2][0], rows[2][1], rows[2][2], rows[2][3], rows[2][4], rows[3][0], rows[3][1], rows[3][2], rows[3][3], rows[3][4], rows[4][0], rows[4][1], rows[4][2], rows[4][3], rows[4][4]] }
    }

    /// The lanes as rows: `r[y][x]` is lane `(x, y)`.
    pub fn to_rows(&self) -> (r: [[u64; 5]; 5])
        ensures
            forall|x: int, y: int| 0 <= x < 5 && 0 <= y < 5 ==> r@[y]@[x] == self@[x + 5 * y],
    {
        [
            [self.lanes[0], self.lanes[1], self.lanes[2], self.lanes[3], self.lanes[4]],
            [self.lanes[5], self.lanes[6], self.lanes[7], self.lanes[8], self.lanes[9]],
            [self.lanes[10], self.lanes[11], self.lanes[12], self.lanes[13], self.lanes[14]],
            [self.lanes[15], self.lanes[16], self.lanes[17], self.lanes[18], self.lanes[19]],
            [self.lanes[20], self.lanes[21], self.lanes[22], self.lanes[23], self.lanes[24]],
        ]
    }

    /// Lane `i`, that is lane `(i % 5, i / 5)`.
    pub fn lane(&self, i: usize) -> (r: u64)
        requires
            i < 25,
        ensures
            r == self@[i as int],
    {
        self.lanes[i]
    }

    /// theta: XORs every lane with the parities of two neighbouring columns.
    pub fn theta(&mut self)
        ensures
            final(self)@ == theta_spec(old(self)@),
    {
        let a = self.lanes;
        let mut c = [0u64; 5];
        let mut x: usize = 0;
        while x < 5
            invariant
                x <= 5,
                forall|j: int| 0 <= j < x ==> c@[j] == column_parity(a@, j),
            decreases 5 - x,
        {
            c[x] = a[x] ^ a[x + 5] ^ a[x + 10] ^ a[x + 15] ^ a[x + 20];
            x += 1;
        }
        let mut i: usize = 0;
        while i < 25
            invariant
                i <= 25,
                forall|j: int| 0 <= j < 5 ==> c@[j] == column_parity(a@, j),
                forall|j: int| 0 <= j < i ==> self.lanes@[j] == theta_spec(a@)[j],
                forall|j: int| i <= j < 25 ==> self.lanes@[j] == a@[j],
            decreases 25 - i,
        {
            let x = i % 5;
            let d = c[(x + 4) % 5] ^ rotate_left64(c[(x + 1) % 5], 1);
            self.lanes[i] = a[i] ^ d;
            i += 1;
        }
        proof {
            assert(self@ =~= theta_spec(old(self)@));
        }
    }

    /// rho: rotates every lane by its offset.
    pub fn rho(&mut self)
        ensures
            final(self)@ == rho_spec(old(self)@),
    {
        let a = self.lanes;
        let mut i: usize = 0;
        while i < 25
            invariant
                i <= 25,
                forall|j: int| 0 <= j < i ==> self.lanes@[j] == rho_spec(a@)[j],
            decreases 25 - i,
        {
            self.lanes[i] = rotate_left64(a[i], RHO[i]);
            i += 1;
        }
        proof {
            assert(self@ =~= rho_spec(old(self)@));
        }
    }

    /// pi: moves the lanes to their new positions.
    pub fn pi(&mut self)
        ensures
            final(self)@ == pi_spec(old(self)@),
    {
        let a = self.lanes;
        let mut i: usize = 0;
        while i < 25
            invariant
                i <= 25,
                forall|j: int| 0 <= j < i ==> self.lanes@[j] == pi_spec(a@)[j],
            decreases 25 - i,
        {
            self.lanes[i] = a[(i % 5 + 3 * (i / 5)) % 5 + 5 * (i % 5)];
            i += 1;
        }
        proof {
            assert(self@ =~= pi_spec(old(self)@));
        }
    }

    /// chi: the non-linear step along each row.
    pub fn chi(&mut self)
        ensures
            final(self)@ == chi_spec(old(self)@),
    {
        let a = self.lanes;
        let mut i: usize = 0;
        while i < 25
            invariant
                i <= 25,
                forall|j: int| 0 <= j < i ==> self.lanes@[j] == chi_spec(a@)[j],
            decreases 25 - i,
        {
            let row = 5 * (i / 5);
            let x = i % 5;
            self.lanes[i] = a[i] ^ (!a[row + (x + 1) % 5] & a[row + (x + 2) % 5]);
            i += 1;
        }
        proof {
            assert(self@ =~= chi_spec(old(self)@));
        }
    }

    /// iota: XORs the constant of round `round` into the first lane.
    pub fn iota(&mut self, round: usize)
        requires
            round < ROUNDS,
        ensures
            final(self)@ == iota_spec(old(self)@, round as int),
    {
        self.lanes[0] = self.lanes[0] ^ RC[round];
        proof {
            assert(self@ =~= iota_spec(old(self)@, round as int));
        }
    }

    /// Applies Keccak-f[1600]: the 24 rounds of theta, rho, pi, chi, iota.
    pub fn apply_f(&mut self)
        ensures
            final(self)@ == keccak_f(old(self)@),
    {
        let mut r: usize = 0;
        while r < ROUNDS
            invariant
                r <= ROUNDS,
                self@ == keccak_rounds(old(self)@, r as nat),
            decreases ROUNDS - r,
        {
            self.theta();
            self.rho();
            self.pi();
            self.chi();
            self.iota(r);
            r += 1;
        }
    }
}

/// The state after XORing the first `rate_lanes` little-endian lanes of
/// `block` into `s` and permuting.
pub open spec fn absorb_spec(s: Seq<u64>, block: Seq<u8>, rate_lanes: int) -> Seq<u64> {
    keccak_f(Seq::new(25, |i: int| if i < rate_lanes { s[i] ^ le64_at(block, 8 * i) } else { s[i] }))
}

/// The first `n` output bytes squeezed from `s` with a rate of `r` bytes: the
/// first `r` bytes of the state, little-endian lane by lane, then those of
/// the permuted state, and so on.
pub open spec fn squeeze_bytes(s: Seq<u64>, n: nat, r: nat) -> Seq<u8>
    decreases n,
{
    if r == 0 || n <= r {
        words64_to_le(s).take(n as int)
    } else {
        words64_to_le(s).take(r as int) + squeeze_bytes(keccak_f(s), (n - r) as nat, r)
    }
}

/// The state left after squeezing `n` bytes from `s` with a rate of `r`
/// bytes: permuted once between consecutive extractions.
pub open spec fn squeeze_state(s: Seq<u64>, n: nat, r: nat) -> Seq<u64>
    decreases n,
{
    if r == 0 || n <= r {
        s
    } else {
        squeeze_state(keccak_f(s), (n - r) as nat, r)
    }
}

proof fn lemma_squeeze_len(s: Seq<u64>, n: nat, r: nat)
    requires
        s.len() == 25,
        0 < r <= 200,
    ensures
        squeeze_bytes(s, n, r).len() == n,
    decreases n,
{
    if n > r {
        lemma_squeeze_len(keccak_f(s), (n - r) as nat, r);
    }
}

/// A sponge over Keccak-f[1600] that takes in `RATE` bits per permutation and
/// gives out `OUTPUT_SIZE` bytes.
#[derive(Clone, Copy, Debug)]
pub struct KeccakSponge<const RATE: usize, const OUTPUT_SIZE: usize> {
    state: KeccakState,
}

impl<const RATE: usize, const OUTPUT_SIZE: usize> View for KeccakSponge<RATE, OUTPUT_SIZE> {
    type V = Seq<u64>;

    closed spec fn view(&self) -> Seq<u64> {
        self.state@
    }
}

impl<const RATE: usize, const OUTPUT_SIZE: usize> KeccakSponge<RATE, OUTPUT_SIZE> {
    /// Rates this sponge supports: whole lanes, leaving a capacity.
    pub open spec fn valid_rate() -> bool {
        RATE % 64 == 0 && 64 <= RATE < 1600
    }

    /// The sponge's state always has 25 lanes.
    pub proof fn lemma_len(&self)
        ensures
            self@.len() == 25,
    {
        self.state.lemma_len();
    }

    /// A sponge with the all-zero state.
    pub fn new() -> (r: Self)
        requires
            Self::valid_rate(),
        ensures
            r.inv(),
            r@ == Seq::new(25, |i: int| 0u64),
    {
        KeccakSponge { state: KeccakState::new() }
    }

    /// XORs one block of `RATE / 8` bytes into the rate lanes, then permutes.
    pub fn absorb(&mut self, input: &[u8])
        requires
            old(self).inv(),
            input@.len() == RATE / 8,
        ensures
            final(self).inv(),
            final(self)@ == absorb_spec(old(self)@, input@, (RATE / 64) as int),
    {
        self.hash_block(input, 0);
        proof {
            assert(input@.subrange(0, (RATE / 8) as int) =~= input@);
        }
    }

    /// Squeezes `OUTPUT_SIZE` bytes, permuting between extractions of
    /// `RATE / 8` bytes.
    pub fn squeeze(&mut self) -> (r: [u8; OUTPUT_SIZE])
        requires
            old(self).inv(),
        ensures
            final(self).inv(),
            r@ == squeeze_bytes(old(self)@, OUTPUT_SIZE as nat, (RATE / 8) as nat),
            final(self)@ == squeeze_state(old(self)@, OUTPUT_SIZE as nat, (RATE / 8) as nat),
    {
        let r = RATE / 8;
        let ghost rr = r as nat;
        let ghost nn = OUTPUT_SIZE as nat;
        let ghost s0 = self@;
        let ghost t = squeeze_bytes(s0, nn, rr);
        proof {
            self.state.lemma_len();
            lemma_squeeze_len(s0, nn, rr);
            assert(t =~= t.take(0) + squeeze_bytes(self@, nn, rr));
        }
        let mut out = [0u8; OUTPUT_SIZE];
        let mut pos: usize = 0;
        while pos < OUTPUT_SIZE
            invariant
                r == RATE / 8,
                rr == r,
                0 < r <= 200,
                pos <= OUTPUT_SIZE,
                out@.len() == OUTPUT_SIZE,
                t.len() == OUTPUT_SIZE,
                self.inv(),
                forall|k: int| 0 <= k < pos ==> out@[k] == t[k],
                t == t.take(pos as int) + squeeze_bytes(self@, (OUTPUT_SIZE - pos) as nat, rr),
                squeeze_state(self@, (OUTPUT_SIZE - pos) as nat, rr) == squeeze_state(s0, nn, rr),
            decreases OUTPUT_SIZE - pos,
        {
            let rem = OUTPUT_SIZE - pos;
            let m = if rem < r { rem } else { r };
            let ghost cur = self@;
            proof {
                self.state.lemma_len();
                assert(forall|j: int| 0 <= j < m ==> squeeze_bytes(cur, rem as nat, rr)[j]
                    == words64_to_le(cur)[j]);
            }
            let mut j: usize = 0;
            while j < m
                invariant
                    j <= m,
                    m <= r <= 200,
                    pos + m <= OUTPUT_SIZE,
                    out@.len() == OUTPUT_SIZE,
                    t.len() == OUTPUT_SIZE,
                    cur == self@,
                    cur.len() == 25,
                    t == t.take(pos as int) + squeeze_bytes(cur, rem as nat, rr),
                    forall|j: int| 0 <= j < m ==> squeeze_bytes(cur, rem as nat, rr)[j]
                        == words64_to_le(cur)[j],
                    forall|k: int| 0 <= k < pos + j ==> out@[k] == t[k],
                decreases m - j,
            {
                out[pos + j] = #[verifier::truncate] ((self.state.lanes[j / 8] >> ((8 * (j % 8)) as u64)) as u8);
                proof {
                    assert(out@[pos + j] == words64_to_le(cur)[j as int]);
                    assert(t[pos + j] == (t.take(pos as int) + squeeze_bytes(cur, rem as nat, rr))[pos + j]);
                    assert(t[pos + j] == squeeze_bytes(cur, rem as nat, rr)[j as int]);
                }
                j += 1;
            }
            if rem > r {
                proof {
                    let rest = squeeze_bytes(keccak_f(cur), (rem - r) as nat, rr);
                    assert(squeeze_bytes(cur, rem as nat, rr) == words64_to_le(cur).take(r as int)
                        + rest);
                    assert(t.take(pos as int) + words64_to_le(cur).take(r as int) =~= t.take(
                        (pos + r) as int,
                    ));
                    assert(t =~= t.take((pos + r) as int) + rest);
                }
                self.state.apply_f();
                proof {
                    self.state.lemma_len();
                }
            }
            pos = pos + m;
        }
        proof {
            assert(out@ =~= t);
        }
        out
    }
}

impl<const RATE: usize, const OUTPUT_SIZE: usize> GenericStateHasher for KeccakSponge<
    RATE,
    OUTPUT_SIZE,
> {
    open spec fn spec_block_len() -> nat {
        (RATE / 8) as nat
    }

    open spec fn spec_hash_block(v: Seq<u64>, block: Seq<u8>) -> Seq<u64> {
        absorb_spec(v, block, (RATE / 64) as int)
    }

    open spec fn inv(&self) -> bool {
        Self::valid_rate() && self@.len() == 25
    }

    fn block_len(&self) -> (r: usize) {
        RATE / 8
    }

    fn hash_block(&mut self, data: &[u8], offset: usize) {
        let ghost s0 = self@;
        let ghost block = data@.subrange(offset as int, offset + RATE / 8);
        let n = data.len();
        let lanes = RATE / 64;
        let mut i: usize = 0;
        while i < lanes
            invariant
                lanes == RATE / 64,
                Self::valid_rate(),
                i <= lanes,
                n == data@.len(),
                offset + RATE / 8 <= n,
                block == data@.subrange(offset as int, offset + RATE / 8),
                forall|j: int| 0 <= j < i ==> self.state.lanes@[j] == s0[j] ^ le64_at(block, 8 * j),
                forall|j: int| i <= j < 25 ==> self.state.lanes@[j] == s0[j],
            decreases lanes - i,
        {
            let v = read_le64(data, offset + 8 * i);
            proof {
                assert(le64_at(data@, offset + 8 * i) == le64_at(block, 8 * i));
            }
            self.state.lanes[i] = self.state.lanes[i] ^ v;
            i += 1;
        }
        proof {
            assert(self@ =~= Seq::new(
                25,
                |i: int| if i < RATE / 64 { s0[i] ^ le64_at(block, 8 * i) } else { s0[i] },
            ));
        }
        self.state.apply_f();
        proof {
            self.state.lemma_len();
        }
    }
}

} // verus!
