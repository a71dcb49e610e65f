//! A small deterministic pseudo-random generator (a 64-bit three-rotate
//! variant of Jenkins's small fast generator), used to derive the fixed
//! Zobrist keys and the evaluator's quantized network tables from seeds.

use vstd::prelude::*;
use vstd::wrapping::u64_specs;

verus! {

/// Left rotation of a 64-bit word by `k` places, `0 < k < 64`.
pub open spec fn spec_rotl(x: u64, k: u64) -> u64 {
    (x << k) | (x >> (64 - k) as u64)
}

/// One state transition of the generator.
pub open spec fn spec_jsf_step(s: (u64, u64, u64, u64)) -> (u64, u64, u64, u64) {
    let e = u64_specs::wrapping_sub(s.0, spec_rotl(s.1, 7));
    let a = s.1 ^ spec_rotl(s.2, 13);
    let b = u64_specs::wrapping_add(s.2, spec_rotl(s.3, 37));
    let c = u64_specs::wrapping_add(s.3, e);
    let d = u64_specs::wrapping_add(e, a);
    (a, b, c, d)
}

/// The state after `n` transitions from `s`.
pub open spec fn spec_jsf_iter(s: (u64, u64, u64, u64), n: nat) -> (u64, u64, u64, u64)
    decreases n,
{
    if n == 0 {
        s
    } else {
        spec_jsf_step(spec_jsf_iter(s, (n - 1) as nat))
    }
}

/// The state seeded and warmed up with 20 transitions.
pub open spec fn spec_jsf_init(seed: u64) -> (u64, u64, u64, u64) {
    spec_jsf_iter((0xF1EA5EEDu64, seed, seed, seed), 20)
}

/// The `i`-th output drawn after seeding (outputs are the `d` word).
pub open spec fn spec_nth_output(seed: u64, i: nat) -> u64 {
    spec_jsf_iter(spec_jsf_init(seed), i + 1).3
}

/// The generator's state.
#[derive(Debug, Copy, Clone, PartialEq, Eq, Structural)]
pub struct Jsf64Rng {
    pub a: u64,
    pub b: u64,
    pub c: u64,
    pub d: u64,
}

impl Jsf64Rng {
    /// The state as the tuple the spec functions transform.
    pub open spec fn spec_state(self) -> (u64, u64, u64, u64) {
        (self.a, self.b, self.c, self.d)
    }

    pub fn new(seed: u64) -> (r: Jsf64Rng)
        ensures
            r.spec_state() == spec_jsf_init(seed),
    {
        let mut rng = Jsf64Rng { a: 0xF1EA5EED, b: seed, c: seed, d: seed };
        let mut i: usize = 0;
        while i < 20
            invariant
                0 <= i <= 20,
                rng.spec_state() == spec_jsf_iter((0xF1EA5EEDu64, seed, seed, seed), i as nat),
            decreases 20 - i,
        {
            rng.step();
            i = i + 1;
        }
        rng
    }

    /// One transition of the state.
    fn step(&mut self)
        ensures
            final(self).spec_state() == spec_jsf_step(old(self).spec_state()),
    {
        let e = self.a.wrapping_sub((self.b << 7) | (self.b >> 57));
        self.a = self.b ^ ((self.c << 13) | (self.c >> 51));
        self.b = self.c.wrapping_add((self.d << 37) | (self.d >> 27));
        self.c = self.d.wrapping_add(e);
        self.d = e.wrapping_add(self.a);
    }

    pub fn next_u64(&mut self) -> (r: u64)
        ensures
            final(self).spec_state() == spec_jsf_step(old(self).spec_state()),
            r == final(self).d,
    {
        self.step();
        self.d
    }

    pub fn next_u32(&mut self) -> (r: u32)
        ensures
            final(self).spec_state() == spec_jsf_step(old(self).spec_state()),
            r == final(self).d >> 32,
    {
        let x = self.next_u64();
        proof {
            assert((x >> 32) <= 0xFFFF_FFFFu64) by (bit_vector);
        }
        (x >> 32) as u32
    }

    /// A value below `bound` (or 0 when `bound` is 0, the state untouched),
    /// by multiply-and-shift with a bounded number of rejection rounds
    /// against modulo bias.
    pub fn next_u32_bounded(&mut self, bound: u32) -> (r: u32)
        ensures
            bound > 0 ==> r < bound,
            bound == 0 ==> r == 0 && *final(self) == *old(self),
            bound > 0 ==> exists|k: nat|
                1 <= k <= 129 && final(self).spec_state() == spec_jsf_iter(
                    old(self).spec_state(),
                    k,
                ) && r == ((spec_jsf_iter(old(self).spec_state(), k).3 >> 32) * (bound as int))
                    / 0x1_0000_0000,
    {
        if bound == 0 {
            return 0;
        }
        let ghost s0 = self.spec_state();
        let mut x = self.next_u32();
        let ghost mut steps: nat = 1;
        proof {
            assert(spec_jsf_iter(s0, 0) == s0);
            assert(spec_jsf_iter(s0, 1) == spec_jsf_step(s0));
            lemma_mul_shift_bound(x, bound);
        }
        let mut m: u64 = (x as u64) * (bound as u64);
        let mut l: u32 = #[verifier::truncate] (m as u32);
        if l < bound {
            let mut t = 0u32.wrapping_sub(bound);
            if t >= bound {
                t -= bound;
                if t >= bound {
                    t %= bound;
                }
            }
            let mut tries: usize = 0;
            while l < t && tries < 128
                invariant
                    bound > 0,
                    m >> 32 < bound,
                    1 <= steps <= 1 + tries,
                    tries <= 128,
                    self.spec_state() == spec_jsf_iter(s0, steps),
                    m == (spec_jsf_iter(s0, steps).3 >> 32) * (bound as int),
                decreases 128 - tries,
            {
                x = self.next_u32();
                proof {
                    steps = steps + 1;
                    assert(spec_jsf_iter(s0, steps) == spec_jsf_step(
                        spec_jsf_iter(s0, (steps - 1) as nat),
                    ));
                    lemma_mul_shift_bound(x, bound);
                }
                m = (x as u64) * (bound as u64);
                l = #[verifier::truncate] (m as u32);
                tries += 1;
            }
        }
        proof {
            vstd::bits::lemma_u64_shr_is_div(m, 32);
            vstd::arithmetic::power2::lemma2_to64();
            vstd::arithmetic::power2::lemma2_to64_rest();
        }
        (m >> 32) as u32
    }
}

/// A 32-by-32 product fits in 64 bits, and its high word is below the
/// multiplier.
proof fn lemma_mul_shift_bound(x: u32, bound: u32)
    requires
        bound > 0,
    ensures
        (x as u64) * (bound as u64) <= u64::MAX,
        (((x as u64) * (bound as u64)) as u64) >> 32 < bound,
{
    let b = bound as u64;
    assert((x as u64) * b < 0x1_0000_0000 * b && 0x1_0000_0000 * b <= 0x1_0000_0000
        * 0xFFFF_FFFFu64) by (nonlinear_arith)
        requires
            x <= 0xFFFF_FFFFu32,
            0 < b <= 0xFFFF_FFFFu64,
    ;
    let m = ((x as u64) * b) as u64;
    vstd::bits::lemma_u64_shr_is_div(m, 32);
    vstd::arithmetic::power2::lemma2_to64();
    vstd::arithmetic::power2::lemma2_to64_rest();
    vstd::arithmetic::div_mod::lemma_multiply_divide_lt(m as int, 0x1_0000_0000, b as int);
}

/// The 64-bit avalanche finalizer: three xor-shifts by 33 interleaved with
/// two odd-constant multiplications, a bijection on 64-bit words.
pub open spec fn spec_mix(v: u64) -> u64 {
    let a = u64_specs::wrapping_mul(v ^ (v >> 33), 0xff51afd7ed558ccd);
    let b = u64_specs::wrapping_mul(a ^ (a >> 33), 0xc4ceb9fe1a85ec53);
    b ^ (b >> 33)
}

/// Scrambles a word, spreading every input bit over the whole output; used
/// to turn a coarse value (a timestamp) into a well-mixed seed.
pub fn mix(v: u64) -> (r: u64)
    ensures
        r == spec_mix(v),
{
    let a = (v ^ (v >> 33)).wrapping_mul(0xff51afd7ed558ccd);
    let b = (a ^ (a >> 33)).wrapping_mul(0xc4ceb9fe1a85ec53);
    b ^ (b >> 33)
}

/// The first `n` outputs of a seeded generator.
pub fn fill_u64_array(seed: u64, n: usize) -> (r: Vec<u64>)
    ensures
        r@.len() == n,
        forall|i: int| 0 <= i < n ==> r@[i] == spec_nth_output(seed, i as nat),
{
    let mut rng = Jsf64Rng::new(seed);
    let mut r: Vec<u64> = Vec::new();
    let mut i: usize = 0;
    while i < n
        invariant
            0 <= i <= n,
            r@.len() == i,
            rng.spec_state() == spec_jsf_iter(spec_jsf_init(seed), i as nat),
            forall|j: int| 0 <= j < i ==> r@[j] == spec_nth_output(seed, j as nat),
        decreases n - i,
    {
        let x = rng.next_u64();
        r.push(x);
        i = i + 1;
    }
    r
}

} // verus!
