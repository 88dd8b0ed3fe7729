//! The xoshiro256++ generator seeded through SplitMix64, and Lemire's
//! unbiased bounded integer sampling on top of it.
use std::time::{SystemTime, SystemTimeError, UNIX_EPOCH};
use vstd::prelude::*;

verus! {

/// `std::time::SystemTime`, carried through opaquely.
#[verifier::external_type_specification]
#[verifier::external_body]
pub struct ExSystemTime(SystemTime);

/// `std::time::SystemTimeError`, carried through opaquely.
#[verifier::external_type_specification]
#[verifier::external_body]
pub struct ExSystemTimeError(SystemTimeError);

/// Calls `std::time::SystemTime::now`: the current wall-clock time. Nothing is
/// claimed of the value, which depends on the machine's clock.
#[verifier::external_body]
fn clock_now() -> SystemTime {
    SystemTime::now()
}

/// Calls `SystemTime::duration_since` against `UNIX_EPOCH`: the time elapsed
/// since the epoch, or an error when `t` lies before it. Nothing is claimed
/// of which of the two comes back.
#[verifier::external_body]
fn duration_since_epoch(t: &SystemTime) -> Result<std::time::Duration, SystemTimeError> {
    t.duration_since(UNIX_EPOCH)
}

/// Calls `std::time::Duration::as_nanos`: the whole nanoseconds in `d`. Nothing
/// is claimed of the value (the duration is opaque here).
#[verifier::external_body]
fn duration_nanos(d: &std::time::Duration) -> u128 {
    d.as_nanos()
}

/// Seed used when the clock reads earlier than the Unix epoch.
pub const CLOCK_FALLBACK_SEED: u64 = 0x9E37_79B9_7F4A_7C15u64;

/// Mask mixed into a clock-derived seed.
pub const ENTROPY_MASK: u64 = 0xA5A5_5A5A_DEAD_BEEFu64;

/// The seed drawn from a clock reading: the nanoseconds since the Unix epoch
/// truncated to their low 64 bits, or `CLOCK_FALLBACK_SEED` where the clock
/// read earlier than the epoch (`None`).
pub open spec fn clock_seed_value(clock: Option<u128>) -> u64 {
    match clock {
        Some(nanos) => nanos as u64,
        None => CLOCK_FALLBACK_SEED,
    }
}

/// The seed for a clock reading `clock` (see `clock_seed_value`).
pub fn clock_seed(clock: Option<u128>) -> (seed: u64)
    ensures
        seed == clock_seed_value(clock),
{
    match clock {
        Some(nanos) => nanos as u64,
        None => CLOCK_FALLBACK_SEED,
    }
}

/// 2^64, the modulus of `u64` arithmetic, as a `u128`.
const TWO_POW_64: u128 = 0x1_0000_0000_0000_0000u128;

/// The most redraws that Lemire's rejection step makes before it gives up on
/// an unbiased draw (a bound that no run reaches in practice).
pub const REJECTION_LIMIT: u64 = 0xFFFF_FFFF_FFFF_FFFFu64;

/// Increment of the SplitMix64 state.
pub const SPLITMIX_GAMMA: u64 = 0x9E37_79B9_7F4A_7C15u64;

/// The four words of generator state.
pub type RngState = (u64, u64, u64, u64);

/// Rotation of `x` left by `k` bits, for `0 < k < 64`.
pub open spec fn rotl64(x: u64, k: u64) -> u64 {
    (x << k) | (x >> (64 - k) as u64)
}

/// The value that xoshiro256++ outputs from state `s`.
pub open spec fn xoshiro_output(s: RngState) -> u64 {
    rotl64(s.0.wrapping_add(s.3), 23).wrapping_add(s.0)
}

/// The state that xoshiro256++ moves to from state `s`.
pub open spec fn xoshiro_next(s: RngState) -> RngState {
    let t = s.1 << 17u64;
    let s2 = s.2 ^ s.0;
    let s3 = s.3 ^ s.1;
    let s1 = s.1 ^ s2;
    let s0 = s.0 ^ s3;
    (s0, s1, s2 ^ t, rotl64(s3, 45))
}

/// One SplitMix64 step from `state`: the value output and the next state.
pub open spec fn splitmix_step(state: u64) -> (u64, u64) {
    let st = state.wrapping_add(SPLITMIX_GAMMA);
    let z1 = (st ^ (st >> 30u64)).wrapping_mul(0xBF58_476D_1CE4_E5B9u64);
    let z2 = (z1 ^ (z1 >> 27u64)).wrapping_mul(0x94D0_49BB_1331_11EBu64);
    (z2 ^ (z2 >> 31u64), st)
}

/// The generator state that `seed` gives: four successive SplitMix64 outputs.
pub open spec fn seeded_state(seed: u64) -> RngState {
    let (a, st1) = splitmix_step(seed);
    let (b, st2) = splitmix_step(st1);
    let (c, st3) = splitmix_step(st2);
    let (d, _st4) = splitmix_step(st3);
    (a, b, c, d)
}

/// SplitMix64's output mixing of an advanced state `z`.
pub open spec fn splitmix_mix(z: u64) -> u64 {
    let z1 = (z ^ (z >> 30u64)).wrapping_mul(0xBF58_476D_1CE4_E5B9u64);
    let z2 = (z1 ^ (z1 >> 27u64)).wrapping_mul(0x94D0_49BB_1331_11EBu64);
    z2 ^ (z2 >> 31u64)
}

/// Seeding: word `k` of the state that `seed` gives is the `(k + 1)`-th
/// SplitMix64 output, the mix of `seed` advanced by `k + 1` increments of
/// `SPLITMIX_GAMMA` (wrapping), in the order drawn.
pub proof fn law_seeded_state_words(seed: u64)
    ensures
        seeded_state(seed).0 == splitmix_mix(seed.wrapping_add(SPLITMIX_GAMMA)),
        seeded_state(seed).1 == splitmix_mix(
            seed.wrapping_add(SPLITMIX_GAMMA).wrapping_add(SPLITMIX_GAMMA),
        ),
        seeded_state(seed).2 == splitmix_mix(
            seed.wrapping_add(SPLITMIX_GAMMA).wrapping_add(SPLITMIX_GAMMA).wrapping_add(
                SPLITMIX_GAMMA,
            ),
        ),
        seeded_state(seed).3 == splitmix_mix(
            seed.wrapping_add(SPLITMIX_GAMMA).wrapping_add(SPLITMIX_GAMMA).wrapping_add(
                SPLITMIX_GAMMA,
            ).wrapping_add(SPLITMIX_GAMMA),
        ),
{
}

/// One xoshiro256++ step in closed form: each new state word in terms of the
/// old words, and the output, with rotations written out as shifts.
pub proof fn law_xoshiro_step(s: RngState)
    ensures
        xoshiro_next(s).0 == s.0 ^ s.1 ^ s.3,
        xoshiro_next(s).1 == s.0 ^ s.1 ^ s.2,
        xoshiro_next(s).2 == s.0 ^ s.2 ^ (s.1 << 17u64),
        xoshiro_next(s).3 == ((s.1 ^ s.3) << 45u64) | ((s.1 ^ s.3) >> 19u64),
        xoshiro_output(s) == ((s.0.wrapping_add(s.3) << 23u64) | (s.0.wrapping_add(s.3)
            >> 41u64)).wrapping_add(s.0),
{
    let (a, b, c, d) = s;
    assert(a ^ (d ^ b) == a ^ b ^ d) by (bit_vector);
    assert(b ^ (c ^ a) == a ^ b ^ c) by (bit_vector);
    assert((c ^ a) ^ (b << 17u64) == a ^ c ^ (b << 17u64)) by (bit_vector);
    assert(((d ^ b) << 45u64) | ((d ^ b) >> 19u64) == ((b ^ d) << 45u64) | ((b ^ d) >> 19u64))
        by (bit_vector);
}

/// The high and low 64-bit halves of the 128-bit product `x * range`.
pub open spec fn wide_mul_halves(x: u64, range: u64) -> (u64, u64) {
    let m = x as int * range as int;
    ((m / 0x1_0000_0000_0000_0000int) as u64, (m % 0x1_0000_0000_0000_0000int) as u64)
}

/// The rejection threshold of Lemire's method: `2^64 mod range`.
pub open spec fn lemire_threshold(range: u64) -> u64 {
    (0u64.wrapping_sub(range) % range) as u64
}

/// Redraws from state `s` while the low half falls under `t`, at most
/// `fuel + 1` times: the high half of the last draw and the state after it.
pub open spec fn lemire_redraw(s: RngState, range: u64, t: u64, fuel: nat) -> (u64, RngState)
    decreases fuel,
{
    let (hi, lo) = wide_mul_halves(xoshiro_output(s), range);
    if lo >= t || fuel == 0 {
        (hi, xoshiro_next(s))
    } else {
        lemire_redraw(xoshiro_next(s), range, t, (fuel - 1) as nat)
    }
}

/// Lemire's bounded draw in `[0, range)` from state `s`: the value and the
/// state after it.
pub open spec fn lemire_draw(s: RngState, range: u64) -> (u64, RngState) {
    let (hi, lo) = wide_mul_halves(xoshiro_output(s), range);
    if lo < range && lo < lemire_threshold(range) {
        lemire_redraw(xoshiro_next(s), range, lemire_threshold(range), (REJECTION_LIMIT - 1) as nat)
    } else {
        (hi, xoshiro_next(s))
    }
}

/// The high half of `x * range` is below `range` when `range` is positive.
pub proof fn lemma_high_half_below_range(x: u64, range: u64)
    requires
        range > 0,
    ensures
        wide_mul_halves(x, range).0 < range,
{
    let m = x as int * range as int;
    assert(m < 0x1_0000_0000_0000_0000int * range) by (nonlinear_arith)
        requires
            m == x as int * range as int,
            0 <= x < 0x1_0000_0000_0000_0000int,
            range > 0,
    ;
    assert(m / 0x1_0000_0000_0000_0000int < range) by (nonlinear_arith)
        requires
            0 <= m < 0x1_0000_0000_0000_0000int * range,
    ;
}

/// Every redraw ends below `range`.
pub proof fn lemma_redraw_below_range(s: RngState, range: u64, t: u64, fuel: nat)
    requires
        range > 0,
    ensures
        lemire_redraw(s, range, t, fuel).0 < range,
    decreases fuel,
{
    lemma_high_half_below_range(xoshiro_output(s), range);
    if fuel > 0 {
        lemma_redraw_below_range(xoshiro_next(s), range, t, (fuel - 1) as nat);
    }
}

/// Lemire's draw lies in `[0, range)` for a positive `range`, and is 0 for an
/// empty one.
pub proof fn lemma_lemire_draw_in_range(s: RngState, range: u64)
    ensures
        range > 0 ==> lemire_draw(s, range).0 < range,
        range == 0 ==> lemire_draw(s, range).0 == 0,
{
    if range > 0 {
        lemma_high_half_below_range(xoshiro_output(s), range);
        lemma_redraw_below_range(xoshiro_next(s), range, lemire_threshold(range),
            (REJECTION_LIMIT - 1) as nat);
    } else {
        assert(xoshiro_output(s) as int * 0int == 0);
    }
}

/// Lemire's draw keeps its first candidate when that is acceptable: with
/// `x` the next output and `m = x * range`, if `m mod 2^64` is at least
/// `2^64 mod range`, the draw is `m / 2^64` and the generator moves one step;
/// an empty range gives 0 after one step.
pub proof fn law_lemire_first_draw(s: RngState, range: u64)
    ensures
        range > 0 && (xoshiro_output(s) as int * range as int) % 0x1_0000_0000_0000_0000int
            >= 0x1_0000_0000_0000_0000int % (range as int) ==> lemire_draw(s, range) == (
            ((xoshiro_output(s) as int * range as int) / 0x1_0000_0000_0000_0000int) as u64,
            xoshiro_next(s),
        ),
        range == 0 ==> lemire_draw(s, range) == (0u64, xoshiro_next(s)),
{
    if range > 0 {
        vstd::arithmetic::div_mod::lemma_mod_add_multiples_vanish(
            0x1_0000_0000_0000_0000int - range,
            range as int,
        );
        assert(lemire_threshold(range) as int == 0x1_0000_0000_0000_0000int % (range as int));
        assert(0x1_0000_0000_0000_0000int % (range as int) < range);
    } else {
        assert(xoshiro_output(s) as int * 0int == 0);
    }
}

fn rotl(x: u64, k: u64) -> (r: u64)
    requires
        0 < k < 64,
    ensures
        r == rotl64(x, k),
{
    (x << k) | (x >> (64 - k))
}

/// The SplitMix64 generator that seeds the main generator.
struct SplitMix64 {
    state: u64,
}

impl SplitMix64 {
    fn next(&mut self) -> (r: u64)
        ensures
            (r, final(self).state) == splitmix_step(old(self).state),
    {
        self.state = self.state.wrapping_add(SPLITMIX_GAMMA);
        let mut z = self.state;
        z = (z ^ (z >> 30)).wrapping_mul(0xBF58_476D_1CE4_E5B9);
        z = (z ^ (z >> 27)).wrapping_mul(0x94D0_49BB_1331_11EB);
        z ^ (z >> 31)
    }
}

/// A fast, seedable xoshiro256++ pseudo-random number generator.
#[derive(Clone, Debug)]
pub struct FastRng {
    s0: u64,
    s1: u64,
    s2: u64,
    s3: u64,
}

impl View for FastRng {
    type V = RngState;

    closed spec fn view(&self) -> RngState {
        (self.s0, self.s1, self.s2, self.s3)
    }
}

impl FastRng {
    /// A generator whose state is four SplitMix64 outputs from `seed`.
    pub fn new(seed: u64) -> (rng: Self)
        ensures
            rng@ == seeded_state(seed),
    {
        let mut sm = SplitMix64 { state: seed };
        let a = sm.next();
        let b = sm.next();
        let c = sm.next();
        let d = sm.next();
        FastRng { s0: a, s1: b, s2: c, s3: d }
    }

    /// A generator seeded from the system clock: `clock_seed` of the
    /// nanoseconds since the Unix epoch (or of `None` where the clock reads
    /// before it), mixed with `ENTROPY_MASK`. Which reading the clock gives is
    /// not known here; the seed is that reading's, whatever it is.
    pub fn from_entropy() -> (rng: Self)
        ensures
            exists|clock: Option<u128>|
                rng@ == seeded_state(#[trigger] clock_seed_value(clock) ^ ENTROPY_MASK),
    {
        let now = clock_now();
        let clock: Option<u128> = match duration_since_epoch(&now) {
            Ok(d) => Some(duration_nanos(&d)),
            Err(_) => None,
        };
        let seed = clock_seed(clock);
        let rng = Self::new(seed ^ ENTROPY_MASK);
        assert(rng@ == seeded_state(clock_seed_value(clock) ^ ENTROPY_MASK));
        rng
    }

    /// The next 64 random bits.
    pub fn next_u64(&mut self) -> (r: u64)
        ensures
            r == xoshiro_output(old(self)@),
            final(self)@ == xoshiro_next(old(self)@),
    {
        let result = rotl(self.s0.wrapping_add(self.s3), 23).wrapping_add(self.s0);

        let t = self.s1 << 17;

        self.s2 ^= self.s0;
        self.s3 ^= self.s1;
        self.s1 ^= self.s2;
        self.s0 ^= self.s3;

        self.s2 ^= t;
        self.s3 = rotl(self.s3, 45);

        result
    }

    /// The next 64 random bits, as a `usize` (truncated where `usize` is narrower).
    pub fn next_usize(&mut self) -> (r: usize)
        ensures
            r == xoshiro_output(old(self)@) as usize,
            final(self)@ == xoshiro_next(old(self)@),
    {
        self.next_u64() as usize
    }

    /// A uniformly distributed integer in `[low, high)` (`low` itself when the
    /// range is empty).
    pub fn gen_usize_range(&mut self, low: usize, high: usize) -> (r: usize)
        requires
            low <= high,
        ensures
            r == low + lemire_draw(old(self)@, (high - low) as u64).0,
            final(self)@ == lemire_draw(old(self)@, (high - low) as u64).1,
            low < high ==> low <= r < high,
            low == high ==> r == low,
    {
        let range = (high - low) as u64;
        proof {
            lemma_lemire_draw_in_range(self@, range);
        }
        low + lemire_bounded(self, range) as usize
    }
}

/// The site that the driving step picks on a lattice of `idx_mask + 1` sites
/// (a power of two): the low bits of the next draw, so always a valid site.
pub fn draw_site(rng: &mut FastRng, idx_mask: usize) -> (idx: usize)
    ensures
        idx == (xoshiro_output(old(rng)@) as usize) & idx_mask,
        idx <= idx_mask,
        final(rng)@ == xoshiro_next(old(rng)@),
{
    let x = rng.next_u64() as usize;
    let idx = x & idx_mask;
    assert(idx <= idx_mask) by (bit_vector)
        requires
            idx == x & idx_mask,
    ;
    idx
}

/// Lemire's nearly divisionless unbiased draw in `[0, range)`.
fn lemire_bounded(rng: &mut FastRng, range: u64) -> (r: u64)
    ensures
        (r, final(rng)@) == lemire_draw(old(rng)@, range),
{
    let ghost s0 = rng@;
    let x = rng.next_u64();
    proof {
        assert(x as int * range as int <= 0xFFFF_FFFF_FFFF_FFFFint * 0xFFFF_FFFF_FFFF_FFFFint)
            by (nonlinear_arith)
            requires
                0 <= x <= 0xFFFF_FFFF_FFFF_FFFFint,
                0 <= range <= 0xFFFF_FFFF_FFFF_FFFFint,
        ;
    }
    let mut m: u128 = (x as u128) * (range as u128);
    let mut l: u64 = (m % TWO_POW_64) as u64;
    if l < range {
        let t = 0u64.wrapping_sub(range) % range;
        let ghost goal = lemire_draw(s0, range);
        let mut tries: u64 = 0;
        while l < t && tries < REJECTION_LIMIT
            invariant
                t == lemire_threshold(range),
                goal == lemire_draw(s0, range),
                l as int == m as int % 0x1_0000_0000_0000_0000int,
                m as int == (m as int / 0x1_0000_0000_0000_0000int) * 0x1_0000_0000_0000_0000int + l,
                0 <= m as int / 0x1_0000_0000_0000_0000int < 0x1_0000_0000_0000_0000int,
                tries <= REJECTION_LIMIT,
                (l < t && tries < REJECTION_LIMIT) ==> goal == lemire_redraw(
                    rng@, range, t, (REJECTION_LIMIT - 1 - tries) as nat),
                !(l < t && tries < REJECTION_LIMIT) ==> goal == (
                    (m as int / 0x1_0000_0000_0000_0000int) as u64, rng@),
            decreases REJECTION_LIMIT - tries,
        {
            let x = rng.next_u64();
            proof {
                assert(x as int * range as int <= 0xFFFF_FFFF_FFFF_FFFFint * 0xFFFF_FFFF_FFFF_FFFFint)
                    by (nonlinear_arith)
                    requires
                        0 <= x <= 0xFFFF_FFFF_FFFF_FFFFint,
                        0 <= range <= 0xFFFF_FFFF_FFFF_FFFFint,
                ;
            }
            m = (x as u128) * (range as u128);
            l = (m % TWO_POW_64) as u64;
            tries = tries + 1;
        }
    }
    (m / TWO_POW_64) as u64
}

} // verus!
