//! Integer bookkeeping of the avalanche statistics: a dense tally of
//! durations and a cheap hasher for maps keyed by avalanche size.
use vstd::prelude::*;

verus! {

/// The tally that `counts` holds for `t`: its entry, or 0 past its end.
pub open spec fn tally_at(counts: Seq<u64>, t: int) -> int {
    if 0 <= t < counts.len() {
        counts[t] as int
    } else {
        0
    }
}

/// Counts one more occurrence of `value` in the dense tally `counts`,
/// growing it with zeros where `value` lies past its end.
pub fn bump_count(counts: &mut Vec<u64>, value: u64)
    requires
        (value as usize) < usize::MAX,
        (value as usize) < old(counts)@.len() ==> old(counts)@[value as usize as int] < u64::MAX,
    ensures
        final(counts)@.len() == if (value as usize) < old(counts)@.len() {
            old(counts)@.len() as int
        } else {
            value as usize + 1
        },
        forall|t: int|
            #![trigger tally_at(final(counts)@, t)]
            tally_at(final(counts)@, t) == tally_at(old(counts)@, t) + if t == value as usize {
                1int
            } else {
                0int
            },
{
    let k = value as usize;
    if k >= counts.len() {
        counts.resize(k + 1, 0);
    }
    counts[k] += 1;
}

/// Multiplier that `write_u64` spreads a key with (the 64-bit golden ratio).
pub const GOLDEN_MULTIPLIER: u64 = 0x9E37_79B9_7F4A_7C15u64;

/// The FNV-1a 64-bit prime that `write` folds bytes with.
pub const FNV_PRIME: u64 = 0x0000_0100_0000_01B3u64;

/// The state after folding `bytes` into state `h`, one byte at a time.
pub open spec fn fold_bytes(h: u64, bytes: Seq<u8>) -> u64
    decreases bytes.len(),
{
    if bytes.len() == 0 {
        h
    } else {
        (fold_bytes(h, bytes.drop_last()) ^ (bytes.last() as u64)).wrapping_mul(FNV_PRIME)
    }
}

/// A hasher for `u64` keys: a key is spread by one multiplication.
pub struct FastU64Hasher {
    hash: u64,
}

impl View for FastU64Hasher {
    type V = u64;

    closed spec fn view(&self) -> u64 {
        self.hash
    }
}

impl Default for FastU64Hasher {
    fn default() -> (h: Self)
        ensures
            h@ == 0,
    {
        FastU64Hasher { hash: 0 }
    }
}

impl std::hash::Hasher for FastU64Hasher {
    /// Sets the state to `n` spread by the golden-ratio multiplier.
    fn write_u64(&mut self, n: u64)
        ensures
            final(self)@ == n.wrapping_mul(GOLDEN_MULTIPLIER),
    {
        self.hash = n.wrapping_mul(GOLDEN_MULTIPLIER);
    }

    /// Folds `bytes` into the state, FNV style.
    fn write(&mut self, bytes: &[u8])
        ensures
            final(self)@ == fold_bytes(old(self)@, bytes@),
    {
        let ghost h0 = self.hash;
        let mut k: usize = 0;
        while k < bytes.len()
            invariant
                k <= bytes@.len(),
                self.hash == fold_bytes(h0, bytes@.take(k as int)),
            decreases bytes@.len() - k,
        {
            proof {
                assert(bytes@.take(k + 1).drop_last() =~= bytes@.take(k as int));
            }
            self.hash = (self.hash ^ bytes[k] as u64).wrapping_mul(FNV_PRIME);
            k = k + 1;
        }
        proof {
            assert(bytes@.take(k as int) =~= bytes@);
        }
    }

    /// The current state.
    fn finish(&self) -> (r: u64)
        ensures
            r == self@,
    {
        self.hash
    }
}

} // verus!
