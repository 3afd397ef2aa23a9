//! A nonrepeating pseudo-random walk over a port range, following the
//! `Linear Congruential Generator` scheme: from a random first pick, step by
//! an increment coprime to the range length, modulo that length. Coprimality
//! makes the walk visit every value of the range exactly once.
use crate::modular::{
    lemma_lcg_distinct, lemma_lcg_permutation, lcg_seq, spec_gcd,
};
use vstd::arithmetic::div_mod::{
    lemma_add_mod_noop, lemma_mod_multiples_vanish, lemma_small_mod,
};
use vstd::prelude::*;

verus! {

/// Relies on gcd::Gcd::gcd for u32: the greatest common divisor,
/// computed by the binary algorithm.
#[verifier::external_body]
fn gcd_u32(a: u32, b: u32) -> (r: u32)
    ensures
        r as nat == spec_gcd(a as nat, b as nat),
{
    gcd::Gcd::gcd(a, b)
}

/// Relies on rand's thread-local generator and Rng::gen_range: a value
/// drawn from the given range, which must not be empty.
#[verifier::external_body]
fn random_in_range(lo: u32, hi: u32) -> (r: u32)
    requires
        lo < hi,
    ensures
        lo <= r < hi,
{
    rand::Rng::gen_range(&mut rand::thread_rng(), lo..hi)
}

/// A number one below another is coprime to it.
proof fn lemma_gcd_adjacent(n: nat)
    requires
        n >= 1,
    ensures
        spec_gcd(n, (n - 1) as nat) == 1,
{
    let m = (n - 1) as nat;
    if m == 0 {
        assert(spec_gcd(1, 0) == 1);
    } else if m == 1 {
        assert(n % 1 == 0);
        assert(spec_gcd(n, 1) == spec_gcd(1, n % 1));
    } else {
        assert(n % m == 1) by {
            assert(n == m * 1 + 1) by (nonlinear_arith)
                requires
                    n == m + 1,
            ;
            vstd::arithmetic::div_mod::lemma_fundamental_div_mod_converse(
                n as int,
                m as int,
                1,
                1,
            );
        }
        assert(m % 1 == 0);
        assert(spec_gcd(n, m) == spec_gcd(m, 1));
        assert(spec_gcd(m, 1) == spec_gcd(1, m % 1));
    }
}

/// The probability that two random integers are coprime to one another
/// works out to be around 61%, so a handful of draws nearly always finds
/// one. If ten draws all fail, fall back to `end - 1`, which is always
/// coprime to `end`, though it randomizes the walk less well.
///
/// Draws are kept away from the boundaries of `0 .. end`, since steps close
/// to the range ends also randomize the walk poorly.
pub fn pick_random_coprime(end: u32) -> (r: u32)
    requires
        end >= 1,
    ensures
        r < end,
        spec_gcd(end as nat, r as nat) == 1,
{
    let range_boundary = end / 4;
    let lower_range = range_boundary;
    let upper_range = end - range_boundary;
    assert(lower_range < upper_range);
    let mut candidate = random_in_range(lower_range, upper_range);

    let mut attempt: u32 = 0;
    while attempt < 10
        invariant
            end >= 1,
            lower_range == end / 4,
            upper_range == end - end / 4,
            lower_range < upper_range,
            upper_range <= end,
            candidate < end,
        decreases 10 - attempt,
    {
        if gcd_u32(end, candidate) == 1 {
            return candidate;
        }
        candidate = random_in_range(lower_range, upper_range);
        attempt = attempt + 1;
    }

    proof {
        lemma_gcd_adjacent(end as nat);
    }
    end - 1
}

/// A walk over the ports of `start .. end` that yields every port exactly
/// once, in a pseudo-random order.
pub struct RangeIterator {
    pub active: bool,
    pub normalized_end: u32,
    pub normalized_first_pick: u32,
    pub normalized_pick: u32,
    pub actual_start: u32,
    pub step: u32,
    pub emitted: Ghost<nat>,
}

impl RangeIterator {
    /// The state of a well-formed walk: the step is coprime to the range
    /// length, the current pick is where `emitted` steps from the first
    /// pick land, and the walk is active until the whole range came out.
    pub open spec fn wf(self) -> bool {
        &&& self.normalized_end > 0
        &&& self.step < self.normalized_end
        &&& spec_gcd(self.normalized_end as nat, self.step as nat) == 1
        &&& self.normalized_first_pick < self.normalized_end
        &&& self.emitted@ <= self.normalized_end
        &&& self.normalized_pick as int == (self.normalized_first_pick + self.emitted@
            * self.step) % (self.normalized_end as int)
        &&& (self.active <==> self.emitted@ < self.normalized_end)
        &&& self.actual_start + self.normalized_end <= 0x10000
    }

    /// The port that the walk yields at its `k`-th step.
    pub open spec fn value_at(self, k: int) -> int {
        self.actual_start + (self.normalized_first_pick + k * self.step) % (
        self.normalized_end as int)
    }

    /// All ports of the walk, in the order they come out.
    pub open spec fn walk_seq(self) -> Seq<int> {
        Seq::new(self.normalized_end as nat, |k: int| self.value_at(k))
    }

    /// Receives the start and end of a range and normalizes these values
    /// before selecting a coprime step and a random first pick for the walk.
    ///
    /// For example, the range `1000-2500` is normalized to `0-1500` before
    /// going through the algorithm.
    pub fn new(start: u32, end: u32) -> (r: Self)
        requires
            start < end,
            end <= 0x10000,
        ensures
            r.wf(),
            r.actual_start == start,
            r.normalized_end == end - start,
            r.emitted@ == 0,
    {
        let normalized_end = end - start;
        let step = pick_random_coprime(normalized_end);

        // Randomly choose a number within the range to be the first
        // and assign it as a pick.
        let normalized_first_pick = random_in_range(0, normalized_end);

        proof {
            lemma_small_mod(normalized_first_pick as nat, normalized_end as nat);
        }
        Self {
            active: true,
            normalized_end,
            step,
            normalized_first_pick,
            normalized_pick: normalized_first_pick,
            actual_start: start,
            emitted: Ghost(0),
        }
    }

    /// The next step is always bound by the formula:
    /// `N+1 = (N + STEP) % TOP_OF_THE_RANGE`. The walk stops once it
    /// generates a number equal to the first generated number, which by
    /// coprimality happens exactly when the whole range came out.
    pub fn next(&mut self) -> (r: Option<u16>)
        requires
            old(self).wf(),
        ensures
            final(self).wf(),
            final(self).normalized_end == old(self).normalized_end,
            final(self).normalized_first_pick == old(self).normalized_first_pick,
            final(self).step == old(self).step,
            final(self).actual_start == old(self).actual_start,
            if old(self).emitted@ < old(self).normalized_end {
                &&& r matches Some(p) && p as int == old(self).value_at(old(self).emitted@ as int)
                &&& final(self).emitted@ == old(self).emitted@ + 1
            } else {
                &&& r is None
                &&& final(self).emitted@ == old(self).emitted@
            },
    {
        if !self.active {
            return None;
        }
        let ghost n = self.normalized_end as int;
        let ghost s = self.step as int;
        let ghost f = self.normalized_first_pick as int;
        let ghost e = self.emitted@ as int;

        let current_pick = self.normalized_pick;
        let next_pick = (current_pick + self.step) % self.normalized_end;

        proof {
            // stepping once more lands on the walk value of e + 1
            lemma_add_mod_noop(f + e * s, s, n);
            lemma_small_mod(self.step as nat, self.normalized_end as nat);
            assert(f + e * s + s == f + (e + 1) * s) by (nonlinear_arith);
            assert(next_pick as int == (f + (e + 1) * s) % n);
            if e + 1 == n {
                // one full cycle: the walk returns to the first pick
                lemma_mod_multiples_vanish(s, f, n);
                assert(f + n * s == n * s + f) by (nonlinear_arith);
                lemma_small_mod(self.normalized_first_pick as nat, self.normalized_end as nat);
                assert(next_pick as int == f);
            } else {
                // not yet a full cycle: the walk cannot be back at the start
                lemma_small_mod(self.normalized_first_pick as nat, self.normalized_end as nat);
                lemma_lcg_distinct(
                    self.normalized_end as nat,
                    self.step as nat,
                    self.normalized_first_pick as nat,
                    0,
                    (e + 1) as nat,
                );
                assert((f + 0 * s) % n == f) by {
                    assert(f + 0 * s == f);
                }
                assert(next_pick as int != f);
            }
        }

        // If the next pick is equal to the first pick this means that
        // we have iterated through the entire range.
        if next_pick == self.normalized_first_pick {
            self.active = false;
        }

        self.normalized_pick = next_pick;
        proof {
            self.emitted@ = self.emitted@ + 1;
        }
        Some((self.actual_start + current_pick) as u16)
    }

    /// The walk as a whole is a permutation of its port range: it is as
    /// long as the range, repeats nothing, and reaches every port of
    /// `start .. start + length`.
    pub proof fn lemma_walk_is_permutation(self)
        requires
            self.wf(),
        ensures
            self.walk_seq().len() == self.normalized_end,
            self.walk_seq().no_duplicates(),
            forall|i: int|
                0 <= i < self.normalized_end ==> self.actual_start
                    <= #[trigger] self.walk_seq()[i] < self.actual_start + self.normalized_end,
            forall|v: int|
                self.actual_start <= v < self.actual_start + self.normalized_end
                    ==> self.walk_seq().contains(v),
    {
        let n = self.normalized_end as nat;
        let s = self.step as nat;
        let f = self.normalized_first_pick as nat;
        lemma_lcg_permutation(n, s, f);
        let base = lcg_seq(n, s, f);
        let w = self.walk_seq();
        assert forall|i: int| 0 <= i < n implies #[trigger] w[i] == self.actual_start
            + base[i] by {
            assert(base[i] == (f + i * s) % (n as int));
        }
        assert(w.no_duplicates()) by {
            assert forall|i: int, j: int|
                0 <= i < w.len() && 0 <= j < w.len() && i != j implies w[i] != w[j] by {
                assert(base[i] != base[j]);
            }
        }
        assert forall|v: int|
            self.actual_start <= v < self.actual_start + n implies w.contains(v) by {
            assert(base.contains(v - self.actual_start));
            let i = choose|i: int| 0 <= i < base.len() && base[i] == v - self.actual_start;
            assert(w[i] == v);
        }
    }
}

} // verus!
