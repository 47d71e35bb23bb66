//! Seeded deterministic random source (SplitMix64).
//!
//! Output depends only on the seed, the sequence of fork derivations,
//! and the sequence of draws per handle — never on wall time or OS
//! scheduling. `fork` seeds an independent child stream from one draw
//! of the parent, so the parent's future draws are unchanged by any
//! use of the child.

use vstd::prelude::*;

verus! {

pub const SM_GAMMA: u64 = 0x9E37_79B9_7F4A_7C15;
pub const SM_MIX_A: u64 = 0xBF58_476D_1CE4_E5B9;
pub const SM_MIX_B: u64 = 0x94D0_49BB_1331_11EB;

/// The SplitMix64 state advance: one additive step of the Weyl sequence.
pub open spec fn sm_next_state(s: u64) -> u64 {
    s.wrapping_add(SM_GAMMA)
}

/// The SplitMix64 output finalizer applied to an advanced state.
pub open spec fn sm_mix(z0: u64) -> u64 {
    let z1 = (z0 ^ (z0 >> 30)).wrapping_mul(SM_MIX_A);
    let z2 = (z1 ^ (z1 >> 27)).wrapping_mul(SM_MIX_B);
    z2 ^ (z2 >> 31)
}

/// The value drawn from state `s`; the state after the draw is
/// `sm_next_state(s)`.
pub open spec fn sm_output(s: u64) -> u64 {
    sm_mix(sm_next_state(s))
}

/// The next `n` values drawn from state `s`.
pub open spec fn draw_seq(s: u64, n: nat) -> Seq<u64>
    decreases n,
{
    if n == 0 {
        Seq::empty()
    } else {
        seq![sm_output(s)] + draw_seq(sm_next_state(s), (n - 1) as nat)
    }
}

/// A deterministic pseudo-random stream. Cheap to copy state out of,
/// but each task wanting randomness should hold its own fork.
#[derive(Clone, Copy, PartialEq, Eq, Structural, Debug)]
pub struct Prng {
    pub state: u64,
}

impl Prng {
    pub fn new(seed: u64) -> (r: Prng)
        ensures
            r.state == seed,
    {
        Prng { state: seed }
    }

    /// Draws the next value of the stream.
    pub fn next_u64(&mut self) -> (r: u64)
        ensures
            final(self).state == sm_next_state(old(self).state),
            r == sm_output(old(self).state),
    {
        self.state = self.state.wrapping_add(SM_GAMMA);
        let z0: u64 = self.state;
        let z1: u64 = (z0 ^ (z0 >> 30)).wrapping_mul(SM_MIX_A);
        let z2: u64 = (z1 ^ (z1 >> 27)).wrapping_mul(SM_MIX_B);
        z2 ^ (z2 >> 31)
    }

    /// Derives an independent child stream, seeded from one draw of the
    /// parent. The parent's state advances by exactly that one draw, so
    /// its future draws are a function of its new state alone.
    pub fn fork(&mut self) -> (child: Prng)
        ensures
            final(self).state == sm_next_state(old(self).state),
            child.state == sm_output(old(self).state),
    {
        let seed = self.next_u64();
        Prng { state: seed }
    }
}


/// The largest multiple of `span` that fits: draws at or above it are
/// rejected, so the accepted draw is uniform over a whole number of
/// spans.
pub open spec fn accept_zone(span: u64) -> u64 {
    (u64::MAX - (u64::MAX % span)) as u64
}

/// The accepted draw of a bounded rejection sequence: the state after
/// it, and the raw value taken — the first draw under the acceptance
/// zone, or the draw at exhausted fuel.
pub open spec fn rejection_draw(s: u64, span: u64, fuel: nat) -> (u64, u64)
    decreases fuel,
{
    let s2 = sm_next_state(s);
    let r = sm_mix(s2);
    if fuel == 0 || r < accept_zone(span) {
        (s2, r)
    } else {
        rejection_draw(s2, span, (fuel - 1) as nat)
    }
}

impl Prng {
    /// One step of bounded rejection sampling.
    fn draw_accepted(&mut self, span: u64, fuel: u64) -> (raw: u64)
        requires
            span > 0,
        ensures
            final(self).state == rejection_draw(old(self).state, span, fuel as nat).0,
            raw == rejection_draw(old(self).state, span, fuel as nat).1,
        decreases fuel,
    {
        let r = self.next_u64();
        let zone = u64::MAX - (u64::MAX % span);
        if fuel == 0 || r < zone {
            r
        } else {
            self.draw_accepted(span, fuel - 1)
        }
    }

    /// A value in `[lo, hi)` by rejection sampling (draws in the
    /// partial span at the top of the range are rejected and redrawn,
    /// so accepted draws are unbiased), with a bounded number of
    /// redraws.
    pub fn gen_range(&mut self, lo: u64, hi: u64) -> (r: u64)
        requires
            lo < hi,
        ensures
            lo <= r < hi,
            final(self).state == rejection_draw(old(self).state, (hi - lo) as u64, 64).0,
            r == lo + rejection_draw(old(self).state, (hi - lo) as u64, 64).1 as int % (hi
                - lo),
    {
        let span = hi - lo;
        let raw = self.draw_accepted(span, 64);
        lo + raw % span
    }
}

/// A draw directed at the parent (`true`) or at its child (`false`).
pub open spec fn count_parent_ops(ops: Seq<bool>) -> nat
    decreases ops.len(),
{
    if ops.len() == 0 {
        0
    } else {
        (if ops[0] { 1nat } else { 0nat }) + count_parent_ops(ops.skip(1))
    }
}

/// The values the parent hands out when an interleaved sequence of
/// parent draws and child draws is run against parent state `p` and
/// child state `c`.
pub open spec fn parent_draws(p: u64, c: u64, ops: Seq<bool>) -> Seq<u64>
    decreases ops.len(),
{
    if ops.len() == 0 {
        Seq::empty()
    } else if ops[0] {
        seq![sm_output(p)] + parent_draws(sm_next_state(p), c, ops.skip(1))
    } else {
        parent_draws(p, sm_next_state(c), ops.skip(1))
    }
}

/// Fork independence: however parent draws and child draws are
/// interleaved, the parent hands out exactly the stream determined by
/// its own state — the child's use never perturbs it.
pub proof fn lemma_child_use_leaves_parent_stream(p: u64, c: u64, ops: Seq<bool>)
    ensures
        parent_draws(p, c, ops) == draw_seq(p, count_parent_ops(ops)),
    decreases ops.len(),
{
    if ops.len() == 0 {
    } else if ops[0] {
        lemma_child_use_leaves_parent_stream(sm_next_state(p), c, ops.skip(1));
        assert(parent_draws(p, c, ops) == draw_seq(p, count_parent_ops(ops)));
    } else {
        lemma_child_use_leaves_parent_stream(p, sm_next_state(c), ops.skip(1));
    }
}

} // verus!
