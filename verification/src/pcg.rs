//! A permuted congruential generator and uniform draws from `[0, 16!)`.
//!
//! The state moves by the affine map `s -> s * INCREMENTOR + inc` modulo 2^64.
//! A draw is a function of the state before the move.

use vstd::prelude::*;
use vstd::arithmetic::div_mod::{lemma_add_mod_noop, lemma_small_mod};
use vstd::wrapping::u64_specs::{wrapping_add, wrapping_mul};

verus! {

/// The state a new generator starts with.
pub const INIT_STATE: u64 = 0x853c_49e6_748f_ea9b;

/// The increment of a new generator.
pub const INIT_INC: u64 = 0xda3e_39cb_94b9_5bdb;

/// The multiplier of the state's affine map.
pub const INCREMENTOR: u64 = 6_364_136_223_846_793_005;

/// 16!
pub const SIXTEEN_FACTORIAL: u64 = 20_922_789_888_000;

/// The largest `k` with `k * 16! <= 2^64`.
pub const LARGEST_MULTIPLE: u64 = 881657;

/// The state that follows `state`.
pub open spec fn advance(state: u64, inc: u64) -> u64 {
    ((state * INCREMENTOR + inc) % 0x1_0000_0000_0000_0000) as u64
}

/// The number drawn when the generator is in `state`.
pub open spec fn output(state: u64) -> u64 {
    let xor_shifted = (state >> 18) ^ (state >> 27);
    let rot = state >> 59;
    (xor_shifted >> rot) | (xor_shifted << ((32 - rot) as u64 & 31))
}

/// The state after `n` draws.
pub open spec fn nth_state(state: u64, inc: u64, n: nat) -> u64
    decreases n,
{
    if n == 0 {
        state
    } else {
        nth_state(advance(state, inc), inc, (n - 1) as nat)
    }
}

/// The draws below this bound are accepted: the largest multiple of 16! that
/// fits in 64 bits.
pub open spec fn accept_bound() -> int {
    LARGEST_MULTIPLE * SIXTEEN_FACTORIAL
}

/// The draw made in `state` is thrown away.
pub open spec fn rejected(state: u64) -> bool {
    output(state) >= accept_bound()
}

/// How far ahead a first accepted draw is looked for: `2^63` draws.
pub open spec fn horizon() -> nat {
    0x8000_0000_0000_0000
}

/// The number of draws that are thrown away before one is accepted, looking
/// no further than `limit` draws ahead.
pub open spec fn rejections(state: u64, inc: u64, limit: nat) -> nat
    decreases limit,
{
    if limit == 0 || !rejected(state) {
        0
    } else {
        1 + rejections(advance(state, inc), inc, (limit - 1) as nat)
    }
}

/// The uniform number that a generator in `state` draws next.
pub open spec fn uniform_draw(state: u64, inc: u64) -> u64 {
    output(nth_state(state, inc, rejections(state, inc, horizon()))) % SIXTEEN_FACTORIAL
}

/// The state in which a uniform draw leaves the generator.
pub open spec fn state_after_uniform_draw(state: u64, inc: u64) -> u64 {
    nth_state(state, inc, rejections(state, inc, horizon()) + 1)
}

/// A draw is thrown away only where the state's top five bits are in `1..=14`.
proof fn lemma_rejected_rotation(state: u64)
    by (bit_vector)
    ensures
        output(state) >= 0xffff_ede4_79c9_8000u64 ==> 1 <= (state >> 59) <= 14,
{
}

/// Flipping the top bit of a state takes its top five bits out of `1..=14`.
proof fn lemma_flipped_rotation(state: u64, flipped: u64)
    by (bit_vector)
    requires
        flipped == (state + 0x8000_0000_0000_0000) % 0x1_0000_0000_0000_0000,
        1 <= (state >> 59) <= 14,
    ensures
        (flipped >> 59) >= 17,
{
}

/// Of the draws made in a state and `2^63` draws later, one is accepted.
pub proof fn lemma_accepted_within_horizon(state: u64, inc: u64)
    requires
        inc % 2 == 1,
    ensures
        !rejected(state) || !rejected(nth_state(state, inc, horizon())),
{
    assert(accept_bound() == 0xffff_ede4_79c9_8000) by (nonlinear_arith);
    if rejected(state) {
        let flipped = nth_state(state, inc, horizon());
        crate::cycle::lemma_half_cycle(state, inc);
        lemma_rejected_rotation(state);
        lemma_flipped_rotation(state, flipped);
        lemma_rejected_rotation(flipped);
    }
}

/// Once a draw within the limit is accepted, a larger limit counts the same
/// rejections.
pub proof fn lemma_rejections_settle(state: u64, inc: u64, n: nat, limit: nat)
    requires
        n <= limit,
        !rejected(nth_state(state, inc, n)),
    ensures
        rejections(state, inc, limit) == rejections(state, inc, n),
        rejections(state, inc, n) <= n,
    decreases n,
{
    if n > 0 && rejected(state) {
        lemma_rejections_settle(advance(state, inc), inc, (n - 1) as nat, (limit - 1) as nat);
    }
}

/// The draw counted by `rejections` is the first accepted one: every draw
/// before it is thrown away, and it is not.
pub proof fn lemma_first_accepted(state: u64, inc: u64, n: nat)
    requires
        !rejected(nth_state(state, inc, n)),
    ensures
        !rejected(nth_state(state, inc, rejections(state, inc, n))),
        forall|j: nat| j < rejections(state, inc, n) ==> rejected(#[trigger] nth_state(state, inc, j)),
    decreases n,
{
    if n > 0 && rejected(state) {
        let next = advance(state, inc);
        lemma_first_accepted(next, inc, (n - 1) as nat);
        assert forall|j: nat| j < rejections(state, inc, n) implies rejected(
            #[trigger] nth_state(state, inc, j),
        ) by {
            if j > 0 {
                assert(nth_state(state, inc, j) == nth_state(next, inc, (j - 1) as nat));
            }
        }
    }
}

/// After a rejected draw, one rejection fewer lies ahead.
pub proof fn lemma_rejections_step(state: u64, inc: u64)
    requires
        inc % 2 == 1,
        rejected(state),
    ensures
        rejections(state, inc, horizon()) == 1 + rejections(advance(state, inc), inc, horizon()),
{
    lemma_accepted_within_horizon(state, inc);
    let next = advance(state, inc);
    assert(nth_state(state, inc, horizon()) == nth_state(next, inc, (horizon() - 1) as nat));
    lemma_rejections_settle(next, inc, (horizon() - 1) as nat, horizon());
    lemma_rejections_settle(next, inc, (horizon() - 1) as nat, (horizon() - 1) as nat);
}

/// A uniform draw stops at the first accepted draw: every draw before it is
/// thrown away, it is not, and at most `2^63` draws are thrown away. So the
/// search for it always ends.
pub proof fn lemma_uniform_draw_is_first_accepted(state: u64, inc: u64)
    requires
        inc % 2 == 1,
    ensures
        rejections(state, inc, horizon()) <= horizon(),
        !rejected(nth_state(state, inc, rejections(state, inc, horizon()))),
        forall|j: nat|
            j < rejections(state, inc, horizon()) ==> rejected(#[trigger] nth_state(state, inc, j)),
{
    lemma_accepted_within_horizon(state, inc);
    if rejected(state) {
        lemma_first_accepted(state, inc, horizon());
        let next = advance(state, inc);
        assert(nth_state(state, inc, horizon()) == nth_state(next, inc, (horizon() - 1) as nat));
        lemma_rejections_settle(next, inc, (horizon() - 1) as nat, (horizon() - 1) as nat);
    } else {
        assert(nth_state(state, inc, 0) == state);
    }
}

/// Rejection leaves no residue favoured: the accepted draws are the numbers
/// `r + k * 16!` with `r` in `[0, 16!)` and `k` in `[0, LARGEST_MULTIPLE)`, each
/// once, and such a draw is reduced to `r`. Every `r` thus comes from exactly
/// `LARGEST_MULTIPLE` accepted draws.
pub proof fn lemma_residues_are_even(r: int, k: int)
    requires
        0 <= r < SIXTEEN_FACTORIAL,
        0 <= k < LARGEST_MULTIPLE,
    ensures
        0 <= r + k * SIXTEEN_FACTORIAL < accept_bound(),
        (r + k * SIXTEEN_FACTORIAL) % (SIXTEEN_FACTORIAL as int) == r,
        (r + k * SIXTEEN_FACTORIAL) / (SIXTEEN_FACTORIAL as int) == k,
{
    let f = SIXTEEN_FACTORIAL as int;
    assert(r + k * f < LARGEST_MULTIPLE * f) by (nonlinear_arith)
        requires
            0 <= r < f,
            0 <= k < LARGEST_MULTIPLE,
    ;
    assert(0 <= k * f) by (nonlinear_arith)
        requires
            0 <= k,
            0 < f,
    ;
    vstd::arithmetic::div_mod::lemma_fundamental_div_mod_converse(r + k * f, f, k, r);
}

/// Every accepted draw is one of the numbers `r + k * 16!` above, and the
/// bound is the largest multiple of 16! that a 64-bit draw can stay below.
pub proof fn lemma_accepted_draw_splits(draw: u64)
    requires
        draw < accept_bound(),
    ensures
        0 <= draw / SIXTEEN_FACTORIAL < LARGEST_MULTIPLE,
        0 <= draw % SIXTEEN_FACTORIAL < SIXTEEN_FACTORIAL,
        draw == draw % SIXTEEN_FACTORIAL + (draw / SIXTEEN_FACTORIAL) * SIXTEEN_FACTORIAL,
        accept_bound() <= 0x1_0000_0000_0000_0000 < accept_bound() + SIXTEEN_FACTORIAL,
{
    assert(accept_bound() == 0xffff_ede4_79c9_8000) by (nonlinear_arith);
}

/// The wrapping multiplication and addition compute the affine map modulo 2^64.
proof fn lemma_wrapping_advance(state: u64, inc: u64)
    ensures
        wrapping_add(wrapping_mul(state, INCREMENTOR), inc) == advance(state, inc),
{
    let w = 0x1_0000_0000_0000_0000int;
    let product = state as int * INCREMENTOR as int;
    assert(product >= 0) by (nonlinear_arith)
        requires
            product == state as int * INCREMENTOR as int,
            state >= 0,
    ;
    let low = product % w;
    assert(wrapping_mul(state, INCREMENTOR) == low);
    lemma_add_mod_noop(product, inc as int, w);
    lemma_small_mod(inc as nat, w as nat);
    assert((low + inc) % w == (product + inc) % w);
    if low + inc >= w {
        vstd::arithmetic::div_mod::lemma_mod_multiples_vanish(1, low + inc - w, w);
        lemma_small_mod((low + inc - w) as nat, w as nat);
    } else {
        lemma_small_mod((low + inc) as nat, w as nat);
    }
}

/// What a generator holds.
pub struct PcgView {
    pub state: u64,
    pub inc: u64,
}

/// The generator. It owns its state; nothing else feeds its draws.
pub struct Pcg {
    state: u64,
    inc: u64,
}

impl View for Pcg {
    type V = PcgView;

    closed spec fn view(&self) -> PcgView {
        PcgView { state: self.state, inc: self.inc }
    }
}

impl Pcg {
    /// The increment is odd, so the state runs through all of `0..2^64`.
    #[verifier::type_invariant]
    pub open spec fn wf(&self) -> bool {
        self@.inc % 2 == 1
    }

    /// What a new generator holds.
    pub open spec fn new_view() -> PcgView {
        PcgView { state: INIT_STATE, inc: INIT_INC }
    }

    /// A generator in the fixed initial state.
    pub fn new() -> (pcg: Pcg)
        ensures
            pcg@ == Pcg::new_view(),
    {
        Pcg { state: INIT_STATE, inc: INIT_INC }
    }

    /// Draws the next 64-bit number and advances the state.
    pub fn next_u64(&mut self) -> (draw: u64)
        ensures
            draw == output(old(self)@.state),
            final(self)@.state == advance(old(self)@.state, old(self)@.inc),
            final(self)@.inc == old(self)@.inc,
    {
        proof {
            use_type_invariant(&*self);
        }
        let old_state = self.state;
        proof {
            lemma_wrapping_advance(old_state, self.inc);
        }
        self.state = old_state.wrapping_mul(INCREMENTOR).wrapping_add(self.inc);
        let xor_shifted = (old_state >> 18) ^ (old_state >> 27);
        let rot = old_state >> 59;
        assert(rot < 32) by (bit_vector)
            requires
                rot == old_state >> 59,
        ;
        let back = (32 - rot) & 31;
        assert(back < 32) by (bit_vector)
            requires
                back == (32 - rot) as u64 & 31,
        ;
        (xor_shifted >> rot) | (xor_shifted << back)
    }

    /// Draws a uniform number from `[0, 16!)`.
    ///
    /// Draws are thrown away until one is below the largest multiple of 16!
    /// that fits in 64 bits; that one is reduced modulo 16!. Every draw moves
    /// the state, the rejected ones too.
    pub fn rand_16_fact(&mut self) -> (draw: u64)
        ensures
            draw == uniform_draw(old(self)@.state, old(self)@.inc),
            draw < SIXTEEN_FACTORIAL,
            final(self)@.state == state_after_uniform_draw(old(self)@.state, old(self)@.inc),
            final(self)@.inc == old(self)@.inc,
    {
        let ghost start = self@;
        let ghost mut thrown: nat = 0;
        proof {
            use_type_invariant(&*self);
        }
        loop
            invariant
                start == old(self)@,
                self@.inc == start.inc,
                start.inc % 2 == 1,
                self@.state == nth_state(start.state, start.inc, thrown),
                rejections(start.state, start.inc, horizon()) == thrown + rejections(
                    self@.state,
                    start.inc,
                    horizon(),
                ),
            decreases rejections(self@.state, start.inc, horizon()),
        {
            let ghost before = self@.state;
            let n = self.next_u64();
            assert(LARGEST_MULTIPLE * SIXTEEN_FACTORIAL == 0xffff_ede4_79c9_8000) by (nonlinear_arith);
            if n < LARGEST_MULTIPLE * SIXTEEN_FACTORIAL {
                proof {
                    crate::cycle::lemma_nth_state_adds(start.state, start.inc, thrown, 1);
                    assert(nth_state(before, start.inc, 1) == advance(before, start.inc)) by {
                        assert(nth_state(advance(before, start.inc), start.inc, 0) == advance(
                            before,
                            start.inc,
                        ));
                    }
                }
                return n % SIXTEEN_FACTORIAL;
            }
            proof {
                lemma_rejections_step(before, start.inc);
                crate::cycle::lemma_nth_state_adds(start.state, start.inc, thrown, 1);
                assert(nth_state(before, start.inc, 1) == advance(before, start.inc)) by {
                    assert(nth_state(advance(before, start.inc), start.inc, 0) == advance(
                        before,
                        start.inc,
                    ));
                }
                thrown = thrown + 1;
            }
        }
    }
}

} // verus!
