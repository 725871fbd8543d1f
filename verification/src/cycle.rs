//! How the generator's state walks through `0..2^64`.
//!
//! Any number of draws applies an affine map to the state. The maps of
//! `2^k` draws are found by squaring, and that of `2^63` draws turns out
//! to add `2^63`: it flips the state's top bit and nothing else.

use vstd::prelude::*;
use vstd::arithmetic::div_mod::{
    lemma_add_mod_noop,
    lemma_fundamental_div_mod,
    lemma_mod_mod,
    lemma_mod_multiples_vanish,
    lemma_mul_mod_noop_left,
    lemma_mul_mod_noop_right,
    lemma_small_mod,
};
use vstd::arithmetic::power2::{lemma2_to64, lemma2_to64_rest, lemma_pow2_adds, lemma_pow2_pos, lemma_pow2_unfold, pow2};
use crate::pcg::{advance, nth_state, INCREMENTOR};

verus! {

/// 2^64, the number of states.
pub open spec fn state_count() -> int {
    0x1_0000_0000_0000_0000
}

/// The state that the map `s -> a * s + b` modulo 2^64 sends `s` to.
pub open spec fn affine(a: int, b: int, s: int) -> int {
    (a * s + b) % state_count()
}

/// The multiplier of the map that `2^k` draws apply to the state.
pub open spec fn jump_multiplier(k: nat) -> int
    decreases k,
{
    if k == 0 {
        INCREMENTOR as int
    } else {
        (jump_multiplier((k - 1) as nat) * jump_multiplier((k - 1) as nat)) % state_count()
    }
}

/// The constant of the map that `2^k` draws apply, as a multiple of the increment.
pub open spec fn jump_scale(k: nat) -> int
    decreases k,
{
    if k == 0 {
        1
    } else {
        (jump_scale((k - 1) as nat) * (jump_multiplier((k - 1) as nat) + 1)) % state_count()
    }
}

/// Applying `s -> a * s + c * t` twice is applying `s -> a^2 * s + c * t * (a + 1)`.
pub proof fn lemma_affine_twice(a: int, c: int, t: int, s: int)
    ensures
        affine(a, c * t, affine(a, c * t, s)) == affine(
            (a * a) % state_count(),
            c * ((t * (a + 1)) % state_count()),
            s,
        ),
{
    let w = state_count();
    let x = a * s + c * t;
    // the left side is (a * x + c * t) % w
    lemma_mul_mod_noop_right(a, x, w);
    lemma_add_mod_noop(a * (x % w), c * t, w);
    lemma_add_mod_noop(a * x, c * t, w);
    assert(affine(a, c * t, affine(a, c * t, s)) == (a * x + c * t) % w);
    // the right side is (a * a * s + c * (t * (a + 1))) % w
    let y = t * (a + 1);
    lemma_mul_mod_noop_left(a * a, s, w);
    lemma_mul_mod_noop_right(c, y, w);
    lemma_add_mod_noop(((a * a) % w) * s, c * (y % w), w);
    lemma_add_mod_noop((a * a) * s, c * y, w);
    assert(affine((a * a) % w, c * (y % w), s) == ((a * a) * s + c * y) % w);
    assert(a * x + c * t == (a * a) * s + c * y) by (nonlinear_arith)
        requires
            x == a * s + c * t,
            y == t * (a + 1),
    ;
}

/// `m + n` draws are `m` draws and then `n` draws.
pub proof fn lemma_nth_state_adds(state: u64, inc: u64, m: nat, n: nat)
    ensures
        nth_state(state, inc, m + n) == nth_state(nth_state(state, inc, m), inc, n),
    decreases m,
{
    if m > 0 {
        lemma_nth_state_adds(advance(state, inc), inc, (m - 1) as nat, n);
    }
}

/// `2^k` draws apply the map with the `k`-th multiplier and scale.
pub proof fn lemma_jump(state: u64, inc: u64, k: nat)
    ensures
        nth_state(state, inc, pow2(k)) == affine(
            jump_multiplier(k),
            inc * jump_scale(k),
            state as int,
        ),
    decreases k,
{
    if k == 0 {
        lemma2_to64();
        assert(nth_state(state, inc, 1) == advance(state, inc)) by {
            assert(nth_state(advance(state, inc), inc, 0) == advance(state, inc));
        }
        assert(state * INCREMENTOR + inc == INCREMENTOR * state + inc * 1) by (nonlinear_arith);
    } else {
        let half = pow2((k - 1) as nat);
        lemma_pow2_unfold(k);
        let middle = nth_state(state, inc, half);
        lemma_nth_state_adds(state, inc, half, half);
        lemma_jump(state, inc, (k - 1) as nat);
        lemma_jump(middle, inc, (k - 1) as nat);
        lemma_affine_twice(
            jump_multiplier((k - 1) as nat),
            inc as int,
            jump_scale((k - 1) as nat),
            state as int,
        );
    }
}

/// One more than a multiple of the even number `p`, squared, is one more
/// than a multiple of `2 * p`; and stays so modulo a multiple of `2 * p`.
proof fn lemma_square_step(a: int, p: int, b: int)
    requires
        p > 0,
        p % 2 == 0,
        a % p == 1,
        b > 0,
    ensures
        ((a * a) % (2 * p * b)) % (2 * p) == 1,
{
    let t = a / p;
    let h = p / 2;
    lemma_fundamental_div_mod(a, p);
    let q = t + h * t * t;
    assert(a * a == (2 * p) * q + 1) by (nonlinear_arith)
        requires
            a == p * t + 1,
            p == 2 * h,
            q == t + h * t * t,
    ;
    lemma_mod_multiples_vanish(q, 1, 2 * p);
    lemma_small_mod(1, (2 * p) as nat);
    lemma_mod_mod(a * a, 2 * p, b);
}

/// An odd multiple of `h` times an even number that is 2 modulo `4 * h` is
/// an odd multiple of `2 * h`; and stays so modulo a multiple of `4 * h`.
proof fn lemma_scale_step(sc: int, a: int, h: int, b: int)
    requires
        h > 0,
        sc % (2 * h) == h,
        a % (4 * h) == 1,
        b > 0,
    ensures
        ((sc * (a + 1)) % (4 * h * b)) % (4 * h) == 2 * h,
{
    let u = sc / (2 * h);
    let t = a / (4 * h);
    lemma_fundamental_div_mod(sc, 2 * h);
    lemma_fundamental_div_mod(a, 4 * h);
    let q = u + h * t + 2 * h * u * t;
    assert(sc * (a + 1) == (4 * h) * q + 2 * h) by (nonlinear_arith)
        requires
            sc == (2 * h) * u + h,
            a == (4 * h) * t + 1,
            q == u + h * t + 2 * h * u * t,
    ;
    lemma_mod_multiples_vanish(q, 2 * h, 4 * h);
    lemma_small_mod((2 * h) as nat, (4 * h) as nat);
    lemma_mod_mod(sc * (a + 1), 4 * h, b);
}

/// The `k`-th multiplier is 1 modulo `2^(k+2)`, and the `k`-th scale is an
/// odd multiple of `2^k`.
pub proof fn lemma_jump_coefficients(k: nat)
    requires
        k <= 62,
    ensures
        jump_multiplier(k) % (pow2(k + 2) as int) == 1,
        jump_scale(k) % (pow2(k + 1) as int) == pow2(k),
    decreases k,
{
    lemma2_to64();
    if k > 0 {
        let j = (k - 1) as nat;
        lemma_jump_coefficients(j);
        let p = pow2(j + 2) as int;
        let h = pow2(j) as int;
        let b = pow2((62 - k) as nat) as int;
        lemma_pow2_pos(j);
        lemma_pow2_pos((62 - k) as nat);
        lemma_pow2_unfold(j + 1);
        lemma_pow2_unfold(j + 2);
        lemma_pow2_unfold(k + 2);
        lemma_pow2_adds(k + 2, (62 - k) as nat);
        assert(p == 4 * h);
        assert(pow2(k + 2) == 2 * p);
        assert(pow2(k + 1) == 4 * h);
        assert(state_count() == 2 * p * b);
        lemma_square_step(jump_multiplier(j), p, b);
        assert(jump_multiplier(k) == (jump_multiplier(j) * jump_multiplier(j)) % state_count());
        assert(jump_multiplier(k) % (2 * p) == 1);
        lemma_pow2_adds(k + 1, (63 - k) as nat);
        lemma_pow2_pos((63 - k) as nat);
        assert(state_count() == 4 * h * pow2((63 - k) as nat));
        lemma_scale_step(jump_scale(j), jump_multiplier(j), h, pow2((63 - k) as nat) as int);
        assert(jump_scale(k) % (4 * h) == 2 * h);
    } else {
        assert(jump_multiplier(0) % 4 == 1);
        assert(jump_scale(0) % 2 == 1);
    }
}

/// `2^63` draws add `2^63` to the state: they flip its top bit and change
/// nothing else. This is where the odd increment is needed.
pub proof fn lemma_half_cycle(state: u64, inc: u64)
    requires
        inc % 2 == 1,
    ensures
        nth_state(state, inc, 0x8000_0000_0000_0000) == (state + 0x8000_0000_0000_0000)
            % state_count(),
{
    lemma2_to64();
    lemma2_to64_rest();
    lemma_jump_coefficients(62);
    let w = state_count();
    let a = jump_multiplier(62);
    let sc = jump_scale(62);
    assert(0 <= a < w && 0 <= sc < w);
    lemma_small_mod(a as nat, w as nat);
    assert(a == 1);
    assert(jump_multiplier(63) == (a * a) % w);
    assert(jump_multiplier(63) == 1);
    let half = 0x8000_0000_0000_0000int;
    let u = sc / half;
    lemma_fundamental_div_mod(sc, half);
    assert(sc * (a + 1) == w * u + half);
    lemma_mod_multiples_vanish(u, half, w);
    assert(jump_scale(63) == (sc * (a + 1)) % w);
    assert(jump_scale(63) == half);
    lemma_jump(state, inc, 63);
    let j = inc as int / 2;
    assert(inc * half == w * j + half) by (nonlinear_arith)
        requires
            inc == 2 * j + 1,
            w == 2 * half,
    ;
    lemma_mod_multiples_vanish(j, state + half, w);
    assert(1 * (state as int) + inc * half == w * j + (state + half));
}

} // verus!
