//! Rule-count calibration. Before sampling rules, the generator estimates
//! how likely a single random rule is to match an arbitrary neighborhood and
//! doubles the candidate rule count until, under an independence assumption,
//! at least one of the rules matches with probability at least 0.999. The
//! probabilities are carried in fixed-point arithmetic: a probability `p` is
//! the integer `p * PROB_ONE`, rounded down at every step.

use vstd::prelude::*;

use vstd::arithmetic::div_mod::{lemma_div_is_ordered, lemma_small_mod};
use vstd::arithmetic::mul::lemma_mul_inequality;

verus! {

/// Fixed-point representation of probability 1.
pub const PROB_ONE: u64 = 0x1_0000_0000;

/// Fixed-point representation of probability 0.001: a rule set is calibrated
/// once the probability that every rule fails drops to this.
pub const FAIL_EPSILON: u64 = 0x1_0000_0000 / 1000;

/// Hard ceiling on the calibrated rule count; the doubling search stops here
/// even when the match probability has not reached its target.
pub const RULE_COUNT_CAP: u64 = 0x4000_0000;

/// Whether `n` is a power of two.
pub open spec fn is_power_of_two(n: nat) -> bool
    decreases n,
{
    if n == 0 {
        false
    } else if n == 1 {
        true
    } else {
        n % 2 == 0 && is_power_of_two(n / 2)
    }
}

/// The fixed-point product of two probabilities, rounded down.
pub open spec fn mul_down(x: u64, y: u64) -> u64 {
    ((x as int * y as int) / (PROB_ONE as int)) as u64
}

/// The fixed-point `n`-th power of a probability, rounded down at each step.
pub open spec fn pow_down(x: u64, n: nat) -> u64
    decreases n,
{
    if n == 0 {
        PROB_ONE
    } else {
        mul_down(pow_down(x, (n - 1) as nat), x)
    }
}

/// The probability that one cell does not hold one fixed symbol:
/// `1 - 1/symbol_count`, in fixed point.
pub open spec fn cell_miss_prob(symbol_count: u32) -> u64 {
    ((PROB_ONE as int * (symbol_count - 1)) / (symbol_count as int)) as u64
}

/// The probability that a single random rule matches a neighborhood: each of
/// its (on average `avg_symbols_per_rule`) needed symbols must appear in at
/// least one of the 9 cells.
pub open spec fn rule_match_prob(symbol_count: u32, avg_symbols_per_rule: u32) -> u64 {
    let absent9 = pow_down(cell_miss_prob(symbol_count), 9);
    pow_down((PROB_ONE - absent9) as u64, avg_symbols_per_rule as nat)
}

/// The probability that a single random rule does not match a neighborhood.
pub open spec fn rule_fail_prob(symbol_count: u32, avg_symbols_per_rule: u32) -> u64 {
    (PROB_ONE - rule_match_prob(symbol_count, avg_symbols_per_rule)) as u64
}

/// The doubling search: `cur` is the probability that all `r` rules fail;
/// while it exceeds `FAIL_EPSILON` (and the cap is not reached), double the
/// rule count and square the failure probability.
pub open spec fn calib_loop(cur: u64, r: u64) -> u64
    decreases 2 * RULE_COUNT_CAP - r,
{
    if r < 2 || r >= RULE_COUNT_CAP || cur <= FAIL_EPSILON {
        r
    } else {
        calib_loop(mul_down(cur, cur), (2 * r) as u64)
    }
}

/// The calibrated rule count: the first power of two `r >= 2` for which the
/// probability that all `r` independently sampled rules miss a neighborhood
/// is at most `FAIL_EPSILON`, capped at `RULE_COUNT_CAP`.
pub open spec fn calibrated_rule_count(symbol_count: u32, avg_symbols_per_rule: u32) -> u64 {
    let b = rule_fail_prob(symbol_count, avg_symbols_per_rule);
    calib_loop(mul_down(b, b), 2)
}

/// A fixed-point product of probabilities stays below both factors and
/// below 1.
pub proof fn lemma_mul_down_bounds(x: u64, y: u64)
    requires
        x <= PROB_ONE,
        y <= PROB_ONE,
    ensures
        0 <= (x as int * y as int) / (PROB_ONE as int) <= x,
        (x as int * y as int) / (PROB_ONE as int) <= y,
        mul_down(x, y) <= x,
        mul_down(x, y) <= y,
        mul_down(x, y) == (x as int * y as int) / (PROB_ONE as int),
{
    let s = PROB_ONE as int;
    lemma_mul_inequality(y as int, s, x as int);
    assert(x as int * s / s == x as int) by (nonlinear_arith)
        requires
            s == 0x1_0000_0000,
    ;
    lemma_div_is_ordered(x as int * y as int, x as int * s, s);
    assert(y as int * s / s == y as int) by (nonlinear_arith)
        requires
            s == 0x1_0000_0000,
    ;
    lemma_mul_inequality(x as int, s, y as int);
    assert(x as int * y as int == y as int * x as int) by (nonlinear_arith);
    lemma_div_is_ordered(y as int * x as int, y as int * s, s);
    assert(x as int * y as int >= 0) by (nonlinear_arith)
        requires
            x >= 0,
            y >= 0,
    ;
    vstd::arithmetic::div_mod::lemma_div_pos_is_pos(x as int * y as int, s);
}

/// Fixed-point products respect ordering of their factors.
pub proof fn lemma_mul_down_mono(x1: u64, x2: u64, y1: u64, y2: u64)
    requires
        x1 <= x2 <= PROB_ONE,
        y1 <= y2 <= PROB_ONE,
    ensures
        mul_down(x1, y1) <= mul_down(x2, y2),
{
    lemma_mul_down_bounds(x1, y1);
    lemma_mul_down_bounds(x2, y2);
    assert(x1 as int * y1 as int <= x2 as int * y2 as int) by (nonlinear_arith)
        requires
            0 <= x1 <= x2,
            0 <= y1 <= y2,
    ;
    lemma_div_is_ordered(x1 as int * y1 as int, x2 as int * y2 as int, PROB_ONE as int);
}

/// Fixed-point powers of a probability stay at or below 1.
pub proof fn lemma_pow_down_le_one(x: u64, n: nat)
    requires
        x <= PROB_ONE,
    ensures
        pow_down(x, n) <= PROB_ONE,
    decreases n,
{
    if n > 0 {
        lemma_pow_down_le_one(x, (n - 1) as nat);
        lemma_mul_down_bounds(pow_down(x, (n - 1) as nat), x);
    }
}

/// Powers of probability 1 stay exactly 1.
pub proof fn lemma_pow_down_one(n: nat)
    ensures
        pow_down(PROB_ONE, n) == PROB_ONE,
    decreases n,
{
    if n > 0 {
        lemma_pow_down_one((n - 1) as nat);
        assert((PROB_ONE as int * PROB_ONE as int) / (PROB_ONE as int) == PROB_ONE as int)
            by (nonlinear_arith);
    }
}

/// Raising a probability to a larger power cannot increase it.
pub proof fn lemma_pow_down_antitone(x: u64, n1: nat, n2: nat)
    requires
        x <= PROB_ONE,
        n1 <= n2,
    ensures
        pow_down(x, n2) <= pow_down(x, n1),
    decreases n2,
{
    if n1 < n2 {
        lemma_pow_down_antitone(x, n1, (n2 - 1) as nat);
        lemma_pow_down_le_one(x, (n2 - 1) as nat);
        lemma_mul_down_bounds(pow_down(x, (n2 - 1) as nat), x);
    }
}

/// The doubling search never returns fewer rules than it started with.
pub proof fn lemma_calib_loop_ge(cur: u64, r: u64)
    ensures
        calib_loop(cur, r) >= r,
    decreases 2 * RULE_COUNT_CAP - r,
{
    if !(r < 2 || r >= RULE_COUNT_CAP || cur <= FAIL_EPSILON) {
        lemma_calib_loop_ge(mul_down(cur, cur), (2 * r) as u64);
    }
}

/// A power of two strictly below another power of two is at most its half.
proof fn lemma_pow2_double_le(a: nat, b: nat)
    requires
        is_power_of_two(a),
        is_power_of_two(b),
        a < b,
    ensures
        2 * a <= b,
    decreases a,
{
    if a > 1 {
        lemma_pow2_double_le(a / 2, b / 2);
    }
}

/// A power of two strictly below the cap doubles to at most the cap.
proof fn lemma_pow2_below_cap(r: nat)
    requires
        is_power_of_two(r),
        r < RULE_COUNT_CAP,
    ensures
        2 * r <= RULE_COUNT_CAP,
{
    assert(is_power_of_two(RULE_COUNT_CAP as nat)) by {
        reveal_with_fuel(is_power_of_two, 33);
    }
    lemma_pow2_double_le(r, RULE_COUNT_CAP as nat);
}

/// A larger per-generation failure probability can only lengthen the
/// doubling search.
pub proof fn lemma_calib_loop_mono(cur1: u64, cur2: u64, r: u64)
    requires
        cur1 <= cur2 <= PROB_ONE,
    ensures
        calib_loop(cur1, r) <= calib_loop(cur2, r),
    decreases 2 * RULE_COUNT_CAP - r,
{
    if r < 2 || r >= RULE_COUNT_CAP || cur2 <= FAIL_EPSILON {
        // both sides return r
    } else if cur1 <= FAIL_EPSILON {
        lemma_calib_loop_ge(cur2, r);
    } else {
        lemma_mul_down_mono(cur1, cur2, cur1, cur2);
        lemma_mul_down_bounds(cur1, cur1);
        lemma_mul_down_bounds(cur2, cur2);
        lemma_calib_loop_mono(mul_down(cur1, cur1), mul_down(cur2, cur2), (2 * r) as u64);
    }
}

/// Generator calibration monotonicity: raising the expected number of
/// symbols per rule, with the symbol count held fixed, never lowers the
/// calibrated rule count.
pub proof fn lemma_calibration_monotone(symbol_count: u32, avg1: u32, avg2: u32)
    requires
        2 <= symbol_count,
        avg1 <= avg2,
    ensures
        calibrated_rule_count(symbol_count, avg1) <= calibrated_rule_count(symbol_count, avg2),
{
    let s = symbol_count as int;
    let miss = cell_miss_prob(symbol_count);
    assert(0 <= (PROB_ONE as int * (s - 1)) / s <= PROB_ONE as int) by (nonlinear_arith)
        requires
            2 <= s,
            PROB_ONE == 0x1_0000_0000,
    ;
    lemma_pow_down_le_one(miss, 9);
    let absent9 = pow_down(miss, 9);
    let present = (PROB_ONE - absent9) as u64;
    lemma_pow_down_antitone(present, avg1 as nat, avg2 as nat);
    lemma_pow_down_le_one(present, avg1 as nat);
    lemma_pow_down_le_one(present, avg2 as nat);
    let b1 = rule_fail_prob(symbol_count, avg1);
    let b2 = rule_fail_prob(symbol_count, avg2);
    lemma_mul_down_mono(b1, b2, b1, b2);
    lemma_mul_down_bounds(b1, b1);
    lemma_mul_down_bounds(b2, b2);
    lemma_calib_loop_mono(mul_down(b1, b1), mul_down(b2, b2), 2);
}

/// Fixed-point product of two probabilities, rounded down.
pub fn mul_down_exec(x: u64, y: u64) -> (r: u64)
    requires
        x <= PROB_ONE,
        y <= PROB_ONE,
        x < PROB_ONE || y < PROB_ONE,
    ensures
        r == mul_down(x, y),
        r <= x,
        r <= y,
{
    proof {
        assert(x as int * y as int <= 0xFFFF_FFFF_0000_0000) by (nonlinear_arith)
            requires
                0 <= x <= 0x1_0000_0000,
                0 <= y <= 0x1_0000_0000,
                x < 0x1_0000_0000 || y < 0x1_0000_0000,
        ;
        lemma_mul_down_bounds(x, y);
    }
    (x * y) / PROB_ONE
}

/// Fixed-point `n`-th power of a probability, rounded down at each step.
pub fn pow_down_exec(x: u64, n: u32) -> (r: u64)
    requires
        x <= PROB_ONE,
    ensures
        r == pow_down(x, n as nat),
        r <= PROB_ONE,
{
    if x == PROB_ONE {
        proof {
            lemma_pow_down_one(n as nat);
        }
        return PROB_ONE;
    }
    let mut acc: u64 = PROB_ONE;
    let mut i: u32 = 0;
    while i < n
        invariant
            i <= n,
            x < PROB_ONE,
            acc == pow_down(x, i as nat),
            acc <= PROB_ONE,
        decreases n - i,
    {
        acc = mul_down_exec(acc, x);
        i = i + 1;
    }
    acc
}

/// Calibrates the rule count for a run: doubles the candidate count until
/// the probability that every candidate rule misses a given neighborhood
/// falls to `FAIL_EPSILON`, or the cap is reached.
pub fn calibrate_rule_count(symbol_count: u32, avg_symbols_per_rule: u32) -> (r: u64)
    requires
        2 <= symbol_count,
    ensures
        r == calibrated_rule_count(symbol_count, avg_symbols_per_rule),
        2 <= r <= RULE_COUNT_CAP,
        is_power_of_two(r as nat),
{
    let s64 = symbol_count as u64;
    proof {
        assert(PROB_ONE as int * (s64 - 1) <= 0xFFFF_FFFF_0000_0000 && 0 <= (PROB_ONE as int * (
        s64 - 1)) / (s64 as int) <= PROB_ONE as int) by (nonlinear_arith)
            requires
                2 <= s64 <= 0xFFFF_FFFF,
                PROB_ONE == 0x1_0000_0000,
        ;
    }
    let miss: u64 = (PROB_ONE * (s64 - 1)) / s64;
    let absent9 = pow_down_exec(miss, 9);
    let present: u64 = PROB_ONE - absent9;
    let p_match = pow_down_exec(present, avg_symbols_per_rule);
    let fail1: u64 = PROB_ONE - p_match;
    let ghost target = calibrated_rule_count(symbol_count, avg_symbols_per_rule);
    assert(fail1 == rule_fail_prob(symbol_count, avg_symbols_per_rule));
    let mut cur: u64;
    if fail1 == PROB_ONE {
        proof {
            assert((PROB_ONE as int * PROB_ONE as int) / (PROB_ONE as int) == PROB_ONE as int)
                by (nonlinear_arith);
        }
        cur = PROB_ONE;
    } else {
        cur = mul_down_exec(fail1, fail1);
    }
    let mut r: u64 = 2;
    proof {
        assert(is_power_of_two(2nat)) by {
            reveal_with_fuel(is_power_of_two, 3);
        }
    }
    while cur > FAIL_EPSILON && r < RULE_COUNT_CAP
        invariant
            2 <= r <= RULE_COUNT_CAP,
            is_power_of_two(r as nat),
            cur <= PROB_ONE,
            calib_loop(cur, r) == target,
        decreases RULE_COUNT_CAP - r,
    {
        proof {
            lemma_pow2_below_cap(r as nat);
            assert(is_power_of_two((2 * r) as nat)) by {
                assert((2 * r) as nat % 2 == 0);
                assert((2 * r) as nat / 2 == r as nat);
            }
            assert(calib_loop(cur, r) == calib_loop(mul_down(cur, cur), (2 * r) as u64));
        }
        r = r * 2;
        if cur == PROB_ONE {
            proof {
                assert((PROB_ONE as int * PROB_ONE as int) / (PROB_ONE as int) == PROB_ONE as int)
                    by (nonlinear_arith);
            }
        } else {
            cur = mul_down_exec(cur, cur);
        }
    }
    proof {
        assert(calib_loop(cur, r) == r);
        lemma_small_mod(0, 1);
    }
    r
}

} // verus!
