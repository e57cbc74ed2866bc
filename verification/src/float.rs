//! The numbers that floating-point bit patterns stand for.
//!
//! A number is held here in units of the smallest positive number of its format, so that every
//! number of the format is an integer.

use vstd::arithmetic::power2::{lemma_pow2_pos, lemma_pow2_unfold, pow2};
use vstd::prelude::*;

verus! {

/// The number that a pattern without a sign stands for: its fraction where its exponent is zero,
/// and otherwise its fraction behind a leading one, doubled for each further step of the
/// exponent. `fractions` is the number of fractions of the format. What is beyond all finite
/// numbers comes out as the next number would.
pub open spec fn unsigned_units(pattern: int, fractions: int) -> int {
    let exponent = pattern / fractions;
    let fraction = pattern % fractions;
    if exponent == 0 {
        fraction
    } else {
        (fractions + fraction) * pow2((exponent - 1) as nat)
    }
}

/// The number that a binary32 pattern stands for, in units of the smallest positive one.
pub open spec fn single_units(bits: u32) -> int {
    if bits >= 0x8000_0000 {
        -unsigned_units(bits - 0x8000_0000, 0x80_0000)
    } else {
        unsigned_units(bits as int, 0x80_0000)
    }
}

/// The number that a binary64 pattern stands for, in units of the smallest positive one.
pub open spec fn double_units(bits: u64) -> int {
    if bits >= 0x8000_0000_0000_0000 {
        -unsigned_units(bits - 0x8000_0000_0000_0000, 0x10_0000_0000_0000)
    } else {
        unsigned_units(bits as int, 0x10_0000_0000_0000)
    }
}

proof fn lemma_next_is_larger(pattern: int, fractions: int)
    requires
        0 <= pattern,
        1 < fractions,
    ensures
        unsigned_units(pattern, fractions) < unsigned_units(pattern + 1, fractions),
{
    let exponent = pattern / fractions;
    let fraction = pattern % fractions;
    let next_exponent = (pattern + 1) / fractions;
    let next_fraction = (pattern + 1) % fractions;
    assert(0 <= exponent && 0 <= fraction < fractions && pattern == fractions * exponent
        + fraction) by (nonlinear_arith)
        requires
            0 <= pattern,
            1 < fractions,
            exponent == pattern / fractions,
            fraction == pattern % fractions,
    ;
    if fraction + 1 < fractions {
        assert(next_exponent == exponent && next_fraction == fraction + 1) by (nonlinear_arith)
            requires
                pattern == fractions * exponent + fraction,
                0 <= fraction,
                fraction + 1 < fractions,
                next_exponent == (pattern + 1) / fractions,
                next_fraction == (pattern + 1) % fractions,
        ;
        if exponent > 0 {
            let scale = pow2((exponent - 1) as nat) as int;
            lemma_pow2_pos((exponent - 1) as nat);
            assert((fractions + fraction) * scale < (fractions + fraction + 1) * scale)
                by (nonlinear_arith)
                requires
                    scale > 0,
            ;
        }
    } else {
        assert(next_exponent == exponent + 1 && next_fraction == 0) by (nonlinear_arith)
            requires
                pattern == fractions * exponent + fraction,
                fraction + 1 == fractions,
                1 < fractions,
                next_exponent == (pattern + 1) / fractions,
                next_fraction == (pattern + 1) % fractions,
        ;
        let scale = pow2(exponent as nat) as int;
        if exponent == 0 {
            vstd::arithmetic::power2::lemma2_to64();
            assert((fractions + 0) * 1 == fractions);
        } else {
            let half = pow2((exponent - 1) as nat) as int;
            lemma_pow2_pos((exponent - 1) as nat);
            lemma_pow2_unfold(exponent as nat);
            assert((fractions + fraction) * half < (fractions + 0) * scale) by (nonlinear_arith)
                requires
                    scale == 2 * half,
                    half > 0,
                    fraction + 1 == fractions,
            ;
        }
    }
}

proof fn lemma_larger_pattern(small: int, large: int, fractions: int)
    requires
        0 <= small < large,
        1 < fractions,
    ensures
        unsigned_units(small, fractions) < unsigned_units(large, fractions),
    decreases large - small,
{
    lemma_next_is_larger(large - 1, fractions);
    if small < large - 1 {
        lemma_larger_pattern(small, large - 1, fractions);
    }
}

proof fn lemma_not_negative(pattern: int, fractions: int)
    requires
        0 <= pattern,
        1 < fractions,
    ensures
        unsigned_units(pattern, fractions) >= 0,
        unsigned_units(pattern, fractions) == 0 <==> pattern == 0,
{
    assert(0int / fractions == 0 && 0int % fractions == 0) by (nonlinear_arith)
        requires
            1 < fractions,
    ;
    assert(unsigned_units(0, fractions) == 0);
    if pattern > 0 {
        lemma_larger_pattern(0, pattern, fractions);
    }
}

/// How patterns without a sign compare as numbers: as they compare themselves.
proof fn lemma_patterns_order(left: int, right: int, fractions: int)
    requires
        0 <= left,
        0 <= right,
        1 < fractions,
    ensures
        left < right <==> unsigned_units(left, fractions) < unsigned_units(right, fractions),
        left == right <==> unsigned_units(left, fractions) == unsigned_units(right, fractions),
        unsigned_units(left, fractions) >= 0,
        unsigned_units(left, fractions) == 0 <==> left == 0,
        unsigned_units(right, fractions) >= 0,
        unsigned_units(right, fractions) == 0 <==> right == 0,
{
    lemma_not_negative(left, fractions);
    lemma_not_negative(right, fractions);
    if left < right {
        lemma_larger_pattern(left, right, fractions);
    } else if right < left {
        lemma_larger_pattern(right, left, fractions);
    }
}

/// Of two binary32 patterns without a sign the larger one is the larger number; of two with a
/// sign it is the smaller one; and one with a sign is no larger than one without, and as large
/// only where both are zeros.
pub proof fn law_single_patterns_order(left: u32, right: u32)
    ensures
        left < 0x8000_0000 && right < 0x8000_0000 ==> (left < right <==> single_units(left)
            < single_units(right)),
        left >= 0x8000_0000 && right >= 0x8000_0000 ==> (left > right <==> single_units(left)
            < single_units(right)),
        left >= 0x8000_0000 && right < 0x8000_0000 ==> (single_units(left) < single_units(right)
            <==> !(left == 0x8000_0000 && right == 0)) && single_units(left)
            <= single_units(right),
{
    let first = if left >= 0x8000_0000 {
        left - 0x8000_0000
    } else {
        left as int
    };
    let second = if right >= 0x8000_0000 {
        right - 0x8000_0000
    } else {
        right as int
    };
    lemma_patterns_order(first, second, 0x80_0000);
    lemma_patterns_order(second, first, 0x80_0000);
}

/// Of two binary64 patterns without a sign the larger one is the larger number; of two with a
/// sign it is the smaller one; and one with a sign is no larger than one without, and as large
/// only where both are zeros.
pub proof fn law_double_patterns_order(left: u64, right: u64)
    ensures
        left < 0x8000_0000_0000_0000 && right < 0x8000_0000_0000_0000 ==> (left < right
            <==> double_units(left) < double_units(right)),
        left >= 0x8000_0000_0000_0000 && right >= 0x8000_0000_0000_0000 ==> (left > right
            <==> double_units(left) < double_units(right)),
        left >= 0x8000_0000_0000_0000 && right < 0x8000_0000_0000_0000 ==> (double_units(left)
            < double_units(right) <==> !(left == 0x8000_0000_0000_0000 && right == 0))
            && double_units(left) <= double_units(right),
{
    let first = if left >= 0x8000_0000_0000_0000 {
        left - 0x8000_0000_0000_0000
    } else {
        left as int
    };
    let second = if right >= 0x8000_0000_0000_0000 {
        right - 0x8000_0000_0000_0000
    } else {
        right as int
    };
    lemma_patterns_order(first, second, 0x10_0000_0000_0000);
    lemma_patterns_order(second, first, 0x10_0000_0000_0000);
}

} // verus!
