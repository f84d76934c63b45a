//! Ordering of numeric values held as integers and `f64` bit patterns.
//!
//! A double that is not NaN is ordered by its sign and magnitude: positive
//! doubles compare as their bit patterns do, negative ones in reverse, and the
//! two zeros are equal. An integer compared with a double is first rounded to
//! the nearest double (ties to even), as `i64 as f64` does.
use vstd::prelude::*;
use vstd::arithmetic::power2::{
    lemma2_to64, lemma2_to64_rest, lemma_pow2_adds, lemma_pow2_pos, lemma_pow2_strictly_increases,
    lemma_pow2_subtracts, lemma_pow2_unfold, pow2,
};

use crate::firestore::value::value::{double_is_nan, double_is_zero, doubles_equal};
use crate::text::Order;

verus! {

/// The three-way order of two integers.
pub open spec fn int_order(a: int, b: int) -> Order {
    if a < b {
        Order::Less
    } else if a == b {
        Order::Equal
    } else {
        Order::Greater
    }
}

/// A key whose integer order is the order of the values of non-NaN doubles.
pub open spec fn double_key(bits: u64) -> int {
    if bits >= 0x8000_0000_0000_0000u64 {
        -(bits - 0x8000_0000_0000_0000u64)
    } else {
        bits as int
    }
}

/// `f64::partial_cmp` on bit patterns: no order when either side is NaN.
pub open spec fn double_order(a: u64, b: u64) -> Option<Order> {
    if double_is_nan(a) || double_is_nan(b) {
        None
    } else {
        Some(int_order(double_key(a), double_key(b)))
    }
}

/// The magnitude of an integer.
pub open spec fn magnitude(i: i64) -> nat {
    if i < 0 {
        (-i) as nat
    } else {
        i as nat
    }
}

/// Whether `2^e <= a < 2^(e+1)`.
pub open spec fn is_top_bit(a: nat, e: nat) -> bool {
    pow2(e) <= a && a < pow2(e + 1)
}

/// The position of the highest set bit of a positive number.
pub open spec fn top_bit(a: nat) -> nat {
    choose|e: nat| is_top_bit(a, e)
}

/// The bit pattern of `i as f64`: the double nearest to `i`, ties going to the
/// even significand.
pub open spec fn int_to_double_bits(i: i64) -> u64 {
    if i == 0 {
        0
    } else {
        let a = magnitude(i);
        let e = top_bit(a);
        let sign: int = if i < 0 {
            pow2(63) as int
        } else {
            0
        };
        if e <= 52 {
            (sign + (e + 1023) * pow2(52) + (a - pow2(e)) * pow2((52 - e) as nat)) as u64
        } else {
            let k = (e - 52) as nat;
            let q = a / pow2(k);
            let r = a % pow2(k);
            let half = pow2((k - 1) as nat);
            let rounded = if r > half || (r == half && q % 2 == 1) {
                q + 1
            } else {
                q
            };
            if rounded == pow2(53) {
                (sign + (e + 1024) * pow2(52)) as u64
            } else {
                (sign + (e + 1023) * pow2(52) + (rounded - pow2(52))) as u64
            }
        }
    }
}

proof fn lemma_top_bit_unique(a: nat, e: nat)
    requires
        is_top_bit(a, e),
    ensures
        top_bit(a) == e,
{
    let c = top_bit(a);
    assert(is_top_bit(a, c));
    if c < e {
        if c + 1 < e {
            lemma_pow2_strictly_increases(c + 1, e);
        }
    } else if e < c {
        if e + 1 < c {
            lemma_pow2_strictly_increases(e + 1, c);
        }
    }
}

/// The key of a non-NaN double is zero exactly for the two zeros, and keys are
/// equal exactly when the doubles compare equal.
pub proof fn lemma_double_key_equal(a: u64, b: u64)
    requires
        !double_is_nan(a),
        !double_is_nan(b),
    ensures
        (double_key(a) == double_key(b)) == doubles_equal(a, b),
{
    assert(double_is_zero(a) == (a == 0 || a == 0x8000_0000_0000_0000u64)) by (bit_vector);
    assert(double_is_zero(b) == (b == 0 || b == 0x8000_0000_0000_0000u64)) by (bit_vector);
}

proof fn lemma_not_nan(r: u64, s: u64, ex: u64, f: u64)
    requires
        s == 0 || s == 0x8000_0000_0000_0000u64,
        ex < 2047,
        f < 0x10_0000_0000_0000u64,
        r == s + ex * 0x10_0000_0000_0000u64 + f,
    ensures
        !double_is_nan(r),
{
    assert(!((r & 0x7ff0_0000_0000_0000u64) == 0x7ff0_0000_0000_0000u64 && (r
        & 0x000f_ffff_ffff_ffffu64) != 0)) by (bit_vector)
        requires
            s == 0 || s == 0x8000_0000_0000_0000u64,
            ex < 2047,
            f < 0x10_0000_0000_0000u64,
            r == s + ex * 0x10_0000_0000_0000u64 + f,
    ;
}

/// `i as f64`, as a bit pattern.
pub fn int_to_double(i: i64) -> (r: u64)
    ensures
        r == int_to_double_bits(i),
        !double_is_nan(r),
{
    proof {
        lemma2_to64();
        lemma2_to64_rest();
    }
    if i == 0 {
        assert(!double_is_nan(0u64)) by (bit_vector);
        return 0;
    }
    let a: u64 = if i < 0 {
        (0i128 - i as i128) as u64
    } else {
        i as u64
    };
    assert(a as nat == magnitude(i));
    let mut e: u64 = 0;
    let mut p: u64 = 1;
    while p <= a / 2
        invariant
            1 <= a,
            1 <= p,
            p as nat == pow2(e as nat),
            p <= a,
            e <= 63,
        decreases a - p,
    {
        proof {
            lemma2_to64_rest();
            lemma_pow2_unfold((e + 1) as nat);
            if e >= 63 {
                assert(p == 0x8000_0000_0000_0000u64);
            }
        }
        p = p * 2;
        e = e + 1;
    }
    proof {
        lemma_pow2_unfold((e + 1) as nat);
        lemma_top_bit_unique(a as nat, e as nat);
        if e >= 63 {
            lemma_pow2_strictly_increases(63, (e + 1) as nat);
        }
    }
    let sign: u64 = if i < 0 {
        0x8000_0000_0000_0000
    } else {
        0
    };
    let unit: u64 = 0x10_0000_0000_0000;
    if e <= 52 {
        let scale: u64 = unit / p;
        proof {
            lemma_pow2_subtracts(e as nat, 52);
            assert(scale as nat == pow2((52 - e) as nat));
            lemma_pow2_pos((52 - e) as nat);
            lemma_pow2_adds(e as nat, (52 - e) as nat);
            assert((a - p) * scale < unit) by (nonlinear_arith)
                requires
                    a < 2 * p,
                    scale > 0,
                    p * scale == unit,
                    p <= a,
            ;
        }
        let f: u64 = (a - p) * scale;
        let r: u64 = sign + (e + 1023) * unit + f;
        proof {
            lemma_not_nan(r, sign, (e + 1023) as u64, f);
        }
        r
    } else {
        let k: u64 = e - 52;
        let d: u64 = p / unit;
        proof {
            lemma_pow2_subtracts(52, e as nat);
            assert(d as nat == pow2(k as nat));
            lemma_pow2_adds(52, k as nat);
            lemma_pow2_adds(53, k as nat);
            lemma_pow2_unfold(k as nat);
            lemma_pow2_pos(k as nat);
        }
        let q: u64 = a / d;
        let rem: u64 = a % d;
        let half: u64 = d / 2;
        proof {
            assert(unit <= q && q < 2 * unit) by (nonlinear_arith)
                requires
                    d > 0,
                    unit * d <= a,
                    a < 2 * unit * d,
                    q == a / d,
            {
                assert(a == d * (a / d) + a % d);
                assert(0 <= a % d < d);
            }
        }
        let rounded: u64 = if rem > half || (rem == half && q % 2 == 1) {
            q + 1
        } else {
            q
        };
        if rounded == 2 * unit {
            let r: u64 = sign + (e + 1024) * unit;
            proof {
                lemma_not_nan(r, sign, (e + 1024) as u64, 0);
            }
            r
        } else {
            let f: u64 = rounded - unit;
            let r: u64 = sign + (e + 1023) * unit + f;
            proof {
                lemma_not_nan(r, sign, (e + 1023) as u64, f);
            }
            r
        }
    }
}

/// `f64::partial_cmp` of two bit patterns.
pub fn compare_doubles(a: u64, b: u64) -> (r: Option<Order>)
    ensures
        r == double_order(a, b),
{
    let a_nan = (a & 0x7ff0_0000_0000_0000u64) == 0x7ff0_0000_0000_0000u64 && (a
        & 0x000f_ffff_ffff_ffffu64) != 0;
    let b_nan = (b & 0x7ff0_0000_0000_0000u64) == 0x7ff0_0000_0000_0000u64 && (b
        & 0x000f_ffff_ffff_ffffu64) != 0;
    if a_nan || b_nan {
        return None;
    }
    let ka: i64 = if a >= 0x8000_0000_0000_0000u64 {
        -((a - 0x8000_0000_0000_0000u64) as i64)
    } else {
        a as i64
    };
    let kb: i64 = if b >= 0x8000_0000_0000_0000u64 {
        -((b - 0x8000_0000_0000_0000u64) as i64)
    } else {
        b as i64
    };
    if ka < kb {
        Some(Order::Less)
    } else if ka == kb {
        Some(Order::Equal)
    } else {
        Some(Order::Greater)
    }
}

/// The three-way order of two integers.
pub fn compare_ints(a: i64, b: i64) -> (r: Order)
    ensures
        r == int_order(a as int, b as int),
{
    if a < b {
        Order::Less
    } else if a == b {
        Order::Equal
    } else {
        Order::Greater
    }
}

} // verus!
