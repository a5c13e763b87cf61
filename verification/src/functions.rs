//! Shared numeric helpers: clamped axis gaps and an integer square root.

use vstd::prelude::*;

verus! {

/// The distance from `c` to the closed interval `[lo, hi]` along one axis:
/// zero when `c` lies within the interval, otherwise the gap to the nearest
/// end.
pub open spec fn axis_gap(lo: int, hi: int, c: int) -> int {
    if c < lo {
        lo - c
    } else if c > hi {
        c - hi
    } else {
        0
    }
}

/// The gap between the closed intervals `[alo, ahi]` and `[blo, bhi]` along
/// one axis: zero when they overlap or touch.
pub open spec fn interval_gap(alo: int, ahi: int, blo: int, bhi: int) -> int {
    if bhi < alo {
        alo - bhi
    } else if blo > ahi {
        blo - ahi
    } else {
        0
    }
}

/// Membership in a concatenation is membership in one of its parts.
pub proof fn lemma_concat_contains<T>(a: Seq<T>, b: Seq<T>)
    ensures
        forall|x: T| #[trigger] (a + b).contains(x) <==> a.contains(x) || b.contains(x),
{
    assert forall|x: T| #[trigger] (a + b).contains(x) implies a.contains(x) || b.contains(x) by {
        let j = choose|j: int| 0 <= j < (a + b).len() && (a + b)[j] == x;
        if j < a.len() {
            assert(a[j] == x);
        } else {
            assert(b[j - a.len()] == x);
        }
    }
    assert forall|x: T| a.contains(x) || b.contains(x) implies #[trigger] (a + b).contains(x) by {
        if a.contains(x) {
            let j = choose|j: int| 0 <= j < a.len() && a[j] == x;
            assert((a + b)[j] == x);
        } else {
            let j = choose|j: int| 0 <= j < b.len() && b[j] == x;
            assert((a + b)[a.len() + j] == x);
        }
    }
}

/// Computes the floor of `a / b` for a positive divisor, matching the `/`
/// of specifications, which rounds towards negative infinity.
pub fn div_floor_i128(a: i128, b: i128) -> (q: i128)
    requires
        0 < b,
        -0x10000000000000000000000000000 <= a <= 0x10000000000000000000000000000,
        b <= 0x10000000000000000000000000000,
    ensures
        q == a as int / b as int,
{
    if a >= 0 {
        let q = a / b;
        proof {
            vstd::arithmetic::div_mod::lemma_fundamental_div_mod(a as int, b as int);
        }
        q
    } else {
        let mag = -a;
        let q = (mag + b - 1) / b;
        proof {
            vstd::arithmetic::div_mod::lemma_fundamental_div_mod(mag + b - 1, b as int);
            let r = (mag + b - 1) % (b as int);
            assert(0 <= r < b) by {
                vstd::arithmetic::div_mod::lemma_mod_bound(mag + b - 1, b as int);
            }
            assert(b * q == mag + b - 1 - r);
            assert(b * (-(q as int)) == -(b * q)) by (nonlinear_arith);
            assert(a as int == b * (-(q as int)) + (b * q - mag));
            assert(0 <= b * q - mag < b);
            vstd::arithmetic::div_mod::lemma_fundamental_div_mod_converse(
                a as int,
                b as int,
                -(q as int),
                b * q - mag,
            );
        }
        -q
    }
}

/// Whether `r` is the integer square root of `n`, that is, the greatest
/// integer whose square does not exceed `n`.
pub open spec fn is_isqrt(r: int, n: int) -> bool {
    &&& 0 <= r
    &&& r * r <= n
    &&& n < (r + 1) * (r + 1)
}

/// Computes the integer square root by bisection.
pub fn isqrt(n: u64) -> (r: u64)
    ensures
        is_isqrt(r as int, n as int),
{
    if n == 0 {
        return 0;
    }
    let mut lo: u64 = 0;
    let mut hi: u64 = 4294967296;
    proof {
        assert((hi as int) * (hi as int) > u64::MAX as int) by (nonlinear_arith)
            requires
                hi == 4294967296,
        ;
    }
    while lo + 1 < hi
        invariant
            0 <= lo < hi <= 4294967296,
            (lo as int) * (lo as int) <= n as int,
            (n as int) < (hi as int) * (hi as int),
        decreases hi - lo,
    {
        let mid = lo + (hi - lo) / 2;
        proof {
            assert((mid as int) * (mid as int) <= u64::MAX as int) by (nonlinear_arith)
                requires
                    0 <= mid < 4294967296,
            ;
        }
        if mid * mid <= n {
            lo = mid;
        } else {
            hi = mid;
        }
    }
    lo
}

} // verus!
