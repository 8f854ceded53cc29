use vstd::arithmetic::div_mod::{lemma_fundamental_div_mod, lemma_fundamental_div_mod_converse, lemma_mod_bound};
use vstd::prelude::*;

verus! {

/// Absolute value.
pub open spec fn abs(v: int) -> int {
    if v < 0 {
        -v
    } else {
        v
    }
}

/// `s / w` rounded down.
pub fn floor_div(s: i128, w: i128) -> (q: i128)
    requires
        0 < w <= 0x4000_0000_0000_0000_0000_0000_0000_0000,
        -0x4000_0000_0000_0000_0000_0000_0000_0000 <= s <= 0x4000_0000_0000_0000_0000_0000_0000_0000,
    ensures
        q == s / w,
        q * w <= s < (q + 1) * w,
{
    if s >= 0 {
        let q = ((s as u128) / (w as u128)) as i128;
        proof {
            lemma_fundamental_div_mod(s as int, w as int);
            lemma_mod_bound(s as int, w as int);
            assert(s == q * w + s % w) by (nonlinear_arith)
                requires
                    s == w * q + s % w,
            ;
            assert((q + 1) * w == q * w + w) by (nonlinear_arith);
        }
        q
    } else {
        let t: u128 = (-s) as u128;
        let u: u128 = (t + (w as u128) - 1) / (w as u128);
        let ghost x = t + w - 1;
        let ghost m = x % (w as int);
        proof {
            lemma_fundamental_div_mod(x as int, w as int);
            lemma_mod_bound(x as int, w as int);
            assert(x == u * w + m) by (nonlinear_arith)
                requires
                    x == w * u + m,
            ;
            assert(u <= t) by (nonlinear_arith)
                requires
                    x == u * w + m,
                    m >= 0,
                    w >= 1,
                    x == t + w - 1,
            ;
        }
        let q: i128 = -(u as i128);
        proof {
            let r = s - q * w;
            assert(r == w - 1 - m) by (nonlinear_arith)
                requires
                    r == s - q * w,
                    q == -u,
                    s == -t,
                    x == t + w - 1,
                    x == u * w + m,
            ;
            lemma_fundamental_div_mod_converse(s as int, w as int, q as int, r);
            assert((q + 1) * w == q * w + w) by (nonlinear_arith);
        }
        q
    }
}

/// The integer square root of `v`: the largest `r` with `r * r <= v`.
pub fn isqrt(v: u128) -> (r: u64)
    ensures
        r * r <= v < (r + 1) * (r + 1),
{
    let mut lo: u128 = 0;
    let mut hi: u128 = 0x1_0000_0000_0000_0000;
    assert(v < hi * hi);
    while hi - lo > 1
        invariant
            lo < hi <= 0x1_0000_0000_0000_0000,
            lo * lo <= v < hi * hi,
        decreases hi - lo,
    {
        let mid: u128 = lo + (hi - lo) / 2;
        assert(mid * mid <= 0xffff_ffff_ffff_ffff * 0xffff_ffff_ffff_ffff) by (nonlinear_arith)
            requires
                mid < 0x1_0000_0000_0000_0000,
        ;
        if mid * mid <= v {
            lo = mid;
        } else {
            hi = mid;
        }
    }
    assert(hi == lo + 1);
    lo as u64
}

} // verus!
