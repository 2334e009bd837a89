use vstd::prelude::*;
use vstd::arithmetic::div_mod::lemma_fundamental_div_mod_converse;

verus! {

/// Linear interpolation from `a` to `b` at the fraction `num / den`, rounded
/// down: `a * (1 - c) + b * c` with `c = num / den`.
pub open spec fn lerp(a: int, b: int, num: int, den: int) -> int {
    a + (b - a) * num / den
}

/// Linear interpolation between two values at the fraction `num / den`,
/// rounded down to a whole unit.
pub fn interp(a: i64, b: i64, num: u64, den: u64) -> (r: i64)
    requires
        num <= den,
        den > 0,
    ensures
        r == lerp(a as int, b as int, num as int, den as int),
        a <= b ==> a <= r <= b,
        b <= a ==> b <= r <= a,
{
    let n = num as u128;
    let d = den as u128;
    if a <= b {
        let diff = ((b as i128) - (a as i128)) as u128;
        proof {
            assert(diff * n <= diff * d) by (nonlinear_arith)
                requires n <= d;
            assert(diff * d <= 0xffff_ffff_ffff_ffffu128 * 0xffff_ffff_ffff_ffffu128) by (nonlinear_arith)
                requires diff <= 0xffff_ffff_ffff_ffffu128, d <= 0xffff_ffff_ffff_ffffu128;
        }
        let q = diff * n / d;
        proof {
            assert(q <= diff) by (nonlinear_arith)
                requires q as int == (diff as int * n as int) / d as int, n <= d, d > 0;
        }
        ((a as i128) + (q as i128)) as i64
    } else {
        let diff = ((a as i128) - (b as i128)) as u128;
        proof {
            assert(diff * n <= diff * d) by (nonlinear_arith)
                requires n <= d;
            assert(diff * d <= 0xffff_ffff_ffff_ffffu128 * 0xffff_ffff_ffff_ffffu128) by (nonlinear_arith)
                requires diff <= 0xffff_ffff_ffff_ffffu128, d <= 0xffff_ffff_ffff_ffffu128;
            assert(diff * n + d - 1 <= 0xffff_ffff_ffff_ffffu128 * 0xffff_ffff_ffff_ffffu128 + 0xffff_ffff_ffff_ffffu128);
        }
        let x = diff * n;
        let q = (x + (d - 1)) / d;
        proof {
            let qi = q as int;
            let xi = x as int;
            let di = d as int;
            let rem = (xi + di - 1) % di;
            vstd::arithmetic::div_mod::lemma_fundamental_div_mod(xi + di - 1, di);
            assert(qi == (xi + di - 1) / di);
            assert(0 <= rem < di) by {
                vstd::arithmetic::div_mod::lemma_mod_bound(xi + di - 1, di);
            }
            assert(xi + di - 1 == qi * di + rem) by (nonlinear_arith)
                requires xi + di - 1 == di * ((xi + di - 1) / di) + rem, qi == (xi + di - 1) / di;
            // -x == (-q) * d + (q * d - x), with 0 <= q * d - x < d
            assert(0 <= qi * di - xi < di);
            assert(-xi == (-qi) * di + (qi * di - xi)) by (nonlinear_arith);
            lemma_fundamental_div_mod_converse(-xi, di, -qi, qi * di - xi);
            assert((b as int - a as int) * (num as int) == -xi) by (nonlinear_arith)
                requires xi == diff as int * n as int, diff as int == a as int - b as int, n as int == num as int;
            assert(q <= diff) by (nonlinear_arith)
                requires qi * di - xi < di, xi == diff as int * n as int, n <= d, d > 0, qi == q as int, di == d as int;
        }
        ((a as i128) - (q as i128)) as i64
    }
}

} // verus!
