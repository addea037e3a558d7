//! Euclidean remainder on machine integers. In contracts, `%` on `int`
//! is already Euclidean, so these functions are specified directly with it.
use vstd::prelude::*;

use vstd::arithmetic::div_mod::{lemma_fundamental_div_mod, lemma_fundamental_div_mod_converse};

verus! {

/// Euclidean remainder of `x` modulo `m` for a positive modulus.
pub fn emod_i32(x: i32, m: i32) -> (r: i32)
    requires
        0 < m,
    ensures
        r as int == (x as int) % (m as int),
        0 <= r < m,
{
    if x >= 0 {
        x % m
    } else {
        // For negative x, work on the non-negative -(x + 1):
        // x % m == m - 1 - ((-(x + 1)) % m).
        let k = -(x + 1);
        let r1 = k % m;
        proof {
            let xi = x as int;
            let mi = m as int;
            let ki = k as int;
            lemma_fundamental_div_mod(ki, mi);
            assert((-(ki / mi) - 1) * mi + (mi - (ki % mi) - 1) == xi) by (nonlinear_arith)
                requires
                    ki == mi * (ki / mi) + (ki % mi),
                    xi == -ki - 1,
            ;
            lemma_fundamental_div_mod_converse(xi, mi, -(ki / mi) - 1, mi - (ki % mi) - 1);
        }
        m - 1 - r1
    }
}

/// Euclidean remainder of `x` modulo `m` for a positive modulus.
pub fn emod_i64(x: i64, m: i64) -> (r: i64)
    requires
        0 < m,
    ensures
        r as int == (x as int) % (m as int),
        0 <= r < m,
{
    if x >= 0 {
        x % m
    } else {
        let k = -(x + 1);
        let r1 = k % m;
        proof {
            let xi = x as int;
            let mi = m as int;
            let ki = k as int;
            lemma_fundamental_div_mod(ki, mi);
            assert((-(ki / mi) - 1) * mi + (mi - (ki % mi) - 1) == xi) by (nonlinear_arith)
                requires
                    ki == mi * (ki / mi) + (ki % mi),
                    xi == -ki - 1,
            ;
            lemma_fundamental_div_mod_converse(xi, mi, -(ki / mi) - 1, mi - (ki % mi) - 1);
        }
        m - 1 - r1
    }
}

} // verus!
