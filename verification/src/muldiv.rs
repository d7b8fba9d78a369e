//! Exact truncated proportional shares.
//!
//! Distribution credits each holder `floor(balance * amount / total)`.
//! The product of two 128-bit values does not fit a 128-bit word, so
//! the quotient is computed by binary long division over the bits of
//! `amount`, never forming the full product. The result is exact: no
//! widening shortcut, no saturation.

use vstd::arithmetic::div_mod::lemma_fundamental_div_mod_converse;
use vstd::prelude::*;

verus! {

/// Computes `floor(b * amount / total)` exactly, for a balance that
/// cannot exceed the total it is measured against.
///
/// The loop folds the bits of `amount` in from the most significant
/// end, maintaining quotient and remainder of the partial product;
/// `b <= total` keeps every intermediate value within 128 bits.
pub fn mul_div_floor(b: i128, amount: i128, total: i128) -> (r: i128)
    requires
        0 < total,
        0 < b <= total,
        0 < amount,
    ensures
        r as int == (b as int * amount as int) / (total as int),
        0 <= r <= amount,
{
    let x: u128 = b as u128;
    let y: u128 = amount as u128;
    let d: u128 = total as u128;
    let mut q: u128 = 0;
    let mut rem: u128 = 0;
    let ghost mut p: int = 0;
    let mut i: usize = 0;
    while i < 128
        invariant
            0 <= i <= 128,
            x as int == b as int,
            y as int == amount as int,
            d as int == total as int,
            x <= d,
            d <= i128::MAX as u128,
            y <= i128::MAX as u128,
            0 <= p <= y as int,
            i >= 1 ==> p == (y >> ((128 - i) as u128)) as int,
            i == 0 ==> p == 0,
            x as int * p == q as int * d as int + rem as int,
            (rem as int) < d as int,
            q as int <= p,
        decreases 128 - i,
    {
        let sh: u128 = 127 - (i as u128);
        let bit: u128 = (y >> sh) & 1;
        let ghost p_next: int = 2 * p + bit as int;
        proof {
            assert((y >> sh) & 1 <= 1) by (bit_vector);
            assert(y >> sh <= y) by (bit_vector);
            if i == 0 {
                assert(sh == 127 ==> (y >> sh) & 1 == y >> sh) by (bit_vector);
            } else {
                assert(sh <= 126 ==> y >> sh == 2 * (y >> (sh + 1)) + ((y >> sh) & 1))
                    by (bit_vector);
                assert(sh + 1 == (128 - i) as u128);
            }
            assert(p_next == (y >> sh) as int);
            assert(x as int * p_next == 2 * (x as int * p) + bit as int * x as int)
                by (nonlinear_arith)
                requires
                    p_next == 2 * p + bit as int,
            ;
        }
        let mut q2: u128 = q * 2;
        let mut rem2: u128 = rem * 2;
        proof {
            assert(q2 as int * d as int == 2 * (q as int * d as int)) by (nonlinear_arith)
                requires
                    q2 as int == 2 * q as int,
            ;
        }
        if rem2 >= d {
            proof {
                assert((q2 + 1) as int * d as int == q2 as int * d as int + d as int)
                    by (nonlinear_arith);
            }
            rem2 = rem2 - d;
            q2 = q2 + 1;
        }
        if bit == 1 {
            rem2 = rem2 + x;
            if rem2 >= d {
                proof {
                    assert((q2 + 1) as int * d as int == q2 as int * d as int + d as int)
                        by (nonlinear_arith);
                }
                rem2 = rem2 - d;
                q2 = q2 + 1;
            }
        }
        proof {
            assert(x as int * p_next == q2 as int * d as int + rem2 as int);
            assert(q2 as int <= p_next) by (nonlinear_arith)
                requires
                    x as int * p_next == q2 as int * d as int + rem2 as int,
                    0 <= rem2 as int,
                    0 <= x as int <= d as int,
                    0 < d as int,
                    0 <= p_next,
                    0 <= q2 as int,
            ;
            p = p_next;
        }
        q = q2;
        rem = rem2;
        i = i + 1;
    }
    proof {
        assert(y >> ((128 - 128) as u128) == y) by (bit_vector);
        assert(p == y as int);
        lemma_fundamental_div_mod_converse(
            x as int * y as int,
            d as int,
            q as int,
            rem as int,
        );
    }
    q as i128
}

} // verus!
