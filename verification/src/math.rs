use vstd::prelude::*;
use vstd::arithmetic::div_mod::{
    lemma_breakdown, lemma_div_denominator, lemma_div_is_ordered, lemma_div_multiples_vanish,
    lemma_fundamental_div_mod, lemma_fundamental_div_mod_converse,
};
use vstd::arithmetic::mul::lemma_mul_inequality;

verus! {

/// The exact mathematical value of `a * b / c`, floored: the quantity the
/// donation distributor owes each recipient.
pub open spec fn spec_mul_div(a: u128, b: u128, c: u128) -> int {
    (a * b) / (c as int)
}

/// Computes `floor(a * b / c)` exactly, even though `a * b` can need 256 bits.
///
/// `b` is consumed in binary from the least significant bit up; the partial
/// products are carried as a quotient/remainder pair modulo `c`, so no
/// intermediate value exceeds `u128`. Returns `None` exactly when the true
/// quotient does not fit in `u128`.
pub fn mul_div(a: u128, b: u128, c: u128) -> (r: Option<u128>)
    requires
        c > 0,
    ensures
        match r {
            Some(q) => q == spec_mul_div(a, b, c),
            None => spec_mul_div(a, b, c) > u128::MAX,
        },
{
    let mut bb: u128 = b;
    // cur represents a * 2^i as cur_q * c + cur_r with cur_r < c
    let mut cur_q: u128 = a / c;
    let mut cur_r: u128 = a % c;
    // acc represents a * (b mod 2^i) as acc_q * c + acc_r with acc_r < c
    let mut acc_q: u128 = 0;
    let mut acc_r: u128 = 0;
    let ghost mut pow: int = 1int;

    proof {
        lemma_fundamental_div_mod(a as int, c as int);
        assert(b as int % 1int == 0 && b as int / 1int == b) by (nonlinear_arith);
        assert(cur_q * c + cur_r == a * 1int) by (nonlinear_arith)
            requires
                a == c * cur_q + cur_r;
    }

    while bb > 0
        invariant
            c > 0,
            pow >= 1,
            bb == b as int / pow,
            acc_q * c + acc_r == a * (b as int % pow),
            acc_r < c,
            bb > 0 ==> cur_q * c + cur_r == a * pow && cur_r < c,
        decreases bb,
    {
        let ghost pow0 = pow;
        let bit = bb % 2;
        if bit == 1 {
            // acc := acc + cur
            let ghost ar0 = acc_r as int;
            let carry: u128;
            if acc_r >= c - cur_r {
                acc_r = acc_r - (c - cur_r);
                carry = 1;
            } else {
                acc_r = acc_r + cur_r;
                carry = 0;
            }
            proof {
                lemma_breakdown(b as int, pow0, 2int);
            }
            assert(a * (b as int % (2 * pow0)) == (acc_q + cur_q + carry) * c + acc_r
                && acc_r < c) by (nonlinear_arith)
                requires
                    c > 0,
                    ar0 < c,
                    0 <= ar0,
                    acc_q * c + ar0 == a * (b as int % pow0),
                    cur_q * c + cur_r == a * pow0,
                    cur_r < c,
                    carry == 1 ==> acc_r == ar0 + cur_r - c && ar0 + cur_r >= c,
                    carry == 0 ==> acc_r == ar0 + cur_r && ar0 + cur_r < c,
                    carry == 0 || carry == 1,
                    b as int % (2 * pow0) == pow0 * ((b as int / pow0) % 2) + b as int % pow0,
                    (b as int / pow0) % 2 == 1,
                    bb == b as int / pow0;
            let new_q = match acc_q.checked_add(cur_q) {
                Some(s) => s.checked_add(carry),
                None => None,
            };
            match new_q {
                Some(q) => {
                    acc_q = q;
                },
                None => {
                    proof {
                        let quo = acc_q + cur_q + carry;
                        lemma_overflow_means_large(a, b, c, quo, acc_r as int, 2 * pow0);
                    }
                    return None;
                },
            }
        } else {
            proof {
                lemma_breakdown(b as int, pow0, 2int);
            }
        }
        proof {
            pow = 2 * pow0;
            lemma_div_denominator(b as int, pow0, 2int);
        }
        bb = bb / 2;
        if bb > 0 {
            // cur := 2 * cur
            let ghost cr0 = cur_r as int;
            let dc: u128;
            if cur_r >= c - cur_r {
                cur_r = cur_r - (c - cur_r);
                dc = 1;
            } else {
                cur_r = cur_r + cur_r;
                dc = 0;
            }
            proof {
                // b >= pow, since b / pow = bb >= 1
                lemma_fundamental_div_mod(b as int, pow);
                lemma_mul_inequality(1int, b as int / pow, pow);
            }
            assert(a * pow == (2 * cur_q + dc) * c + cur_r && cur_r < c) by (nonlinear_arith)
                requires
                    c > 0,
                    cr0 < c,
                    0 <= cr0,
                    cur_q * c + cr0 == a * pow0,
                    dc == 0 || dc == 1,
                    dc == 1 ==> cur_r == cr0 + cr0 - c && cr0 + cr0 >= c,
                    dc == 0 ==> cur_r == cr0 + cr0 && cr0 + cr0 < c,
                    pow == 2 * pow0;
            let new_cur_q = match cur_q.checked_mul(2) {
                Some(d) => d.checked_add(dc),
                None => None,
            };
            match new_cur_q {
                Some(q) => {
                    cur_q = q;
                },
                None => {
                    proof {
                        let quo = 2 * cur_q + dc;
                        assert(a * b >= a * pow) by (nonlinear_arith)
                            requires
                                b as int >= pow,
                                a >= 0;
                        lemma_overflow_means_large_from(a, b, c, quo, cur_r as int, a * pow);
                    }
                    return None;
                },
            }
        }
    }
    proof {
        lemma_fundamental_div_mod(b as int, pow);
        assert(b as int % pow == b) by {
            assert(pow * (b as int / pow) == 0) by (nonlinear_arith)
                requires
                    b as int / pow == 0;
        }
        lemma_fundamental_div_mod_converse((a * b) as int, c as int, acc_q as int, acc_r as int);
    }
    Some(acc_q)
}

/// If some partial value of `a * b`, written `quo * c + rem`, already has a
/// quotient past `u128::MAX`, then so does `a * b / c` itself.
proof fn lemma_overflow_means_large(a: u128, b: u128, c: u128, quo: int, rem: int, cut: int)
    requires
        c > 0,
        cut >= 1,
        0 <= rem,
        quo * c + rem == a * (b as int % cut),
        quo > u128::MAX,
    ensures
        spec_mul_div(a, b, c) > u128::MAX,
{
    assert(a * (b as int % cut) <= a * b) by (nonlinear_arith)
        requires
            cut >= 1,
            b >= 0,
            a >= 0;
    lemma_overflow_means_large_from(a, b, c, quo, rem, a * (b as int % cut));
}

/// Same conclusion when the bounded-below partial value is given directly.
proof fn lemma_overflow_means_large_from(a: u128, b: u128, c: u128, quo: int, rem: int, part: int)
    requires
        c > 0,
        0 <= rem,
        quo * c + rem == part,
        part <= a * b,
        quo > u128::MAX,
    ensures
        spec_mul_div(a, b, c) > u128::MAX,
{
    lemma_div_multiples_vanish(quo, c as int);
    lemma_div_is_ordered(quo * c, (a * b) as int, c as int);
}

} // verus!
