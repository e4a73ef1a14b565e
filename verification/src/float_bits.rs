use vstd::prelude::*;
use vstd::arithmetic::power2::*;

verus! {

/// Position of the most significant set bit of `n`, for `n >= 1`.
pub open spec fn msb(n: nat) -> nat
    decreases n,
{
    if n < 2 {
        0
    } else {
        1 + msb(n / 2)
    }
}

/// `msb` is the unique exponent whose power-of-two window holds `n`.
proof fn lemma_msb_unique(n: nat, e: nat)
    requires
        pow2(e) <= n,
        n < 2 * pow2(e),
    ensures
        msb(n) == e,
    decreases e,
{
    if e == 0 {
        assert(pow2(0) == 1) by { lemma2_to64(); }
    } else {
        lemma_pow2_unfold(e);
        lemma_pow2_pos((e - 1) as nat);
        assert(pow2((e - 1) as nat) <= n / 2);
        assert(n / 2 < 2 * pow2((e - 1) as nat));
        lemma_msb_unique(n / 2, (e - 1) as nat);
        lemma_pow2_pos(e);
        assert(n >= 2);
    }
}

/// The IEEE 754 binary64 bit pattern that an unsigned 64-bit integer
/// converts to, rounding to nearest with ties to even.
pub open spec fn f64_bits_of_uint(n: u64) -> u64 {
    if n == 0 {
        0u64
    } else {
        let e = msb(n as nat);
        if e <= 52 {
            ((1023 + e) * pow2(52) + (n as nat) * pow2((52 - e) as nat) - pow2(52)) as u64
        } else {
            let d = pow2((e - 52) as nat);
            let q = (n as nat) / d;
            let r = (n as nat) % d;
            let q2 = if 2 * r > d || (2 * r == d && q % 2 == 1) {
                q + 1
            } else {
                q
            };
            if q2 == pow2(53) {
                ((1024 + e) * pow2(52)) as u64
            } else {
                ((1023 + e) * pow2(52) + q2 - pow2(52)) as u64
            }
        }
    }
}

/// The IEEE 754 binary64 bit pattern that a signed 64-bit integer
/// converts to: the magnitude's pattern with the sign bit set when
/// negative.
pub open spec fn f64_bits_of_int(i: i64) -> u64 {
    if i >= 0 {
        f64_bits_of_uint(i as u64)
    } else {
        (pow2(63) + f64_bits_of_uint(((-(i as int))) as u64)) as u64
    }
}

/// `pow2(k)` as a machine word, for exponents a word can hold.
fn pow2_u64(k: u64) -> (r: u64)
    requires
        k <= 63,
    ensures
        r as nat == pow2(k as nat),
{
    proof {
        lemma2_to64();
    }
    let mut e: u64 = 0;
    let mut p: u64 = 1;
    while e < k
        invariant
            e <= k <= 63,
            p as nat == pow2(e as nat),
        decreases k - e,
    {
        proof {
            lemma_pow2_unfold((e + 1) as nat);
            lemma_pow2_strictly_increases((e + 1) as nat, 64);
            lemma2_to64_rest();
        }
        p = p * 2;
        e = e + 1;
    }
    p
}

/// Converts an unsigned 64-bit integer to the bit pattern of the
/// binary64 number it rounds to, to nearest with ties to even.
pub fn uint_to_bits(n: u64) -> (r: u64)
    ensures
        r == f64_bits_of_uint(n),
{
    if n == 0 {
        return 0;
    }
    proof {
        lemma2_to64();
        lemma2_to64_rest();
    }
    let mut e: u64 = 0;
    let mut p: u64 = 1;
    while n / p >= 2
        invariant
            n >= 1,
            1 <= p,
            e <= 63,
            p as nat == pow2(e as nat),
            p <= n,
        decreases 64 - e,
    {
        proof {
            lemma_pow2_unfold((e + 1) as nat);
            assert((p * 2) as nat == pow2((e + 1) as nat));
            vstd::arithmetic::div_mod::lemma_fundamental_div_mod(n as int, p as int);
            vstd::arithmetic::div_mod::lemma_mod_division_less_than_divisor(n as int, p as int);
            vstd::arithmetic::mul::lemma_mul_inequality(2, (n / p) as int, p as int);
            assert(n >= 2 * p);
            if e + 1 >= 64 {
                lemma_pow2_strictly_increases(63, (e + 1) as nat);
                lemma2_to64_rest();
            }
        }
        p = p * 2;
        e = e + 1;
    }
    proof {
        vstd::arithmetic::div_mod::lemma_fundamental_div_mod(n as int, p as int);
        vstd::arithmetic::div_mod::lemma_mod_division_less_than_divisor(n as int, p as int);
        vstd::arithmetic::mul::lemma_mul_inequality((n / p) as int, 1, p as int);
        assert(n < 2 * p);
        lemma_msb_unique(n as nat, e as nat);
        lemma_msb_range(n);
    }
    let m52: u64 = 0x10000000000000;
    proof {
        assert(m52 as nat == pow2(52));
    }
    if e <= 52 {
        let shift = pow2_u64(52 - e);
        proof {
            assert((n as nat) * (shift as nat) < pow2((e + 1) as nat) * pow2((52 - e) as nat))
                by {
                lemma_pow2_pos((52 - e) as nat);
                vstd::arithmetic::mul::lemma_mul_strict_inequality(
                    n as int,
                    pow2((e + 1) as nat) as int,
                    pow2((52 - e) as nat) as int,
                );
            }
            lemma_pow2_adds((e + 1) as nat, (52 - e) as nat);
            assert((n as nat) * (shift as nat) < pow2(53));
            assert((n as nat) * (shift as nat) >= pow2(52)) by {
                lemma_pow2_pos((52 - e) as nat);
                vstd::arithmetic::mul::lemma_mul_inequality(
                    pow2(e as nat) as int,
                    n as int,
                    pow2((52 - e) as nat) as int,
                );
                lemma_pow2_adds(e as nat, (52 - e) as nat);
            }
            assert(((1023 + e) as nat) * pow2(52) <= 1075 * pow2(52)) by {
                vstd::arithmetic::mul::lemma_mul_inequality(
                    (1023 + e) as int,
                    1075,
                    pow2(52) as int,
                );
            }
            assert(1075 * pow2(52) + pow2(53) < pow2(64)) by {
                assert(pow2(53) == 2 * pow2(52)) by { lemma_pow2_unfold(53); }
                assert(pow2(64) == pow2(12) * pow2(52)) by { lemma_pow2_adds(12, 52); }
            }
        }
        (1023 + e) * m52 + n * shift - m52
    } else {
        let d = pow2_u64(e - 52);
        let q = n / d;
        let rem = n % d;
        proof {
            lemma_uint_round_bounds(n);
            lemma_pow2_pos((e - 52) as nat);
            assert(rem < d);
            assert(pow2(53) == 2 * pow2(52)) by { lemma_pow2_unfold(53); }
            assert(((1024 + e) as nat) * pow2(52) <= 1087 * pow2(52)) by {
                vstd::arithmetic::mul::lemma_mul_inequality(
                    (1024 + e) as int,
                    1087,
                    pow2(52) as int,
                );
            }
            assert(1088 * pow2(52) < pow2(64)) by {
                assert(pow2(64) == pow2(12) * pow2(52)) by { lemma_pow2_adds(12, 52); }
            }
        }
        let q2: u64 = if 2 * rem > d || (2 * rem == d && q % 2 == 1) {
            q + 1
        } else {
            q
        };
        if q2 == 2 * m52 {
            (1024 + e) * m52
        } else {
            (1023 + e) * m52 + q2 - m52
        }
    }
}

/// Converts a signed 64-bit integer to the bit pattern of the binary64
/// number it rounds to.
pub fn int_to_bits(i: i64) -> (r: u64)
    ensures
        r == f64_bits_of_int(i),
{
    if i >= 0 {
        uint_to_bits(i as u64)
    } else {
        let mag: u64 = if i == i64::MIN {
            0x8000000000000000
        } else {
            (-i) as u64
        };
        proof {
            assert(mag as int == -(i as int));
        }
        let b = uint_to_bits(mag);
        proof {
            lemma_uint_bits_below_sign(mag);
            lemma2_to64_rest();
        }
        0x8000000000000000 + b
    }
}

/// The whole bit pattern of a converted unsigned integer stays below
/// the sign bit.
proof fn lemma_uint_bits_below_sign(n: u64)
    ensures
        f64_bits_of_uint(n) < pow2(63),
{
    lemma2_to64();
    lemma2_to64_rest();
    if n == 0 {
    } else {
        let e = msb(n as nat);
        lemma_msb_range(n);
        if e <= 52 {
            lemma_pow2_adds(e, (52 - e) as nat);
            assert((n as nat) * pow2((52 - e) as nat) < pow2(e + 1) * pow2((52 - e) as nat))
                by {
                lemma_pow2_pos((52 - e) as nat);
                vstd::arithmetic::mul::lemma_mul_strict_inequality(
                    n as int,
                    pow2(e + 1) as int,
                    pow2((52 - e) as nat) as int,
                );
            }
            lemma_pow2_adds(e + 1, (52 - e) as nat);
            assert((1023 + e) * pow2(52) <= 1075 * pow2(52)) by {
                vstd::arithmetic::mul::lemma_mul_inequality(
                    (1023 + e) as int,
                    1075,
                    pow2(52) as int,
                );
            }
            assert(1075 * pow2(52) + pow2(53) < pow2(63)) by {
                assert(pow2(53) == 2 * pow2(52)) by { lemma_pow2_unfold(53); }
                assert(pow2(63) == pow2(11) * pow2(52)) by { lemma_pow2_adds(11, 52); }
            }
        } else {
            let d = pow2((e - 52) as nat);
            let q = (n as nat) / d;
            let q2 = if 2 * ((n as nat) % d) > d || (2 * ((n as nat) % d) == d && q % 2 == 1) {
                q + 1
            } else {
                q
            };
            assert((1024 + e) * pow2(52) <= 1087 * pow2(52)) by {
                vstd::arithmetic::mul::lemma_mul_inequality(
                    (1024 + e) as int,
                    1087,
                    pow2(52) as int,
                );
            }
            assert(1088 * pow2(52) < pow2(63)) by {
                assert(pow2(63) == pow2(11) * pow2(52)) by { lemma_pow2_adds(11, 52); }
            }
            if q2 == pow2(53) {
            } else {
                lemma_uint_round_bounds(n);
            }
        }
    }
}

/// For `n >= 1` the window `pow2(msb(n)) <= n < pow2(msb(n) + 1)`
/// holds, and `msb(n)` fits in six bits.
proof fn lemma_msb_range(n: u64)
    requires
        n >= 1,
    ensures
        pow2(msb(n as nat)) <= (n as nat) < pow2(msb(n as nat) + 1),
        msb(n as nat) <= 63,
    decreases n,
{
    let e = msb(n as nat);
    if n < 2 {
        lemma2_to64();
    } else {
        lemma_msb_range(n / 2);
        lemma_pow2_unfold((msb((n / 2) as nat) + 1) as nat);
        lemma_pow2_unfold((msb((n / 2) as nat) + 2) as nat);
        if msb(n as nat) == 64 {
            lemma2_to64_rest();
        }
    }
}

/// In the wide-integer branch the rounded quotient stays in the 53-bit
/// window.
proof fn lemma_uint_round_bounds(n: u64)
    requires
        n >= 1,
        msb(n as nat) > 52,
    ensures
        pow2(52) <= (n as nat) / pow2((msb(n as nat) - 52) as nat),
        (n as nat) / pow2((msb(n as nat) - 52) as nat) < pow2(53),
{
    let e = msb(n as nat);
    let d = pow2((e - 52) as nat);
    lemma_msb_range(n);
    lemma_pow2_pos((e - 52) as nat);
    assert(pow2(e) == pow2(52) * d) by { lemma_pow2_adds(52, (e - 52) as nat); }
    assert(pow2(e + 1) == pow2(53) * d) by { lemma_pow2_adds(53, (e - 52) as nat); }
    assert(pow2(52) <= (n as nat) / d) by {
        vstd::arithmetic::div_mod::lemma_div_by_multiple(pow2(52) as int, d as int);
        vstd::arithmetic::div_mod::lemma_div_is_ordered(
            (pow2(52) * d) as int,
            n as int,
            d as int,
        );
    }
    assert((n as nat) / d < pow2(53)) by {
        vstd::arithmetic::mul::lemma_mul_is_commutative(pow2(53) as int, d as int);
        vstd::arithmetic::div_mod::lemma_multiply_divide_lt(
            n as int,
            d as int,
            pow2(53) as int,
        );
    }
}

/// The documented numeric loss: an integer that needs more than 53
/// significant bits — its low bits below the leading 53 are not all
/// zero — shares its converted bit pattern with a different integer,
/// so the conversion is not one to one there. The sharer is the very
/// integer the rounding lands on.
pub proof fn lemma_lossy_above_53_bits(n: u64)
    requires
        msb(n as nat) > 52,
        (n as nat) % pow2((msb(n as nat) - 52) as nat) != 0,
    ensures
        exists|m: u64| m != n && #[trigger] f64_bits_of_uint(m) == f64_bits_of_uint(n),
{
    lemma2_to64();
    lemma2_to64_rest();
    assert(n >= 1);
    lemma_msb_range(n);
    let e = msb(n as nat);
    let d = pow2((e - 52) as nat);
    let q = (n as nat) / d;
    let r = (n as nat) % d;
    lemma_pow2_pos((e - 52) as nat);
    vstd::arithmetic::div_mod::lemma_fundamental_div_mod(n as int, d as int);
    vstd::arithmetic::div_mod::lemma_mod_division_less_than_divisor(n as int, d as int);
    lemma_uint_round_bounds(n);
    lemma_pow2_unfold((e + 1) as nat);
    assert(pow2(e) == pow2(52) * d) by { lemma_pow2_adds(52, (e - 52) as nat); }
    assert(pow2(e + 1) == pow2(53) * d) by { lemma_pow2_adds(53, (e - 52) as nat); }
    let q2 = if 2 * r > d || (2 * r == d && q % 2 == 1) {
        q + 1
    } else {
        q
    };
    if q2 == pow2(53) {
        if e <= 62 {
            lemma_pow2_strictly_increases((e + 1) as nat, 64);
            let m: u64 = pow2((e + 1) as nat) as u64;
            lemma_pow2_unfold((e + 2) as nat);
            lemma_msb_unique(m as nat, (e + 1) as nat);
            lemma_pow2_pos((e - 51) as nat);
            assert(pow2(e + 1) == pow2(52) * pow2((e - 51) as nat)) by {
                lemma_pow2_adds(52, (e - 51) as nat);
            }
            assert((m as nat) / pow2((e - 51) as nat) == pow2(52)) by {
                vstd::arithmetic::div_mod::lemma_div_by_multiple(
                    pow2(52) as int,
                    pow2((e - 51) as nat) as int,
                );
            }
            assert((m as nat) % pow2((e - 51) as nat) == 0) by {
                vstd::arithmetic::div_mod::lemma_mod_multiples_basic(
                    pow2(52) as int,
                    pow2((e - 51) as nat) as int,
                );
            }
            assert(f64_bits_of_uint(m) == f64_bits_of_uint(n));
            assert(m != n && f64_bits_of_uint(m) == f64_bits_of_uint(n));
        } else {
            assert(e == 63);
            assert(2 * r >= d);
            if r < d - 1 {
                assert((q as int) * (d as int) + (d as int) == pow2(64) as int) by {
                    vstd::arithmetic::mul::lemma_mul_is_distributive_add_other_way(
                        d as int,
                        q as int,
                        1,
                    );
                }
                let m: u64 = (n + 1) as u64;
                assert(m as int == (q as int) * (d as int) + ((r as int) + 1));
                vstd::arithmetic::div_mod::lemma_fundamental_div_mod_converse(
                    m as int,
                    d as int,
                    q as int,
                    (r as int) + 1,
                );
                lemma_msb_unique(m as nat, e);
                assert(f64_bits_of_uint(m) == f64_bits_of_uint(n));
                assert(m != n && f64_bits_of_uint(m) == f64_bits_of_uint(n));
            } else {
                let m: u64 = (n - 1) as u64;
                assert(m as int == (q as int) * (d as int) + ((r as int) - 1));
                vstd::arithmetic::div_mod::lemma_fundamental_div_mod_converse(
                    m as int,
                    d as int,
                    q as int,
                    (r as int) - 1,
                );
                assert(q * d >= pow2(52) * d) by {
                    vstd::arithmetic::mul::lemma_mul_inequality(
                        pow2(52) as int,
                        q as int,
                        d as int,
                    );
                }
                lemma_msb_unique(m as nat, e);
                assert(2 * ((r as nat) - 1) > d);
                assert(f64_bits_of_uint(m) == f64_bits_of_uint(n));
                assert(m != n && f64_bits_of_uint(m) == f64_bits_of_uint(n));
            }
        }
    } else {
        assert(q2 < pow2(53));
        assert(q2 * d < pow2(53) * d) by {
            vstd::arithmetic::mul::lemma_mul_strict_inequality(
                q2 as int,
                pow2(53) as int,
                d as int,
            );
        }
        if e + 1 < 64 {
            lemma_pow2_strictly_increases((e + 1) as nat, 64);
        }
        let m: u64 = (q2 * d) as u64;
        assert(q2 * d >= pow2(52) * d) by {
            vstd::arithmetic::mul::lemma_mul_inequality(pow2(52) as int, q2 as int, d as int);
        }
        lemma_msb_unique(m as nat, e);
        assert((m as nat) / d == q2) by {
            vstd::arithmetic::div_mod::lemma_div_by_multiple(q2 as int, d as int);
        }
        assert((m as nat) % d == 0) by {
            vstd::arithmetic::div_mod::lemma_mod_multiples_basic(q2 as int, d as int);
        }
        assert(m != n) by {
            if q2 == q + 1 {
                assert((q2 as int) * (d as int) == (q as int) * (d as int) + (d as int)) by {
                    vstd::arithmetic::mul::lemma_mul_is_distributive_add_other_way(
                        d as int,
                        q as int,
                        1,
                    );
                }
            }
        }
        assert(f64_bits_of_uint(m) == f64_bits_of_uint(n));
        assert(m != n && f64_bits_of_uint(m) == f64_bits_of_uint(n));
    }
}

} // verus!
