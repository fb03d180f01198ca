use vstd::prelude::*;

use vstd::arithmetic::div_mod::{
    lemma_div_is_ordered, lemma_div_multiples_vanish, lemma_div_pos_is_pos,
    lemma_fundamental_div_mod, lemma_fundamental_div_mod_converse_div, lemma_hoist_over_denominator,
    lemma_mod_division_less_than_divisor,
};
use vstd::arithmetic::div_mod::lemma_div_denominator;
use vstd::arithmetic::mul::lemma_mul_is_commutative;
use vstd::arithmetic::power2::{
    lemma2_to64, lemma2_to64_rest, lemma_pow2_adds, lemma_pow2_pos, lemma_pow2_strictly_increases,
    pow2,
};
use vstd::bits::{
    lemma_u32_shl_is_mul, lemma_u32_shr_is_div, lemma_u64_pow2_no_overflow, lemma_u64_shl_is_mul,
    lemma_u64_shr_is_div, lemma_u128_shr_is_div,
};
use vstd::std_specs::bits::{axiom_u32_leading_zeros, axiom_u64_leading_zeros};

verus! {

// A divider precomputes a magic multiplier and a shift for one fixed divisor,
// so that quotients and remainders by that divisor can later be taken without
// a hardware divide. The scheme is the branch-free flavour of division by
// invariant integers: a power-of-two divisor `2^s` stores no multiplier and
// shifts by `s`; any other divisor `d` with `2^k < d < 2^(k+1)` stores
// `magic = floor(2^(N+1+k) / d) + 1 - 2^N` for word width `N`, and the
// division routine recovers `floor(x * (magic + 2^N) / 2^(N+1+k))`, which the
// lemmas below prove equal to `x / d` for every representable `x`.

/// The quotient of `2n` by `d`, expressed through the quotient and remainder
/// of `n` by `d`: doubling the dividend doubles the quotient, plus one more
/// when the doubled remainder reaches the divisor.
proof fn lemma_double_division(n: int, d: int)
    requires
        1 <= d,
        0 <= n,
    ensures
        (2 * n) / d == 2 * (n / d) + if 2 * (n % d) >= d {
            1int
        } else {
            0int
        },
{
    let q = n / d;
    let r = n % d;
    lemma_fundamental_div_mod(n, d);
    lemma_mod_division_less_than_divisor(n, d);
    lemma_div_pos_is_pos(n, d);
    if 2 * r >= d {
        assert(2 * n == (2 * q + 1) * d + (2 * r - d)) by (nonlinear_arith)
            requires
                n == d * q + r,
        ;
        lemma_fundamental_div_mod_converse_div(2 * n, d, 2 * q + 1, 2 * r - d);
    } else {
        assert(2 * n == (2 * q) * d + 2 * r) by (nonlinear_arith)
            requires
                n == d * q + r,
        ;
        lemma_fundamental_div_mod_converse_div(2 * n, d, 2 * q, 2 * r);
    }
}

/// Range of the round-up multiplier `floor(2bl / d) + 1` for a divisor
/// strictly between `l` and `2l`: it always lies in `[b + 1, 2b - 1]`, so
/// after subtracting `b` it fits the machine word.
proof fn lemma_magic_bounds(d: int, l: int, b: int)
    requires
        1 <= l,
        l < d,
        d < 2 * l,
        2 * l <= b,
    ensures
        b + 1 <= (2 * b * l) / d + 1 <= 2 * b - 1,
{
    let p = 2 * b * l;
    assert(b * d <= p) by (nonlinear_arith)
        requires
            d < 2 * l,
            0 < b,
            p == 2 * b * l,
    ;
    lemma_div_multiples_vanish(b, d);
    lemma_mul_is_commutative(b, d);
    lemma_div_is_ordered(b * d, p, d);
    assert(p / d >= b);
    assert(p < d * (2 * b - 1)) by (nonlinear_arith)
        requires
            l < d,
            1 <= l,
            2 * l <= b,
            p == 2 * b * l,
    ;
    vstd::arithmetic::div_mod::lemma_multiply_divide_lt(p, d, 2 * b - 1);
    assert(p / d < 2 * b - 1);
}

/// Correctness of round-up magic-number division: for a word bound `b`, a
/// divisor `d` strictly between `l` and `2l`, and the round-up multiplier
/// `mp = floor(2bl / d) + 1`, multiplying any `x < b` by `mp` and dividing by
/// `2bl` yields exactly `x / d`.
proof fn lemma_magic_division(x: int, d: int, l: int, b: int, mp: int)
    requires
        1 <= l,
        l < d,
        d < 2 * l,
        2 * l <= b,
        0 <= x < b,
        mp == (2 * b * l) / d + 1,
    ensures
        (x * mp) / (2 * b * l) == x / d,
{
    let p = 2 * b * l;
    assert(p > 0) by (nonlinear_arith)
        requires
            1 <= l,
            2 <= b,
            p == 2 * b * l,
    ;
    let e = mp * d - p;
    lemma_fundamental_div_mod(p, d);
    lemma_mod_division_less_than_divisor(p, d);
    assert(mp * d == (p / d) * d + d) by (nonlinear_arith)
        requires
            mp == p / d + 1,
    ;
    lemma_mul_is_commutative(d, p / d);
    assert(e == d - p % d);
    assert(1 <= e <= d);
    assert(x * e < p) by (nonlinear_arith)
        requires
            0 <= x < b,
            1 <= e <= d,
            d < 2 * l,
            p == 2 * b * l,
            1 <= l,
    ;
    let q0 = x / d;
    let r0 = x % d;
    lemma_fundamental_div_mod(x, d);
    lemma_mod_division_less_than_divisor(x, d);
    lemma_div_pos_is_pos(x, d);
    assert(d * (x * mp) == d * (q0 * p) + (r0 * p + x * e)) by (nonlinear_arith)
        requires
            x == d * q0 + r0,
            mp * d == p + e,
    ;
    assert(0 <= r0 * p + x * e && r0 * p + x * e < d * p) by (nonlinear_arith)
        requires
            x * e < p,
            0 <= r0,
            r0 < d,
            p > 0,
            x >= 0,
            e >= 0,
    ;
    assert(q0 * p <= x * mp && x * mp < q0 * p + p) by (nonlinear_arith)
        requires
            d * (x * mp) == d * (q0 * p) + (r0 * p + x * e),
            0 <= r0 * p + x * e,
            r0 * p + x * e < d * p,
            d > 0,
    ;
    lemma_fundamental_div_mod_converse_div(x * mp, p, q0, x * mp - q0 * p);
}

/// Branch-free unsigned division and remainder by a `u32` divisor fixed at
/// construction time.
#[derive(Copy, Clone)]
pub struct DividerU32 {
    magic: u32,
    more: u8,
    divisor: u32,
}

impl DividerU32 {
    /// The divisor this divider was built for.
    pub closed spec fn spec_divisor(self) -> u32 {
        self.divisor
    }

    /// The stored constants describe the stored divisor: either the divisor
    /// is the power of two `2^(more + 1)` and no multiplier is kept, or
    /// `2^more < divisor < 2^(more + 1)` and the multiplier is the round-up
    /// magic number for the divisor, offset by the word bound `2^32`.
    pub closed spec fn wf(self) -> bool {
        &&& 2 <= self.divisor
        &&& if self.magic == 0 {
            &&& self.more <= 30
            &&& self.divisor == pow2((self.more + 1) as nat)
        } else {
            &&& 1 <= self.more <= 31
            &&& pow2(self.more as nat) < self.divisor < pow2((self.more + 1) as nat)
            &&& self.magic == pow2((33 + self.more) as nat) as int / self.divisor as int + 1
                - pow2(32)
        }
    }

    /// Precompute the division constants for `divisor`.
    pub fn new(divisor: u32) -> (r: Self)
        requires
            2 <= divisor,
        ensures
            r.wf(),
            r.spec_divisor() == divisor,
    {
        let lz = divisor.leading_zeros();
        proof {
            axiom_u32_leading_zeros(divisor);
            if lz >= 31 {
                assert(divisor >> 1u32 == 0 ==> divisor < 2) by (bit_vector);
            }
        }
        let floor_log_2_d: u32 = 31 - lz;
        let ghost k = floor_log_2_d;
        let ghost k1: u32 = (k + 1) as u32;
        proof {
            // The leading-zero count brackets the divisor between powers of two.
            assert((divisor >> k) & 1u32 != 0u32);
            assert(divisor >> k1 == 0);
            assert(divisor >= (1u32 << k)) by (bit_vector)
                requires
                    (divisor >> k) & 1u32 != 0u32,
                    k < 32u32,
            ;
            assert(divisor >> 1u32 < (1u32 << k)) by (bit_vector)
                requires
                    divisor >> k1 == 0,
                    k1 == k + 1,
                    k < 32u32,
            ;
            vstd::bits::lemma_u32_pow2_no_overflow(k as nat);
            lemma_u32_shl_is_mul(1u32, k);
            assert(pow2(k as nat) <= divisor);
            // From divisor / 2 < 2^k conclude divisor < 2^(k + 1).
            lemma_u32_shr_is_div(divisor, 1u32);
            lemma_pow2_adds(1, k as nat);
            lemma2_to64();
            assert(divisor < pow2((k + 1) as nat)) by {
                lemma_fundamental_div_mod(divisor as int, 2);
                assert(divisor as int == 2 * (divisor as int / 2) + divisor as int % 2);
            }
        }
        if (divisor & (divisor - 1)) == 0 {
            proof {
                let dm1: u32 = (divisor - 1) as u32;
                assert(divisor == (1u32 << k)) by (bit_vector)
                    requires
                        dm1 == divisor - 1,
                        (divisor & dm1) == 0,
                        (divisor >> k) & 1u32 != 0u32,
                        k < 32u32,
                ;
            }
            DividerU32 { magic: 0, more: (floor_log_2_d - 1) as u8, divisor }
        } else {
            proof {
                // Not a power of two, so the lower bracket is strict.
                let dm1: u32 = (divisor - 1) as u32;
                assert(divisor == (1u32 << k) ==> (divisor & dm1) == 0) by (bit_vector)
                    requires
                        dm1 == divisor - 1,
                        2 <= divisor,
                ;
                assert(pow2(k as nat) < divisor);
                lemma_pow2_strictly_increases(k as nat, 32);
                lemma2_to64();
                lemma2_to64_rest();
            }
            let num: u64 = (1u64 << floor_log_2_d) << 32;
            let ghost d = divisor as int;
            let ghost l = pow2(k as nat) as int;
            let ghost b = pow2(32) as int;
            proof {
                lemma_u64_pow2_no_overflow(k as nat);
                lemma_u64_shl_is_mul(1u64, k as u64);
                lemma_pow2_adds(k as nat, 32);
                lemma_pow2_strictly_increases((k + 32) as nat, 64);
                lemma_u64_shl_is_mul((1u64 << floor_log_2_d), 32u64);
                assert(num == pow2((k + 32) as nat));
                assert(num == l * b) by {
                    lemma_pow2_adds(k as nat, 32);
                }
            }
            let proposed_m1: u64 = num / (divisor as u64);
            let rem1: u64 = num % (divisor as u64);
            let ghost m1 = proposed_m1 as int;
            proof {
                // The first quotient fits in 32 bits.
                assert(num < d * b) by (nonlinear_arith)
                    requires
                        num == l * b,
                        l < d,
                        b > 0,
                ;
                vstd::arithmetic::div_mod::lemma_multiply_divide_lt(num as int, d, b);
                lemma_mod_division_less_than_divisor(num as int, d);
            }
            let mut proposed_m: u32 = proposed_m1 as u32;
            let rem: u32 = rem1 as u32;

            let ghost p = 2 * b * l;
            let ghost bigm = p / d;
            proof {
                assert(2 * (num as int) == p) by (nonlinear_arith)
                    requires
                        num == l * b,
                        p == 2 * b * l,
                ;
                lemma_double_division(num as int, d);
                assert(bigm == 2 * m1 + if 2 * (rem1 as int) >= d {
                    1int
                } else {
                    0int
                });
                lemma_magic_bounds(d, l, b);
                assert(b <= bigm <= 2 * b - 2);
            }
            // Double the quotient and fold in the carry from the doubled
            // remainder; the top bit falls off the word exactly once.
            proposed_m = proposed_m.wrapping_add(proposed_m);
            let twice_rem = rem.wrapping_add(rem);
            if twice_rem >= divisor || twice_rem < rem {
                proposed_m = proposed_m.wrapping_add(1);
            }
            proof {
                assert(proposed_m == bigm - b);
            }
            proof {
                assert((k | 0x40) == k + 64) by (bit_vector)
                    requires
                        k <= 31u32,
                ;
            }
            let more: u8 = ((floor_log_2_d | 0x40) as u8) & 0x1F;
            proof {
                let m8 = (floor_log_2_d | 0x40) as u8;
                assert(m8 & 0x1F == m8 - 64) by (bit_vector)
                    requires
                        64 <= m8 <= 95,
                ;
                assert(more == k);
            }
            let magic = 1u32.wrapping_add(proposed_m);
            proof {
                assert(magic == bigm + 1 - b);
                lemma_pow2_adds(1, (32 + k) as nat);
                assert(pow2((33 + k) as nat) as int == p) by (nonlinear_arith)
                    requires
                        pow2((33 + k) as nat) == 2 * pow2((32 + k) as nat),
                        pow2((32 + k) as nat) == l * b,
                        p == 2 * b * l,
                ;
            }
            DividerU32 { more, magic, divisor }
        }
    }

    /// Quotient of `x` by the stored divisor, computed without dividing.
    pub fn divide(&self, x: u32) -> (r: u32)
        requires
            self.wf(),
        ensures
            r == x as int / self.spec_divisor() as int,
    {
        proof {
            lemma2_to64();
            lemma2_to64_rest();
            assert(x as int * self.magic as int <= u64::MAX) by (nonlinear_arith)
                requires
                    x <= 0xffff_ffffu32,
                    self.magic <= 0xffff_ffffu32,
            ;
        }
        let prod: u64 = (x as u64) * (self.magic as u64);
        let q64: u64 = prod >> 32;
        proof {
            lemma_u64_shr_is_div(prod, 32);
            let b = pow2(32) as int;
            assert(prod < b * b) by (nonlinear_arith)
                requires
                    prod == x as int * self.magic as int,
                    x < b,
                    self.magic < b,
                    b > 0,
            ;
            vstd::arithmetic::div_mod::lemma_multiply_divide_lt(prod as int, b, b);
            let xp1 = x as int + 1;
            assert((prod as int) < xp1 * b) by (nonlinear_arith)
                requires
                    prod == x as int * self.magic as int,
                    self.magic < b,
                    xp1 == x as int + 1,
                    x >= 0,
                    b > 0,
            ;
            vstd::arithmetic::div_mod::lemma_multiply_divide_lt(prod as int, b, xp1);
            assert(q64 <= x);
        }
        let q: u32 = q64 as u32;
        proof {
            lemma_u32_shr_is_div((x - q) as u32, 1u32);
        }
        let t: u32 = ((x - q) >> 1) + q;
        let r = t >> (self.more as u32);
        proof {
            lemma_u32_shr_is_div(t, self.more as u32);
            let d = self.divisor as int;
            let b = pow2(32) as int;
            if self.magic == 0 {
                // Pure shift: q is zero and the two shifts divide by
                // 2^(more + 1) == divisor.
                let s = self.more as nat;
                lemma_pow2_pos(s);
                lemma_div_denominator(x as int, 2, pow2(s) as int);
                lemma_pow2_adds(1, s);
                assert(2 * pow2(s) == pow2((s + 1) as nat));
            } else {
                let k = self.more as nat;
                let l = pow2(k) as int;
                let p = 2 * b * l;
                let mp = self.magic + b;
                lemma_pow2_pos(k);
                lemma_pow2_adds(1, (32 + k) as nat);
                lemma_pow2_adds(32, k);
                assert(pow2((33 + k) as nat) as int == p) by (nonlinear_arith)
                    requires
                        pow2((33 + k) as nat) == 2 * pow2((32 + k) as nat),
                        pow2((32 + k) as nat) == pow2(32) * pow2(k),
                        p == 2 * (pow2(32) as int) * (pow2(k) as int),
                ;
                assert(mp == p / d + 1);
                // q + x recovers the quotient by the full multiplier mp.
                lemma_hoist_over_denominator(x as int * self.magic as int, x as int, b as nat);
                assert(x as int * self.magic as int + x as int * b == x as int * mp)
                    by (nonlinear_arith)
                    requires
                        mp == self.magic + b,
                ;
                assert(q + x == (x as int * mp) / b);
                // The halving step averages x and q.
                lemma_hoist_over_denominator((x - q) as int, q as int, 2nat);
                assert(t == (x as int + q as int) / 2);
                // Compose the three divisions into one.
                lemma_div_denominator(x as int * mp, b, 2);
                lemma_mul_is_commutative(b, 2);
                assert(t == (x as int * mp) / (2 * b));
                lemma_div_denominator(x as int * mp, 2 * b, l);
                assert(r == (x as int * mp) / (2 * b * l));
                lemma_magic_division(x as int, d, l, b, mp);
            }
        }
        r
    }

    /// Remainder of `x` by the stored divisor, computed from the quotient.
    pub fn modulo(&self, x: u32) -> (r: u32)
        requires
            self.wf(),
        ensures
            r == x as int % self.spec_divisor() as int,
    {
        let q = self.divide(x);
        proof {
            lemma_fundamental_div_mod(x as int, self.divisor as int);
            lemma_mod_division_less_than_divisor(x as int, self.divisor as int);
            lemma_mul_is_commutative(self.divisor as int, q as int);
        }
        x - q * self.divisor
    }
}

/// Branch-free unsigned division and remainder by a `u64` divisor fixed at
/// construction time.
#[derive(Copy, Clone)]
pub struct DividerU64 {
    magic: u64,
    more: u8,
    divisor: u64,
}

impl DividerU64 {
    /// The divisor this divider was built for.
    pub closed spec fn spec_divisor(self) -> u64 {
        self.divisor
    }

    /// The stored constants describe the stored divisor, exactly as for the
    /// 32-bit divider but with word bound `2^64`.
    pub closed spec fn wf(self) -> bool {
        &&& 2 <= self.divisor
        &&& if self.magic == 0 {
            &&& self.more <= 62
            &&& self.divisor == pow2((self.more + 1) as nat)
        } else {
            &&& 1 <= self.more <= 63
            &&& pow2(self.more as nat) < self.divisor < pow2((self.more + 1) as nat)
            &&& self.magic == pow2((65 + self.more) as nat) as int / self.divisor as int + 1
                - pow2(64)
        }
    }

    /// Precompute the division constants for `divisor`.
    pub fn new(divisor: u64) -> (r: Self)
        requires
            2 <= divisor,
        ensures
            r.wf(),
            r.spec_divisor() == divisor,
    {
        let lz = divisor.leading_zeros();
        proof {
            axiom_u64_leading_zeros(divisor);
            if lz >= 63 {
                assert(divisor >> 1u64 == 0 ==> divisor < 2) by (bit_vector);
            }
        }
        let floor_log_2_d: u64 = 63 - lz as u64;
        let ghost k = floor_log_2_d;
        let ghost k1: u64 = (k + 1) as u64;
        proof {
            // The leading-zero count brackets the divisor between powers of two.
            assert((divisor >> k) & 1u64 != 0u64);
            assert(divisor >> k1 == 0);
            assert(divisor >= (1u64 << k)) by (bit_vector)
                requires
                    (divisor >> k) & 1u64 != 0u64,
                    k < 64u64,
            ;
            assert(divisor >> 1u64 < (1u64 << k)) by (bit_vector)
                requires
                    divisor >> k1 == 0,
                    k1 == k + 1,
                    k < 64u64,
            ;
            lemma_u64_pow2_no_overflow(k as nat);
            lemma_u64_shl_is_mul(1u64, k);
            assert(pow2(k as nat) <= divisor);
            // From divisor / 2 < 2^k conclude divisor < 2^(k + 1).
            lemma_u64_shr_is_div(divisor, 1u64);
            lemma_pow2_adds(1, k as nat);
            lemma2_to64();
            assert(divisor < pow2((k + 1) as nat)) by {
                lemma_fundamental_div_mod(divisor as int, 2);
                assert(divisor as int == 2 * (divisor as int / 2) + divisor as int % 2);
            }
        }
        if (divisor & (divisor - 1)) == 0 {
            proof {
                let dm1: u64 = (divisor - 1) as u64;
                assert(divisor == (1u64 << k)) by (bit_vector)
                    requires
                        dm1 == divisor - 1,
                        (divisor & dm1) == 0,
                        (divisor >> k) & 1u64 != 0u64,
                        k < 64u64,
                ;
            }
            DividerU64 { magic: 0, more: (floor_log_2_d - 1) as u8, divisor }
        } else {
            proof {
                // Not a power of two, so the lower bracket is strict.
                let dm1: u64 = (divisor - 1) as u64;
                assert(divisor == (1u64 << k) ==> (divisor & dm1) == 0) by (bit_vector)
                    requires
                        dm1 == divisor - 1,
                        2 <= divisor,
                ;
                assert(pow2(k as nat) < divisor);
                lemma_pow2_strictly_increases(k as nat, 64);
                lemma2_to64();
                lemma2_to64_rest();
            }
            let low: u64 = 1u64 << floor_log_2_d;
            let num: u128 = (low as u128) << 64;
            let ghost d = divisor as int;
            let ghost l = pow2(k as nat) as int;
            let ghost b = pow2(64) as int;
            proof {
                assert(low == pow2(k as nat));
                assert((low as u128) << 64u128 == (low as u128) * 0x1_0000_0000_0000_0000u128)
                    by (bit_vector)
                    requires
                        low <= 0x8000_0000_0000_0000u64,
                ;
                lemma_pow2_adds(k as nat, 64);
                assert(num == l * b) by (nonlinear_arith)
                    requires
                        num == l * 0x1_0000_0000_0000_0000u128,
                        b == 0x1_0000_0000_0000_0000u128,
                ;
            }
            let proposed_m1: u128 = num / (divisor as u128);
            let rem1: u128 = num % (divisor as u128);
            let ghost m1 = proposed_m1 as int;
            proof {
                // The first quotient fits in 64 bits.
                assert(num < d * b) by (nonlinear_arith)
                    requires
                        num == l * b,
                        l < d,
                        b > 0,
                ;
                vstd::arithmetic::div_mod::lemma_multiply_divide_lt(num as int, d, b);
                lemma_mod_division_less_than_divisor(num as int, d);
            }
            let mut proposed_m: u64 = proposed_m1 as u64;
            let rem: u64 = rem1 as u64;

            let ghost p = 2 * b * l;
            let ghost bigm = p / d;
            proof {
                assert(2 * (num as int) == p) by (nonlinear_arith)
                    requires
                        num == l * b,
                        p == 2 * b * l,
                ;
                lemma_double_division(num as int, d);
                assert(bigm == 2 * m1 + if 2 * (rem1 as int) >= d {
                    1int
                } else {
                    0int
                });
                lemma_magic_bounds(d, l, b);
                assert(b <= bigm <= 2 * b - 2);
            }
            // Double the quotient and fold in the carry from the doubled
            // remainder; the top bit falls off the word exactly once.
            proposed_m = proposed_m.wrapping_add(proposed_m);
            let twice_rem = rem.wrapping_add(rem);
            if twice_rem >= divisor || twice_rem < rem {
                proposed_m = proposed_m.wrapping_add(1);
            }
            proof {
                assert(proposed_m == bigm - b);
                assert((k | 0x40) == k + 64) by (bit_vector)
                    requires
                        k <= 63u64,
                ;
            }
            let more: u8 = ((floor_log_2_d | 0x40) as u8) & 0x3F;
            proof {
                let m8 = (floor_log_2_d | 0x40) as u8;
                assert(m8 & 0x3F == m8 - 64) by (bit_vector)
                    requires
                        64 <= m8 <= 127,
                ;
                assert(more == k);
            }
            let magic = 1u64.wrapping_add(proposed_m);
            proof {
                assert(magic == bigm + 1 - b);
                lemma_pow2_adds(1, (64 + k) as nat);
                lemma_pow2_adds(64, k as nat);
                assert(pow2((65 + k) as nat) as int == p) by (nonlinear_arith)
                    requires
                        pow2((65 + k) as nat) == 2 * pow2((64 + k) as nat),
                        pow2((64 + k) as nat) == pow2(64) * pow2(k as nat),
                        l == pow2(k as nat),
                        b == pow2(64),
                        p == 2 * b * l,
                ;
            }
            DividerU64 { more, magic, divisor }
        }
    }

    /// Quotient of `x` by the stored divisor, computed without dividing.
    pub fn divide(&self, x: u64) -> (r: u64)
        requires
            self.wf(),
        ensures
            r == x as int / self.spec_divisor() as int,
    {
        proof {
            lemma2_to64();
            lemma2_to64_rest();
            assert(x as int * self.magic as int <= u128::MAX) by (nonlinear_arith)
                requires
                    x <= 0xffff_ffff_ffff_ffffu64,
                    self.magic <= 0xffff_ffff_ffff_ffffu64,
            ;
        }
        let prod: u128 = (x as u128) * (self.magic as u128);
        let q128: u128 = prod >> 64;
        proof {
            lemma_u128_shr_is_div(prod, 64);
            let b = pow2(64) as int;
            assert(prod < b * b) by (nonlinear_arith)
                requires
                    prod == x as int * self.magic as int,
                    x < b,
                    self.magic < b,
                    b > 0,
            ;
            vstd::arithmetic::div_mod::lemma_multiply_divide_lt(prod as int, b, b);
            let xp1 = x as int + 1;
            assert((prod as int) < xp1 * b) by (nonlinear_arith)
                requires
                    prod == x as int * self.magic as int,
                    self.magic < b,
                    xp1 == x as int + 1,
                    x >= 0,
                    b > 0,
            ;
            vstd::arithmetic::div_mod::lemma_multiply_divide_lt(prod as int, b, xp1);
            assert(q128 <= x);
        }
        let q: u64 = q128 as u64;
        proof {
            lemma_u64_shr_is_div((x - q) as u64, 1u64);
        }
        let t: u64 = ((x - q) >> 1) + q;
        let r = t >> (self.more as u64);
        proof {
            lemma_u64_shr_is_div(t, self.more as u64);
            let d = self.divisor as int;
            let b = pow2(64) as int;
            if self.magic == 0 {
                // Pure shift: q is zero and the two shifts divide by
                // 2^(more + 1) == divisor.
                let s = self.more as nat;
                lemma_pow2_pos(s);
                lemma_div_denominator(x as int, 2, pow2(s) as int);
                lemma_pow2_adds(1, s);
                assert(2 * pow2(s) == pow2((s + 1) as nat));
            } else {
                let k = self.more as nat;
                let l = pow2(k) as int;
                let p = 2 * b * l;
                let mp = self.magic + b;
                lemma_pow2_pos(k);
                lemma_pow2_adds(1, (64 + k) as nat);
                lemma_pow2_adds(64, k);
                assert(pow2((65 + k) as nat) as int == p) by (nonlinear_arith)
                    requires
                        pow2((65 + k) as nat) == 2 * pow2((64 + k) as nat),
                        pow2((64 + k) as nat) == pow2(64) * pow2(k),
                        b == pow2(64),
                        l == pow2(k),
                        p == 2 * b * l,
                ;
                assert(mp == p / d + 1);
                // q + x recovers the quotient by the full multiplier mp.
                lemma_hoist_over_denominator(x as int * self.magic as int, x as int, b as nat);
                assert(x as int * self.magic as int + x as int * b == x as int * mp)
                    by (nonlinear_arith)
                    requires
                        mp == self.magic + b,
                ;
                assert(q + x == (x as int * mp) / b);
                // The halving step averages x and q.
                lemma_hoist_over_denominator((x - q) as int, q as int, 2nat);
                assert(t == (x as int + q as int) / 2);
                // Compose the three divisions into one.
                lemma_div_denominator(x as int * mp, b, 2);
                lemma_mul_is_commutative(b, 2);
                assert(t == (x as int * mp) / (2 * b));
                lemma_div_denominator(x as int * mp, 2 * b, l);
                assert(r == (x as int * mp) / (2 * b * l));
                lemma_magic_division(x as int, d, l, b, mp);
            }
        }
        r
    }

    /// Remainder of `x` by the stored divisor, computed from the quotient.
    pub fn modulo(&self, x: u64) -> (r: u64)
        requires
            self.wf(),
        ensures
            r == x as int % self.spec_divisor() as int,
    {
        let q = self.divide(x);
        proof {
            lemma_fundamental_div_mod(x as int, self.divisor as int);
            lemma_mod_division_less_than_divisor(x as int, self.divisor as int);
            lemma_mul_is_commutative(self.divisor as int, q as int);
        }
        x - q * self.divisor
    }
}

/// Branch-free division and remainder by a `usize` divisor, backed by the
/// 64-bit divider.
#[derive(Copy, Clone)]
pub enum DividerUsize {
    U64(DividerU64),
}

impl DividerUsize {
    /// The divisor this divider was built for.
    pub closed spec fn spec_divisor(self) -> usize {
        match self {
            DividerUsize::U64(d) => d.spec_divisor() as usize,
        }
    }

    /// The inner divider is well formed and its divisor is representable.
    pub closed spec fn wf(self) -> bool {
        match self {
            DividerUsize::U64(d) => d.wf() && d.spec_divisor() <= usize::MAX,
        }
    }

    /// Precompute the division constants for `divisor`.
    #[inline(always)]
    pub fn new(divisor: usize) -> (r: Self)
        requires
            2 <= divisor,
        ensures
            r.wf(),
            r.spec_divisor() == divisor,
    {
        DividerUsize::U64(DividerU64::new(divisor as u64))
    }

    /// Quotient of `x` by the stored divisor, computed without dividing.
    #[inline(always)]
    pub fn divide(&self, x: usize) -> (r: usize)
        requires
            self.wf(),
        ensures
            r == x as int / self.spec_divisor() as int,
    {
        match self {
            DividerUsize::U64(d) => {
                let q = d.divide(x as u64);
                proof {
                    vstd::arithmetic::div_mod::lemma_div_nonincreasing(
                        x as int,
                        d.spec_divisor() as int,
                    );
                }
                q as usize
            },
        }
    }

    /// Remainder of `x` by the stored divisor, computed from the quotient.
    #[inline(always)]
    pub fn modulo(&self, x: usize) -> (r: usize)
        requires
            self.wf(),
        ensures
            r == x as int % self.spec_divisor() as int,
    {
        match self {
            DividerUsize::U64(d) => {
                let m = d.modulo(x as u64);
                proof {
                    lemma_mod_division_less_than_divisor(x as int, d.spec_divisor() as int);
                }
                m as usize
            },
        }
    }
}

} // verus!
