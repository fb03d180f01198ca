use vstd::prelude::*;

use vstd::arithmetic::mul::lemma_mul_is_commutative;
use vstd::arithmetic::power::{
    lemma_pow0, lemma_pow1, lemma_pow_adds, lemma_pow_increases, lemma_pow_positive,
    lemma_pow_strictly_increases_converse, lemma_square_is_pow2, pow,
};

verus! {

/// `m` is a pure power of `base` (including `base^0 == 1`).
pub open spec fn is_power_of(base: int, m: int) -> bool {
    exists|e: nat| m == pow(base, e)
}

/// `m` is a pure power of one of the transform radices 2, 3 or 5. These are
/// the candidates the size search below considers; every one of them is in
/// particular a product of the factors 2, 3 and 5 only.
pub open spec fn is_radix_power(m: int) -> bool {
    is_power_of(2, m) || is_power_of(3, m) || is_power_of(5, m)
}

/// `m` is a positive product of the prime factors 2, 3 and 5 alone: a
/// "good" FFT size.
pub open spec fn is_five_smooth(m: int) -> bool
    decreases m,
{
    m >= 1 && (m == 1 || (m % 2 == 0 && is_five_smooth(m / 2)) || (m % 3 == 0 && is_five_smooth(
        m / 3,
    )) || (m % 5 == 0 && is_five_smooth(m / 5)))
}

proof fn lemma_pow_five_smooth(b: int, e: nat)
    requires
        b == 2 || b == 3 || b == 5,
    ensures
        is_five_smooth(pow(b, e)),
    decreases e,
{
    if e == 0 {
        lemma_pow0(b);
        assert(is_five_smooth(1));
    } else {
        lemma_pow_five_smooth(b, (e - 1) as nat);
        let p = pow(b, (e - 1) as nat);
        lemma_pow_positive(b, (e - 1) as nat);
        assert(pow(b, e) == b * p) by {
            lemma_pow1(b);
            lemma_pow_adds(b, 1, (e - 1) as nat);
        }
        vstd::arithmetic::div_mod::lemma_mod_multiples_basic(p, b);
        vstd::arithmetic::div_mod::lemma_div_multiples_vanish(p, b);
        lemma_mul_is_commutative(b, p);
        assert(b * p >= b) by (nonlinear_arith)
            requires
                b >= 2,
                p >= 1,
        ;
        assert(is_five_smooth(b * p));
    }
}

/// Every size the search below can return, short of the overflow sentinel,
/// is a "good" FFT size: a pure power of 2, 3 or 5 factors into those
/// primes and nothing else.
pub proof fn lemma_radix_power_is_five_smooth(m: int)
    requires
        is_radix_power(m),
    ensures
        is_five_smooth(m),
{
    if is_power_of(2, m) {
        let e = choose|e: nat| m == pow(2, e);
        lemma_pow_five_smooth(2, e);
    } else if is_power_of(3, m) {
        let e = choose|e: nat| m == pow(3, e);
        lemma_pow_five_smooth(3, e);
    } else {
        let e = choose|e: nat| m == pow(5, e);
        lemma_pow_five_smooth(5, e);
    }
}

/// Smallest power of `base` that is at least `n`, as a `usize`; when every
/// such power overflows `usize`, the maximum `usize` value stands in for
/// the out-of-range candidate so that it never wins the comparison below.
fn next_pow_base(base: usize, n: usize) -> (r: usize)
    requires
        2 <= base <= 5,
        1 <= n,
    ensures
        n <= r,
        r == usize::MAX || is_power_of(base as int, r as int),
        forall|e: nat| pow(base as int, e) >= n ==> pow(base as int, e) >= r,
{
    let mut p: u128 = 1;
    let target: u128 = n as u128;
    let b: u128 = base as u128;
    let ghost mut j: nat = 0;
    proof {
        lemma_pow0(base as int);
    }
    while p < target
        invariant
            2 <= base <= 5,
            b == base,
            target == n,
            1 <= n,
            1 <= p <= usize::MAX,
            p == pow(base as int, j),
            j > 0 ==> pow(base as int, (j - 1) as nat) < target,
        decreases vstd::math::max(0, target - p),
    {
        proof {
            assert(p as int * b as int <= u128::MAX) by (nonlinear_arith)
                requires
                    p <= 0xffff_ffff_ffff_ffffu128,
                    b <= 5,
            ;
        }
        let next = p * b;
        proof {
            assert(next == pow(base as int, (j + 1) as nat)) by {
                lemma_pow_adds(base as int, j, 1);
                lemma_pow1(base as int);
                lemma_mul_is_commutative(p as int, base as int);
            }
            assert(next > p) by (nonlinear_arith)
                requires
                    next == p as int * b as int,
                    b >= 2,
                    p >= 1,
            ;
        }
        if next > usize::MAX as u128 {
            proof {
                // Every power of the base that reaches n exceeds the usize
                // range, so the sentinel is a sound stand-in.
                assert forall|e: nat| pow(base as int, e) >= n implies pow(
                    base as int,
                    e,
                ) >= usize::MAX by {
                    lemma_pow_positive(base as int, e);
                    if e < j + 1 {
                        lemma_pow_increases(base as nat, e, j);
                        assert(pow(base as int, e) <= p);
                    } else {
                        lemma_pow_increases(base as nat, (j + 1) as nat, e);
                    }
                }
            }
            return usize::MAX;
        }
        p = next;
        proof {
            j = j + 1;
        }
    }
    proof {
        // p is the least power of the base reaching n.
        assert forall|e: nat| pow(base as int, e) >= n implies pow(base as int, e) >= p by {
            if j > 0 {
                if pow(base as int, e) < p {
                    lemma_pow_strictly_increases_converse(base as nat, e, j);
                    lemma_pow_increases(base as nat, e, (j - 1) as nat);
                }
            }
        }
    }
    p as usize
}

/// Find the next "good" FFT size greater than or equal to `n`.
///
/// A "good" FFT size is an integer whose prime factorization contains only
/// the factors 2, 3, and 5; such lengths are efficient for FFT
/// implementations. The search considers the pure powers of 2, 3, 4 and 5
/// and returns the smallest one that reaches `n`, which the contract states
/// exactly: no pure power of 2, 3 or 5 lies between `n` and the result.
/// Requests of at most 2 return 2. When every candidate overflows the
/// platform's size type, the maximum representable value is returned rather
/// than a wrapped-around length.
pub fn fft_next_good_size(n: usize) -> (r: usize)
    ensures
        n <= 2 ==> r == 2,
        2 <= r,
        n <= r,
        r == usize::MAX || is_radix_power(r as int),
        n > 2 ==> forall|m: int| n <= m < r ==> !is_radix_power(m),
{
    if n <= 2 {
        proof {
            lemma_pow1(2);
            assert(2int == pow(2, 1));
        }
        return 2;
    }

    let p2 = next_pow_base(2, n);
    let p3 = next_pow_base(3, n);
    let p4 = next_pow_base(4, n);
    let p5 = next_pow_base(5, n);

    let mut r = p2;
    if p3 < r {
        r = p3;
    }
    if p4 < r {
        r = p4;
    }
    if p5 < r {
        r = p5;
    }

    proof {
        // A power of four is in particular a power of two.
        if r == p4 && p4 < usize::MAX {
            let e = choose|e: nat| p4 as int == pow(4, e);
            vstd::arithmetic::power::lemma_pow_multiplies(2, 2, e);
            lemma_square_is_pow2(2);
            assert(p4 as int == pow(2, (2 * e) as nat));
        }
        // Nothing in [n, r) is a pure power of 2, 3 or 5: any such power
        // reaching n also reaches the per-base minimum, which r never
        // exceeds.
        assert forall|m: int| n <= m < r implies !is_radix_power(m) by {
            if is_power_of(2, m) {
                let e = choose|e: nat| m == pow(2, e);
                assert(pow(2, e) >= p2);
            }
            if is_power_of(3, m) {
                let e = choose|e: nat| m == pow(3, e);
                assert(pow(3, e) >= p3);
            }
            if is_power_of(5, m) {
                let e = choose|e: nat| m == pow(5, e);
                assert(pow(5, e) >= p5);
            }
        }
    }
    r
}

} // verus!
