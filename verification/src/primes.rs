//! The CPU-bound workload: primality by trial division, and the list of
//! primes in a range.

use vstd::prelude::*;

verus! {

/// `n` is prime: at least two, and no number strictly between one and `n`
/// divides it.
pub open spec fn is_prime_spec(n: int) -> bool {
    n >= 2 && forall|d: int| 2 <= d < n ==> #[trigger] (n % d) != 0
}

/// The primes `p` with `lo <= p < hi`, in ascending order.
pub open spec fn primes_in(lo: int, hi: int) -> Seq<u32>
    decreases hi - lo,
{
    if lo >= hi {
        Seq::empty()
    } else if is_prime_spec(hi - 1) {
        primes_in(lo, hi - 1).push((hi - 1) as u32)
    } else {
        primes_in(lo, hi - 1)
    }
}

/// `primes_in(lo, hi)` lists exactly the primes of `[lo, hi)`, each once, in
/// ascending order: every entry is a prime of the range, the entries
/// increase strictly, and every prime of the range is an entry.
pub proof fn lemma_primes_in_lists_the_primes(lo: int, hi: int)
    requires
        0 <= lo,
        hi <= u32::MAX + 1,
    ensures
        forall|i: int|
            0 <= i < primes_in(lo, hi).len() ==> lo <= (#[trigger] primes_in(lo, hi)[i]) < hi
                && is_prime_spec(primes_in(lo, hi)[i] as int),
        forall|i: int, j: int|
            0 <= i < j < primes_in(lo, hi).len() ==> primes_in(lo, hi)[i] < primes_in(lo, hi)[j],
        forall|p: u32| lo <= p < hi && is_prime_spec(p as int) ==> primes_in(lo, hi).contains(p),
    decreases hi - lo,
{
    if lo < hi {
        lemma_primes_in_lists_the_primes(lo, hi - 1);
        let shorter = primes_in(lo, hi - 1);
        let all = primes_in(lo, hi);
        assert forall|p: u32| lo <= p < hi && is_prime_spec(p as int) implies all.contains(p) by {
            if p < hi - 1 {
                let i = choose|i: int| 0 <= i < shorter.len() && shorter[i] == p;
                assert(all[i] == p);
            } else {
                assert(all[all.len() - 1] == p);
            }
        }
    }
}

/// A multiple of an even number is even.
proof fn lemma_even_divisor(n: int, d: int)
    requires
        d > 0,
        d % 2 == 0,
        n % d == 0,
    ensures
        n % 2 == 0,
{
    let k: int = n / d;
    let m: int = d / 2;
    assert(n == d * k) by {
        vstd::arithmetic::div_mod::lemma_fundamental_div_mod(n, d);
    }
    assert(d == 2 * m);
    assert(n == 2 * (m * k)) by (nonlinear_arith)
        requires
            n == d * k,
            d == 2 * m,
    ;
    vstd::arithmetic::div_mod::lemma_mod_multiples_basic(m * k, 2);
    assert((m * k) * 2 == 2 * (m * k));
}

/// A divisor `d` of `n` with `1 < d < n` has a cofactor `n / d` that also
/// divides `n`, lies strictly between one and `n`, and is below `bound`
/// whenever `d >= bound` and `bound * bound > n`.
proof fn lemma_cofactor(n: int, d: int, bound: int)
    requires
        2 <= d < n,
        n % d == 0,
        0 < bound <= d,
        bound * bound > n,
    ensures
        2 <= n / d < bound,
        n % (n / d) == 0,
{
    let q: int = n / d;
    assert(n == d * q) by {
        vstd::arithmetic::div_mod::lemma_fundamental_div_mod(n, d);
    }
    assert(q >= 2) by (nonlinear_arith)
        requires
            n == d * q,
            2 <= d < n,
    ;
    assert(q < bound) by (nonlinear_arith)
        requires
            n == d * q,
            0 < bound <= d,
            bound * bound > n,
            q >= 2,
    ;
    assert(n % q == 0) by {
        vstd::arithmetic::div_mod::lemma_mod_multiples_basic(d, q);
    }
}

/// Whether `n` is prime, by trial division with the odd numbers up to the
/// square root of `n`.
pub fn is_prime(n: u32) -> (prime: bool)
    ensures
        prime == is_prime_spec(n as int),
{
    if n < 2 {
        return false;
    }
    if n == 2 {
        return true;
    }
    if n % 2 == 0 {
        assert(!is_prime_spec(n as int));
        return false;
    }
    let mut i: u32 = 3;
    while i <= n / i
        invariant
            3 <= i <= 65537,
            i % 2 == 1,
            n > 2,
            n % 2 == 1,
            forall|d: int| 2 <= d < i ==> #[trigger] (n as int % d) != 0,
        decreases 65537 - i,
    {
        assert(i * i <= n) by (nonlinear_arith)
            requires
                i <= n / i,
                i > 0,
        ;
        assert(i < 65536) by (nonlinear_arith)
            requires
                i * i <= n,
                n < 0x1_0000_0000,
                i >= 0,
        ;
        if n % i == 0 {
            assert(i < n) by (nonlinear_arith)
                requires
                    i * i <= n,
                    i >= 3,
            ;
            assert(!is_prime_spec(n as int));
            return false;
        }
        proof {
            if n as int % (i + 1) == 0 {
                lemma_even_divisor(n as int, i + 1);
            }
        }
        i = i + 2;
    }
    proof {
        assert(i * i > n) by (nonlinear_arith)
            requires
                i > n / i,
                i > 0,
                n >= 0,
        ;
        assert forall|d: int| 2 <= d < n implies #[trigger] (n as int % d) != 0 by {
            if d >= i && n as int % d == 0 {
                lemma_cofactor(n as int, d, i as int);
            }
        }
    }
    true
}

/// The primes below `limit`, in ascending order.
pub fn calculate_primes(limit: u32) -> (primes: Vec<u32>)
    ensures
        primes@ == primes_in(2, limit as int),
{
    let mut primes: Vec<u32> = Vec::new();
    let mut num: u32 = 2;
    while num < limit
        invariant
            2 <= num,
            num <= limit || num == 2,
            primes@ == primes_in(2, num as int),
        decreases limit - num,
    {
        if is_prime(num) {
            primes.push(num);
        }
        num = num + 1;
    }
    primes
}

} // verus!
