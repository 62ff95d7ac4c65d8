use vstd::prelude::*;
use vstd::arithmetic::mul::lemma_mul_inequality;

verus! {

/// Largest supported index: for any starting pair below `2^32`, every term up
/// to this index stays below the field order (and so also fits in a 64-bit
/// accumulator).
pub const MAX_N: usize = 46;

/// Order of the Goldilocks field, `2^64 - 2^32 + 1`; every circuit wire holds
/// a canonical value below this prime.
pub const FIELD_ORDER: u64 = 0xffff_ffff_0000_0001;

/// The generalized Fibonacci recurrence over unbounded integers: term 0 is
/// `first`, term 1 is `second`, and each later term is the sum of the two
/// terms before it.
pub open spec fn fib_spec(first: nat, second: nat, n: nat) -> nat
    decreases n,
{
    if n == 0 {
        first
    } else if n == 1 {
        second
    } else {
        fib_spec(first, second, (n - 2) as nat) + fib_spec(first, second, (n - 1) as nat)
    }
}

/// Pair-stepping form of the same recurrence: `k` more steps starting from two
/// adjacent terms `a` and `b`. It unfolds linearly in `k`, which keeps proofs
/// about concrete indices cheap.
pub open spec fn fib_pair(a: nat, b: nat, k: nat) -> nat
    decreases k,
{
    if k == 0 {
        a
    } else {
        fib_pair(b, a + b, (k - 1) as nat)
    }
}

/// Stepping the pair form from terms `i` and `i + 1` for `k` steps lands on
/// term `i + k` of the recurrence.
proof fn lemma_fib_pair_shift(first: nat, second: nat, i: nat, k: nat)
    ensures
        fib_pair(fib_spec(first, second, i), fib_spec(first, second, i + 1), k)
            == fib_spec(first, second, i + k),
    decreases k,
{
    if k > 0 {
        assert(fib_spec(first, second, i + 2)
            == fib_spec(first, second, i) + fib_spec(first, second, i + 1));
        lemma_fib_pair_shift(first, second, i + 1, (k - 1) as nat);
    }
}

/// The recurrence seeded with two ones, i.e. the standard Fibonacci numbers
/// (term 0 and term 1 are both 1).
pub open spec fn fib_ones(n: nat) -> nat {
    fib_spec(1, 1, n)
}

/// The last in-domain term of the ones-seeded recurrence, by unfolding the
/// pair-stepping form.
proof fn lemma_fib_ones_value()
    ensures
        fib_ones(46) == 2971215073,
{
    lemma_fib_pair_shift(1, 1, 0, 46);
    assert(fib_pair(1, 1, 46) == 2971215073) by {
        reveal_with_fuel(fib_pair, 47);
    }
}

/// The ones-seeded recurrence never decreases from one index to the next.
proof fn lemma_fib_ones_mono(m: nat, n: nat)
    requires
        m <= n,
    ensures
        fib_ones(m) <= fib_ones(n),
    decreases n,
{
    if m < n && n > 1 {
        lemma_fib_ones_mono(m, (n - 1) as nat);
        assert(fib_ones(n) == fib_ones((n - 2) as nat) + fib_ones((n - 1) as nat));
    }
}

/// Every term of the recurrence is bounded by the matching standard Fibonacci
/// number scaled by a bound on the two starting values.
proof fn lemma_fib_scaled_bound(first: nat, second: nat, bound: nat, n: nat)
    requires
        first <= bound,
        second <= bound,
    ensures
        fib_spec(first, second, n) <= bound * fib_ones(n),
    decreases n,
{
    assert(bound * 1nat == bound) by (nonlinear_arith);
    if n == 0 {
        assert(fib_ones(0) == 1);
        assert(fib_spec(first, second, n) == first);
    } else if n == 1 {
        assert(fib_ones(1) == 1);
        assert(fib_spec(first, second, n) == second);
    } else {
        let f2: nat = fib_ones((n - 2) as nat);
        let f1: nat = fib_ones((n - 1) as nat);
        lemma_fib_scaled_bound(first, second, bound, (n - 2) as nat);
        lemma_fib_scaled_bound(first, second, bound, (n - 1) as nat);
        assert(fib_spec(first, second, n)
            == fib_spec(first, second, (n - 2) as nat) + fib_spec(first, second, (n - 1) as nat));
        assert(fib_ones(n) == f2 + f1);
        assert(bound * f2 + bound * f1 == bound * (f2 + f1)) by (nonlinear_arith);
    }
}

/// For starting values below `2^32` and an index in the supported domain, the
/// recurrence never reaches the field order, so it can be accumulated both in
/// a `u64` and in a Goldilocks field element without wrapping.
pub proof fn lemma_fib_fits(first: nat, second: nat, n: nat)
    requires
        first < 0x1_0000_0000,
        second < 0x1_0000_0000,
        n <= MAX_N,
    ensures
        fib_spec(first, second, n) < FIELD_ORDER,
{
    lemma_fib_scaled_bound(first, second, 0xffff_ffff, n);
    lemma_fib_ones_mono(n, 46);
    lemma_fib_ones_value();
    lemma_mul_inequality(fib_ones(n) as int, 2971215073, 0xffff_ffff);
    assert(0xffff_ffffnat * 2971215073 < 0xffff_ffff_0000_0001) by (nonlinear_arith);
}

/// The plain (non-circuit) recurrence: returns term `n` of the generalized
/// Fibonacci sequence seeded with `first` and `second`. Indices 0 and 1 return
/// the seeds themselves; the relation circuit, whose shape needs at least one
/// addition gate, supports indices from 2 up to `MAX_N`.
pub fn fibonacci(first: u32, second: u32, n: usize) -> (r: u64)
    requires
        n <= MAX_N,
    ensures
        r == fib_spec(first as nat, second as nat, n as nat),
{
    if n == 0 {
        return first as u64;
    }
    if n == 1 {
        return second as u64;
    }

    let mut prev1: u64 = first as u64;
    let mut prev2: u64 = second as u64;
    let mut current: u64 = 0;
    let mut i: usize = 2;
    while i <= n
        invariant
            2 <= i <= n + 1,
            n <= MAX_N,
            prev1 == fib_spec(first as nat, second as nat, (i - 2) as nat),
            prev2 == fib_spec(first as nat, second as nat, (i - 1) as nat),
            i > 2 ==> current == fib_spec(first as nat, second as nat, (i - 1) as nat),
        decreases n + 1 - i,
    {
        proof {
            lemma_fib_fits(first as nat, second as nat, i as nat);
            assert(fib_spec(first as nat, second as nat, i as nat)
                == fib_spec(first as nat, second as nat, (i - 2) as nat)
                    + fib_spec(first as nat, second as nat, (i - 1) as nat));
        }
        current = prev1 + prev2;
        prev1 = prev2;
        prev2 = current;
        i = i + 1;
    }
    current
}

} // verus!
