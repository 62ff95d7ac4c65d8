use vstd::prelude::*;
use vstd::arithmetic::power2::pow2;
use vstd::arithmetic::power2::lemma_pow2_adds;
use vstd::arithmetic::power2::lemma_pow2_pos;
use vstd::arithmetic::power2::lemma2_to64;
use vstd::arithmetic::div_mod::lemma_fundamental_div_mod;
use vstd::arithmetic::div_mod::lemma_fundamental_div_mod_converse;
use vstd::arithmetic::div_mod::lemma_div_denominator;
use vstd::bits::lemma_u64_pow2_no_overflow;
use vstd::bits::lemma_u64_shl_is_mul;
use vstd::bits::lemma_u64_shr_is_div;

verus! {

/// Bit width of a field element. A wire value is decomposed into at most this
/// many bits, and the comparison gadgets accept operand widths up to two bits
/// less, so that their (n+1)-bit intermediate cannot wrap.
pub const FIELD_BITS: usize = 64;

/// Bit `i` of the binary representation of `v`.
pub open spec fn nth_bit(v: nat, i: nat) -> bool {
    v / pow2(i) % 2 == 1
}

/// Unsigned value of a little-endian bit sequence: the weighted sum of the
/// bits, bit 0 carrying weight 1.
pub open spec fn bits_value(bits: Seq<bool>) -> nat
    decreases bits.len(),
{
    if bits.len() == 0 {
        0
    } else {
        bits_value(bits.drop_last()) + if bits.last() {
            pow2((bits.len() - 1) as nat)
        } else {
            0
        }
    }
}

/// Returns the `n` binary digits of `x`, least significant first.
/// The decomposition is exact: the weighted sum of the returned bits is `x`
/// itself, the invariant the circuit constrains on a decomposed wire.
pub fn num_to_bits(n: usize, x: u64) -> (bits: Vec<bool>)
    requires
        n < FIELD_BITS,
        x < pow2(n as nat),
    ensures
        bits@.len() == n,
        forall|i: int| 0 <= i < n ==> bits@[i] == nth_bit(x as nat, i as nat),
        bits_value(bits@) == x,
{
    let mut bits: Vec<bool> = Vec::new();
    let mut i: usize = 0;
    proof {
        lemma2_to64();
        lemma_fundamental_div_mod_converse(x as int, 1, x as int, 0);
    }
    while i < n
        invariant
            i <= n,
            n < FIELD_BITS,
            x < pow2(n as nat),
            bits@.len() == i,
            forall|j: int| 0 <= j < i ==> bits@[j] == nth_bit(x as nat, j as nat),
            bits_value(bits@) + pow2(i as nat) * ((x as nat) / pow2(i as nat)) == x,
        decreases n - i,
    {
        let b: bool = ((x >> (i as u64)) & 1) == 1;
        proof {
            let ghost p: nat = pow2(i as nat);
            let ghost p2: nat = pow2((i + 1) as nat);
            let ghost q: nat = (x as nat) / p;
            let ghost h: nat = (x as nat) / p2;
            let ghost r: nat = q % 2;
            lemma_pow2_pos(i as nat);
            lemma_pow2_pos((i + 1) as nat);
            lemma_pow2_adds(i as nat, 1);
            lemma2_to64();
            assert(p2 == p * 2);
            lemma_u64_shr_is_div(x, i as u64);
            assert((x >> (i as u64)) & 1 == (x >> (i as u64)) % 2) by (bit_vector);
            assert(b == (r == 1));
            lemma_div_denominator(x as int, p as int, 2);
            assert(h == q / 2);
            lemma_fundamental_div_mod(q as int, 2);
            assert(q == 2 * h + r);
            assert(p * q == p2 * h + p * r) by (nonlinear_arith)
                requires
                    q == 2 * h + r,
                    p2 == p * 2,
            ;
            assert(bits@.push(b).drop_last() =~= bits@);
            assert(bits_value(bits@.push(b)) == bits_value(bits@) + if b {
                p
            } else {
                0nat
            });
        }
        bits.push(b);
        i = i + 1;
    }
    proof {
        lemma_pow2_pos(n as nat);
        lemma_fundamental_div_mod_converse(x as int, pow2(n as nat) as int, 0, x as int);
    }
    bits
}

/// The n-bit range constraint on a wire holding `x`: the circuit either
/// checks a constant wire at construction time or constrains a variable
/// wire's decomposition. At this layer the obligation that `x` fits in `n`
/// bits is discharged statically, so no work remains at run time.
pub fn range_check_optimized(x: u64, n: usize)
    requires
        n < FIELD_BITS,
        x < pow2(n as nat),
{
}

/// Core of the strict comparison: evaluates the wires of the gadget that
/// computes `2^n + a - b` and decomposes it into `n + 1` bits; bit `n` is
/// clear exactly when `a < b`. Callers must themselves guarantee that the
/// operands fit in `n` bits (the second may also equal `2^n`, as the
/// non-strict variants pass `b + 1`); no range constraint is added here.
pub fn less_than_unsafe(a: u64, b: u64, n: usize) -> (r: bool)
    requires
        n + 2 <= FIELD_BITS,
        a < pow2(n as nat),
        b <= pow2(n as nat),
    ensures
        r == (a < b),
{
    proof {
        lemma_u64_pow2_no_overflow(n as nat);
        lemma_u64_shl_is_mul(1, n as u64);
        lemma_pow2_adds(n as nat, 1);
        lemma2_to64();
        lemma_u64_pow2_no_overflow((n + 1) as nat);
    }
    let power_of_two: u64 = 1u64 << n;

    // 2^n + a - b: never negative, and below 2^(n+1)
    let lin_pol: u64 = power_of_two + a - b;

    let binary = num_to_bits(n + 1, lin_pol);
    proof {
        lemma_pow2_pos(n as nat);
        if a >= b {
            lemma_fundamental_div_mod_converse(
                lin_pol as int,
                pow2(n as nat) as int,
                1,
                (a - b) as int,
            );
        } else {
            lemma_fundamental_div_mod_converse(
                lin_pol as int,
                pow2(n as nat) as int,
                0,
                lin_pol as int,
            );
        }
    }
    !binary[n]
}

/// Whether `a < b`, for operands that fit in `n` bits; both operands are
/// range-constrained here before the unsafe core runs.
pub fn less_than(a: u64, b: u64, n: usize) -> (r: bool)
    requires
        n + 2 <= FIELD_BITS,
        a < pow2(n as nat),
        b < pow2(n as nat),
    ensures
        r == (a < b),
{
    range_check_optimized(a, n);
    range_check_optimized(b, n);
    less_than_unsafe(a, b, n)
}

/// Whether `a > b`, for operands that fit in `n` bits.
pub fn greater_than(a: u64, b: u64, n: usize) -> (r: bool)
    requires
        n + 2 <= FIELD_BITS,
        a < pow2(n as nat),
        b < pow2(n as nat),
    ensures
        r == (a > b),
{
    less_than(b, a, n)
}

/// Whether `a > b`; the caller guarantees both operands fit in `n` bits.
pub fn greater_than_unsafe(a: u64, b: u64, n: usize) -> (r: bool)
    requires
        n + 2 <= FIELD_BITS,
        a <= pow2(n as nat),
        b < pow2(n as nat),
    ensures
        r == (a > b),
{
    less_than_unsafe(b, a, n)
}

/// Whether `a <= b`, for operands that fit in `n` bits; both operands are
/// range-constrained once, and the unsafe core then compares `a` with
/// `b + 1`, which still fits the (n+1)-bit intermediate.
pub fn less_than_or_equal_to(a: u64, b: u64, n: usize) -> (r: bool)
    requires
        n + 2 <= FIELD_BITS,
        a < pow2(n as nat),
        b < pow2(n as nat),
    ensures
        r == (a <= b),
{
    range_check_optimized(a, n);
    range_check_optimized(b, n);
    proof {
        lemma_u64_pow2_no_overflow(n as nat);
    }
    let b_plus_1: u64 = b + 1;
    less_than_unsafe(a, b_plus_1, n)
}

/// Whether `a <= b`; the caller guarantees both operands fit in `n` bits.
pub fn less_than_or_equal_to_unsafe(a: u64, b: u64, n: usize) -> (r: bool)
    requires
        n + 2 <= FIELD_BITS,
        a < pow2(n as nat),
        b < pow2(n as nat),
    ensures
        r == (a <= b),
{
    proof {
        lemma_u64_pow2_no_overflow(n as nat);
    }
    let b_plus_1: u64 = b + 1;
    less_than_unsafe(a, b_plus_1, n)
}

/// Whether `a >= b`, for operands that fit in `n` bits; both operands are
/// range-constrained once, and the unsafe core then compares `b` with
/// `a + 1`.
pub fn greater_than_or_equal_to(a: u64, b: u64, n: usize) -> (r: bool)
    requires
        n + 2 <= FIELD_BITS,
        a < pow2(n as nat),
        b < pow2(n as nat),
    ensures
        r == (a >= b),
{
    range_check_optimized(a, n);
    range_check_optimized(b, n);
    proof {
        lemma_u64_pow2_no_overflow(n as nat);
    }
    let a_plus_1: u64 = a + 1;
    less_than_unsafe(b, a_plus_1, n)
}

/// Whether `a >= b`; the caller guarantees both operands fit in `n` bits.
pub fn greater_than_or_equal_to_unsafe(a: u64, b: u64, n: usize) -> (r: bool)
    requires
        n + 2 <= FIELD_BITS,
        a < pow2(n as nat),
        b < pow2(n as nat),
    ensures
        r == (a >= b),
{
    proof {
        lemma_u64_pow2_no_overflow(n as nat);
    }
    let a_plus_1: u64 = a + 1;
    less_than_unsafe(b, a_plus_1, n)
}

/// Boundary law of the comparison gadgets: by their contracts, a gadget's
/// result on equal operands is the value of the native comparison, so for
/// every operand valid at width `n` the strict forms yield false and the
/// non-strict forms yield true.
pub proof fn lemma_comparison_boundary(x: nat, n: nat)
    requires
        n + 2 <= FIELD_BITS,
        x < pow2(n),
    ensures
        (x < x) == false,
        (x <= x) == true,
        (x > x) == false,
        (x >= x) == true,
{
}

} // verus!
