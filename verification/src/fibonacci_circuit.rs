use vstd::prelude::*;
use vstd::arithmetic::power2::lemma2_to64;
use vstd::arithmetic::div_mod::lemma_fundamental_div_mod_converse;
use vstd::arithmetic::div_mod::lemma_small_mod;
use crate::fibonacci::FIELD_ORDER;
use crate::fibonacci::MAX_N;
use crate::fibonacci::fib_spec;
use crate::fibonacci::lemma_fib_fits;
use crate::utils::greater_than;
use crate::utils::less_than_or_equal_to;

verus! {

/// A witness for the relation circuit: the concrete canonical field values
/// assigned to the two secret input wires.
pub struct Witness {
    pub first: u64,
    pub second: u64,
}

/// The recurrence as the circuit's addition gates compute it: every step is
/// reduced modulo the field order.
pub open spec fn fib_field_spec(first: nat, second: nat, n: nat) -> nat
    decreases n,
{
    if n == 0 {
        first % (FIELD_ORDER as nat)
    } else if n == 1 {
        second % (FIELD_ORDER as nat)
    } else {
        (fib_field_spec(first, second, (n - 2) as nat) + fib_field_spec(
            first,
            second,
            (n - 1) as nat,
        )) % (FIELD_ORDER as nat)
    }
}

/// Addition in the field, on canonical values: what an addition gate makes of
/// the values on its two input wires.
fn field_add(a: u64, b: u64) -> (r: u64)
    requires
        a < FIELD_ORDER,
        b < FIELD_ORDER,
    ensures
        r == ((a + b) as nat) % (FIELD_ORDER as nat),
{
    if a >= FIELD_ORDER - b {
        let r: u64 = a - (FIELD_ORDER - b);
        proof {
            lemma_fundamental_div_mod_converse((a + b) as int, FIELD_ORDER as int, 1, r as int);
        }
        r
    } else {
        proof {
            lemma_small_mod((a + b) as nat, FIELD_ORDER as nat);
        }
        a + b
    }
}

/// Evaluates the relation that the Fibonacci circuit enforces for the public
/// pair `(n, nth_fibonacci)` on a candidate witness: the comparison gadgets
/// check the index against the supported domain on its constant wire, the
/// unrolled addition gates step the recurrence from the two secret wires, and
/// the final wire is held equal to the claimed term. The result says whether
/// that witness satisfies every constraint, exactly when the field recurrence
/// from the witness reaches the claimed value.
///
/// The circuit's shape is fixed by `n` at construction time, so an index
/// outside `1 < n <= MAX_N` is refused here, before anything is built, never
/// at proving time.
pub fn fibonacci_circuit(n: usize, nth_fibonacci: u64, witness: &Witness) -> (ok: bool)
    requires
        1 < n <= MAX_N,
        witness.first < FIELD_ORDER,
        witness.second < FIELD_ORDER,
    ensures
        ok == (fib_field_spec(witness.first as nat, witness.second as nat, n as nat)
            == nth_fibonacci),
{
    proof {
        lemma2_to64();
    }
    // the domain constraint on the public index, evaluated by the comparison
    // gadgets over 32-bit operands and required to hold
    let is_greater_than_one = greater_than(n as u64, 1, 32);
    let is_le_than_max = less_than_or_equal_to(n as u64, MAX_N as u64, 32);
    let range_check = is_greater_than_one && is_le_than_max;

    let ghost f: nat = witness.first as nat;
    let ghost s: nat = witness.second as nat;
    proof {
        lemma_small_mod(f, FIELD_ORDER as nat);
        lemma_small_mod(s, FIELD_ORDER as nat);
    }

    let mut prev1: u64 = witness.first;
    let mut prev2: u64 = witness.second;
    let mut current: u64 = 0;
    let mut i: usize = 2;
    while i <= n
        invariant
            2 <= i <= n + 1,
            n <= MAX_N,
            f == witness.first,
            s == witness.second,
            prev1 < FIELD_ORDER,
            prev2 < FIELD_ORDER,
            prev1 == fib_field_spec(f, s, (i - 2) as nat),
            prev2 == fib_field_spec(f, s, (i - 1) as nat),
            i > 2 ==> current == fib_field_spec(f, s, (i - 1) as nat),
        decreases n + 1 - i,
    {
        current = field_add(prev1, prev2);
        proof {
            assert(fib_field_spec(f, s, i as nat) == (fib_field_spec(f, s, (i - 2) as nat)
                + fib_field_spec(f, s, (i - 1) as nat)) % (FIELD_ORDER as nat));
        }
        prev1 = prev2;
        prev2 = current;
        i = i + 1;
    }

    // the final wire is constrained to equal the constant holding the claim
    range_check && current == nth_fibonacci
}

/// For starting values that fit in 32 bits and an index in the supported
/// domain, the relation the circuit enforces agrees exactly with the plain
/// recurrence: no addition gate ever wraps around the field order, so a
/// witness built from the plain function's output satisfies the circuit.
pub proof fn lemma_circuit_matches_plain(first: nat, second: nat, n: nat)
    requires
        first < 0x1_0000_0000,
        second < 0x1_0000_0000,
        n <= MAX_N,
    ensures
        fib_field_spec(first, second, n) == fib_spec(first, second, n),
    decreases n,
{
    lemma_fib_fits(first, second, n);
    if n == 0 {
        lemma_small_mod(first, FIELD_ORDER as nat);
    } else if n == 1 {
        lemma_small_mod(second, FIELD_ORDER as nat);
    } else {
        lemma_circuit_matches_plain(first, second, (n - 2) as nat);
        lemma_circuit_matches_plain(first, second, (n - 1) as nat);
        lemma_small_mod(fib_spec(first, second, n), FIELD_ORDER as nat);
        assert(fib_spec(first, second, n) == fib_spec(first, second, (n - 2) as nat) + fib_spec(
            first,
            second,
            (n - 1) as nat,
        ));
    }
}

} // verus!
