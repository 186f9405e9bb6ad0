//! Powers of two and binary digits, by which the rows and columns of a matrix over qubits
//! are counted.

use vstd::prelude::*;
use vstd::arithmetic::power2::{
    lemma2_to64, lemma_pow2_pos, lemma_pow2_strictly_increases, lemma_pow2_unfold, pow2,
};

verus! {

/// Whether `n` is 1, 2, 4, 8 and so on.
pub open spec fn is_power_of_two(n: nat) -> bool {
    exists|k: nat| n == pow2(k)
}

/// How often `n` can be halved before it reaches 1: for a power of two, its exponent.
pub open spec fn exponent(n: nat) -> nat
    decreases n,
{
    if n <= 1 {
        0
    } else {
        1 + exponent(n / 2)
    }
}

/// A number from 2 on is a power of two exactly if it is even and its half is a power of
/// two. Neither 0 nor an odd number from 3 on is one; 1 is.
pub proof fn lemma_halving(n: nat)
    ensures
        n >= 2 ==> (is_power_of_two(n) <==> (n % 2 == 0 && is_power_of_two(n / 2))),
        !is_power_of_two(0),
        is_power_of_two(1),
{
    lemma2_to64();
    assert(1 == pow2(0));
    assert forall|k: nat| 0 != pow2(k) by {
        lemma_pow2_pos(k);
    }
    if n >= 2 {
        if is_power_of_two(n) {
            let k = choose|k: nat| n == pow2(k);
            assert(k >= 1);
            lemma_pow2_unfold(k);
            assert(n / 2 == pow2((k - 1) as nat));
        }
        if n % 2 == 0 && is_power_of_two(n / 2) {
            let j = choose|j: nat| n / 2 == pow2(j);
            lemma_pow2_unfold(j + 1);
            assert(n == pow2(j + 1));
        }
    }
}

/// The exponent of a power of two is its exponent.
pub proof fn lemma_exponent(k: nat)
    ensures
        exponent(pow2(k)) == k,
    decreases k,
{
    lemma2_to64();
    if k > 0 {
        lemma_pow2_unfold(k);
        lemma_pow2_pos((k - 1) as nat);
        lemma_exponent((k - 1) as nat);
        assert(pow2(k) / 2 == pow2((k - 1) as nat));
    }
}

/// Halving takes fewer steps than the number is large.
pub proof fn lemma_exponent_bound(n: nat)
    ensures
        exponent(n) <= n,
    decreases n,
{
    if n > 1 {
        lemma_exponent_bound(n / 2);
    }
}

/// The exponent of `n` if `n` is a power of two.
pub fn exponent_of(n: usize) -> (r: Option<usize>)
    ensures
        match r {
            Some(k) => n == pow2(k as nat) && k == exponent(n as nat),
            None => !is_power_of_two(n as nat),
        },
{
    proof {
        lemma_halving(n as nat);
    }
    if n == 0 {
        return None;
    }
    let mut m: usize = n;
    let mut k: usize = 0;
    proof {
        lemma2_to64();
    }
    while m % 2 == 0
        invariant
            m >= 1,
            k + m <= n,
            is_power_of_two(n as nat) <==> is_power_of_two(m as nat),
            exponent(n as nat) == k + exponent(m as nat),
            forall|j: nat| m == #[trigger] pow2(j) ==> n == pow2(j + k as nat),
        decreases m,
    {
        proof {
            lemma_halving(m as nat);
            assert forall|j: nat| m / 2 == #[trigger] pow2(j) implies n == pow2(
                j + (k + 1) as nat,
            ) by {
                lemma_pow2_unfold(j + 1);
                assert(m == pow2(j + 1));
            }
        }
        m = m / 2;
        k = k + 1;
    }
    proof {
        lemma_halving(m as nat);
    }
    if m == 1 {
        assert(m == pow2(0));
        Some(k)
    } else {
        None
    }
}

/// Two to the power of `k`.
pub fn power_of_two(k: u64) -> (r: u64)
    requires
        k < 64,
    ensures
        r == pow2(k as nat),
{
    let mut r: u64 = 1;
    let mut i: u64 = 0;
    proof {
        lemma2_to64();
    }
    while i < k
        invariant
            i <= k < 64,
            r == pow2(i as nat),
        decreases k - i,
    {
        proof {
            lemma_pow2_unfold((i + 1) as nat);
            if i + 1 < 63 {
                lemma_pow2_strictly_increases((i + 1) as nat, 63);
            }
            vstd::arithmetic::power2::lemma2_to64_rest();
        }
        r = 2 * r;
        i = i + 1;
    }
    r
}

/// The binary digit of `i` at place `k`, the lowest place being place 0.
pub open spec fn bit(i: nat, k: nat) -> nat {
    (i / pow2(k)) % 2
}

/// The binary digit of `i` at place `k`.
pub fn bit_of(i: u64, k: u64) -> (r: u64)
    requires
        k < 64,
    ensures
        r == bit(i as nat, k as nat),
        r <= 1,
{
    let p = power_of_two(k);
    proof {
        lemma_pow2_pos(k as nat);
    }
    (i / p) % 2
}

} // verus!
