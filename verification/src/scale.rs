//! Powers of ten, the scale factors between atoms and human units.

use vstd::prelude::*;

verus! {

/// Most decimal places a raw 64-bit quantity may carry: ten to this power
/// still fits in a `u64`.
pub const MAX_DECIMALS: u8 = 19;

/// Most decimal places a [`crate::decimal::Decimal`] may carry: ten to this
/// power still fits in a `u128`.
pub const MAX_SCALE: u8 = 38;

/// Ten to the power `n`.
pub open spec fn pow10(n: nat) -> nat
    decreases n,
{
    if n == 0 {
        1
    } else {
        10 * pow10((n - 1) as nat)
    }
}

/// No power of ten is zero.
pub proof fn lemma_pow10_positive(n: nat)
    ensures
        pow10(n) > 0,
    decreases n,
{
    if n > 0 {
        lemma_pow10_positive((n - 1) as nat);
    }
}

/// Exponents add: `10^(a+b) == 10^a * 10^b`.
pub proof fn lemma_pow10_add(a: nat, b: nat)
    ensures
        pow10(a + b) == pow10(a) * pow10(b),
    decreases b,
{
    if b == 0 {
        assert(pow10(a) * 1 == pow10(a));
    } else {
        lemma_pow10_add(a, (b - 1) as nat);
        let x = pow10(a);
        let y = pow10((b - 1) as nat);
        assert(pow10(a + b) == 10 * pow10((a + b - 1) as nat));
        assert(10 * (x * y) == x * (10 * y)) by (nonlinear_arith);
    }
}

/// A higher exponent gives no smaller a power.
pub proof fn lemma_pow10_monotone(a: nat, b: nat)
    requires
        a <= b,
    ensures
        pow10(a) <= pow10(b),
    decreases b,
{
    if a < b {
        lemma_pow10_monotone(a, (b - 1) as nat);
    }
}

/// The two largest powers of ten the library computes with, and that they
/// fit their machine types.
pub proof fn lemma_pow10_limits()
    ensures
        pow10(MAX_DECIMALS as nat) == 10_000_000_000_000_000_000nat,
        pow10(MAX_DECIMALS as nat) <= u64::MAX,
        pow10(MAX_SCALE as nat) == 100_000_000_000_000_000_000_000_000_000_000_000_000nat,
        pow10(MAX_SCALE as nat) <= u128::MAX,
{
    assert(pow10(19) == 10_000_000_000_000_000_000nat) by {
        reveal_with_fuel(pow10, 20);
    }
    lemma_pow10_add(19, 19);
}

/// Ten to the power `n`, for the scales a [`crate::decimal::Decimal`] admits.
pub(crate) fn pow10_u128(n: u8) -> (r: u128)
    requires
        n <= MAX_SCALE,
    ensures
        r == pow10(n as nat),
        r > 0,
{
    let mut r: u128 = 1;
    let mut i: u8 = 0;
    while i < n
        invariant
            i <= n,
            n <= MAX_SCALE,
            r == pow10(i as nat),
        decreases n - i,
    {
        proof {
            lemma_pow10_monotone((i + 1) as nat, MAX_SCALE as nat);
            lemma_pow10_limits();
        }
        r = r * 10;
        i = i + 1;
    }
    proof {
        lemma_pow10_positive(n as nat);
    }
    r
}

} // verus!
