use vstd::prelude::*;

verus! {

/// One, in 32-bit fixed point: acceptance probabilities live in [0, FIX_ONE],
/// and a uniform draw below `p * FIX_ONE` out of 2^64 succeeds with
/// probability `p / FIX_ONE`.
pub const FIX_ONE: u64 = 0x1_0000_0000;

/// exp(-1/1000) in 32-bit fixed point, rounded down: the Boltzmann decay per
/// thousandth of (energy change times disorder). Raising it to the power
/// `|delta| * disorder_millis` yields the acceptance probability
/// exp(delta * disorder) of the hop rule, quantised to 32 fractional bits.
pub const DECAY_PER_MILLI: u64 = 4290674475;

/// Product of two fixed-point factors, rounded down.
pub open spec fn mul_fix_spec(a: int, b: int) -> int {
    (a * b) / (FIX_ONE as int)
}

/// Fixed-point power by binary exponentiation, rounding down at every step:
/// exactly the arithmetic that `pow_fix` performs.
pub open spec fn pow_fix_spec(q: int, e: nat) -> int
    decreases e,
{
    if e == 0 {
        FIX_ONE as int
    } else {
        let h = pow_fix_spec(q, e / 2);
        let s = mul_fix_spec(h, h);
        if e % 2 == 0 {
            s
        } else {
            mul_fix_spec(q, s)
        }
    }
}

/// `a * b`, capped at `u64::MAX`.
pub open spec fn sat_mul_spec(a: int, b: int) -> int {
    if a * b > u64::MAX as int {
        u64::MAX as int
    } else {
        a * b
    }
}

/// The acceptance probability of a hop that changes the local energy by
/// `delta <= 0`, in 32-bit fixed point: the decay constant raised to
/// `|delta| * disorder_millis`, i.e. exp(delta * disorder) quantised, where
/// `disorder = disorder_millis / 1000`.
pub open spec fn boltzmann_fix(disorder_millis: u64, delta: i16) -> int {
    pow_fix_spec(
        DECAY_PER_MILLI as int,
        sat_mul_spec(-(delta as int), disorder_millis as int) as nat,
    )
}

pub proof fn lemma_mul_fix_bounds(a: int, b: int)
    requires
        0 <= a <= FIX_ONE as int,
        0 <= b <= FIX_ONE as int,
    ensures
        0 <= mul_fix_spec(a, b) <= FIX_ONE as int,
{
    assert(0 <= (a * b) / (FIX_ONE as int) <= FIX_ONE as int) by (nonlinear_arith)
        requires
            0 <= a <= FIX_ONE as int,
            0 <= b <= FIX_ONE as int,
    ;
}

pub proof fn lemma_pow_fix_bounds(q: int, e: nat)
    requires
        0 <= q <= FIX_ONE as int,
    ensures
        0 <= pow_fix_spec(q, e) <= FIX_ONE as int,
    decreases e,
{
    if e == 0 {
    } else {
        lemma_pow_fix_bounds(q, e / 2);
        let h = pow_fix_spec(q, e / 2);
        lemma_mul_fix_bounds(h, h);
        let s = mul_fix_spec(h, h);
        if e % 2 != 0 {
            lemma_mul_fix_bounds(q, s);
        }
    }
}

/// Product of two fixed-point factors, rounded down.
pub fn mul_fix(a: u64, b: u64) -> (r: u64)
    requires
        a <= FIX_ONE,
        b <= FIX_ONE,
    ensures
        r as int == mul_fix_spec(a as int, b as int),
        r <= FIX_ONE,
{
    proof {
        lemma_mul_fix_bounds(a as int, b as int);
        assert((a as int) * (b as int) == (a as u128) * (b as u128)) by (nonlinear_arith);
    }
    (((a as u128) * (b as u128)) / (FIX_ONE as u128)) as u64
}

/// `a * b`, capped at `u64::MAX`.
pub fn sat_mul(a: u64, b: u64) -> (r: u64)
    ensures
        r as int == sat_mul_spec(a as int, b as int),
{
    if a == 0 {
        0
    } else if b > u64::MAX / a {
        proof {
            assert(a as int * b as int > u64::MAX as int) by (nonlinear_arith)
                requires
                    1 <= a as int,
                    b as int > u64::MAX as int / a as int,
            ;
        }
        u64::MAX
    } else {
        proof {
            assert(0 <= a as int * b as int <= u64::MAX as int) by (nonlinear_arith)
                requires
                    1 <= a as int,
                    0 <= b as int,
                    b as int <= u64::MAX as int / a as int,
            ;
        }
        a * b
    }
}

/// Fixed-point power by binary exponentiation.
pub fn pow_fix(q: u64, e: u64) -> (r: u64)
    requires
        q <= FIX_ONE,
    ensures
        r as int == pow_fix_spec(q as int, e as nat),
        r <= FIX_ONE,
    decreases e,
{
    if e == 0 {
        FIX_ONE
    } else {
        let h = pow_fix(q, e / 2);
        let s = mul_fix(h, h);
        if e % 2 == 0 {
            s
        } else {
            mul_fix(q, s)
        }
    }
}

} // verus!
