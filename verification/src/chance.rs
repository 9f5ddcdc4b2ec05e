use vstd::prelude::*;

verus! {

/// One whole, in the unit in which probabilities are held: millionths.
pub const SCALE: u32 = 1_000_000;

/// The probability, in millionths, that none of `n` independent events of
/// probability `rate` happens: `(1 - rate)^n`, rounded down after each factor.
pub open spec fn survival(rate: nat, n: nat) -> nat
    decreases n,
{
    if n == 0 {
        SCALE as nat
    } else {
        (survival(rate, (n - 1) as nat) * ((SCALE - rate) as nat)) / (SCALE as nat)
    }
}

/// A draw `r` in `[0, SCALE)` makes at least one of `n` independent events of
/// probability `rate` happen.
pub open spec fn any_of_happens(draw: nat, rate: nat, n: nat) -> bool {
    draw >= survival(rate, n)
}

/// A draw `r` in `[0, SCALE)` makes one event of probability `rate` happen.
pub open spec fn happens(draw: nat, rate: nat) -> bool {
    draw < rate
}

/// `survival` never exceeds one whole.
pub proof fn lemma_survival_bounded(rate: nat, n: nat)
    requires
        rate <= SCALE,
    ensures
        survival(rate, n) <= SCALE,
    decreases n,
{
    if n > 0 {
        lemma_survival_bounded(rate, (n - 1) as nat);
        let p = survival(rate, (n - 1) as nat);
        let f = (SCALE - rate) as nat;
        assert(p * f <= (SCALE as nat) * (SCALE as nat)) by (nonlinear_arith)
            requires
                p <= SCALE,
                f <= SCALE,
        ;
    }
}

/// Computes `survival(rate, n)`.
pub fn survival_threshold(rate: u32, n: u32) -> (t: u32)
    requires
        rate <= SCALE,
    ensures
        t == survival(rate as nat, n as nat),
        t <= SCALE,
{
    let mut t: u32 = SCALE;
    let mut i: u32 = 0;
    while i < n
        invariant
            i <= n,
            rate <= SCALE,
            t == survival(rate as nat, i as nat),
            t <= SCALE,
        decreases n - i,
    {
        proof {
            let a: int = t as int;
            let b: int = (SCALE - rate) as int;
            assert(0 <= a * b <= 1_000_000_000_000) by (nonlinear_arith)
                requires
                    0 <= a <= 1_000_000,
                    0 <= b <= 1_000_000,
            ;
        }
        let product: u64 = (t as u64) * ((SCALE - rate) as u64);
        t = (product / (SCALE as u64)) as u32;
        i = i + 1;
    }
    t
}

/// Decides whether a draw makes at least one of `n` events of probability
/// `rate` happen.
pub fn trial_any_of(draw: u32, rate: u32, n: u32) -> (hit: bool)
    requires
        rate <= SCALE,
    ensures
        hit == any_of_happens(draw as nat, rate as nat, n as nat),
{
    draw >= survival_threshold(rate, n)
}

/// Decides whether a draw makes one event of probability `rate` happen.
pub fn trial(draw: u32, rate: u32) -> (hit: bool)
    ensures
        hit == happens(draw as nat, rate as nat),
{
    draw < rate
}

} // verus!
