//! Exponential backoff with a cap and bounded jitter.
use vstd::prelude::*;

verus! {

/// Jitter draws and the jitter fraction are counted in thousandths.
pub const PERMILLE: u64 = 1000;

/// Configuration of the delay between two attempts of one request.
#[derive(Clone, Copy, Debug, PartialEq, Eq)]
pub struct BackoffPolicy {
    /// Delay before the first retry, in milliseconds.
    pub base_ms: u64,
    /// Growth factor from one retry to the next.
    pub multiplier: u64,
    /// Largest delay ever returned, in milliseconds.
    pub cap_ms: u64,
    /// Largest share of the delay that jitter may remove, in thousandths.
    pub jitter_permille: u64,
}

pub open spec fn pow(b: nat, e: nat) -> nat
    decreases e,
{
    if e == 0 {
        1
    } else {
        b * pow(b, (e - 1) as nat)
    }
}

/// The exponent used for an attempt: attempt 1 (the first retry) uses the
/// base delay unchanged.
pub open spec fn exponent(attempt: nat) -> nat {
    if attempt == 0 {
        0
    } else {
        (attempt - 1) as nat
    }
}

pub open spec fn min_nat(a: nat, b: nat) -> nat {
    if a <= b {
        a
    } else {
        b
    }
}

impl BackoffPolicy {
    pub open spec fn wf(&self) -> bool {
        &&& self.multiplier >= 1
        &&& self.jitter_permille <= PERMILLE
    }

    /// Delay before `attempt` without jitter, before the cap.
    pub open spec fn uncapped(&self, attempt: nat) -> nat {
        (self.base_ms as nat) * pow(self.multiplier as nat, exponent(attempt))
    }

    /// Delay before `attempt` without jitter: exponential growth, capped.
    pub open spec fn envelope(&self, attempt: nat) -> nat {
        min_nat(self.uncapped(attempt), self.cap_ms as nat)
    }

    /// The delay for `attempt` when the jitter draw is `draw` thousandths
    /// of the allowed jitter.
    pub open spec fn delay_spec(&self, attempt: nat, draw: nat) -> nat {
        let env = self.envelope(attempt) as int;
        (env - (env * self.jitter_permille * draw) / 1_000_000int) as nat
    }

    pub open spec fn standard_spec() -> BackoffPolicy {
        BackoffPolicy { base_ms: 1000, multiplier: 2, cap_ms: 1_800_000, jitter_permille: PERMILLE }
    }

    /// The policy used by default: one second, doubling, capped at thirty
    /// minutes, with full jitter.
    pub fn standard() -> (r: BackoffPolicy)
        ensures
            r.wf(),
            r == Self::standard_spec(),
    {
        BackoffPolicy { base_ms: 1000, multiplier: 2, cap_ms: 1_800_000, jitter_permille: PERMILLE }
    }

    /// Delay before `attempt` without jitter.
    pub fn envelope_ms(&self, attempt: u32) -> (r: u64)
        requires
            self.wf(),
        ensures
            r as nat == self.envelope(attempt as nat),
    {
        let e: u32 = if attempt == 0 {
            0
        } else {
            attempt - 1
        };
        let cap = self.cap_ms;
        let m = self.multiplier;
        let mut cur: u64 = if self.base_ms <= cap {
            self.base_ms
        } else {
            cap
        };
        let mut k: u32 = 0;
        proof {
            assert(pow(m as nat, 0) == 1);
            assert((self.base_ms as nat) * pow(m as nat, 0) == self.base_ms);
        }
        while k < e
            invariant
                self.wf(),
                k <= e,
                e as nat == exponent(attempt as nat),
                cap == self.cap_ms,
                m == self.multiplier,
                cur as nat == min_nat((self.base_ms as nat) * pow(m as nat, k as nat), cap as nat),
            decreases e - k,
        {
            let ghost prev = (self.base_ms as nat) * pow(m as nat, k as nat);
            proof {
                assert((self.base_ms as nat) * pow(m as nat, (k + 1) as nat) == prev * m) by (nonlinear_arith)
                    requires
                        pow(m as nat, (k + 1) as nat) == m * pow(m as nat, k as nat),
                        prev == (self.base_ms as nat) * pow(m as nat, k as nat),
                ;
                assert(prev * m >= prev) by (nonlinear_arith)
                    requires
                        m >= 1,
                ;
            }
            if cur < cap {
                match cur.checked_mul(m) {
                    Some(v) => {
                        cur = if v <= cap {
                            v
                        } else {
                            cap
                        };
                    },
                    None => {
                        cur = cap;
                    },
                }
            }
            k = k + 1;
        }
        cur
    }

    /// Delay before `attempt` (1 for the first retry), with the jitter draw
    /// `draw` in thousandths: 0 gives the full envelope, 1000 removes the
    /// whole jitter share.
    pub fn delay_ms(&self, attempt: u32, draw: u64) -> (r: u64)
        requires
            self.wf(),
            draw <= PERMILLE,
        ensures
            r as nat == self.delay_spec(attempt as nat, draw as nat),
            r <= self.cap_ms,
    {
        let env = self.envelope_ms(attempt);
        proof {
            assert((env as int) * (self.jitter_permille as int) <= 0xffff_ffff_ffff_ffff * 1000)
                by (nonlinear_arith)
                requires
                    env <= 0xffff_ffff_ffff_ffffu64,
                    self.jitter_permille <= 1000,
            ;
        }
        let ej: u128 = (env as u128) * (self.jitter_permille as u128);
        proof {
            assert(ej <= (env as int) * 1000) by (nonlinear_arith)
                requires
                    ej == env * self.jitter_permille,
                    self.jitter_permille <= 1000,
            ;
            assert((ej as int) * (draw as int) <= (env as int) * 1000 * 1000) by (nonlinear_arith)
                requires
                    ej <= (env as int) * 1000,
                    draw <= 1000,
            ;
        }
        let prod: u128 = ej * (draw as u128);
        proof {
            assert(prod <= env * PERMILLE * PERMILLE) by (nonlinear_arith)
                requires
                    prod == ej * draw,
                    ej == env * self.jitter_permille,
                    self.jitter_permille <= PERMILLE,
                    draw <= PERMILLE,
            ;
            assert(prod / ((PERMILLE * PERMILLE) as u128) <= env as int) by (nonlinear_arith)
                requires
                    prod <= env * PERMILLE * PERMILLE,
                    PERMILLE == 1000,
            ;
        }
        let cut: u128 = prod / ((PERMILLE * PERMILLE) as u128);
        (env as u128 - cut) as u64
    }
}

/// Raising a factor of at least one to a larger power never gives less.
pub proof fn lemma_pow_monotone(b: nat, e1: nat, e2: nat)
    requires
        b >= 1,
        e1 <= e2,
    ensures
        pow(b, e1) <= pow(b, e2),
    decreases e2,
{
    if e1 < e2 {
        lemma_pow_monotone(b, e1, (e2 - 1) as nat);
        let p = pow(b, (e2 - 1) as nat);
        assert(b * p >= p) by (nonlinear_arith)
            requires
                b >= 1,
        ;
    }
}

/// Taking away a share of at most the whole value, rounded down, keeps the
/// order of two values.
proof fn lemma_cut_monotone(e1: int, e2: int, c: int, m: int)
    requires
        e1 <= e2,
        0 <= c <= m,
        m > 0,
    ensures
        e1 - (e1 * c) / m <= e2 - (e2 * c) / m,
{
    let q1 = (e1 * c) / m;
    let q2 = (e2 * c) / m;
    assert(q1 * m <= e1 * c < q1 * m + m) by (nonlinear_arith)
        requires
            q1 == (e1 * c) / m,
            m > 0,
    ;
    assert(q2 * m <= e2 * c) by (nonlinear_arith)
        requires
            q2 == (e2 * c) / m,
            m > 0,
    ;
    assert((e2 - e1) * c <= (e2 - e1) * m) by (nonlinear_arith)
        requires
            e1 <= e2,
            c <= m,
    ;
    assert((q2 - q1) * m < (e2 - e1 + 1) * m) by (nonlinear_arith)
        requires
            q1 * m <= e1 * c < q1 * m + m,
            q2 * m <= e2 * c,
            (e2 - e1) * c <= (e2 - e1) * m,
    ;
    assert(q2 - q1 < e2 - e1 + 1) by (nonlinear_arith)
        requires
            (q2 - q1) * m < (e2 - e1 + 1) * m,
            m > 0,
    ;
}

/// Every delay is non-negative and at most the cap; jitter removes at most
/// its configured share of the envelope, so the delay lies within
/// `[envelope * (1 - jitter), cap]`, and within
/// `[base * multiplier^(attempt-1) * (1 - jitter), cap]` wherever the
/// exponential term has not yet reached the cap.
pub proof fn lemma_delay_bounds(p: BackoffPolicy, attempt: nat, draw: nat)
    requires
        p.wf(),
        draw <= PERMILLE,
    ensures
        0 <= p.delay_spec(attempt, draw) <= p.envelope(attempt) <= p.cap_ms,
        p.delay_spec(attempt, draw) * PERMILLE >= p.envelope(attempt) * (PERMILLE - p.jitter_permille),
        p.uncapped(attempt) <= p.cap_ms ==> p.delay_spec(attempt, draw) * PERMILLE >= p.uncapped(
            attempt,
        ) * (PERMILLE - p.jitter_permille),
{
    let env = p.envelope(attempt) as int;
    let j = p.jitter_permille as int;
    let q = (env * j * (draw as int)) / 1000000int;
    assert(q * 1000 <= env * j) by (nonlinear_arith)
        requires
            q == (env * j * (draw as int)) / 1000000int,
            env >= 0,
            j >= 0,
            draw <= 1000,
    ;
    assert(q <= env) by (nonlinear_arith)
        requires
            q * 1000 <= env * j,
            j <= 1000,
            env >= 0,
    ;
    assert((env - q) * 1000 >= env * (1000 - j)) by (nonlinear_arith)
        requires
            q * 1000 <= env * j,
    ;
}

/// The delay grows with the attempt number up to the cap: for every jitter
/// draw, a later attempt waits at least as long as an earlier one, so the
/// expected delay never decreases.
pub proof fn lemma_delay_monotone(p: BackoffPolicy, a1: nat, a2: nat, draw: nat)
    requires
        p.wf(),
        draw <= PERMILLE,
        a1 <= a2,
    ensures
        p.envelope(a1) <= p.envelope(a2),
        p.delay_spec(a1, draw) <= p.delay_spec(a2, draw),
{
    let m = p.multiplier as nat;
    lemma_pow_monotone(m, exponent(a1), exponent(a2));
    let b = p.base_ms as nat;
    assert(b * pow(m, exponent(a1)) <= b * pow(m, exponent(a2))) by (nonlinear_arith)
        requires
            pow(m, exponent(a1)) <= pow(m, exponent(a2)),
    ;
    let c = p.jitter_permille as nat * draw;
    assert(c <= PERMILLE * PERMILLE) by (nonlinear_arith)
        requires
            c == p.jitter_permille as nat * draw,
            p.jitter_permille <= 1000,
            draw <= 1000,
    ;
    lemma_delay_bounds(p, a1, draw);
    lemma_delay_bounds(p, a2, draw);
    let e1 = p.envelope(a1) as int;
    let e2 = p.envelope(a2) as int;
    let ci = c as int;
    lemma_cut_monotone(e1, e2, ci, 1000000int);
    assert(e1 * p.jitter_permille * draw == e1 * ci) by (nonlinear_arith)
        requires
            ci == p.jitter_permille * draw,
    ;
    assert(e2 * p.jitter_permille * draw == e2 * ci) by (nonlinear_arith)
        requires
            ci == p.jitter_permille * draw,
    ;
    assert((e1 * ci) / 1000000int <= e1) by (nonlinear_arith)
        requires
            0 <= ci <= 1000000,
            e1 >= 0,
    ;
    assert((e2 * ci) / 1000000int <= e2) by (nonlinear_arith)
        requires
            0 <= ci <= 1000000,
            e2 >= 0,
    ;
    assert(p.delay_spec(a1, draw) == e1 - (e1 * ci) / 1000000int);
    assert(p.delay_spec(a2, draw) == e2 - (e2 * ci) / 1000000int);
}

} // verus!
