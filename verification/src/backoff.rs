//! How long to wait before the next attempt to connect.

use vstd::arithmetic::power2::{lemma2_to64, lemma_pow2_unfold, pow2};
use vstd::prelude::*;

verus! {

/// The first delay, in milliseconds.
pub const FIRST_DELAY_MS: u64 = 500;

/// The longest delay, in milliseconds.
pub const MAX_DELAY_MS: u64 = 30_000;

/// A session that stays up longer than this many nanoseconds is healthy.
pub const HEALTHY_NANOS: u128 = 10_000_000_000;

/// Capped exponential backoff. Its view is the delay, in milliseconds, that
/// follows the next short session.
pub struct Backoff {
    delay_ms: u64,
}

/// The delay after a session: a healthy one starts over with the first delay.
pub open spec fn delay_after(delay_ms: u64, session_nanos: u128) -> u64 {
    if session_nanos > HEALTHY_NANOS {
        FIRST_DELAY_MS
    } else {
        delay_ms
    }
}

/// Twice the delay, but not more than the longest.
pub open spec fn doubled(delay_ms: u64) -> u64 {
    if 2 * delay_ms < MAX_DELAY_MS {
        (2 * delay_ms) as u64
    } else {
        MAX_DELAY_MS
    }
}

impl View for Backoff {
    type V = u64;

    closed spec fn view(&self) -> u64 {
        self.delay_ms
    }
}

impl Backoff {
    #[verifier::type_invariant]
    spec fn well_formed(self) -> bool {
        FIRST_DELAY_MS <= self.delay_ms <= MAX_DELAY_MS
    }

    /// The backoff before the first session.
    pub fn new() -> (backoff: Self)
        ensures
            backoff@ == FIRST_DELAY_MS,
    {
        Backoff { delay_ms: FIRST_DELAY_MS }
    }

    /// How long to wait, in milliseconds, after a session that stayed up for
    /// `session_nanos`.
    pub fn after_session(&mut self, session_nanos: u128) -> (delay_ms: u64)
        ensures
            delay_ms == delay_after(old(self)@, session_nanos),
            final(self)@ == doubled(delay_ms),
            FIRST_DELAY_MS <= delay_ms <= MAX_DELAY_MS,
            delay_ms == if session_nanos > 10_000_000_000 {
                500
            } else {
                old(self)@
            },
            final(self)@ == if delay_ms <= 15_000 {
                2 * delay_ms
            } else {
                30_000
            },
    {
        proof {
            use_type_invariant(&*self);
        }
        // A session that stayed up long enough is healthy: reset the backoff.
        let delay_ms: u64 = if session_nanos > HEALTHY_NANOS {
            FIRST_DELAY_MS
        } else {
            self.delay_ms
        };
        self.delay_ms =
        if 2 * delay_ms < MAX_DELAY_MS {
            2 * delay_ms
        } else {
            MAX_DELAY_MS
        };
        delay_ms
    }
}

/// The delay after `n` short sessions in a row that follow a first delay.
pub open spec fn nth_delay(n: nat) -> u64
    decreases n,
{
    if n == 0 {
        FIRST_DELAY_MS
    } else {
        doubled(nth_delay((n - 1) as nat))
    }
}

/// Short sessions double the delay until it reaches the longest, where it stays:
/// delay number `n` is `500 * 2^n` milliseconds, or 30 seconds if that is more.
pub proof fn law_delay_doubles_up_to_the_cap(n: nat)
    ensures
        nth_delay(n) == if FIRST_DELAY_MS * pow2(n) < MAX_DELAY_MS {
            FIRST_DELAY_MS * pow2(n)
        } else {
            MAX_DELAY_MS as int
        },
    decreases n,
{
    if n == 0 {
        lemma2_to64();
    } else {
        law_delay_doubles_up_to_the_cap((n - 1) as nat);
        lemma_pow2_unfold(n);
        let p = pow2((n - 1) as nat) as int;
        assert(FIRST_DELAY_MS * (2 * p) == 2 * (FIRST_DELAY_MS * p)) by (nonlinear_arith);
    }
}

/// A healthy session resets the backoff, whatever came before.
pub proof fn law_healthy_session_resets(delay_ms: u64, session_nanos: u128)
    requires
        session_nanos > HEALTHY_NANOS,
    ensures
        delay_after(delay_ms, session_nanos) == FIRST_DELAY_MS,
{
}

/// A session of more than ten seconds is followed by half a second of waiting; a
/// shorter one by the delay that was due. Each delay is twice the one before it,
/// and never more than half a minute.
pub proof fn law_delays_in_milliseconds(delay_ms: u64, session_nanos: u128)
    ensures
        session_nanos > 10 * 1_000_000_000 ==> delay_after(delay_ms, session_nanos) == 500,
        session_nanos <= 10 * 1_000_000_000 ==> delay_after(delay_ms, session_nanos) == delay_ms,
        delay_ms <= 15_000 ==> doubled(delay_ms) == 2 * delay_ms,
        delay_ms >= 15_000 ==> doubled(delay_ms) == 30_000,
        nth_delay(0) == 500,
{
}

/// Delays never shrink while sessions are short, and they stay between half a
/// second and half a minute.
pub proof fn law_delays_grow(m: nat, n: nat)
    requires
        m <= n,
    ensures
        500 <= nth_delay(m) <= nth_delay(n) <= 30_000,
    decreases n,
{
    if m < n {
        law_delays_grow(m, (n - 1) as nat);
    } else if n > 0 {
        law_delays_grow((n - 1) as nat, (n - 1) as nat);
    }
}

} // verus!
