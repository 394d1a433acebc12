//! The change notifier's admission limiter: a token bucket with an
//! overflow-coalescing cooldown.
//!
//! A burst of disk activity must not flood the consumer.  Each outbound
//! notification spends one token; tokens regrow one per refill interval
//! up to the bucket capacity.  A rejected notification is replaced by a
//! single "overflow - revalidate fully" signal at most once per cooldown
//! window, so the worst-case outbound volume is bounded whatever the
//! storm size.  Time reaches the limiter as an explicit clock reading.

use vstd::prelude::*;

verus! {

/// What the limiter decides for one notification attempt.
#[derive(Clone, Copy, Debug, PartialEq, Eq)]
pub enum GateDecision {
    /// Within budget: send the real event.
    Emit,
    /// Over budget, cooldown expired: send one overflow signal.
    Overflow,
    /// Over budget, within cooldown: send nothing.
    Suppress,
}

/// The admission limiter's state.  All times are unix milliseconds.
#[derive(Clone, Copy, Debug, PartialEq, Eq)]
pub struct RateGate {
    /// The bucket capacity: the largest burst admitted at once.
    pub capacity: u32,
    /// Milliseconds to regrow one token.
    pub refill_interval_ms: u64,
    /// Tokens left, at most `capacity`.
    pub tokens: u32,
    /// Start of the refill period the limiter is in.
    pub last_refill_ms: u64,
    /// Overflow signals are coalesced within this many milliseconds.
    pub cooldown_ms: u64,
    /// When the last overflow signal went out, if one ever did.
    pub last_overflow_ms: Option<u64>,
}

impl RateGate {
    pub open spec fn wf(&self) -> bool {
        &&& self.tokens <= self.capacity
        &&& self.refill_interval_ms > 0
    }

    /// A fresh limiter: capacity tokens, no overflow on record.
    pub fn new(capacity: u32, refill_interval_ms: u64, cooldown_ms: u64, now_ms: u64) -> (r:
        RateGate)
        requires
            refill_interval_ms > 0,
        ensures
            r.wf(),
            r.capacity == capacity,
            r.refill_interval_ms == refill_interval_ms,
            r.cooldown_ms == cooldown_ms,
            r.tokens == capacity,
            r.last_refill_ms == now_ms,
            r.last_overflow_ms is None,
    {
        RateGate {
            capacity,
            refill_interval_ms,
            tokens: capacity,
            last_refill_ms: now_ms,
            cooldown_ms,
            last_overflow_ms: None,
        }
    }

    /// Decides one notification attempt at clock reading `now_ms` and
    /// accounts for it.
    pub fn decide(&mut self, now_ms: u64) -> (r: GateDecision)
        requires
            old(self).wf(),
        ensures
            final(self).wf(),
            ({
                let (g, d) = spec_decide(*old(self), now_ms);
                *final(self) == g && r == d
            }),
    {
        if now_ms > self.last_refill_ms {
            let elapsed = now_ms - self.last_refill_ms;
            let grown = elapsed / self.refill_interval_ms;
            let rem = elapsed % self.refill_interval_ms;
            proof {
                let e = elapsed as int;
                let iv = self.refill_interval_ms as int;
                assert(e % iv <= e) by (nonlinear_arith)
                    requires
                        iv > 0,
                        e >= 0,
                ;
            }
            let avail = (self.capacity - self.tokens) as u64;
            if grown >= avail {
                self.tokens = self.capacity;
            } else {
                self.tokens = self.tokens + (grown as u32);
            }
            self.last_refill_ms = now_ms - rem;
        }
        if self.tokens > 0 {
            self.tokens = self.tokens - 1;
            GateDecision::Emit
        } else {
            let fire = match self.last_overflow_ms {
                Some(t) => now_ms < t || now_ms - t >= self.cooldown_ms,
                None => true,
            };
            if fire {
                self.last_overflow_ms = Some(now_ms);
                GateDecision::Overflow
            } else {
                GateDecision::Suppress
            }
        }
    }
}

/// The limiter after its tokens regrew for the time passed: one token per
/// whole refill interval, up to the capacity, and the leftover fraction
/// of an interval stays on the clock.
pub open spec fn spec_refill(g: RateGate, now_ms: u64) -> RateGate {
    if now_ms > g.last_refill_ms {
        let elapsed = (now_ms - g.last_refill_ms) as int;
        let grown = elapsed / g.refill_interval_ms as int;
        RateGate {
            tokens: if grown >= g.capacity - g.tokens {
                g.capacity
            } else {
                (g.tokens + grown) as u32
            },
            last_refill_ms: (now_ms - (elapsed % g.refill_interval_ms as int)) as u64,
            ..g
        }
    } else {
        g
    }
}

/// One admission step: refill, then spend a token, or else decide
/// whether an overflow signal is due.
pub open spec fn spec_decide(g0: RateGate, now_ms: u64) -> (RateGate, GateDecision) {
    let g = spec_refill(g0, now_ms);
    if g.tokens > 0 {
        (RateGate { tokens: (g.tokens - 1) as u32, ..g }, GateDecision::Emit)
    } else {
        let fire = match g.last_overflow_ms {
            Some(t) => now_ms < t || now_ms - t >= g.cooldown_ms,
            None => true,
        };
        if fire {
            (RateGate { last_overflow_ms: Some(now_ms), ..g }, GateDecision::Overflow)
        } else {
            (g, GateDecision::Suppress)
        }
    }
}

/// The decisions of a whole run of attempts.
pub open spec fn spec_run(g: RateGate, times: Seq<u64>) -> Seq<GateDecision>
    decreases times.len(),
{
    if times.len() == 0 {
        Seq::empty()
    } else {
        let (g1, d) = spec_decide(g, times.first());
        seq![d] + spec_run(g1, times.drop_first())
    }
}

pub open spec fn count_of(ds: Seq<GateDecision>, d: GateDecision) -> int
    decreases ds.len(),
{
    if ds.len() == 0 {
        0int
    } else {
        (if ds.first() == d {
            1int
        } else {
            0int
        }) + count_of(ds.drop_first(), d)
    }
}

/// Rate-limit bound, token half: whatever the number of attempts within
/// one refill window (no attempt late enough to regrow a token), at
/// most as many real events are admitted as there were tokens.
pub proof fn lemma_rate_limit_emit_bound(g: RateGate, times: Seq<u64>)
    requires
        g.wf(),
        forall|i: int| 0 <= i < times.len() ==> #[trigger] times[i] <= g.last_refill_ms,
    ensures
        count_of(spec_run(g, times), GateDecision::Emit) <= g.tokens,
    decreases times.len(),
{
    if times.len() > 0 {
        let (g1, d) = spec_decide(g, times.first());
        assert(spec_refill(g, times.first()) == g);
        assert forall|i: int| 0 <= i < times.drop_first().len() implies #[trigger] times.drop_first()[i]
            <= g1.last_refill_ms by {
            assert(times[i + 1] <= g.last_refill_ms);
        }
        lemma_rate_limit_emit_bound(g1, times.drop_first());
        let whole = seq![d] + spec_run(g1, times.drop_first());
        assert(spec_run(g, times) == whole);
        assert(whole.first() == d);
        assert(whole.drop_first() =~= spec_run(g1, times.drop_first()));
    }
}

/// Rate-limit bound, overflow half: within one cooldown window after an
/// overflow signal, and with no tokens regrown, no second overflow
/// signal goes out, however many attempts arrive.
pub proof fn lemma_rate_limit_overflow_bound(g: RateGate, times: Seq<u64>, t0: u64)
    requires
        g.wf(),
        g.last_overflow_ms == Some(t0),
        forall|i: int| 0 <= i < times.len() ==> t0 <= #[trigger] times[i],
        forall|i: int| 0 <= i < times.len() ==> #[trigger] times[i] < t0 + g.cooldown_ms,
        forall|i: int| 0 <= i < times.len() ==> #[trigger] times[i] <= g.last_refill_ms,
    ensures
        count_of(spec_run(g, times), GateDecision::Overflow) == 0,
    decreases times.len(),
{
    if times.len() > 0 {
        let (g1, d) = spec_decide(g, times.first());
        assert(spec_refill(g, times.first()) == g);
        assert(times[0] <= g.last_refill_ms && t0 <= times[0] && times[0] < t0 + g.cooldown_ms);
        assert(d != GateDecision::Overflow);
        assert(g1.last_overflow_ms == Some(t0) && g1.last_refill_ms == g.last_refill_ms
            && g1.cooldown_ms == g.cooldown_ms && g1.wf());
        assert forall|i: int| 0 <= i < times.drop_first().len() implies t0 <= #[trigger] times.drop_first()[i]
            && times.drop_first()[i] < t0 + g1.cooldown_ms && times.drop_first()[i]
            <= g1.last_refill_ms by {
            assert(t0 <= times[i + 1] && times[i + 1] < t0 + g.cooldown_ms && times[i + 1]
                <= g.last_refill_ms);
        }
        lemma_rate_limit_overflow_bound(g1, times.drop_first(), t0);
        let whole = seq![d] + spec_run(g1, times.drop_first());
        assert(spec_run(g, times) == whole);
        assert(whole.first() == d);
        assert(whole.drop_first() =~= spec_run(g1, times.drop_first()));
    }
}

} // verus!
