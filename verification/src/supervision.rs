//! Restart policies for supervised tasks and the bookkeeping that applies them.

use crate::time::{Duration, MAX_NANOS};
use vstd::arithmetic::power2::pow2;
use vstd::bits::{lemma_u32_pow2_no_overflow, lemma_u32_shl_is_mul};
use vstd::prelude::*;

verus! {

/// How a supervisor answers a failed task run.
#[derive(Debug, Clone, Copy, PartialEq, Eq)]
pub enum RestartPolicy {
    /// Never restart.
    Never,
    /// Restart at once, up to `max_restarts` consecutive failures.
    Immediate { max_restarts: usize },
    /// Restart after `delay`, up to `max_restarts` consecutive failures.
    FixedDelay { max_restarts: usize, delay: Duration },
    /// Restart after `base_delay` doubled for every earlier consecutive failure, capped at
    /// `max_delay`, up to `max_restarts` consecutive failures.
    ExponentialBackoff { max_restarts: usize, base_delay: Duration, max_delay: Duration },
}

impl Default for RestartPolicy {
    fn default() -> (p: Self)
        ensures
            (p is Never),
    {
        RestartPolicy::Never
    }
}

/// What a supervisor decides after a failure.
#[derive(Debug, Clone, Copy, PartialEq, Eq)]
pub enum SupervisionDecision {
    Stop,
    RestartAfter(Duration),
}

/// Counters of a supervisor's history.
#[derive(Debug, Clone, Copy, PartialEq, Eq)]
pub struct SupervisionStats {
    /// Failures since the last success.
    pub consecutive_failures: usize,
    pub total_failures: usize,
    pub total_restarts: usize,
}

impl Default for SupervisionStats {
    fn default() -> (s: Self)
        ensures
            s.consecutive_failures == 0,
            s.total_failures == 0,
            s.total_restarts == 0,
    {
        SupervisionStats { consecutive_failures: 0, total_failures: 0, total_restarts: 0 }
    }
}

/// The multiplier applied to the base delay at the `ordinal`-th consecutive failure: two to
/// the power `ordinal - 1`, where that exponent is first reduced to 32 bits, and `u32::MAX`
/// when the exponent reaches 32 or more.
pub open spec fn backoff_multiplier(ordinal: nat) -> nat {
    let shift = (if ordinal == 0 { 0 } else { ordinal - 1 }) % 0x1_0000_0000;
    if shift < 32 {
        pow2(shift as nat)
    } else {
        u32::MAX as nat
    }
}

/// `nanos`, saturated at the longest representable span.
pub open spec fn saturate(nanos: int) -> nat {
    if nanos > MAX_NANOS {
        MAX_NANOS as nat
    } else {
        nanos as nat
    }
}

/// The smaller of two naturals.
pub open spec fn min_nat(a: nat, b: nat) -> nat {
    if a <= b {
        a
    } else {
        b
    }
}

/// The restart delay (in nanoseconds) that `policy` prescribes at the `ordinal`-th
/// consecutive failure, or `None` when the task is to stop.
pub open spec fn restart_delay(policy: RestartPolicy, ordinal: nat) -> Option<nat> {
    match policy {
        RestartPolicy::Never => None,
        RestartPolicy::Immediate { max_restarts } => if ordinal > max_restarts {
            None
        } else {
            Some(0)
        },
        RestartPolicy::FixedDelay { max_restarts, delay } => if ordinal > max_restarts {
            None
        } else {
            Some(delay@)
        },
        RestartPolicy::ExponentialBackoff { max_restarts, base_delay, max_delay } => if ordinal
            > max_restarts {
            None
        } else {
            Some(min_nat(saturate((base_delay@ * backoff_multiplier(ordinal)) as int), max_delay@))
        },
    }
}

/// `decision` carries out `expected` (see [`restart_delay`]).
pub open spec fn decision_is(decision: SupervisionDecision, expected: Option<nat>) -> bool {
    match decision {
        SupervisionDecision::Stop => expected is None,
        SupervisionDecision::RestartAfter(delay) => expected == Some(delay@),
    }
}

/// Stateful evaluator of a restart policy.
#[derive(Debug, Clone)]
pub struct Supervisor {
    policy: RestartPolicy,
    stats: SupervisionStats,
}

/// The multiplier for the `ordinal`-th consecutive failure (see [`backoff_multiplier`]).
fn multiplier_for(ordinal: usize) -> (m: u32)
    ensures
        m == backoff_multiplier(ordinal as nat),
{
    let previous = ordinal.saturating_sub(1);
    let shift = previous as u32;
    proof {
        assert((previous as u32) as u64 == (previous as u64) % 0x1_0000_0000u64) by (bit_vector);
    }
    if shift < 32 {
        proof {
            lemma_u32_pow2_no_overflow(shift as nat);
            lemma_u32_shl_is_mul(1, shift);
        }
        1u32 << shift
    } else {
        u32::MAX
    }
}

impl Supervisor {
    /// The policy this supervisor applies.
    pub closed spec fn policy_spec(&self) -> RestartPolicy {
        self.policy
    }

    /// The counters this supervisor keeps.
    pub closed spec fn stats_spec(&self) -> SupervisionStats {
        self.stats
    }

    /// A supervisor for `policy` with all counters at zero.
    pub fn new(policy: RestartPolicy) -> (s: Supervisor)
        ensures
            s.policy_spec() == policy,
            s.stats_spec() == (SupervisionStats {
                consecutive_failures: 0,
                total_failures: 0,
                total_restarts: 0,
            }),
    {
        Supervisor { policy, stats: SupervisionStats::default() }
    }

    pub fn policy(&self) -> (p: RestartPolicy)
        ensures
            p == self.policy_spec(),
    {
        self.policy
    }

    pub fn stats(&self) -> (s: SupervisionStats)
        ensures
            s == self.stats_spec(),
    {
        self.stats
    }

    /// Records a successful run: the failure streak ends, the totals stay.
    pub fn record_success(&mut self)
        ensures
            final(self).policy_spec() == old(self).policy_spec(),
            final(self).stats_spec() == (SupervisionStats {
                consecutive_failures: 0,
                ..old(self).stats_spec()
            }),
            stepped(*old(self), *final(self), false),
    {
        self.stats.consecutive_failures = 0;
    }

    /// Records a failed run and decides what follows: the decision is the one that the
    /// policy prescribes for the lengthened failure streak (see [`restart_delay`]); every
    /// restart decision is counted.
    pub fn record_failure(&mut self) -> (decision: SupervisionDecision)
        requires
            old(self).stats_spec().consecutive_failures < usize::MAX,
            old(self).stats_spec().total_failures < usize::MAX,
            old(self).stats_spec().total_restarts < usize::MAX,
        ensures
            final(self).policy_spec() == old(self).policy_spec(),
            decision_is(
                decision,
                restart_delay(
                    old(self).policy_spec(),
                    (old(self).stats_spec().consecutive_failures + 1) as nat,
                ),
            ),
            final(self).stats_spec().consecutive_failures == old(
                self,
            ).stats_spec().consecutive_failures + 1,
            final(self).stats_spec().total_failures == old(self).stats_spec().total_failures + 1,
            final(self).stats_spec().total_restarts == old(self).stats_spec().total_restarts + (
            if decision is Stop {
                0int
            } else {
                1int
            }),
            stepped(*old(self), *final(self), true),
    {
        self.stats.total_failures = self.stats.total_failures + 1;
        self.stats.consecutive_failures = self.stats.consecutive_failures + 1;
        let failure_ordinal = self.stats.consecutive_failures;

        let decision = match self.policy {
            RestartPolicy::Never => SupervisionDecision::Stop,
            RestartPolicy::Immediate { max_restarts } => {
                if failure_ordinal > max_restarts {
                    SupervisionDecision::Stop
                } else {
                    SupervisionDecision::RestartAfter(Duration::zero())
                }
            },
            RestartPolicy::FixedDelay { max_restarts, delay } => {
                if failure_ordinal > max_restarts {
                    SupervisionDecision::Stop
                } else {
                    SupervisionDecision::RestartAfter(delay)
                }
            },
            RestartPolicy::ExponentialBackoff { max_restarts, base_delay, max_delay } => {
                if failure_ordinal > max_restarts {
                    SupervisionDecision::Stop
                } else {
                    let multiplier = multiplier_for(failure_ordinal);
                    let delay = base_delay.saturating_mul(multiplier).min(max_delay);
                    SupervisionDecision::RestartAfter(delay)
                }
            },
        };

        if let SupervisionDecision::RestartAfter(_) = decision {
            self.stats.total_restarts = self.stats.total_restarts + 1;
        }
        decision
    }
}

/// The backoff multiplier never decreases along a failure streak of up to `2^32` failures.
proof fn lemma_multiplier_monotonic(i: nat, j: nat)
    requires
        1 <= i <= j <= 0x1_0000_0000,
    ensures
        backoff_multiplier(i) <= backoff_multiplier(j),
{
    let si = (i - 1) as nat;
    let sj = (j - 1) as nat;
    assert(si % 0x1_0000_0000 == si);
    assert(sj % 0x1_0000_0000 == sj);
    if sj < 32 {
        if si < sj {
            vstd::arithmetic::power2::lemma_pow2_strictly_increases(si, sj);
        }
    } else if si < 32 {
        lemma_u32_pow2_no_overflow(si);
    }
}

/// The backoff multiplier is `2^(k-1)` at the `k`-th consecutive failure for the first 32
/// failures of a streak: 1 at the first, doubling with each further failure.
pub proof fn law_backoff_multiplier_doubles(k: nat)
    requires
        1 <= k <= 32,
    ensures
        backoff_multiplier(k) == pow2((k - 1) as nat),
        backoff_multiplier(1) == 1,
        k < 32 ==> backoff_multiplier(k + 1) == 2 * backoff_multiplier(k),
{
    assert(((k - 1) as nat) % 0x1_0000_0000 == (k - 1) as nat);
    assert(0nat % 0x1_0000_0000 == 0);
    assert(pow2(0) == 1) by {
        vstd::arithmetic::power2::lemma2_to64();
    }
    if k < 32 {
        assert((k as nat) % 0x1_0000_0000 == k as nat);
        vstd::arithmetic::power2::lemma_pow2_unfold(k);
    }
}

/// From the 33rd consecutive failure on (up to `2^32` failures, where the exponent wraps
/// around), the multiplier stays at `u32::MAX`.
pub proof fn law_backoff_multiplier_saturates(k: nat)
    requires
        33 <= k <= 0x1_0000_0000,
    ensures
        backoff_multiplier(k) == u32::MAX,
{
    assert(((k - 1) as nat) % 0x1_0000_0000 == (k - 1) as nat);
}

/// Within its restart budget, and for the first 32 failures of a streak, a backoff policy
/// waits the base delay times `2^(k-1)` at the `k`-th consecutive failure, or the cap when
/// that is longer.
pub proof fn law_backoff_delay_doubles_up_to_cap(
    max_restarts: usize,
    base_delay: Duration,
    max_delay: Duration,
    k: nat,
)
    requires
        1 <= k <= 32,
        k <= max_restarts,
    ensures
        restart_delay(
            RestartPolicy::ExponentialBackoff { max_restarts, base_delay, max_delay },
            k,
        ) == Some(
            if base_delay@ * pow2((k - 1) as nat) <= max_delay@ {
                base_delay@ * pow2((k - 1) as nat)
            } else {
                max_delay@ as nat
            },
        ),
{
    law_backoff_multiplier_doubles(k);
    max_delay.lemma_bounded();
    assert(base_delay@ * pow2((k - 1) as nat) >= 0) by (nonlinear_arith);
}

/// Backoff delays never exceed the policy's cap.
pub proof fn law_backoff_delay_is_capped(
    max_restarts: usize,
    base_delay: Duration,
    max_delay: Duration,
    ordinal: nat,
)
    ensures
        restart_delay(
            RestartPolicy::ExponentialBackoff { max_restarts, base_delay, max_delay },
            ordinal,
        ) matches Some(delay) ==> delay <= max_delay@,
{
}

/// Backoff delays never shrink as a failure streak grows (for streaks of up to `2^32`
/// failures, beyond which the exponent wraps around).
pub proof fn law_backoff_delay_grows_with_streak(
    max_restarts: usize,
    base_delay: Duration,
    max_delay: Duration,
    i: nat,
    j: nat,
)
    requires
        1 <= i <= j <= max_restarts,
        j <= 0x1_0000_0000,
    ensures
        restart_delay(
            RestartPolicy::ExponentialBackoff { max_restarts, base_delay, max_delay },
            i,
        )->0 <= restart_delay(
            RestartPolicy::ExponentialBackoff { max_restarts, base_delay, max_delay },
            j,
        )->0,
{
    lemma_multiplier_monotonic(i, j);
    assert(base_delay@ * backoff_multiplier(i) <= base_delay@ * backoff_multiplier(j))
        by (nonlinear_arith)
        requires
            backoff_multiplier(i) <= backoff_multiplier(j),
    ;
}

/// The first failure of a streak (the one after a success, or the very first) waits the
/// base delay of a backoff policy, or the fixed delay, and stops only when the policy allows
/// no restart at all.
pub proof fn law_first_failure_of_streak(policy: RestartPolicy)
    ensures
        restart_delay(policy, 1) == (match policy {
            RestartPolicy::Never => None,
            RestartPolicy::Immediate { max_restarts } => if max_restarts >= 1 {
                Some(0nat)
            } else {
                None
            },
            RestartPolicy::FixedDelay { max_restarts, delay } => if max_restarts >= 1 {
                Some(delay@)
            } else {
                None
            },
            RestartPolicy::ExponentialBackoff { max_restarts, base_delay, max_delay } => if max_restarts
                >= 1 {
                Some(min_nat(base_delay@, max_delay@))
            } else {
                None
            },
        }),
{
    assert(0nat % 0x1_0000_0000 == 0);
    assert(pow2(0) == 1) by {
        vstd::arithmetic::power2::lemma2_to64();
    }
    assert(backoff_multiplier(1) == 1);
    match policy {
        RestartPolicy::ExponentialBackoff { max_restarts, base_delay, max_delay } => {
            assert(base_delay@ * 1 == base_delay@);
            assert(base_delay@ <= MAX_NANOS) by {
                base_delay.lemma_bounded();
            }
        },
        _ => {},
    }
}

/// A policy with a restart budget stops exactly when the failure streak outgrows the budget.
pub proof fn law_stops_exactly_past_budget(policy: RestartPolicy, ordinal: nat)
    requires
        !(policy is Never),
    ensures
        (restart_delay(policy, ordinal) is None) == (ordinal > match policy {
            RestartPolicy::Immediate { max_restarts } => max_restarts,
            RestartPolicy::FixedDelay { max_restarts, .. } => max_restarts,
            RestartPolicy::ExponentialBackoff { max_restarts, .. } => max_restarts,
            RestartPolicy::Never => 0,
        }),
{
}


/// A supervisor's counters as numbers: failure streak, total failures, total restarts.
pub open spec fn counters(stats: SupervisionStats) -> (nat, nat, nat) {
    (stats.consecutive_failures as nat, stats.total_failures as nat, stats.total_restarts as nat)
}

/// The counters after a failure under `policy`: the streak and the total grow by one, and
/// the restarts too when the policy restarts after this failure.
pub open spec fn after_failure(policy: RestartPolicy, c: (nat, nat, nat)) -> (nat, nat, nat) {
    (c.0 + 1, c.1 + 1, c.2 + if restart_delay(policy, c.0 + 1) is Some {
        1nat
    } else {
        0nat
    })
}

/// The counters after a success: the streak ends, the totals stay.
pub open spec fn after_success(c: (nat, nat, nat)) -> (nat, nat, nat) {
    (0, c.1, c.2)
}

/// The counters after `calls` from fresh counters, where `true` records a failure and
/// `false` a success.
pub open spec fn after_calls(policy: RestartPolicy, calls: Seq<bool>) -> (nat, nat, nat)
    decreases calls.len(),
{
    if calls.len() == 0 {
        (0, 0, 0)
    } else if calls.last() {
        after_failure(policy, after_calls(policy, calls.drop_last()))
    } else {
        after_success(after_calls(policy, calls.drop_last()))
    }
}

/// How many failures `calls` records.
pub open spec fn failures_in(calls: Seq<bool>) -> nat
    decreases calls.len(),
{
    if calls.len() == 0 {
        0
    } else {
        failures_in(calls.drop_last()) + if calls.last() {
            1nat
        } else {
            0nat
        }
    }
}

/// `after` is `before` once a failure (`failure`) or a success was recorded: same policy,
/// counters updated accordingly.
pub open spec fn stepped(before: Supervisor, after: Supervisor, failure: bool) -> bool {
    &&& after.policy_spec() == before.policy_spec()
    &&& counters(after.stats_spec()) == if failure {
        after_failure(before.policy_spec(), counters(before.stats_spec()))
    } else {
        after_success(counters(before.stats_spec()))
    }
}

/// Over any history of recorded failures and successes from fresh counters: the policy never
/// changes; the counters are those of [`after_calls`]; the failure streak and the restarts
/// never exceed the failures, which are exactly the failures recorded; and a supervisor that
/// never restarts has restarted nothing.
pub proof fn law_supervisor_history(trace: Seq<Supervisor>, calls: Seq<bool>)
    requires
        trace.len() == calls.len() + 1,
        counters(trace[0].stats_spec()) == (0nat, 0nat, 0nat),
        forall|i: int| 0 <= i < calls.len() ==> #[trigger] stepped(trace[i], trace[i + 1], calls[i]),
    ensures
        trace.last().policy_spec() == trace[0].policy_spec(),
        counters(trace.last().stats_spec()) == after_calls(trace[0].policy_spec(), calls),
        after_calls(trace[0].policy_spec(), calls).0 <= after_calls(trace[0].policy_spec(), calls).1,
        after_calls(trace[0].policy_spec(), calls).2 <= after_calls(trace[0].policy_spec(), calls).1,
        after_calls(trace[0].policy_spec(), calls).1 == failures_in(calls),
        trace[0].policy_spec() is Never ==> after_calls(trace[0].policy_spec(), calls).2 == 0,
    decreases calls.len(),
{
    if calls.len() > 0 {
        let n = calls.len() - 1;
        let shorter = trace.drop_last();
        assert forall|i: int| 0 <= i < calls.drop_last().len() implies #[trigger] stepped(shorter[i], shorter[i + 1], calls.drop_last()[i]) by {
            assert(stepped(trace[i], trace[i + 1], calls[i]));
        }
        law_supervisor_history(shorter, calls.drop_last());
        assert(stepped(trace[n], trace[n + 1], calls[n]));
        assert(shorter.last() == trace[n]);
    }
}

} // verus!
