//! The supervisor's clockwork: four independent deadlines driving
//! discovery, health probing, strategy evaluation, and selector rebuild.
//!
//! The loop that performs the work sleeps and awaits outside this crate;
//! what is decided here is pure: which duties are due at a given instant,
//! how the deadlines advance once they ran, and when to wake up next. A
//! missing period is the sentinel [`NEVER_MS`], so the minimum over the
//! deadlines is always defined.

use vstd::prelude::*;

verus! {

/// The sentinel period for duties that never run: 2^32 - 1 seconds, about
/// 136 years, in milliseconds.
pub const NEVER_MS: u64 = 4_294_967_295_000;

/// The periods of the four duties, in milliseconds; `None` means the duty
/// runs at most once.
pub struct SupervisorPeriods {
    pub update_period: Option<u64>,
    pub health_check_period: Option<u64>,
    pub strategy_eval_period: Option<u64>,
    pub rebuild_period: Option<u64>,
}

/// The period to add to a deadline once its duty ran.
pub open spec fn effective_period(p: Option<u64>) -> u64 {
    match p {
        Some(v) => v,
        None => NEVER_MS,
    }
}

/// Which duties are due at an instant.
pub struct TickPlan {
    pub run_update: bool,
    pub run_health_check: bool,
    pub run_strategy_eval: bool,
    pub run_selector_rebuild: bool,
}

/// The four deadlines, in milliseconds of some monotonic clock.
pub struct SupervisorState {
    pub next_update: u64,
    pub next_health_check: u64,
    pub next_strategy_eval: u64,
    pub next_selector_rebuild: u64,
}

impl SupervisorState {
    /// The state at startup: discovery, health check, and evaluation run
    /// at once; the first rebuild waits one rebuild period.
    pub fn new(now: u64, rebuild_frequency: Option<u64>) -> (r: SupervisorState)
        ensures
            r.next_update == now,
            r.next_health_check == now,
            r.next_strategy_eval == now,
            r.next_selector_rebuild == now as int + effective_period(rebuild_frequency) as int
                || (r.next_selector_rebuild == u64::MAX && now as int + effective_period(
                rebuild_frequency,
            ) as int > u64::MAX),
    {
        let rebuild = match rebuild_frequency {
            Some(v) => v,
            None => NEVER_MS,
        };
        SupervisorState {
            next_update: now,
            next_health_check: now,
            next_strategy_eval: now,
            next_selector_rebuild: now.saturating_add(rebuild),
        }
    }

    /// Which duties are due at `now`: exactly those whose deadline has
    /// passed.
    pub fn plan(&self, now: u64) -> (r: TickPlan)
        ensures
            r.run_update == (self.next_update <= now),
            r.run_health_check == (self.next_health_check <= now),
            r.run_strategy_eval == (self.next_strategy_eval <= now),
            r.run_selector_rebuild == (self.next_selector_rebuild <= now),
    {
        TickPlan {
            run_update: self.next_update <= now,
            run_health_check: self.next_health_check <= now,
            run_strategy_eval: self.next_strategy_eval <= now,
            run_selector_rebuild: self.next_selector_rebuild <= now,
        }
    }

    /// Advances the deadlines after the due duties ran: each executed duty
    /// moves its deadline forward by its period, and a strategy change
    /// schedules the next rebuild one rebuild period from `now`.
    ///
    /// All additions saturate; a saturated deadline simply never comes.
    pub fn advance(
        &mut self,
        now: u64,
        plan: &TickPlan,
        strategy_changed: bool,
        periods: &SupervisorPeriods,
        rebuild_frequency: Option<u64>,
    )
        ensures
            final(self).next_update == advanced_deadline(
                old(self).next_update,
                plan.run_update,
                effective_period(periods.update_period),
            ),
            final(self).next_health_check == advanced_deadline(
                old(self).next_health_check,
                plan.run_health_check,
                effective_period(periods.health_check_period),
            ),
            final(self).next_strategy_eval == advanced_deadline(
                old(self).next_strategy_eval,
                plan.run_strategy_eval,
                effective_period(periods.strategy_eval_period),
            ),
            final(self).next_selector_rebuild == ({
                let after_eval = if plan.run_strategy_eval && strategy_changed {
                    sat_add(now, effective_period(rebuild_frequency))
                } else {
                    old(self).next_selector_rebuild
                };
                advanced_deadline(
                    after_eval,
                    plan.run_selector_rebuild && !(plan.run_strategy_eval && strategy_changed),
                    effective_period(periods.rebuild_period),
                )
            }),
    {
        if plan.run_update {
            self.next_update = self.next_update.saturating_add(
                period_or_never(periods.update_period),
            );
        }
        if plan.run_health_check {
            self.next_health_check = self.next_health_check.saturating_add(
                period_or_never(periods.health_check_period),
            );
        }
        if plan.run_strategy_eval {
            self.next_strategy_eval = self.next_strategy_eval.saturating_add(
                period_or_never(periods.strategy_eval_period),
            );
        }
        if plan.run_strategy_eval && strategy_changed {
            // A fresh strategy gets a fresh selector soon: the rebuild
            // deadline restarts from now.
            self.next_selector_rebuild = now.saturating_add(period_or_never(rebuild_frequency));
        } else if plan.run_selector_rebuild {
            self.next_selector_rebuild = self.next_selector_rebuild.saturating_add(
                period_or_never(periods.rebuild_period),
            );
        }
    }

    /// When to wake up next: the earliest of the four deadlines.
    pub fn wake_deadline(&self) -> (r: u64)
        ensures
            r <= self.next_update,
            r <= self.next_health_check,
            r <= self.next_strategy_eval,
            r <= self.next_selector_rebuild,
            r == self.next_update || r == self.next_health_check || r == self.next_strategy_eval
                || r == self.next_selector_rebuild,
    {
        let mut r = self.next_update;
        if self.next_health_check < r {
            r = self.next_health_check;
        }
        if self.next_strategy_eval < r {
            r = self.next_strategy_eval;
        }
        if self.next_selector_rebuild < r {
            r = self.next_selector_rebuild;
        }
        r
    }
}

/// Saturating addition on deadlines.
pub open spec fn sat_add(a: u64, b: u64) -> u64 {
    if a + b > u64::MAX {
        u64::MAX
    } else {
        (a + b) as u64
    }
}

/// A deadline after a tick: moved one period forward if its duty ran.
pub open spec fn advanced_deadline(deadline: u64, ran: bool, period: u64) -> u64 {
    if ran {
        sat_add(deadline, period)
    } else {
        deadline
    }
}

/// The period of a duty, or the sentinel if it has none.
fn period_or_never(p: Option<u64>) -> (r: u64)
    ensures
        r == effective_period(p),
{
    match p {
        Some(v) => v,
        None => NEVER_MS,
    }
}

} // verus!
