//! Health of the control loop, as the health endpoint reports it.
//!
//! Times are nanoseconds on a monotonic clock, spans are nanoseconds.

use vstd::prelude::*;

verus! {

/// The longest span that a `std::time::Duration` holds.
pub const LONGEST_SPAN: u128 = 18_446_744_073_709_551_615_999_999_999;

/// When the last telegram came and the last control cycle ended.
pub struct AppState {
    last_telegram_at: Option<u64>,
    last_action_at: Option<u64>,
    staleness: u128,
}

/// Whether `at` is known and no more than `span` before `now`.
pub open spec fn within(at: Option<u64>, span: int, now: u64) -> bool {
    at is Some && now - at->0 <= span
}

/// What the endpoint calls healthy: a telegram within the staleness window, and
/// an action within three times that, since the action follows the telegram.
pub open spec fn healthy(
    last_telegram_at: Option<u64>,
    last_action_at: Option<u64>,
    staleness: u128,
    now: u64,
) -> bool {
    within(last_telegram_at, staleness as int, now) && within(last_action_at, staleness * 3, now)
}

impl AppState {
    pub closed spec fn telegram_at(&self) -> Option<u64> {
        self.last_telegram_at
    }

    pub closed spec fn action_at(&self) -> Option<u64> {
        self.last_action_at
    }

    pub closed spec fn window(&self) -> u128 {
        self.staleness
    }

    pub fn new(staleness: u128) -> (r: AppState)
        ensures
            r.telegram_at() is None,
            r.action_at() is None,
            r.window() == staleness,
    {
        AppState { last_telegram_at: None, last_action_at: None, staleness }
    }

    pub fn record_telegram(&mut self, now: u64)
        ensures
            final(self).telegram_at() == Some(now),
            final(self).action_at() == old(self).action_at(),
            final(self).window() == old(self).window(),
    {
        self.last_telegram_at = Some(now);
    }

    /// Records a control cycle action, either a write or a lapse.
    pub fn record_action(&mut self, now: u64)
        ensures
            final(self).action_at() == Some(now),
            final(self).telegram_at() == old(self).telegram_at(),
            final(self).window() == old(self).window(),
    {
        self.last_action_at = Some(now);
    }

    pub fn is_healthy(&self, now: u64) -> (r: bool)
        requires
            self.action_at() is Some ==> self.window() * 3 <= LONGEST_SPAN,
        ensures
            r == healthy(self.telegram_at(), self.action_at(), self.window(), now),
    {
        let telegram_fresh: bool = match self.last_telegram_at {
            Some(t) => elapsed(t, now) <= self.staleness,
            None => false,
        };
        // Slack, since the action follows telegram receipt.
        let action_recent: bool = match self.last_action_at {
            Some(t) => elapsed(t, now) <= self.staleness * 3,
            None => false,
        };
        telegram_fresh && action_recent
    }
}

/// The span from `earlier` to `now`; none if the clock readings are swapped.
fn elapsed(earlier: u64, now: u64) -> (r: u128)
    ensures
        r == if now >= earlier { now - earlier } else { 0 },
{
    if now >= earlier {
        (now - earlier) as u128
    } else {
        0
    }
}

/// A loop that has received no telegram, or has ended no cycle, is not healthy.
pub proof fn law_unhealthy_until_both(
    last_telegram_at: Option<u64>,
    last_action_at: Option<u64>,
    staleness: u128,
    now: u64,
)
    requires
        last_telegram_at is None || last_action_at is None,
    ensures
        !healthy(last_telegram_at, last_action_at, staleness, now),
{
}

/// Health lapses with time and does not come back by itself.
pub proof fn law_health_lapses(
    last_telegram_at: Option<u64>,
    last_action_at: Option<u64>,
    staleness: u128,
    now: u64,
    later: u64,
)
    requires
        now <= later,
        healthy(last_telegram_at, last_action_at, staleness, later),
    ensures
        healthy(last_telegram_at, last_action_at, staleness, now),
{
}

/// Without telegrams the loop is unhealthy once the window has passed, however
/// often it records an action.
pub proof fn law_stale_is_unhealthy(
    telegram_at: u64,
    last_action_at: Option<u64>,
    staleness: u128,
    now: u64,
)
    requires
        now - telegram_at > staleness,
    ensures
        !healthy(Some(telegram_at), last_action_at, staleness, now),
{
}

/// Healthy means a telegram no longer ago than the window and an action no longer
/// ago than three windows, and nothing else.
pub proof fn law_healthy(
    last_telegram_at: Option<u64>,
    last_action_at: Option<u64>,
    staleness: u128,
    now: u64,
)
    ensures
        healthy(last_telegram_at, last_action_at, staleness, now) <==> {
            &&& last_telegram_at matches Some(t) && now <= t + staleness
            &&& last_action_at matches Some(a) && now <= a + staleness + staleness + staleness
        },
{
}

} // verus!
