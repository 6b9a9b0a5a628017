//! The collection scheduler's decisions: when to collect, when to announce a
//! new sample, when to run the daily retention cleanup, and how long to wait.
//!
//! The platform layer runs the loop: it waits, performs the action that a
//! step returns and reports the next event.
use vstd::prelude::*;
use crate::storage::cleanup_due;

verus! {

/// What woke the scheduler.
#[derive(Debug, Clone, Copy, PartialEq, Eq, Structural)]
pub enum SchedulerEvent {
    /// The scheduler has just started.
    Started,
    /// The collection interval has elapsed; the last cleanup ran
    /// `seconds_since_cleanup` seconds ago (or the scheduler started then).
    TimerFired { seconds_since_cleanup: u64 },
    /// The settings changed, so the wait starts over with the new interval.
    SettingsChanged,
}

/// What the scheduler does next: collect (and store) a run of samples,
/// announce it to the window if it succeeds, run the retention cleanup and
/// restart its clock, then wait `wait_seconds` for the next timer.
#[derive(Debug, Clone, Copy, PartialEq, Eq, Structural)]
pub struct SchedulerAction {
    pub collect: bool,
    pub announce: bool,
    pub cleanup: bool,
    pub wait_seconds: u64,
}

/// The action that answers `event` when collections are `interval_seconds`
/// apart.
pub open spec fn scheduled_action(event: SchedulerEvent, interval_seconds: u64) -> SchedulerAction {
    match event {
        SchedulerEvent::Started => SchedulerAction { collect: true, announce: false, cleanup: false, wait_seconds: interval_seconds },
        SchedulerEvent::TimerFired { seconds_since_cleanup } => SchedulerAction {
            collect: true,
            announce: true,
            cleanup: seconds_since_cleanup >= 86_400,
            wait_seconds: interval_seconds,
        },
        SchedulerEvent::SettingsChanged => SchedulerAction { collect: false, announce: false, cleanup: false, wait_seconds: interval_seconds },
    }
}

/// One step of the scheduler: the action for `event` under the current
/// collection interval. A start collects without announcing; each timer
/// collects, announces a successful run and cleans up once a day has passed
/// since the last cleanup; a settings change only restarts the wait.
pub fn scheduler_step(event: SchedulerEvent, interval_seconds: u64) -> (r: SchedulerAction)
    ensures
        r == scheduled_action(event, interval_seconds),
{
    match event {
        SchedulerEvent::Started => SchedulerAction { collect: true, announce: false, cleanup: false, wait_seconds: interval_seconds },
        SchedulerEvent::TimerFired { seconds_since_cleanup } => SchedulerAction {
            collect: true,
            announce: true,
            cleanup: cleanup_due(seconds_since_cleanup),
            wait_seconds: interval_seconds,
        },
        SchedulerEvent::SettingsChanged => SchedulerAction { collect: false, announce: false, cleanup: false, wait_seconds: interval_seconds },
    }
}

/// Every step waits one collection interval; every event but a settings
/// change collects; only a timer announces; and cleanup runs exactly when a
/// timer finds a day or more since the last one.
pub proof fn law_scheduler_actions(event: SchedulerEvent, interval_seconds: u64)
    ensures
        scheduled_action(event, interval_seconds).wait_seconds == interval_seconds,
        scheduled_action(event, interval_seconds).collect <==> !(event is SettingsChanged),
        scheduled_action(event, interval_seconds).announce <==> event is TimerFired,
        scheduled_action(event, interval_seconds).cleanup <==> (event matches SchedulerEvent::TimerFired { seconds_since_cleanup }
            && seconds_since_cleanup >= 86_400),
{
}

/// Retention cleanup runs at most once a day: right after a cleanup (the
/// clock restarted), no timer that fires within a day asks for another.
pub proof fn law_cleanup_at_most_daily(seconds_since_cleanup: u64, interval_seconds: u64)
    requires
        seconds_since_cleanup < 86_400,
    ensures
        !scheduled_action(SchedulerEvent::TimerFired { seconds_since_cleanup }, interval_seconds).cleanup,
        !scheduled_action(SchedulerEvent::Started, interval_seconds).cleanup,
        !scheduled_action(SchedulerEvent::SettingsChanged, interval_seconds).cleanup,
{
}

} // verus!
