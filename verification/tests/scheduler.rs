use computer_state::scheduler::{scheduler_step, SchedulerAction, SchedulerEvent};

#[test]
fn start_collects_without_announcing() {
    assert_eq!(
        scheduler_step(SchedulerEvent::Started, 60),
        SchedulerAction { collect: true, announce: false, cleanup: false, wait_seconds: 60 }
    );
}

#[test]
fn timer_collects_and_cleans_up_daily() {
    assert_eq!(
        scheduler_step(SchedulerEvent::TimerFired { seconds_since_cleanup: 600 }, 30),
        SchedulerAction { collect: true, announce: true, cleanup: false, wait_seconds: 30 }
    );
    assert_eq!(
        scheduler_step(SchedulerEvent::TimerFired { seconds_since_cleanup: 86_399 }, 30),
        SchedulerAction { collect: true, announce: true, cleanup: false, wait_seconds: 30 }
    );
    assert_eq!(
        scheduler_step(SchedulerEvent::TimerFired { seconds_since_cleanup: 86_400 }, 30),
        SchedulerAction { collect: true, announce: true, cleanup: true, wait_seconds: 30 }
    );
}

#[test]
fn settings_change_only_restarts_the_wait() {
    assert_eq!(
        scheduler_step(SchedulerEvent::SettingsChanged, 3_600),
        SchedulerAction { collect: false, announce: false, cleanup: false, wait_seconds: 3_600 }
    );
}
