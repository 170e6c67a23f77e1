use jiji_hamster_bridge::engine::{Command, Engine, Target, Timings};
use jiji_hamster_bridge::time::{Duration, Instant};

const NOW: Instant = Instant { nanos: 1_000_000_000_000 };

fn engine() -> Engine {
    Engine::new(Timings {
        switch_immediate: true,
        return_debounce: Duration::from_secs(60),
        untracked_grace: Duration::from_secs(60),
    })
}

fn track(e: &str) -> Target {
    Target::Track(e.to_string())
}

fn before(t: Instant, d: Duration) -> Instant {
    Instant { nanos: t.nanos - d.nanos }
}

#[test]
fn untracked_to_tracked_starts_immediately() {
    let mut en = engine();
    let cmds = en.on_context(track("work1"), NOW);
    assert_eq!(
        cmds,
        vec![Command::Start {
            entity: "work1".into()
        }]
    );
    assert_eq!(en.next_deadline(), None);
}

#[test]
fn same_entity_is_noop() {
    let mut en = engine();
    en.on_context(track("work1"), NOW);
    let cmds = en.on_context(track("work1"), NOW);
    assert!(cmds.is_empty());
}

#[test]
fn tracked_to_different_tracked_switches_immediately() {
    let mut en = engine();
    en.on_context(track("work1"), NOW);
    let cmds = en.on_context(track("work2"), NOW);
    assert_eq!(
        cmds,
        vec![Command::Switch {
            entity: "work2".into()
        }]
    );
}

#[test]
fn untracked_with_nothing_running_is_noop() {
    let mut en = engine();
    let cmds = en.on_context(Target::Untracked, NOW);
    assert!(cmds.is_empty());
    assert_eq!(en.next_deadline(), None);
}

#[test]
fn set_running_reconciles_manual_changes() {
    let mut en = engine();
    en.on_context(track("work1"), NOW);
    // user manually stopped tracking in the hamster GUI
    en.set_running(None);
    // re-entering work1 therefore starts (not a no-op)
    let cmds = en.on_context(track("work1"), NOW);
    assert_eq!(
        cmds,
        vec![Command::Start {
            entity: "work1".into()
        }]
    );
    // user manually started work2; bridge view follows, no commands
    en.set_running(Some("work2".into()));
    assert!(en.on_context(track("work2"), NOW).is_empty());
}

#[test]
fn untracked_schedules_pause_and_fires_after_grace() {
    let mut en = engine();
    en.on_context(track("work1"), NOW);
    let cmds = en.on_context(Target::Untracked, NOW);
    assert!(cmds.is_empty()); // fact keeps running
    let deadline = en.next_deadline().unwrap();
    // before the deadline: nothing
    assert!(en.on_tick(before(deadline, Duration::from_secs(1))).is_empty());
    // at the deadline: stop
    assert_eq!(en.on_tick(deadline), vec![Command::Stop]);
    assert_eq!(en.next_deadline(), None);
    // settled untracked afterwards is a no-op
    assert!(en.on_context(Target::Untracked, NOW).is_empty());
}

#[test]
fn returning_within_grace_cancels_pause_with_no_interruption() {
    let mut en = engine();
    en.on_context(track("work1"), NOW);
    en.on_context(Target::Untracked, NOW);
    let cmds = en.on_context(track("work1"), NOW);
    assert!(cmds.is_empty()); // no stop, no start — fact never stopped
    assert_eq!(en.next_deadline(), None);
}

#[test]
fn bouncing_between_untracked_keeps_original_deadline() {
    let mut en = engine();
    let t0 = NOW;
    en.on_context(track("work1"), t0);
    en.on_context(Target::Untracked, t0);
    let d1 = en.next_deadline().unwrap();
    // wandering through another untracked context 30s later
    en.on_context(Target::Untracked, t0.plus(Duration::from_secs(30)));
    assert_eq!(en.next_deadline().unwrap(), d1); // not extended
}

#[test]
fn pending_pause_to_other_tracked_switches_with_no_untracked_interval() {
    let mut en = engine();
    en.on_context(track("work1"), NOW);
    en.on_context(Target::Untracked, NOW);
    let cmds = en.on_context(track("work2"), NOW);
    // Switch (not Stop+Start): the boundary is shared, no untracked gap
    assert_eq!(
        cmds,
        vec![Command::Switch {
            entity: "work2".into()
        }]
    );
    assert_eq!(en.next_deadline(), None);
}

#[test]
fn flap_back_to_previous_is_debounced_then_fires() {
    let mut en = engine();
    let t0 = NOW;
    en.on_context(track("work1"), t0);
    en.on_context(track("work2"), t0.plus(Duration::from_secs(5))); // switch
    // back to work1 10s later: previous + within window -> pending, no command
    let cmds = en.on_context(track("work1"), t0.plus(Duration::from_secs(15)));
    assert!(cmds.is_empty());
    let deadline = en.next_deadline().unwrap();
    // staying on work1 (more context events) must not extend the deadline
    en.on_context(track("work1"), t0.plus(Duration::from_secs(30)));
    assert_eq!(en.next_deadline().unwrap(), deadline);
    // deadline passes -> the switch fires
    assert_eq!(
        en.on_tick(deadline),
        vec![Command::Switch {
            entity: "work1".into()
        }]
    );
}

#[test]
fn flap_back_cancelled_by_leaving_again() {
    let mut en = engine();
    let t0 = NOW;
    en.on_context(track("work1"), t0);
    en.on_context(track("work2"), t0.plus(Duration::from_secs(5)));
    en.on_context(track("work1"), t0.plus(Duration::from_secs(15))); // pending flap-back
    // user bounces back to work2 before the deadline: pending dropped, no-op
    let cmds = en.on_context(track("work2"), t0.plus(Duration::from_secs(20)));
    assert!(cmds.is_empty());
    assert_eq!(en.next_deadline(), None);
}

#[test]
fn return_after_window_switches_immediately() {
    let mut en = engine();
    let t0 = NOW;
    en.on_context(track("work1"), t0);
    en.on_context(track("work2"), t0.plus(Duration::from_secs(5)));
    let cmds = en.on_context(track("work1"), t0.plus(Duration::from_secs(120)));
    assert_eq!(
        cmds,
        vec![Command::Switch {
            entity: "work1".into()
        }]
    );
}

#[test]
fn third_entity_is_never_debounced() {
    let mut en = engine();
    let t0 = NOW;
    en.on_context(track("work1"), t0);
    en.on_context(track("work2"), t0.plus(Duration::from_secs(5)));
    let cmds = en.on_context(track("work3"), t0.plus(Duration::from_secs(10)));
    assert_eq!(
        cmds,
        vec![Command::Switch {
            entity: "work3".into()
        }]
    );
}

#[test]
fn switch_immediate_false_debounces_every_switch() {
    let mut en = Engine::new(Timings {
        switch_immediate: false,
        return_debounce: Duration::from_secs(60),
        untracked_grace: Duration::from_secs(60),
    });
    let t0 = NOW;
    en.on_context(track("work1"), t0); // start is still immediate
    let cmds = en.on_context(track("work2"), t0.plus(Duration::from_secs(5)));
    assert!(cmds.is_empty());
    assert!(en.next_deadline().is_some());
}

#[test]
fn confirming_reconcile_keeps_pending_pause() {
    let mut en = engine();
    en.on_context(track("work1"), NOW);
    en.on_context(Target::Untracked, NOW);
    let deadline = en.next_deadline().unwrap();
    // FactsChanged echo confirming the running fact: timers must survive
    en.set_running(Some("work1".into()));
    assert_eq!(en.next_deadline(), Some(deadline));
    assert_eq!(en.on_tick(deadline), vec![Command::Stop]);
}

#[test]
fn changing_reconcile_clears_pending() {
    let mut en = engine();
    let t0 = NOW;
    en.on_context(track("work1"), t0);
    en.on_context(track("work2"), t0.plus(Duration::from_secs(5)));
    en.on_context(track("work1"), t0.plus(Duration::from_secs(10))); // pending flap-back
    assert!(en.next_deadline().is_some());
    // user manually started something else: adopt + drop the timer
    en.set_running(Some("work3".into()));
    assert_eq!(en.next_deadline(), None);
    assert!(en.on_tick(t0.plus(Duration::from_secs(120))).is_empty());
}

#[test]
fn previous_tracks_immediately_prior_entity_across_chain() {
    let mut en = engine();
    let t0 = NOW;
    en.on_context(track("work1"), t0);
    en.on_context(track("work2"), t0.plus(Duration::from_secs(5)));
    en.on_context(track("work3"), t0.plus(Duration::from_secs(10)));
    // flap-back anchor is work2 (immediately prior), not work1:
    // returning to work1 within the window switches immediately...
    let cmds = en.on_context(track("work1"), t0.plus(Duration::from_secs(15)));
    assert_eq!(
        cmds,
        vec![Command::Switch {
            entity: "work1".into()
        }]
    );
}

#[test]
fn a_flap_back_waits_for_the_whole_window() {
    let mut en = engine();
    let t0 = NOW;
    en.on_context(track("work1"), t0);
    en.on_context(track("work2"), t0.plus(Duration::from_secs(5)));
    en.on_context(track("work1"), t0.plus(Duration::from_secs(64)));
    // 59 s after the switch: it waits for another 60 s
    assert_eq!(en.next_deadline(), Some(t0.plus(Duration::from_secs(124))));
    // an untracked excursion replaces the switch by a pause
    en.on_context(Target::Untracked, t0.plus(Duration::from_secs(70)));
    assert_eq!(en.next_deadline(), Some(t0.plus(Duration::from_secs(130))));
}

#[test]
fn the_window_ends_at_its_length() {
    let mut en = engine();
    let t0 = NOW;
    en.on_context(track("work1"), t0);
    en.on_context(track("work2"), t0.plus(Duration::from_secs(5)));
    let cmds = en.on_context(track("work1"), t0.plus(Duration::from_secs(65)));
    assert_eq!(
        cmds,
        vec![Command::Switch {
            entity: "work1".into()
        }]
    );
}

#[test]
fn a_debounced_switch_fires_without_immediate_switches() {
    let mut en = Engine::new(Timings {
        switch_immediate: false,
        return_debounce: Duration::from_secs(10),
        untracked_grace: Duration::from_secs(60),
    });
    en.on_context(track("work1"), NOW);
    en.on_context(track("work2"), NOW);
    let deadline = NOW.plus(Duration::from_secs(10));
    assert_eq!(en.next_deadline(), Some(deadline));
    assert!(en.on_tick(before(deadline, Duration { nanos: 1 })).is_empty());
    assert_eq!(
        en.on_tick(deadline),
        vec![Command::Switch {
            entity: "work2".into()
        }]
    );
}

#[test]
fn new_timings_leave_a_deadline_alone() {
    let mut en = engine();
    en.on_context(track("work1"), NOW);
    en.on_context(Target::Untracked, NOW);
    let deadline = en.next_deadline();
    en.set_timings(Timings {
        switch_immediate: true,
        return_debounce: Duration::from_secs(1),
        untracked_grace: Duration::from_secs(1),
    });
    assert_eq!(en.next_deadline(), deadline);
}

#[test]
fn time_does_not_run_backwards() {
    assert_eq!(NOW.since(NOW.plus(Duration::from_secs(1))).nanos, 0);
    assert_eq!(
        NOW.plus(Duration::from_secs(2)).since(NOW),
        Duration::from_secs(2)
    );
}
