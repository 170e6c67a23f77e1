use jiji_hamster_bridge::config::Config;
use jiji_hamster_bridge::engine::Command;
use jiji_hamster_bridge::hamster::{Fact, FactRange, NewFact};
use jiji_hamster_bridge::run::{
    failure_notice, next_call, reload, Bridge, Call, LoopInput, Preparation, Reaction, Reload,
};
use jiji_hamster_bridge::time::{Duration, Instant};

const NOW_LOCAL: &str = "2026-06-06 15:32";

/// Recording fake: one scripted fact list serves both fact queries; records every call.
#[derive(Default)]
struct FakeHamster {
    facts: Vec<Fact>,
    calls: Vec<String>,
    fail_next_add: bool,
}

impl FakeHamster {
    fn recent_facts(&mut self, days: u64) -> Vec<Fact> {
        self.calls.push(format!("recent:{days}"));
        self.facts.clone()
    }

    fn add_fact(&mut self, fact: &NewFact) -> Result<(), String> {
        if std::mem::take(&mut self.fail_next_add) {
            self.calls.push("add-failed".into());
            return Err("simulated add failure".into());
        }
        self.calls.push(format!("add:{}@{}", fact.activity, fact.category));
        Ok(())
    }

    fn stop_tracking(&mut self) {
        self.calls.push("stop".into());
    }

    fn notify(&mut self, message: &str) {
        self.calls.push(format!("notify:{message}"));
    }
}

/// Drives a bridge against the fake, on a clock of its own.
struct Daemon {
    bridge: Bridge,
    fake: FakeHamster,
    now: Instant,
}

impl Daemon {
    fn start(fake: FakeHamster, cfg: Config) -> Daemon {
        let mut bridge = Bridge::new(cfg);
        bridge.reconcile(&fake.facts);
        Daemon {
            bridge,
            fake,
            now: Instant { nanos: 0 },
        }
    }

    fn send(&mut self, input: LoopInput) {
        match self.bridge.on_input(input, self.now) {
            Reaction::Execute(cmds) => self.execute_all(cmds),
            Reaction::ReadTodaysFacts => self.bridge.reconcile(&self.fake.facts),
        }
    }

    fn sleep(&mut self, nanos: u128) {
        let end = self.now.nanos + nanos;
        while let Some(deadline) = self.bridge.next_deadline() {
            if deadline.nanos > end {
                break;
            }
            self.now = deadline;
            let cmds = self.bridge.on_tick(self.now);
            self.execute_all(cmds);
        }
        self.now = Instant { nanos: end };
    }

    fn execute_all(&mut self, cmds: Vec<Command>) {
        for cmd in cmds {
            if let Err(e) = self.execute(&cmd) {
                self.fake.notify(&failure_notice(&e));
            }
        }
    }

    fn execute(&mut self, cmd: &Command) -> Result<(), String> {
        match self.bridge.prepare(cmd) {
            Preparation::Stop => self.fake.stop_tracking(),
            Preparation::Unresolved { message } => return Err(message),
            Preparation::ReadRecentFacts { days, rule } => {
                let recent = self.fake.recent_facts(days);
                let calls = self.bridge.resume_calls(cmd, &rule, &recent, NOW_LOCAL);
                let mut next = Some(0);
                while let Some(i) = next {
                    let outcome = match &calls[i] {
                        Call::StopTracking => {
                            self.fake.stop_tracking();
                            Ok(())
                        }
                        Call::AddFact(fact) => self.fake.add_fact(fact),
                        Call::Notify(message) => {
                            self.fake.notify(message);
                            Ok(())
                        }
                    };
                    next = next_call(&calls, i, outcome.is_ok());
                    outcome?;
                }
            }
        }
        Ok(())
    }

    fn count(&self, call: &str) -> usize {
        self.fake.calls.iter().filter(|c| *c == call).count()
    }
}

const CONFIG: &str = r#"
    [activities.work1]
    category = "work1.example"
    [activities.work2]
    category = "work2.example"
"#;

fn millis(n: u128) -> u128 {
    n * 1_000_000
}

fn secs(n: u64) -> u128 {
    Duration::from_secs(n).nanos
}

fn activity_switch_lines() -> Vec<String> {
    vec![
        // snapshot: work1 active, no focused named workspace
        r#"{"ActivitiesChanged":{"activities":[
            {"id":3,"name":"work1","is_active":true},
            {"id":6,"name":"games","is_active":false},
            {"id":8,"name":"work2","is_active":false}]}}"#
            .into(),
    ]
}

#[test]
fn full_cycle_track_pause_resume() {
    let cfg = Config::parse(CONFIG).unwrap();
    let mut d = Daemon::start(FakeHamster::default(), cfg);

    // snapshot puts us in work1 -> placeholder started (no facts today)
    for l in activity_switch_lines() {
        d.send(LoopInput::EventLine(l));
    }
    d.sleep(millis(10));
    // switch to games (untracked): grace period, nothing yet
    d.send(LoopInput::EventLine(
        r#"{"ActivitySwitched":{"id":6,"previous_id":3}}"#.into(),
    ));
    d.sleep(secs(2)); // < grace
    assert_eq!(d.count("stop"), 0);
    assert!(d
        .fake
        .calls
        .iter()
        .any(|c| c.starts_with("add:placeholder@work1.example")));
    // grace elapses -> stop fires
    d.sleep(secs(70));
    assert!(d.fake.calls.iter().any(|c| c == "stop"));
}

#[test]
fn tracked_to_tracked_switch_stops_then_adds() {
    let cfg = Config::parse(CONFIG).unwrap();
    let mut d = Daemon::start(FakeHamster::default(), cfg);

    for l in activity_switch_lines() {
        d.send(LoopInput::EventLine(l));
    }
    d.send(LoopInput::EventLine(
        r#"{"ActivitySwitched":{"id":8,"previous_id":3}}"#.into(),
    ));
    d.sleep(millis(10));
    let calls = d.fake.calls.clone();
    // switch = stop + add, in that order
    let stop_idx = calls.iter().position(|c| c == "stop").unwrap();
    let add_idx = calls
        .iter()
        .position(|c| c.starts_with("add:placeholder@work2.example"))
        .unwrap();
    assert!(stop_idx < add_idx);
}

#[test]
fn resume_clones_a_prior_fact_within_the_lookback_window() {
    // a completed work2 fact from earlier in the window (not today) exists;
    // entering work2 must clone it via the recent-facts query rather than
    // minting a placeholder
    let fake = FakeHamster {
        facts: vec![Fact {
            activity: "devel".into(),
            category: "work2.example".into(),
            description: "ongoing work".into(),
            tags: vec!["entity: work2".into()],
            id: 7,
            range: FactRange {
                start: Some("2026-06-02 09:00".into()),
                end: Some("2026-06-02 17:00".into()),
            },
        }],
        ..FakeHamster::default()
    };
    let cfg = Config::parse(CONFIG).unwrap();
    let mut d = Daemon::start(fake, cfg);

    for l in activity_switch_lines() {
        d.send(LoopInput::EventLine(l));
    }
    d.send(LoopInput::EventLine(
        r#"{"ActivitySwitched":{"id":8,"previous_id":3}}"#.into(),
    ));
    d.sleep(millis(10));

    let calls = d.fake.calls.clone();
    // the prior fact is cloned, not a placeholder
    assert!(calls.iter().any(|c| c == "add:devel@work2.example"));
    assert!(!calls.iter().any(|c| c.starts_with("add:placeholder@work2")));
    // the resume path queried the configured (default 5-day) window
    assert!(calls.iter().any(|c| c == "recent:5"));
}

#[test]
fn failed_add_heals_via_facts_changed_reconcile() {
    let fake = FakeHamster {
        fail_next_add: true,
        ..FakeHamster::default()
    };
    let cfg = Config::parse(CONFIG).unwrap();
    let mut d = Daemon::start(fake, cfg);

    // entering work1: the placeholder add fails -> engine believes
    // running=work1, hamster actually has nothing
    for l in activity_switch_lines() {
        d.send(LoopInput::EventLine(l));
    }
    d.sleep(millis(10));
    assert!(d.fake.calls.iter().any(|c| c == "add-failed"));

    // hamster's FactsChanged (empty facts) heals the engine belief
    d.send(LoopInput::FactsChanged);
    d.sleep(millis(10));

    // next context event starts fresh (Start, not a no-op):
    d.send(LoopInput::EventLine(
        r#"{"ActivitySwitched":{"id":8,"previous_id":3}}"#.into(),
    ));
    d.sleep(millis(10));
    let calls = d.fake.calls.clone();
    assert!(calls
        .iter()
        .any(|c| c.starts_with("add:placeholder@work2.example")));
    // Start path: no explicit stop was issued (nothing was running)
    assert_eq!(calls.iter().filter(|c| *c == "stop").count(), 0);
}

#[test]
fn a_failed_add_is_told_and_skips_the_placeholder_notice() {
    let fake = FakeHamster {
        fail_next_add: true,
        ..FakeHamster::default()
    };
    let mut d = Daemon::start(fake, Config::parse(CONFIG).unwrap());
    for l in activity_switch_lines() {
        d.send(LoopInput::EventLine(l));
    }
    assert_eq!(
        d.fake.calls,
        vec![
            "recent:5",
            "add-failed",
            "notify:hamster call failed: simulated add failure",
        ]
    );
}

#[test]
fn a_placeholder_is_added_and_told() {
    let mut d = Daemon::start(FakeHamster::default(), Config::parse(CONFIG).unwrap());
    for l in activity_switch_lines() {
        d.send(LoopInput::EventLine(l));
    }
    assert_eq!(
        d.fake.calls,
        vec![
            "recent:5",
            "add:placeholder@work1.example",
            "notify:started placeholder for work1 — rename it in hamster when convenient",
        ]
    );
}

#[test]
fn a_running_fact_is_adopted_at_startup() {
    let fake = FakeHamster {
        facts: vec![Fact {
            activity: "devel".into(),
            category: "work1.example".into(),
            description: "".into(),
            tags: vec!["entity: work1".into()],
            id: 1,
            range: FactRange {
                start: Some("2026-06-06 09:00".into()),
                end: None,
            },
        }],
        ..FakeHamster::default()
    };
    let mut d = Daemon::start(fake, Config::parse(CONFIG).unwrap());
    for l in activity_switch_lines() {
        d.send(LoopInput::EventLine(l));
    }
    // work1 already runs: nothing to do
    assert!(d.fake.calls.is_empty());
}

#[test]
fn a_reload_takes_effect_at_once() {
    let mut d = Daemon::start(FakeHamster::default(), Config::parse(CONFIG).unwrap());
    for l in activity_switch_lines() {
        d.send(LoopInput::EventLine(l));
    }
    d.fake.calls.clear();
    // the activity is no longer tracked, and the grace period is shorter
    let other = "[defaults]\nuntracked_grace_secs = 5\n[activities.work2]\ncategory = \"c\"\n";
    d.send(LoopInput::ConfigReloaded(Config::parse(other).unwrap()));
    assert!(d.fake.calls.is_empty());
    assert_eq!(d.bridge.next_deadline().map(|t| t.nanos), Some(secs(5)));
    d.sleep(secs(5));
    assert_eq!(d.fake.calls, vec!["stop"]);
}

#[test]
fn a_switch_whose_rule_is_gone_is_told() {
    let cfg = "[defaults]\nswitch_immediate = false\n[activities.work1]\ncategory = \"a\"\n\
               [activities.work2]\ncategory = \"b\"\n";
    let mut d = Daemon::start(FakeHamster::default(), Config::parse(cfg).unwrap());
    for l in activity_switch_lines() {
        d.send(LoopInput::EventLine(l));
    }
    d.fake.calls.clear();
    d.send(LoopInput::EventLine(
        r#"{"ActivitySwitched":{"id":8,"previous_id":3}}"#.into(),
    ));
    // the stream ends, so the reload sees no context, and the pending switch is
    // replaced by a pause; a command for an entity without a rule is refused
    d.send(LoopInput::StreamReset);
    d.send(LoopInput::ConfigReloaded(
        Config::parse("[activities.work1]\ncategory = \"a\"\n").unwrap(),
    ));
    let cmd = Command::Switch {
        entity: "work2".into(),
    };
    assert_eq!(
        d.execute(&cmd),
        Err("no rule resolves entity 'work2'".to_string())
    );
    assert!(d.fake.calls.is_empty());
}

#[test]
fn a_stream_reset_keeps_what_waits() {
    let mut d = Daemon::start(FakeHamster::default(), Config::parse(CONFIG).unwrap());
    for l in activity_switch_lines() {
        d.send(LoopInput::EventLine(l));
    }
    d.send(LoopInput::EventLine(
        r#"{"ActivitySwitched":{"id":6,"previous_id":3}}"#.into(),
    ));
    let deadline = d.bridge.next_deadline();
    assert!(deadline.is_some());
    d.send(LoopInput::StreamReset);
    d.send(LoopInput::EventLine("noise".into()));
    assert_eq!(d.bridge.next_deadline(), deadline);
    // the snapshot after the reconnect shows work1 again: the pause is cancelled
    for l in activity_switch_lines() {
        d.send(LoopInput::EventLine(l));
    }
    assert_eq!(d.bridge.next_deadline(), None);
    assert_eq!(d.count("stop"), 0);
}

#[test]
fn a_failure_ends_the_calls() {
    let calls = vec![
        Call::StopTracking,
        Call::Notify("a".into()),
        Call::Notify("b".into()),
    ];
    assert_eq!(next_call(&calls, 0, true), Some(1));
    assert_eq!(next_call(&calls, 1, true), Some(2));
    assert_eq!(next_call(&calls, 2, true), None);
    for made in 0..3 {
        assert_eq!(next_call(&calls, made, false), None);
    }
}

#[test]
fn a_rejected_config_is_told_and_a_valid_one_handed_on() {
    match reload(Err("invalid TOML".into())) {
        Reload::Keep { notice } => assert_eq!(
            notice,
            "config invalid, still using previous — invalid TOML"
        ),
        other => panic!("{other:?}"),
    }
    match reload(Ok(Config::parse(CONFIG).unwrap())) {
        Reload::Hand(LoopInput::ConfigReloaded(c)) => assert_eq!(c.activities.len(), 2),
        other => panic!("{other:?}"),
    }
}

#[test]
fn failures_have_a_fixed_notice() {
    assert_eq!(failure_notice("x"), "hamster call failed: x");
}

#[test]
fn a_switch_that_waited_resolves_after_a_reload() {
    let cfg = "[defaults]\nswitch_immediate = false\n[activities.work1]\ncategory = \"a\"\n\
               [activities.work2]\ncategory = \"b\"\n";
    let switch = r#"{"ActivitySwitched":{"id":8,"previous_id":3}}"#;
    let mut d = Daemon::start(FakeHamster::default(), Config::parse(cfg).unwrap());
    for l in activity_switch_lines() {
        d.send(LoopInput::EventLine(l));
    }
    d.send(LoopInput::EventLine(switch.into()));
    d.fake.calls.clear();
    // work2 still has a rule: the switch goes on waiting, and finds the new one
    let renamed = "[defaults]\nswitch_immediate = false\n[activities.work2]\ncategory = \"new\"\n";
    d.send(LoopInput::ConfigReloaded(Config::parse(renamed).unwrap()));
    d.sleep(secs(60));
    assert_eq!(
        d.fake.calls,
        vec![
            "recent:5",
            "stop",
            "add:placeholder@new",
            "notify:started placeholder for work2 — rename it in hamster when convenient",
        ]
    );

    let mut d = Daemon::start(FakeHamster::default(), Config::parse(cfg).unwrap());
    for l in activity_switch_lines() {
        d.send(LoopInput::EventLine(l));
    }
    d.send(LoopInput::EventLine(switch.into()));
    d.fake.calls.clear();
    // work2 has no rule any more: the switch is dropped, and tracking stops
    let gone = "[activities.work1]\ncategory = \"a\"\n";
    d.send(LoopInput::ConfigReloaded(Config::parse(gone).unwrap()));
    d.sleep(secs(60));
    assert_eq!(d.fake.calls, vec!["stop"]);
}
