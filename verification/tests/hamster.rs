use jiji_hamster_bridge::hamster::{entity_of, running_fact, Fact, FactRange};

/// A running fact, as hamster reports one.
fn live_fact() -> Fact {
    Fact {
        activity: "support".into(),
        category: "work1.example".into(),
        description: "fixing a persistent cache bug".into(),
        tags: vec!["entity: work1".into(), "location: home".into()],
        id: 20534,
        range: FactRange {
            start: Some("2026-06-06 14:09".into()),
            end: None,
        },
    }
}

#[test]
fn finished_fact_is_not_running() {
    let mut f: Fact = live_fact();
    f.range.end = Some("2026-06-06 15:00".into());
    assert!(!f.is_running());
}

#[test]
fn entity_of_matches_tag_key_with_and_without_space() {
    let f: Fact = live_fact();
    assert_eq!(entity_of(&f, "entity").as_deref(), Some("work1"));
    let mut g = f.clone();
    g.tags = vec!["entity:work2".into()];
    assert_eq!(entity_of(&g, "entity").as_deref(), Some("work2"));
    let mut h = f.clone();
    h.tags = vec!["location: home".into()];
    assert_eq!(entity_of(&h, "entity"), None);
}

#[test]
fn running_fact_finds_last_open_fact() {
    let done: Fact = {
        let mut f: Fact = live_fact();
        f.range.end = Some("2026-06-06 12:00".into());
        f.id = 1;
        f
    };
    // An earlier open fact — should NOT be returned when a later open one exists.
    let earlier_open: Fact = {
        let mut f: Fact = live_fact();
        f.id = 2;
        f
    };
    let open: Fact = {
        let mut f: Fact = live_fact();
        f.id = 3;
        f
    };
    // done, then earlier_open, then open — running_fact must return open (id=3).
    let facts = vec![done.clone(), earlier_open, open.clone()];
    assert_eq!(running_fact(&facts).map(|f| f.id), Some(3));
    assert!(running_fact(&[done]).is_none());
}

#[test]
fn entity_is_trimmed_and_taken_from_the_first_such_tag() {
    let mut f = live_fact();
    f.tags = vec![
        "entityless".into(),
        "entity :x".into(),
        "entity:  \u{a0}work 3\t ".into(),
        "entity: work4".into(),
    ];
    assert_eq!(entity_of(&f, "entity").as_deref(), Some("work 3"));
    assert_eq!(entity_of(&f, "client"), None);
    f.tags = vec!["entity:".into()];
    assert_eq!(entity_of(&f, "entity").as_deref(), Some(""));
}

#[test]
fn no_facts_no_running_fact() {
    assert!(running_fact(&[]).is_none());
}
