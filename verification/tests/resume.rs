use jiji_hamster_bridge::calendar::Date;
use jiji_hamster_bridge::config::{Defaults, TrackedRule};
use jiji_hamster_bridge::hamster::{Fact, FactRange};
use jiji_hamster_bridge::resume::{carried_description, date_part, day_range, plan_resume};

fn rule() -> TrackedRule {
    TrackedRule {
        entity: "work2".into(),
        category: "work2.example".into(),
        placeholder_activity: "placeholder".into(),
        placeholder_description: "auto — rename me".into(),
    }
}

fn fact(activity: &str, tags: &[&str], end: Option<&str>) -> Fact {
    Fact {
        activity: activity.into(),
        category: "work2.example".into(),
        description: "work notes".into(),
        tags: tags.iter().map(|t| t.to_string()).collect(),
        id: 1,
        range: FactRange {
            start: Some("2026-06-06 09:00".into()),
            end: end.map(Into::into),
        },
    }
}

const NOW: &str = "2026-06-06 15:32";

#[test]
fn clones_newest_matching_fact() {
    let facts = vec![
        fact("old-task", &["entity: work2"], Some("2026-06-06 10:00")),
        fact(
            "newer-task",
            &["entity: work2", "location: home"],
            Some("2026-06-06 12:00"),
        ),
        fact("other", &["entity: work1"], Some("2026-06-06 13:00")),
    ];
    let plan = plan_resume(&facts, &rule(), &Defaults::default(), NOW);
    assert_eq!(plan.fact.activity, "newer-task");
    // same-day clone → the carried description is stamped continued
    assert_eq!(plan.fact.description, ".. work notes");
    assert_eq!(plan.fact.tags, vec!["entity: work2", "location: home"]);
    assert_eq!(plan.fact.range.start, NOW);
    assert!(plan.fact.range.end.is_none());
    assert!(plan.notification.is_none());
}

#[test]
fn no_match_creates_placeholder_with_notification() {
    let d = Defaults {
        extra_tags: vec!["location: home".into()],
        ..Defaults::default()
    };
    let facts = vec![fact("other", &["entity: work1"], Some("2026-06-06 13:00"))];
    let plan = plan_resume(&facts, &rule(), &d, NOW);
    assert_eq!(plan.fact.activity, "placeholder");
    assert_eq!(plan.fact.category, "work2.example");
    assert_eq!(plan.fact.description, "auto — rename me");
    assert_eq!(plan.fact.tags, vec!["entity: work2", "location: home"]);
    let msg = plan.notification.unwrap();
    assert!(msg.contains("work2"));
}

#[test]
fn renamed_placeholder_teaches_subsequent_resumes() {
    // a corrected placeholder (renamed by the user) is found by tag
    let facts = vec![fact(
        "support",
        &["entity: work2", "location: home"],
        Some("2026-06-06 14:00"),
    )];
    let plan = plan_resume(&facts, &rule(), &Defaults::default(), NOW);
    assert_eq!(plan.fact.activity, "support");
    assert!(plan.notification.is_none());
}

#[test]
fn empty_day_creates_placeholder() {
    let plan = plan_resume(&[], &rule(), &Defaults::default(), NOW);
    assert_eq!(plan.fact.activity, "placeholder");
    assert_eq!(plan.fact.tags, vec!["entity: work2"]);
    assert!(plan.notification.is_some());
}

#[test]
fn clone_preserves_source_category() {
    let facts = vec![fact("task", &["entity: work2"], Some("2026-06-06 10:00"))];
    let plan = plan_resume(&facts, &rule(), &Defaults::default(), NOW);
    assert_eq!(plan.fact.category, "work2.example");
}

#[test]
fn resumes_a_fact_from_earlier_in_the_window() {
    // a matching fact several days old (not today) is still cloned, not
    // replaced by a placeholder
    let facts = vec![fact("devel", &["entity: work2"], Some("2026-06-02 11:00"))];
    let plan = plan_resume(&facts, &rule(), &Defaults::default(), NOW);
    assert_eq!(plan.fact.activity, "devel");
    assert!(plan.notification.is_none());
}

fn fact_started(activity: &str, tags: &[&str], start: Option<&str>) -> Fact {
    Fact {
        activity: activity.into(),
        category: "work2.example".into(),
        description: "write report\n- draft intro".into(),
        tags: tags.iter().map(|t| t.to_string()).collect(),
        id: 1,
        range: FactRange {
            start: start.map(Into::into),
            end: Some("2026-06-06 10:00".into()),
        },
    }
}

#[test]
fn same_day_clone_marks_carried_block_first_lines() {
    let facts = vec![fact_started(
        "task",
        &["entity: work2"],
        Some("2026-06-06 09:00"),
    )];
    let plan = plan_resume(&facts, &rule(), &Defaults::default(), NOW);
    // first line marked, bullet untouched
    assert_eq!(plan.fact.description, ".. write report\n- draft intro");
}

#[test]
fn cross_day_clone_leaves_description_verbatim() {
    // a fact started on a previous day is a fresh block today, not a
    // continuation — never stamped.
    let facts = vec![fact_started(
        "task",
        &["entity: work2"],
        Some("2026-06-05 09:00"),
    )];
    let plan = plan_resume(&facts, &rule(), &Defaults::default(), NOW);
    assert_eq!(plan.fact.description, "write report\n- draft intro");
}

#[test]
fn null_start_is_not_treated_as_same_day() {
    let facts = vec![fact_started("task", &["entity: work2"], None)];
    let plan = plan_resume(&facts, &rule(), &Defaults::default(), NOW);
    assert_eq!(plan.fact.description, "write report\n- draft intro");
}

#[test]
fn disabled_flag_leaves_description_verbatim_even_same_day() {
    let d = Defaults {
        mark_continuations: false,
        ..Defaults::default()
    };
    let facts = vec![fact_started(
        "task",
        &["entity: work2"],
        Some("2026-06-06 09:00"),
    )];
    let plan = plan_resume(&facts, &rule(), &d, NOW);
    assert_eq!(plan.fact.description, "write report\n- draft intro");
}

#[test]
fn placeholder_description_is_never_marked() {
    let plan = plan_resume(&[], &rule(), &Defaults::default(), NOW);
    assert_eq!(plan.fact.description, "auto — rename me");
}

#[test]
fn day_range_spans_lookback_window_inclusive() {
    let today = Date::new(2026, 6, 13).unwrap();
    assert_eq!(day_range(today, 5), "2026-06-08 2026-06-13");
    // 0 = today only
    assert_eq!(day_range(today, 0), "2026-06-13 2026-06-13");
    // crosses a month boundary
    assert_eq!(day_range(today, 20), "2026-05-24 2026-06-13");
}

#[test]
fn a_resume_is_found_again_by_its_tags() {
    let d = Defaults::default();
    let plan = plan_resume(&[], &rule(), &d, NOW);
    let tags: Vec<&str> = plan.fact.tags.iter().map(|t| t.as_str()).collect();
    // the user renames the placeholder; its tags stay
    let facts = vec![fact("renamed", &tags, None)];
    let again = plan_resume(&facts, &rule(), &d, "2026-06-07 08:00");
    assert_eq!(again.fact.activity, "renamed");
    assert_eq!(again.fact.description, "work notes");
    assert_eq!(again.fact.range.start, "2026-06-07 08:00");
    assert!(again.fact.range.end.is_none());
    assert!(again.notification.is_none());
}

#[test]
fn an_entity_with_white_space_around_it_is_not_found_again() {
    let d = Defaults::default();
    let mut r = rule();
    r.entity = " work2".into();
    let plan = plan_resume(&[], &r, &d, NOW);
    assert_eq!(plan.fact.tags, vec!["entity:  work2"]);
    let facts = vec![fact("renamed", &["entity:  work2"], None)];
    assert!(plan_resume(&facts, &r, &d, NOW).notification.is_some());
}

#[test]
fn placeholder_notification_names_the_entity() {
    let plan = plan_resume(&[], &rule(), &Defaults::default(), NOW);
    assert_eq!(
        plan.notification.as_deref(),
        Some("started placeholder for work2 — rename it in hamster when convenient")
    );
}

#[test]
fn another_tag_key_is_honoured() {
    let d = Defaults {
        entity_tag_key: "client".into(),
        ..Defaults::default()
    };
    let facts = vec![
        fact("theirs", &["client: work2"], None),
        fact("other", &["entity: work2"], None),
    ];
    let plan = plan_resume(&facts, &rule(), &d, NOW);
    assert_eq!(plan.fact.activity, "theirs");
    assert_eq!(
        plan_resume(&[], &rule(), &d, NOW).fact.tags,
        vec!["client: work2"]
    );
}

#[test]
fn date_part_is_the_first_word() {
    assert_eq!(date_part("2026-06-06 09:00"), "2026-06-06");
    assert_eq!(date_part("  2026-06-06\t09:00"), "2026-06-06");
    assert_eq!(date_part("2026-06-06"), "2026-06-06");
    assert_eq!(date_part(""), "");
    assert_eq!(date_part("  "), "  ");
}

#[test]
fn carried_description_follows_the_day() {
    let d = Defaults::default();
    let f = fact_started("task", &[], Some("2026-06-06 09:00"));
    assert_eq!(
        carried_description(&f, &d, "2026-06-06 23:59"),
        ".. write report\n- draft intro"
    );
    assert_eq!(
        carried_description(&f, &d, "2026-06-07 00:00"),
        "write report\n- draft intro"
    );
}
