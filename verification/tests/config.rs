use jiji_hamster_bridge::config::{regex_source, Config, ConfigError, Domain};
use jiji_hamster_bridge::events::Context;

const FULL: &str = r#"
    [defaults]
    switch_immediate = true
    return_debounce_secs = 60
    untracked_grace_secs = 60
    entity_tag_key = "entity"
    extra_tags = ["location: home"]
    placeholder_activity = "placeholder"
    placeholder_description = "auto-started by jiji-hamster-bridge — rename me"

    [activities.work1]
    entity = "work1"
    category = "work1.example"

    [activities.work2]
    category = "work2.example"
    placeholder_activity = "support"

    [workspaces.invoicing]
    entity = "work1"

    [workspaces.scratch]
    track = false
"#;

#[test]
fn regex_source_detects_slash_delimited_keys() {
    assert_eq!(regex_source("/acme/"), Some("acme"));
    assert_eq!(regex_source("/^acme-/"), Some("^acme-"));
    assert_eq!(regex_source("//"), Some("")); // empty source — caught later
    assert_eq!(regex_source("acme"), None); // ordinary literal
    assert_eq!(regex_source("/"), None); // too short
    assert_eq!(regex_source("/acme"), None); // not closed
    assert_eq!(regex_source(""), None);
}

#[test]
fn valid_regex_activity_config_parses() {
    let s = "[activities.\"/acme/\"]\nentity = \"acme_other\"\ncategory = \"acme-corp.com\"\n";
    assert!(Config::parse(s).is_ok());
}

#[test]
fn regex_activity_requires_entity() {
    // no entity → the matched name has no sensible default, reject at parse
    let s = "[activities.\"/acme/\"]\ncategory = \"acme-corp.com\"\n";
    assert!(Config::parse(s).is_err());
}

#[test]
fn empty_regex_rejected() {
    let s = "[activities.\"//\"]\nentity = \"x\"\ncategory = \"c\"\n";
    assert!(Config::parse(s).is_err());
}

#[test]
fn invalid_regex_rejected() {
    // unbalanced paren — does not compile
    let s = "[activities.\"/(/\"]\nentity = \"x\"\ncategory = \"c\"\n";
    assert!(Config::parse(s).is_err());
}

#[test]
fn parses_full_config() {
    let c = Config::parse(FULL).unwrap();
    assert_eq!(c.defaults.return_debounce_secs, 60);
    assert_eq!(c.activities.get("work1").unwrap().category, "work1.example");
    // entity field absent → effective entity is the activity name "work2"
    assert_eq!(c.activities.get("work2").unwrap().entity.as_deref(), None);
    assert_eq!(c.workspaces.get("invoicing").unwrap().entity.as_deref(), Some("work1"));
    assert_eq!(c.workspaces.get("scratch").unwrap().track, Some(false));
}

#[test]
fn minimal_config_gets_defaults() {
    let c = Config::parse("[activities.work1]\ncategory = \"y\"\n").unwrap();
    assert!(c.defaults.switch_immediate);
    assert_eq!(c.defaults.return_debounce_secs, 60);
    assert_eq!(c.defaults.untracked_grace_secs, 60);
    assert_eq!(c.defaults.entity_tag_key, "entity");
    assert!(c.defaults.extra_tags.is_empty());
    assert_eq!(c.defaults.placeholder_activity, "placeholder");
    assert_eq!(
        c.defaults.placeholder_description,
        "auto-started by jiji-hamster-bridge — rename me"
    );
    assert_eq!(c.defaults.resume_lookback_days, 5);
    assert!(c.defaults.mark_continuations);
}

#[test]
fn mark_continuations_can_be_disabled() {
    let c = Config::parse(
        "[defaults]\nmark_continuations = false\n[activities.work1]\ncategory = \"y\"\n",
    )
    .unwrap();
    assert!(!c.defaults.mark_continuations);
}

#[test]
fn rejects_unknown_keys() {
    assert!(Config::parse("[defaults]\nbogus = 1\n").is_err());
}

#[test]
fn rejects_workspace_rule_with_both_entity_and_track_false() {
    let s = "[workspaces.x]\nentity = \"y\"\ntrack = false\n";
    assert!(Config::parse(s).is_err());
}

#[test]
fn rejects_workspace_rule_with_neither_entity_nor_track_false() {
    assert!(Config::parse("[workspaces.x]\n").is_err());
}

#[test]
fn rejects_workspace_entity_with_unresolvable_category() {
    // entity "ghost" has no [activities.*] rule providing a category
    let s = "[workspaces.x]\nentity = \"ghost\"\n";
    assert!(Config::parse(s).is_err());
    // but an inline category fixes it
    let s2 = "[workspaces.x]\nentity = \"ghost\"\ncategory = \"g.com\"\n";
    assert!(Config::parse(s2).is_ok());
}

#[test]
fn rejects_workspace_track_true() {
    assert!(Config::parse("[workspaces.x]\ntrack = true\n").is_err());
    assert!(
        Config::parse("[workspaces.x]\nentity = \"y\"\ncategory = \"c\"\ntrack = true\n")
            .is_err()
    );
}

fn ctx(activity: Option<&str>, workspace: Option<&str>) -> Context {
    Context {
        activity: activity.map(Into::into),
        workspace: workspace.map(Into::into),
    }
}

#[test]
fn activity_rule_applies_with_entity_defaulting_to_name() {
    let c = Config::parse(FULL).unwrap();
    let r = c.effective(&ctx(Some("work2"), None)).unwrap();
    assert_eq!(r.entity, "work2");
    assert_eq!(r.category, "work2.example");
    assert_eq!(r.placeholder_activity, "support"); // per-rule override
}

#[test]
fn unconfigured_activity_is_untracked() {
    let c = Config::parse(FULL).unwrap();
    assert!(c.effective(&ctx(Some("games"), None)).is_none());
    assert!(c.effective(&ctx(None, None)).is_none());
}

#[test]
fn workspace_rule_overrides_activity_even_untracked_one() {
    let c = Config::parse(FULL).unwrap();
    // tracked workspace inside an untracked activity
    let r = c.effective(&ctx(Some("games"), Some("invoicing"))).unwrap();
    assert_eq!(r.entity, "work1");
    assert_eq!(r.category, "work1.example"); // borrowed from activities.work1
}

#[test]
fn track_false_workspace_wins_inside_tracked_activity() {
    let c = Config::parse(FULL).unwrap();
    assert!(c.effective(&ctx(Some("work1"), Some("scratch"))).is_none());
}

#[test]
fn unnamed_or_unconfigured_workspace_falls_through_to_activity() {
    let c = Config::parse(FULL).unwrap();
    let r = c.effective(&ctx(Some("work1"), Some("random-ws"))).unwrap();
    assert_eq!(r.entity, "work1");
    let r2 = c.effective(&ctx(Some("work1"), None)).unwrap();
    assert_eq!(r2.entity, "work1");
}

#[test]
fn workspace_rule_with_inline_category_needs_no_activity_rule() {
    let c = Config::parse("[workspaces.lab]\nentity = \"ghost\"\ncategory = \"ghost.org\"\n")
        .unwrap();
    let r = c.effective(&ctx(None, Some("lab"))).unwrap();
    assert_eq!(r.entity, "ghost");
    assert_eq!(r.category, "ghost.org");
    assert_eq!(r.placeholder_activity, "placeholder"); // from defaults
}

#[test]
fn regex_activity_matches_non_exact_name() {
    let s = "[activities.\"/acme/\"]\nentity = \"acme_other\"\ncategory = \"acme-corp.com\"\n";
    let c = Config::parse(s).unwrap();
    let r = c.effective(&ctx(Some("acme-invoices"), None)).unwrap();
    assert_eq!(r.entity, "acme_other");
    assert_eq!(r.category, "acme-corp.com");
}

#[test]
fn exact_activity_beats_regex() {
    let s = "[activities.acme]\ncategory = \"acme-corp.com\"\n\
             [activities.\"/acme/\"]\nentity = \"acme_other\"\ncategory = \"acme-corp.com\"\n";
    let c = Config::parse(s).unwrap();
    // exact name hits the literal rule, not the (also-matching) regex
    let r = c.effective(&ctx(Some("acme"), None)).unwrap();
    assert_eq!(r.entity, "acme");
}

#[test]
fn first_regex_in_sorted_order_wins() {
    // both "/^a/" and "/acme/" match "acme-x"; sorted-key order: "/^a/" < "/acme/"
    let s = "[activities.\"/^a/\"]\nentity = \"first\"\ncategory = \"c\"\n\
             [activities.\"/acme/\"]\nentity = \"second\"\ncategory = \"c\"\n";
    let c = Config::parse(s).unwrap();
    let r = c.effective(&ctx(Some("acme-x"), None)).unwrap();
    assert_eq!(r.entity, "first");
}

#[test]
fn regex_workspace_track_false_untracks() {
    let s = "[activities.acme]\ncategory = \"acme-corp.com\"\n\
             [workspaces.\"/^scratch-/\"]\ntrack = false\n";
    let c = Config::parse(s).unwrap();
    assert!(c.effective(&ctx(Some("acme"), Some("scratch-1"))).is_none());
}

#[test]
fn regex_workspace_overrides_activity() {
    let s = "[activities.work2]\ncategory = \"general\"\n\
             [workspaces.\"/^bill/\"]\nentity = \"acme\"\ncategory = \"acme-corp.com\"\n";
    let c = Config::parse(s).unwrap();
    // untracked activity, but the workspace regex pins it to acme
    let r = c.effective(&ctx(Some("games"), Some("billing"))).unwrap();
    assert_eq!(r.entity, "acme");
    assert_eq!(r.category, "acme-corp.com");
}

#[test]
fn rule_for_entity_resolves_regex_rule_entity() {
    let s = "[activities.\"/acme/\"]\nentity = \"acme_other\"\ncategory = \"acme-corp.com\"\n";
    let c = Config::parse(s).unwrap();
    let r = c.rule_for_entity("acme_other").unwrap();
    assert_eq!(r.category, "acme-corp.com");
}

#[test]
fn rule_for_entity_resolves_workspace_only_entities() {
    let c =
        Config::parse("[workspaces.x]\nentity = \"ghost\"\ncategory = \"g.com\"\n").unwrap();
    assert_eq!(c.rule_for_entity("ghost").unwrap().category, "g.com");
    assert!(c.rule_for_entity("nope").is_none());
}

#[test]
fn exact_workspace_beats_regex_workspace() {
    // both [workspaces.billing] and the regex "/^bill/" match "billing";
    // the exact rule (entity "exact_e") must win over the regex (entity "regex_e")
    let s = "[workspaces.billing]\nentity = \"exact_e\"\ncategory = \"exact.com\"\n\
             [workspaces.\"/^bill/\"]\nentity = \"regex_e\"\ncategory = \"regex.com\"\n";
    let c = Config::parse(s).unwrap();
    let r = c.effective(&ctx(None, Some("billing"))).unwrap();
    assert_eq!(r.entity, "exact_e");
    assert_eq!(r.category, "exact.com");
}

#[test]
fn regex_workspace_derives_category_from_activity_rule() {
    // regex workspace has entity but no inline category; the category is
    // borrowed from the [activities.acme] rule sharing that entity
    let s = "[activities.acme]\ncategory = \"acme-corp.com\"\n\
             [workspaces.\"/^bill/\"]\nentity = \"acme\"\n";
    let c = Config::parse(s).unwrap();
    let r = c.effective(&ctx(None, Some("billing"))).unwrap();
    assert_eq!(r.entity, "acme");
    assert_eq!(r.category, "acme-corp.com");
}

#[test]
fn non_matching_regex_workspace_falls_through_to_activity() {
    // "/^foo/" does not match "other"; resolution must fall through to the
    // tracked activity "bar" rather than returning None
    let s = "[activities.bar]\nentity = \"bar\"\ncategory = \"bar.com\"\n\
             [workspaces.\"/^foo/\"]\nentity = \"bar\"\n";
    let c = Config::parse(s).unwrap();
    let r = c.effective(&ctx(Some("bar"), Some("other"))).unwrap();
    assert_eq!(r.entity, "bar");
    assert_eq!(r.category, "bar.com");
}

fn error(s: &str) -> ConfigError {
    Config::parse(s).unwrap_err()
}

#[test]
fn every_fault_has_its_error() {
    assert!(matches!(error("x ="), ConfigError::InvalidToml { .. }));
    assert_eq!(
        error("[workspaces.x]\ntrack = true\n"),
        ConfigError::TrackTrue { name: "x".into() }
    );
    assert_eq!(
        error("[workspaces.x]\nentity = \"y\"\ntrack = false\n"),
        ConfigError::EntityUntracked { name: "x".into() }
    );
    assert_eq!(
        error("[workspaces.x]\nentity = \"ghost\"\n"),
        ConfigError::NoCategory {
            name: "x".into(),
            entity: "ghost".into()
        }
    );
    assert_eq!(
        error("[workspaces.x]\n"),
        ConfigError::NoEntity { name: "x".into() }
    );
    assert_eq!(
        error("[activities.\"//\"]\nentity = \"x\"\ncategory = \"c\"\n"),
        ConfigError::EmptyRegex {
            domain: Domain::Activity,
            key: "//".into()
        }
    );
    assert_eq!(
        error("[workspaces.\"//\"]\ntrack = false\n"),
        ConfigError::EmptyRegex {
            domain: Domain::Workspace,
            key: "//".into()
        }
    );
    assert_eq!(
        error("[activities.\"/acme/\"]\ncategory = \"c\"\n"),
        ConfigError::RegexWithoutEntity {
            key: "/acme/".into()
        }
    );
    match error("[workspaces.\"/(/\"]\ntrack = false\n") {
        ConfigError::InvalidRegex {
            domain,
            key,
            detail,
        } => {
            assert_eq!(domain, Domain::Workspace);
            assert_eq!(key, "/(/");
            assert!(detail.contains("unclosed group"));
        }
        other => panic!("{other:?}"),
    }
}

#[test]
fn errors_have_messages() {
    assert_eq!(error("x =").message(), "invalid TOML");
    assert_eq!(
        error("[workspaces.x]\ntrack = true\n").message(),
        "workspace rule 'x': track = true is implied; omit the field \
         (track = false is the only meaningful value)"
    );
    assert_eq!(
        error("[workspaces.x]\nentity = \"y\"\ntrack = false\n").message(),
        "workspace rule 'x': entity and track=false are mutually exclusive"
    );
    assert_eq!(
        error("[workspaces.x]\nentity = \"ghost\"\n").message(),
        "workspace rule 'x': entity 'ghost' has no category \
         (add category here or an [activities.*] rule with this entity)"
    );
    assert_eq!(
        error("[workspaces.x]\n").message(),
        "workspace rule 'x': needs either entity or track = false"
    );
    assert_eq!(
        error("[workspaces.\"//\"]\ntrack = false\n").message(),
        "workspace rule '//': empty regex matches everything"
    );
    assert_eq!(
        error("[activities.\"/acme/\"]\ncategory = \"c\"\n").message(),
        "activity rule '/acme/': regex rules require an explicit entity"
    );
    let e = error("[activities.\"/(/\"]\nentity = \"x\"\ncategory = \"c\"\n");
    assert_eq!(e.message(), "activity rule '/(/': invalid regex");
}

#[test]
fn the_first_fault_is_reported() {
    // a workspace rule's fault comes before a key's, in the order of the names
    let s = "[activities.\"//\"]\nentity = \"x\"\ncategory = \"c\"\n\
             [workspaces.b]\n[workspaces.a]\ntrack = true\n";
    assert_eq!(error(s), ConfigError::TrackTrue { name: "a".into() });
    // an activity key's fault comes before a workspace key's
    let s = "[workspaces.\"//\"]\ntrack = false\n[activities.\"/(/\"]\nentity = \"x\"\ncategory = \"c\"\n";
    assert!(matches!(
        error(s),
        ConfigError::InvalidRegex {
            domain: Domain::Activity,
            ..
        }
    ));
}

#[test]
fn a_parsed_document_is_read_like_its_text() {
    let s = "[activities.work1]\ncategory = \"c\"\n";
    let table = toml::de::DeTable::parse(s).unwrap();
    let doc = toml::Spanned::new(0..0, toml::de::DeValue::Table(table.into_inner()));
    let c = Config::from_document(&doc, s).unwrap();
    let r = c.effective(&ctx(Some("work1"), None)).unwrap();
    assert_eq!(r.entity, "work1");
    assert_eq!(r.category, "c");
    let flag = toml::Spanned::new(0..4, toml::de::DeValue::Boolean(true));
    assert_eq!(
        Config::from_document(&flag, "true").unwrap_err(),
        ConfigError::InvalidToml {
            detail: "TOML parse error at line 1, column 1\n  |\n1 | true\n  | ^^^^\n\
                     invalid type: boolean `true`, expected struct Config\n"
                .into()
        }
    );
    // a place that the text does not have is not pointed at
    let flag = toml::Spanned::new(2..9, toml::de::DeValue::Boolean(true));
    assert_eq!(
        Config::from_document(&flag, "true").unwrap_err(),
        ConfigError::InvalidToml {
            detail: "invalid type: boolean `true`, expected struct Config\n".into()
        }
    );
}

#[test]
fn positional_fields_are_taken_in_order() {
    let c = Config::parse("[activities]\nx = [\"e\", \"c\", \"a\", \"d\", 5]\n").unwrap();
    let r = c.effective(&ctx(Some("x"), None)).unwrap();
    assert_eq!(
        (r.entity, r.category, r.placeholder_activity, r.placeholder_description),
        ("e".into(), "c".into(), "a".into(), "d".into())
    );
    assert!(Config::parse("[activities]\nx = [\"e\", \"c\", \"a\"]\n").is_err());
}

#[test]
fn all_defaults_can_be_set() {
    let d = Config::parse(
        "[defaults]\nswitch_immediate = false\nreturn_debounce_secs = 1\nuntracked_grace_secs = 2\n\
         entity_tag_key = \"k\"\nextra_tags = [\"a\", \"b\"]\nplaceholder_activity = \"p\"\n\
         placeholder_description = \"d\"\nresume_lookback_days = 0\nmark_continuations = false\n",
    )
    .unwrap()
    .defaults;
    assert!(!d.switch_immediate);
    assert_eq!((d.return_debounce_secs, d.untracked_grace_secs), (1, 2));
    assert_eq!(d.entity_tag_key, "k");
    assert_eq!(d.extra_tags, vec!["a", "b"]);
    assert_eq!(d.placeholder_activity, "p");
    assert_eq!(d.placeholder_description, "d");
    assert_eq!(d.resume_lookback_days, 0);
    assert!(!d.mark_continuations);
}

#[test]
fn regexes_are_not_anchored() {
    let s = "[activities.\"/acme/\"]\nentity = \"e\"\ncategory = \"c\"\n\
             [activities.\"/^x$/\"]\nentity = \"f\"\ncategory = \"c\"\n";
    let c = Config::parse(s).unwrap();
    assert_eq!(c.effective(&ctx(Some("an acme b"), None)).unwrap().entity, "e");
    assert_eq!(c.effective(&ctx(Some("x"), None)).unwrap().entity, "f");
    assert!(c.effective(&ctx(Some("xx"), None)).is_none());
}

#[test]
fn placeholders_fall_back_from_workspace_to_activity_to_defaults() {
    let s = "[activities.a]\ncategory = \"c\"\nplaceholder_activity = \"from activity\"\n\
             [workspaces.w]\nentity = \"a\"\n\
             [workspaces.v]\nentity = \"a\"\nplaceholder_activity = \"from workspace\"\n";
    let c = Config::parse(s).unwrap();
    let w = c.effective(&ctx(None, Some("w"))).unwrap();
    assert_eq!(w.placeholder_activity, "from activity");
    assert_eq!(
        w.placeholder_description,
        "auto-started by jiji-hamster-bridge — rename me"
    );
    let v = c.effective(&ctx(None, Some("v"))).unwrap();
    assert_eq!(v.placeholder_activity, "from workspace");
}

#[test]
fn every_entity_that_is_called_for_resolves() {
    let s = "[activities.acme]\ncategory = \"c\"\n\
             [activities.\"/acme/\"]\nentity = \"other\"\ncategory = \"c\"\n\
             [workspaces.lab]\nentity = \"ghost\"\ncategory = \"g\"\n\
             [workspaces.\"/^bill/\"]\nentity = \"acme\"\n";
    let c = Config::parse(s).unwrap();
    for activity in [None, Some("acme"), Some("acme-x"), Some("games")] {
        for workspace in [None, Some("lab"), Some("billing"), Some("random")] {
            if let Some(rule) = c.effective(&ctx(activity, workspace)) {
                assert!(c.rule_for_entity(&rule.entity).is_some());
            }
        }
    }
}

#[test]
fn activity_rules_are_found_by_entity() {
    let c = Config::parse(FULL).unwrap();
    assert_eq!(
        c.activity_rule_for_entity("work2").unwrap().category,
        "work2.example"
    );
    assert!(c.activity_rule_for_entity("invoicing").is_none());
}
