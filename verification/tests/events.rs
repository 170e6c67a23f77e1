use jiji_hamster_bridge::events::{event_of, read_event, Event, Tracker};

fn feed(t: &mut Tracker, lines: &[&str]) {
    for l in lines {
        t.apply_line(l);
    }
}

const SNAPSHOT: &[&str] = &[
    r#"{"ActivitiesChanged":{"activities":[
        {"id":3,"name":"work1","is_config_declared":true,"is_active":false,"is_urgent":false,"last_active_seq":0},
        {"id":4,"name":"niri","is_config_declared":true,"is_active":true,"is_urgent":false,"last_active_seq":0},
        {"id":8,"name":"work2","is_config_declared":true,"is_active":false,"is_urgent":false,"last_active_seq":0}]}}"#,
    r#"{"WorkspacesChanged":{"workspaces":[
        {"id":14,"idx":2,"name":null,"output":"DP-3","is_urgent":false,"is_active":true,"is_focused":true,"active_window_id":194,"activities":[4],"is_sticky":false,"is_in_active_activity":true},
        {"id":9,"idx":0,"name":"invoicing","output":"DP-3","is_urgent":false,"is_active":false,"is_focused":false,"active_window_id":18,"activities":[3],"is_sticky":false,"is_in_active_activity":false}]}}"#,
];

#[test]
fn snapshot_builds_context() {
    let mut t = Tracker::default();
    feed(&mut t, SNAPSHOT);
    let c = t.context();
    assert_eq!(c.activity.as_deref(), Some("niri"));
    assert_eq!(c.workspace, None); // focused workspace is unnamed
}

#[test]
fn activity_switch_updates_active() {
    let mut t = Tracker::default();
    feed(&mut t, SNAPSHOT);
    t.apply_line(r#"{"ActivitySwitched":{"id":3,"previous_id":4}}"#);
    assert_eq!(t.context().activity.as_deref(), Some("work1"));
}

#[test]
fn workspace_activated_moves_focus() {
    let mut t = Tracker::default();
    feed(&mut t, SNAPSHOT);
    t.apply_line(r#"{"WorkspaceActivated":{"id":9,"focused":true}}"#);
    assert_eq!(t.context().workspace.as_deref(), Some("invoicing"));
    // focused=false (other-output activation) must NOT steal focus
    t.apply_line(r#"{"WorkspaceActivated":{"id":14,"focused":false}}"#);
    assert_eq!(t.context().workspace.as_deref(), Some("invoicing"));
}

#[test]
fn workspace_opened_or_changed_upserts_and_refocuses() {
    let mut t = Tracker::default();
    feed(&mut t, SNAPSHOT);
    t.apply_line(
        r#"{"WorkspaceOpenedOrChanged":{"workspace":{"id":30,"idx":5,"name":"mail","output":"DP-3","is_urgent":false,"is_active":true,"is_focused":true,"active_window_id":null,"activities":[4],"is_sticky":false,"is_in_active_activity":true}}}"#,
    );
    assert_eq!(t.context().workspace.as_deref(), Some("mail"));
}

#[test]
fn rename_remove_create_lifecycle() {
    let mut t = Tracker::default();
    feed(&mut t, SNAPSHOT);
    t.apply_line(r#"{"ActivityRenamed":{"id":4,"name":"compositor"}}"#);
    assert_eq!(t.context().activity.as_deref(), Some("compositor"));
    t.apply_line(
        r#"{"ActivityCreated":{"activity":{"id":9,"name":"new","is_config_declared":false,"is_active":true,"is_urgent":false,"last_active_seq":0}}}"#,
    );
    assert_eq!(t.context().activity.as_deref(), Some("new"));
    t.apply_line(r#"{"ActivityRemoved":{"id":9}}"#);
    assert_eq!(t.context().activity, None);
    t.apply_line(r#"{"WorkspaceClosed":{"id":9}}"#);
    assert!(t.context().workspace.is_none());
}

#[test]
fn irrelevant_and_garbage_lines_are_ignored() {
    let mut t = Tracker::default();
    feed(&mut t, SNAPSHOT);
    let before = t.context();
    assert!(!t.apply_line(r#"{"ConfigLoaded":{"failed":false}}"#));
    assert!(!t.apply_line("not json"));
    assert_eq!(t.context(), before);
}

#[test]
fn activity_switched_malformed_id_leaves_state_unchanged() {
    let mut t = Tracker::default();
    feed(&mut t, SNAPSHOT);
    t.apply_line(r#"{"ActivitySwitched":{"previous_id":4}}"#);
    assert_eq!(t.context().activity.as_deref(), Some("niri"));
}

#[test]
fn activity_switched_to_unknown_id_clears_active() {
    let mut t = Tracker::default();
    feed(&mut t, SNAPSHOT);
    t.apply_line(r#"{"ActivitySwitched":{"id":999,"previous_id":4}}"#);
    assert_eq!(t.context().activity, None);
}

#[test]
fn activity_renamed_unknown_id_is_ignored() {
    let mut t = Tracker::default();
    feed(&mut t, SNAPSHOT);
    t.apply_line(r#"{"ActivityRenamed":{"id":999,"name":"ghost"}}"#);
    assert_eq!(t.context().activity.as_deref(), Some("niri"));
}

#[test]
fn workspaces_changed_no_focused_yields_none_workspace() {
    let mut t = Tracker::default();
    feed(&mut t, SNAPSHOT);
    t.apply_line(
        r#"{"WorkspacesChanged":{"workspaces":[
            {"id":14,"idx":2,"name":"alpha","output":"DP-3","is_urgent":false,"is_active":false,"is_focused":false,"active_window_id":null,"activities":[],"is_sticky":false,"is_in_active_activity":false}
        ]}}"#,
    );
    assert_eq!(t.context().workspace, None);
}

#[test]
fn activation_of_an_unknown_workspace_focuses_no_name() {
    let mut t = Tracker::default();
    feed(&mut t, SNAPSHOT);
    t.apply_line(r#"{"WorkspaceActivated":{"id":9,"focused":true}}"#);
    t.apply_line(r#"{"WorkspaceActivated":{"id":77,"focused":true}}"#);
    assert_eq!(t.context().workspace, None);
    // its name comes later, and it is focused already
    t.apply_line(
        r#"{"WorkspaceOpenedOrChanged":{"workspace":{"id":77,"name":"late","is_focused":true}}}"#,
    );
    assert_eq!(t.context().workspace.as_deref(), Some("late"));
}

#[test]
fn only_the_last_marked_item_of_a_snapshot_counts() {
    let mut t = Tracker::default();
    t.apply_line(
        r#"{"ActivitiesChanged":{"activities":[
            {"id":1,"name":"a","is_active":true},{"id":2,"name":"b","is_active":true},
            {"id":3,"name":"c"},{"name":"no id","is_active":true},{"id":5,"is_active":true}]}}"#,
    );
    assert_eq!(t.context().activity.as_deref(), Some("b"));
}

#[test]
fn a_snapshot_replaces_what_was_known() {
    let mut t = Tracker::default();
    feed(&mut t, SNAPSHOT);
    assert!(t.apply_line(r#"{"ActivitiesChanged":{}}"#));
    assert_eq!(t.context().activity, None);
    t.apply_line(r#"{"ActivitySwitched":{"id":3}}"#);
    assert_eq!(t.context().activity, None);
}

#[test]
fn events_are_read_from_lines_and_documents() {
    assert!(read_event("[]").is_none());
    assert!(read_event("{}").is_none());
    assert!(read_event("3").is_none());
    assert!(read_event(r#"{"Other":{}}"#).is_none());
    match read_event(r#"{"ActivityRenamed":{"id":4,"name":"x"}}"#) {
        Some(Event::ActivityRenamed(Some((4, name)))) => assert_eq!(name, "x"),
        other => panic!("{other:?}"),
    }
    let mut body = serde_json::Map::new();
    body.insert("id".into(), 7.into());
    let mut doc = serde_json::Map::new();
    doc.insert("ActivitySwitched".into(), body.into());
    assert!(matches!(
        event_of(&doc.into()),
        Some(Event::ActivitySwitched(Some(7)))
    ));
}

#[test]
fn malformed_bodies_leave_the_state_alone() {
    let mut t = Tracker::default();
    feed(&mut t, SNAPSHOT);
    for line in [
        r#"{"ActivitySwitched":{"id":-1}}"#,
        r#"{"ActivitySwitched":{"id":3.0}}"#,
        r#"{"ActivitySwitched":[]}"#,
        r#"{"ActivityRemoved":null}"#,
        r#"{"ActivityRenamed":{"id":4}}"#,
        r#"{"ActivityCreated":{"activity":{"id":9}}}"#,
        r#"{"WorkspaceActivated":{"id":9,"focused":"yes"}}"#,
        r#"{"WorkspaceClosed":{}}"#,
    ] {
        assert!(t.apply_line(line), "{line}");
        assert_eq!(t.context().activity.as_deref(), Some("niri"));
        assert_eq!(t.context().workspace, None);
    }
}
