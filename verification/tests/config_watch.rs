use std::path::{Path, PathBuf};

use jiji_hamster_bridge::config_watch;
use notify::event::{
    AccessKind, AccessMode, CreateKind, DataChange, EventKind, MetadataKind, ModifyKind,
    RemoveKind, RenameMode,
};
use notify::Event;

fn bytes(path: &Path) -> &[u8] {
    path.to_str().unwrap().as_bytes()
}

/// What the watcher's event says, in the library's terms.
fn seen(event: &Event) -> config_watch::Event {
    let kind = match event.kind {
        EventKind::Any => config_watch::EventKind::Any,
        EventKind::Access(_) => config_watch::EventKind::Access,
        EventKind::Create(_) => config_watch::EventKind::Create,
        EventKind::Modify(m) => config_watch::EventKind::Modify(match m {
            ModifyKind::Any => config_watch::ModifyKind::Any,
            ModifyKind::Data(_) => config_watch::ModifyKind::Data,
            ModifyKind::Metadata(_) => config_watch::ModifyKind::Metadata,
            ModifyKind::Name(_) => config_watch::ModifyKind::Name,
            ModifyKind::Other => config_watch::ModifyKind::Other,
        }),
        EventKind::Remove(_) => config_watch::EventKind::Remove,
        EventKind::Other => config_watch::EventKind::Other,
    };
    let paths = event.paths.iter().map(|p| bytes(p).to_vec()).collect();
    config_watch::Event { kind, paths }
}

fn is_relevant_event(event: &Event, config_file: &Path) -> bool {
    config_watch::is_relevant_event(&seen(event), bytes(config_file))
}

const CFG: &str = "/home/x/.config/jiji-hamster-bridge/config.toml";

fn ev(kind: EventKind, path: &str) -> Event {
    Event::new(kind).add_path(PathBuf::from(path))
}

// The exact events the self-trigger loop was built from: our own reads.
#[test]
fn access_open_read_close_are_ignored() {
    for kind in [
        EventKind::Access(AccessKind::Open(AccessMode::Read)),
        EventKind::Access(AccessKind::Read),
        EventKind::Access(AccessKind::Close(AccessMode::Read)),
        EventKind::Access(AccessKind::Any),
    ] {
        assert!(!is_relevant_event(&ev(kind, CFG), Path::new(CFG)));
    }
}

#[test]
fn atime_metadata_bump_is_ignored() {
    let kind = EventKind::Modify(ModifyKind::Metadata(MetadataKind::AccessTime));
    assert!(!is_relevant_event(&ev(kind, CFG), Path::new(CFG)));
}

#[test]
fn data_write_triggers_reload() {
    let kind = EventKind::Modify(ModifyKind::Data(DataChange::Any));
    assert!(is_relevant_event(&ev(kind, CFG), Path::new(CFG)));
}

#[test]
fn create_triggers_reload() {
    assert!(is_relevant_event(
        &ev(EventKind::Create(CreateKind::File), CFG),
        Path::new(CFG)
    ));
}

// chezmoi / editor atomic replace: temp file renamed over the config.
#[test]
fn rename_to_config_triggers_reload() {
    let kind = EventKind::Modify(ModifyKind::Name(RenameMode::To));
    assert!(is_relevant_event(&ev(kind, CFG), Path::new(CFG)));
}

#[test]
fn remove_triggers_reload() {
    assert!(is_relevant_event(
        &ev(EventKind::Remove(RemoveKind::File), CFG),
        Path::new(CFG)
    ));
}

// A write to some other file in the watched directory must not reload.
#[test]
fn unrelated_file_in_dir_is_ignored() {
    let other = "/home/x/.config/jiji-hamster-bridge/notes.txt";
    let kind = EventKind::Modify(ModifyKind::Data(DataChange::Any));
    assert!(!is_relevant_event(&ev(kind, other), Path::new(CFG)));
}

// Unknown backend events stay permissive — the content guard dedups them.
#[test]
fn any_kind_for_config_triggers_reload() {
    assert!(is_relevant_event(&ev(EventKind::Any, CFG), Path::new(CFG)));
}

// An event carrying no path can't be attributed to the config — ignore it.
#[test]
fn pathless_event_is_ignored() {
    let event = Event::new(EventKind::Modify(ModifyKind::Data(DataChange::Any)));
    assert!(!is_relevant_event(&event, Path::new(CFG)));
}

#[test]
fn kinds_that_the_watcher_cannot_tell_trigger_reload() {
    for kind in [
        EventKind::Other,
        EventKind::Modify(ModifyKind::Any),
        EventKind::Modify(ModifyKind::Other),
    ] {
        assert!(is_relevant_event(&ev(kind, CFG), Path::new(CFG)));
    }
}

#[test]
fn one_of_several_paths_is_enough() {
    let event = ev(EventKind::Modify(ModifyKind::Name(RenameMode::Both)), "/tmp/.config.toml.swp")
        .add_path(PathBuf::from("/elsewhere/config.toml"));
    assert!(is_relevant_event(&event, Path::new(CFG)));
}

#[test]
fn file_names_agree_with_std() {
    for path in [
        "", "/", "//", ".", "..", "./", "../", "a", "a/", "a//", "a/.", "a/./", "a/..", "a/../",
        "./a", "/a", "/a/b", "/a/b.toml", "a/b/../c", "a/./b/.", "...", "a/...", ".a", "a.", "/..",
        "./.", "/./.", "..a", "a/.b/.",
    ] {
        let ours = config_watch::name_of(path.as_bytes());
        let theirs = Path::new(path).file_name().map(|n| n.to_str().unwrap().as_bytes().to_vec());
        assert_eq!(ours, theirs, "{path:?}");
    }
}

#[test]
fn the_directory_of_a_path_makes_no_difference() {
    for dir in ["", "/", "/home/x/", "..", "a/.", "//"] {
        let path = format!("{dir}/config.toml");
        assert_eq!(config_watch::name_of(path.as_bytes()), Some(b"config.toml".to_vec()));
    }
}

#[test]
fn paths_without_a_name_match_each_other() {
    let event = ev(EventKind::Any, "/home/..");
    assert!(is_relevant_event(&event, Path::new("/")));
    assert!(!is_relevant_event(&event, Path::new(CFG)));
}
