//! Decide whether a filesystem-watcher event warrants a config reload.
use vstd::prelude::*;

verus! {

/// What a watcher saw happen.
#[derive(Debug, Clone, Copy, PartialEq, Eq, Structural)]
pub enum EventKind {
    /// Something that the watcher cannot tell.
    Any,
    /// A file was opened, read or closed.
    Access,
    Create,
    Modify(ModifyKind),
    Remove,
    Other,
}

/// What a modification touched.
#[derive(Debug, Clone, Copy, PartialEq, Eq, Structural)]
pub enum ModifyKind {
    /// Something that the watcher cannot tell.
    Any,
    /// The content of a file.
    Data,
    /// Access time, permissions and the like.
    Metadata,
    /// The name of a file.
    Name,
    Other,
}

/// An event of a watcher, with the paths it is about.
#[derive(Debug, Clone)]
pub struct Event {
    pub kind: EventKind,
    /// The bytes of each path.
    pub paths: Vec<Vec<u8>>,
}

/// The byte that separates the parts of a path: a slash.
pub const SEPARATOR: u8 = 47;

/// The byte of a dot.
pub const DOT: u8 = 46;

/// Where the last part of a path begins: behind its last separator.
pub open spec fn last_part(path: Seq<u8>) -> nat
    decreases path.len(),
{
    if path.len() == 0 || path.last() == SEPARATOR {
        path.len()
    } else {
        last_part(path.drop_last())
    }
}

/// The file name of a path: its last part, where trailing separators and parts
/// `.` do not count. `None` where no part is left or the last one is `..`.
pub open spec fn file_name(path: Seq<u8>) -> Option<Seq<u8>>
    decreases path.len(),
    via file_name_decreases
{
    if path.len() == 0 {
        None
    } else if path.last() == SEPARATOR {
        file_name(path.drop_last())
    } else {
        let start = last_part(path) as int;
        let name = path.skip(start);
        if name == seq![DOT] {
            file_name(path.take(start))
        } else if name == seq![DOT, DOT] {
            None
        } else {
            Some(name)
        }
    }
}

#[via_fn]
proof fn file_name_decreases(path: Seq<u8>) {
    lemma_last_part(path);
}

/// The last part of a path that does not end in a separator is not empty and
/// holds no separator.
proof fn lemma_last_part(path: Seq<u8>)
    ensures
        last_part(path) <= path.len(),
        path.len() > 0 && path.last() != SEPARATOR ==> last_part(path) < path.len(),
        forall|i: int| last_part(path) <= i < path.len() ==> #[trigger] path[i] != SEPARATOR,
        last_part(path) > 0 ==> path[last_part(path) - 1] == SEPARATOR,
    decreases path.len(),
{
    if path.len() > 0 && path.last() != SEPARATOR {
        let front = path.drop_last();
        lemma_last_part(front);
        assert forall|i: int| last_part(path) <= i < path.len() implies #[trigger] path[i]
            != SEPARATOR by {
            if i < front.len() {
                assert(front[i] == path[i]);
            }
        }
    }
}

/// Whether an event of this kind can have changed what a file holds.
pub open spec fn is_change(kind: EventKind) -> bool {
    kind != EventKind::Access && kind != EventKind::Modify(ModifyKind::Metadata)
}

/// Whether `path` and `config_file` have the same file name.
pub open spec fn names_same_file(path: Vec<u8>, config_file: Seq<u8>) -> bool {
    file_name(path@) == file_name(config_file)
}

/// Whether `event` should trigger a config reload attempt for `config_file`.
///
/// The reload path opens and reads the config file, and those reads surface as
/// access events (open / read / close) plus atime-only metadata events. Treating
/// them as reload triggers makes the watcher fire on its own reads: a
/// self-sustaining loop that reloads several times a second forever. We therefore
/// accept only content-changing or structural events (create, remove, data /
/// rename modification, and the catch-all `Any` / `Other`) for the config file
/// itself.
///
/// Matching is by file name: atomic replacement (chezmoi and most editors)
/// renames a temp file over the config, so the meaningful event's path is the
/// config file even though we watch its parent directory.
pub fn is_relevant_event(event: &Event, config_file: &[u8]) -> (r: bool)
    ensures
        r == (is_change(event.kind) && exists|i: int|
            0 <= i < event.paths.len() && names_same_file(
                #[trigger] event.paths@[i],
                config_file@,
            )),
{
    let kind_relevant: bool = match event.kind {
        // Reads of the config: what the reload itself performs.
        EventKind::Access => false,
        // atime / permission churn, including the atime bump from our own read.
        EventKind::Modify(ModifyKind::Metadata) => false,
        // Genuine content / structural changes.
        EventKind::Create | EventKind::Remove | EventKind::Modify(_) | EventKind::Any
        | EventKind::Other => true,
    };
    if !kind_relevant {
        return false;
    }
    let name: Option<Vec<u8>> = name_of(config_file);
    let mut i: usize = 0;
    while i < event.paths.len()
        invariant
            i <= event.paths.len(),
            is_change(event.kind),
            bytes_view(name) == file_name(config_file@),
            forall|j: int|
                0 <= j < i ==> !names_same_file(#[trigger] event.paths@[j], config_file@),
        decreases event.paths.len() - i,
    {
        let other: Option<Vec<u8>> = name_of(event.paths[i].as_slice());
        let same: bool = match (&name, &other) {
            (Some(a), Some(b)) => same_bytes(a, b),
            (None, None) => true,
            _ => false,
        };
        if same {
            assert(names_same_file(event.paths@[i as int], config_file@));
            return true;
        }
        i = i + 1;
    }
    false
}

/// The bytes of an optional name.
pub open spec fn bytes_view(name: Option<Vec<u8>>) -> Option<Seq<u8>> {
    match name {
        Some(v) => Some(v@),
        None => None,
    }
}

/// The file name of a path.
pub fn name_of(path: &[u8]) -> (r: Option<Vec<u8>>)
    ensures
        bytes_view(r) == file_name(path@),
{
    let mut end: usize = path.len();
    assert(path@.take(end as int) =~= path@);
    while end > 0
        invariant
            end <= path.len(),
            file_name(path@) == file_name(path@.take(end as int)),
        decreases end,
    {
        let ghost rest = path@.take(end as int);
        if path[end - 1] == SEPARATOR {
            assert(rest.drop_last() =~= path@.take(end - 1));
            end = end - 1;
        } else {
            let start: usize = start_of_last_part(path, end);
            let name: Vec<u8> = bytes_between(path, start, end);
            proof {
                lemma_last_part(rest);
                assert(rest.skip(start as int) =~= name@);
                assert(rest.take(start as int) =~= path@.take(start as int));
            }
            if name.len() == 1 && name[0] == DOT {
                assert(name@ =~= seq![DOT]);
                end = start;
            } else {
                if name.len() == 2 && name[0] == DOT && name[1] == DOT {
                    assert(name@ =~= seq![DOT, DOT]);
                    return None;
                }
                return Some(name);
            }
        }
    }
    None
}

fn start_of_last_part(path: &[u8], end: usize) -> (r: usize)
    requires
        end <= path.len(),
    ensures
        r == last_part(path@.take(end as int)),
        r <= end,
{
    let mut start: usize = end;
    while start > 0 && path[start - 1] != SEPARATOR
        invariant
            start <= end <= path.len(),
            last_part(path@.take(end as int)) == last_part(path@.take(start as int)),
        decreases start,
    {
        assert(path@.take(start as int).drop_last() =~= path@.take(start - 1));
        start = start - 1;
    }
    start
}

fn bytes_between(path: &[u8], start: usize, end: usize) -> (r: Vec<u8>)
    requires
        start <= end <= path.len(),
    ensures
        r@ == path@.subrange(start as int, end as int),
{
    let mut r: Vec<u8> = Vec::new();
    let mut i: usize = start;
    while i < end
        invariant
            start <= i <= end <= path.len(),
            r@ == path@.subrange(start as int, i as int),
        decreases end - i,
    {
        r.push(path[i]);
        assert(path@.subrange(start as int, i + 1) =~= path@.subrange(start as int, i as int).push(
            path@[i as int],
        ));
        i = i + 1;
    }
    r
}

fn same_bytes(a: &Vec<u8>, b: &Vec<u8>) -> (r: bool)
    ensures
        r == (a@ == b@),
{
    if a.len() != b.len() {
        return false;
    }
    let mut i: usize = 0;
    while i < a.len()
        invariant
            i <= a.len(),
            a.len() == b.len(),
            forall|j: int| 0 <= j < i ==> a@[j] == b@[j],
        decreases a.len() - i,
    {
        if a[i] != b[i] {
            return false;
        }
        i = i + 1;
    }
    assert(a@ =~= b@);
    true
}

/// The directory makes no difference: a plain name behind any directory is the
/// file name of the whole path.
pub proof fn law_file_name_ignores_the_directory(dir: Seq<u8>, name: Seq<u8>)
    requires
        name.len() > 0,
        forall|i: int| 0 <= i < name.len() ==> #[trigger] name[i] != SEPARATOR,
        name != seq![DOT],
        name != seq![DOT, DOT],
    ensures
        file_name(dir + seq![SEPARATOR] + name) == Some(name),
        file_name(name) == Some(name),
{
    let path = dir + seq![SEPARATOR] + name;
    lemma_last_part(path);
    lemma_last_part(name);
    let n = (dir.len() + 1) as int;
    assert(path.last() == name.last());
    assert(path[n - 1] == SEPARATOR);
    if last_part(path) > n {
        let i = last_part(path) - 1;
        assert(path[i] == name[i - n]);
    }
    assert(path.skip(n) =~= name);
    if last_part(name) > 0 {
        assert(name[last_part(name) - 1] != SEPARATOR);
    }
    assert(name.skip(0) =~= name);
}

/// What stands at the end of a path without a name of its own makes no difference:
/// separators, and parts that are a single dot.
pub proof fn law_trailing_dots_do_not_count(path: Seq<u8>)
    ensures
        file_name(path + seq![SEPARATOR]) == file_name(path),
        file_name(path + seq![SEPARATOR, DOT]) == file_name(path),
        file_name(Seq::empty()) is None,
        file_name(seq![DOT]) is None,
{
    let slashed = path + seq![SEPARATOR];
    assert(slashed.last() == SEPARATOR);
    assert(slashed.drop_last() =~= path);
    let dotted = path + seq![SEPARATOR, DOT];
    lemma_last_part(dotted);
    let n = (path.len() + 1) as int;
    assert(dotted[n - 1] == SEPARATOR);
    assert(dotted.last() == DOT);
    assert(dotted.skip(n) =~= seq![DOT]);
    assert(dotted.take(n) =~= slashed);
    let dot = seq![DOT];
    lemma_last_part(dot);
    assert(dot.skip(0) =~= dot);
    assert(dot.take(0) =~= Seq::empty());
    if last_part(dot) > 0 {
        assert(dot[last_part(dot) - 1] != SEPARATOR);
    }
}

/// A path that ends in the parent of a directory has no file name.
pub proof fn law_parents_have_no_name(dir: Seq<u8>)
    ensures
        file_name(dir + seq![SEPARATOR, DOT, DOT]) is None,
        file_name(seq![DOT, DOT]) is None,
{
    let path = dir + seq![SEPARATOR, DOT, DOT];
    let n = (dir.len() + 1) as int;
    lemma_last_part(path);
    assert(path[n - 1] == SEPARATOR);
    assert(path[n] == DOT);
    assert(path.last() == DOT);
    assert(path.skip(n) =~= seq![DOT, DOT]);
    let dots = seq![DOT, DOT];
    lemma_last_part(dots);
    assert(dots.skip(0) =~= dots);
    if last_part(dots) > 0 {
        assert(dots[last_part(dots) - 1] != SEPARATOR);
    }
}

/// Two paths name the same file just where their names are the same, whatever the
/// directories.
pub proof fn law_files_are_told_by_name(
    path: Vec<u8>,
    dir: Seq<u8>,
    name: Seq<u8>,
    config_dir: Seq<u8>,
    config_name: Seq<u8>,
)
    requires
        name.len() > 0 && config_name.len() > 0,
        forall|i: int| 0 <= i < name.len() ==> #[trigger] name[i] != SEPARATOR,
        forall|i: int| 0 <= i < config_name.len() ==> #[trigger] config_name[i] != SEPARATOR,
        name != seq![DOT] && name != seq![DOT, DOT],
        config_name != seq![DOT] && config_name != seq![DOT, DOT],
        path@ == dir + seq![SEPARATOR] + name,
    ensures
        names_same_file(path, config_dir + seq![SEPARATOR] + config_name) <==> name
            == config_name,
{
    law_file_name_ignores_the_directory(dir, name);
    law_file_name_ignores_the_directory(config_dir, config_name);
}

/// Which events can have changed a file: all but reads of it and changes of what is
/// kept about it.
pub proof fn law_reads_are_no_changes(kind: EventKind)
    ensures
        is_change(kind) <==> (match kind {
            EventKind::Any | EventKind::Create | EventKind::Remove | EventKind::Other => true,
            EventKind::Access => false,
            EventKind::Modify(what) => !(what is Metadata),
        }),
{
}

} // verus!
