//! Event-stream consumption: which activity is active, which workspace is focused.
use crate::document;
use crate::document::Tree;
use crate::table;
use crate::text;
use std::collections::HashMap;
use vstd::prelude::*;

verus! {

/// Desktop context: active activity name + focused workspace name (if named).
#[derive(Debug, Clone, PartialEq, Eq)]
pub struct Context {
    pub activity: Option<String>,
    pub workspace: Option<String>,
}

impl Default for Context {
    fn default() -> (r: Self)
        ensures
            r.activity is None,
            r.workspace is None,
    {
        Context { activity: None, workspace: None }
    }
}

/// What a context says.
pub struct ContextView {
    pub activity: Option<Seq<char>>,
    pub workspace: Option<Seq<char>>,
}

impl View for Context {
    type V = ContextView;

    open spec fn view(&self) -> ContextView {
        ContextView { activity: text::opt(self.activity), workspace: text::opt(self.workspace) }
    }
}

/// An activity or a workspace as the event stream describes it.
#[derive(Debug, Clone, PartialEq, Eq)]
pub struct Described<N> {
    pub id: u64,
    pub name: N,
    /// Whether it is the active activity, or the focused workspace.
    pub marked: bool,
}

/// An activity, which has a name.
pub type ActivityInfo = Described<String>;

/// A workspace, which may have a name.
pub type WorkspaceInfo = Described<Option<String>>;

/// A context-relevant event. A part that the event lacks, or has in another
/// shape, is `None`, or left out of a list; such an event changes nothing that
/// the part would have changed.
#[derive(Debug, Clone, PartialEq, Eq)]
pub enum Event {
    ActivitiesChanged(Vec<ActivityInfo>),
    ActivityCreated(Option<ActivityInfo>),
    ActivitySwitched(Option<u64>),
    ActivityRemoved(Option<u64>),
    ActivityRenamed(Option<(u64, String)>),
    WorkspacesChanged(Vec<WorkspaceInfo>),
    WorkspaceOpenedOrChanged(Option<WorkspaceInfo>),
    WorkspaceClosed(Option<u64>),
    /// The workspace that took the focus; `None` also for an activation on an
    /// output without the focus.
    WorkspaceActivated(Option<u64>),
}

/// An item of a snapshot: its id, its name, and whether it holds the mark.
pub struct Item<A> {
    pub id: u64,
    pub value: A,
    pub marked: bool,
}

/// What an event says.
pub enum EventView {
    ActivitiesChanged(Seq<Item<Seq<char>>>),
    ActivityCreated(Option<Item<Seq<char>>>),
    ActivitySwitched(Option<u64>),
    ActivityRemoved(Option<u64>),
    ActivityRenamed(Option<(u64, Seq<char>)>),
    WorkspacesChanged(Seq<Item<Option<Seq<char>>>>),
    WorkspaceOpenedOrChanged(Option<Item<Option<Seq<char>>>>),
    WorkspaceClosed(Option<u64>),
    WorkspaceActivated(Option<u64>),
}

impl<N: DeepView> View for Described<N> {
    type V = Item<N::V>;

    open spec fn view(&self) -> Item<N::V> {
        Item { id: self.id, value: self.name.deep_view(), marked: self.marked }
    }
}

/// What several descriptions say.
pub open spec fn items_view<N: DeepView>(v: Seq<Described<N>>) -> Seq<Item<N::V>> {
    v.map_values(|d: Described<N>| d@)
}

impl View for Event {
    type V = EventView;

    open spec fn view(&self) -> EventView {
        match *self {
            Event::ActivitiesChanged(v) => EventView::ActivitiesChanged(items_view(v@)),
            Event::ActivityCreated(Some(a)) => EventView::ActivityCreated(Some(a@)),
            Event::ActivityCreated(None) => EventView::ActivityCreated(None),
            Event::ActivitySwitched(id) => EventView::ActivitySwitched(id),
            Event::ActivityRemoved(id) => EventView::ActivityRemoved(id),
            Event::ActivityRenamed(Some(r)) => EventView::ActivityRenamed(Some((r.0, r.1@))),
            Event::ActivityRenamed(None) => EventView::ActivityRenamed(None),
            Event::WorkspacesChanged(v) => EventView::WorkspacesChanged(items_view(v@)),
            Event::WorkspaceOpenedOrChanged(Some(w)) => EventView::WorkspaceOpenedOrChanged(
                Some(w@),
            ),
            Event::WorkspaceOpenedOrChanged(None) => EventView::WorkspaceOpenedOrChanged(None),
            Event::WorkspaceClosed(id) => EventView::WorkspaceClosed(id),
            Event::WorkspaceActivated(id) => EventView::WorkspaceActivated(id),
        }
    }
}

/// The number under `name` in a record.
pub open spec fn number_in(body: Tree, name: Seq<char>) -> Option<u64> {
    match document::member_of(body, name) {
        Some(t) => document::number_of(t),
        None => None,
    }
}

/// The text under `name` in a record.
pub open spec fn text_in(body: Tree, name: Seq<char>) -> Option<Seq<char>> {
    match document::member_of(body, name) {
        Some(t) => document::text_of(t),
        None => None,
    }
}

/// The truth value under `name` in a record.
pub open spec fn bool_in(body: Tree, name: Seq<char>) -> Option<bool> {
    match document::member_of(body, name) {
        Some(t) => document::bool_of(t),
        None => None,
    }
}

/// The items of the list under `name` in a record; none where there is no list.
pub open spec fn list_in(body: Tree, name: Seq<char>) -> Seq<Tree> {
    match document::member_of(body, name) {
        Some(Tree::List(items)) => items,
        _ => Seq::empty(),
    }
}

/// How the stream names what it describes.
pub trait Named: DeepView + Sized {
    /// The member that tells whether the described one is marked.
    spec fn mark_member() -> Seq<char>;

    /// The name in a record; `None` where it has none but needs one.
    spec fn name_in(t: Tree) -> Option<Self::V>;

    /// The member that tells whether the described one is marked.
    fn get_mark_member() -> (r: &'static str)
        ensures
            r@ == Self::mark_member(),
    ;

    /// The name in a record.
    fn read_name(v: &serde_json::Value) -> (r: Option<Self>)
        ensures
            match r {
                Some(name) => Self::name_in(document::tree(*v)) == Some(name.deep_view()),
                None => Self::name_in(document::tree(*v)) is None,
            },
    ;
}

impl Named for String {
    open spec fn mark_member() -> Seq<char> {
        "is_active"@
    }

    open spec fn name_in(t: Tree) -> Option<Seq<char>> {
        text_in(t, "name"@)
    }

    fn get_mark_member() -> (r: &'static str) {
        "is_active"
    }

    fn read_name(v: &serde_json::Value) -> (r: Option<Self>) {
        read_text(v, "name")
    }
}

impl Named for Option<String> {
    open spec fn mark_member() -> Seq<char> {
        "is_focused"@
    }

    open spec fn name_in(t: Tree) -> Option<Option<Seq<char>>> {
        Some(text_in(t, "name"@))
    }

    fn get_mark_member() -> (r: &'static str) {
        "is_focused"
    }

    fn read_name(v: &serde_json::Value) -> (r: Option<Self>) {
        Some(read_text(v, "name"))
    }
}

/// What a record describes: it needs an id and what passes for a name.
pub open spec fn item_in<N: Named>(t: Tree) -> Option<Item<N::V>> {
    match (number_in(t, "id"@), N::name_in(t)) {
        (Some(id), Some(value)) => Some(
            Item { id, value, marked: bool_in(t, N::mark_member()) == Some(true) },
        ),
        _ => None,
    }
}

/// What the records of a list describe.
pub open spec fn items_in<N: Named>(records: Seq<Tree>) -> Seq<Item<N::V>>
    decreases records.len(),
{
    if records.len() == 0 {
        Seq::empty()
    } else {
        let front = items_in::<N>(records.drop_last());
        match item_in::<N>(records.last()) {
            Some(item) => front.push(item),
            None => front,
        }
    }
}

/// The event of the given kind and body; `None` where the kind is not relevant.
pub open spec fn event_of_kind(kind: Seq<char>, body: Tree) -> Option<EventView> {
    if kind == "ActivitiesChanged"@ {
        Some(EventView::ActivitiesChanged(items_in::<String>(list_in(body, "activities"@))))
    } else if kind == "ActivityCreated"@ {
        Some(
            EventView::ActivityCreated(
                match document::member_of(body, "activity"@) {
                    Some(t) => item_in::<String>(t),
                    None => None,
                },
            ),
        )
    } else if kind == "ActivitySwitched"@ {
        Some(EventView::ActivitySwitched(number_in(body, "id"@)))
    } else if kind == "ActivityRemoved"@ {
        Some(EventView::ActivityRemoved(number_in(body, "id"@)))
    } else if kind == "ActivityRenamed"@ {
        Some(
            EventView::ActivityRenamed(
                match (number_in(body, "id"@), text_in(body, "name"@)) {
                    (Some(id), Some(name)) => Some((id, name)),
                    _ => None,
                },
            ),
        )
    } else if kind == "WorkspacesChanged"@ {
        Some(EventView::WorkspacesChanged(items_in::<Option<String>>(list_in(body, "workspaces"@))))
    } else if kind == "WorkspaceOpenedOrChanged"@ {
        Some(
            EventView::WorkspaceOpenedOrChanged(
                match document::member_of(body, "workspace"@) {
                    Some(t) => item_in::<Option<String>>(t),
                    None => None,
                },
            ),
        )
    } else if kind == "WorkspaceClosed"@ {
        Some(EventView::WorkspaceClosed(number_in(body, "id"@)))
    } else if kind == "WorkspaceActivated"@ {
        Some(
            EventView::WorkspaceActivated(
                if bool_in(body, "focused"@) == Some(true) {
                    number_in(body, "id"@)
                } else {
                    None
                },
            ),
        )
    } else {
        None
    }
}

/// The event in a document: a record whose first member is the event's kind and body.
pub open spec fn event_in(t: Tree) -> Option<EventView> {
    match t {
        Tree::Record(members) => if members.len() > 0 {
            event_of_kind(members[0].0, members[0].1)
        } else {
            None
        },
        _ => None,
    }
}

/// The event on a line of the stream; `None` where the line is no JSON or holds
/// no context-relevant event.
pub open spec fn event_on_line(line: Seq<char>) -> Option<EventView> {
    match document::json_tree(line) {
        Some(t) => event_in(t),
        None => None,
    }
}

fn read_number(body: &serde_json::Value, name: &str) -> (r: Option<u64>)
    ensures
        r == number_in(document::tree(*body), name@),
{
    match document::member(body, name) {
        Some(v) => document::number(v),
        None => None,
    }
}

fn read_text(body: &serde_json::Value, name: &str) -> (r: Option<String>)
    ensures
        text::opt(r) == text_in(document::tree(*body), name@),
{
    match document::member(body, name) {
        Some(v) => match document::string(v) {
            Some(s) => Some(s.to_owned()),
            None => None,
        },
        None => None,
    }
}

fn read_flag(body: &serde_json::Value, name: &str) -> (r: bool)
    ensures
        r == (bool_in(document::tree(*body), name@) == Some(true)),
{
    match document::member(body, name) {
        Some(v) => match document::truth(v) {
            Some(b) => b,
            None => false,
        },
        None => false,
    }
}

fn read_item<N: Named>(v: &serde_json::Value) -> (r: Option<Described<N>>)
    ensures
        match r {
            Some(d) => item_in::<N>(document::tree(*v)) == Some(d@),
            None => item_in::<N>(document::tree(*v)) is None,
        },
{
    match (read_number(v, "id"), N::read_name(v)) {
        (Some(id), Some(name)) => Some(
            Described { id, name, marked: read_flag(v, N::get_mark_member()) },
        ),
        _ => None,
    }
}

fn read_items<N: Named>(body: &serde_json::Value, name: &str) -> (r: Vec<Described<N>>)
    ensures
        items_view(r@) == items_in::<N>(list_in(document::tree(*body), name@)),
{
    let mut r: Vec<Described<N>> = Vec::new();
    assert(items_view(r@) =~= Seq::empty());
    if let Some(v) = document::member(body, name) {
        if let Some(a) = document::items(v) {
            let ghost all = document::trees(a@);
            let mut i: usize = 0;
            assert(all.take(0) =~= Seq::empty());
            while i < a.len()
                invariant
                    i <= a.len(),
                    all == document::trees(a@),
                    items_view(r@) == items_in::<N>(all.take(i as int)),
                decreases a.len() - i,
            {
                let ghost front = items_view(r@);
                assert(all.take(i + 1).drop_last() =~= all.take(i as int));
                assert(all.take(i + 1).last() == document::tree(a@[i as int]));
                if let Some(d) = read_item::<N>(&a[i]) {
                    let ghost said = d@;
                    r.push(d);
                    assert(items_view(r@) =~= front.push(said));
                }
                i = i + 1;
            }
            assert(all.take(i as int) =~= all);
        }
    }
    r
}

fn read_kind(kind: &str, body: &serde_json::Value) -> (r: Option<Event>)
    ensures
        match r {
            Some(e) => event_of_kind(kind@, document::tree(*body)) == Some(e@),
            None => event_of_kind(kind@, document::tree(*body)) is None,
        },
{
    if text::same(kind, "ActivitiesChanged") {
        Some(Event::ActivitiesChanged(read_items(body, "activities")))
    } else if text::same(kind, "ActivityCreated") {
        Some(
            Event::ActivityCreated(
                match document::member(body, "activity") {
                    Some(v) => read_item(v),
                    None => None,
                },
            ),
        )
    } else if text::same(kind, "ActivitySwitched") {
        Some(Event::ActivitySwitched(read_number(body, "id")))
    } else if text::same(kind, "ActivityRemoved") {
        Some(Event::ActivityRemoved(read_number(body, "id")))
    } else if text::same(kind, "ActivityRenamed") {
        Some(
            Event::ActivityRenamed(
                match (read_number(body, "id"), read_text(body, "name")) {
                    (Some(id), Some(name)) => Some((id, name)),
                    _ => None,
                },
            ),
        )
    } else if text::same(kind, "WorkspacesChanged") {
        Some(Event::WorkspacesChanged(read_items(body, "workspaces")))
    } else if text::same(kind, "WorkspaceOpenedOrChanged") {
        Some(
            Event::WorkspaceOpenedOrChanged(
                match document::member(body, "workspace") {
                    Some(v) => read_item(v),
                    None => None,
                },
            ),
        )
    } else if text::same(kind, "WorkspaceClosed") {
        Some(Event::WorkspaceClosed(read_number(body, "id")))
    } else if text::same(kind, "WorkspaceActivated") {
        Some(
            Event::WorkspaceActivated(
                if read_flag(body, "focused") {
                    read_number(body, "id")
                } else {
                    None
                },
            ),
        )
    } else {
        None
    }
}

/// The context-relevant event on `line`, if it holds one.
pub fn read_event(line: &str) -> (r: Option<Event>)
    ensures
        match r {
            Some(e) => event_on_line(line@) == Some(e@),
            None => event_on_line(line@) is None,
        },
{
    match document::read_json(line) {
        Some(v) => event_of(&v),
        None => None,
    }
}

/// The context-relevant event in a parsed document, if it holds one.
pub fn event_of(v: &serde_json::Value) -> (r: Option<Event>)
    ensures
        match r {
            Some(e) => event_in(document::tree(*v)) == Some(e@),
            None => event_in(document::tree(*v)) is None,
        },
{
    match document::members(v) {
        Some(m) => if m.len() > 0 {
            read_kind(m[0].0.as_str(), m[0].1)
        } else {
            None
        },
        None => None,
    }
}

/// Values under ids, each with its mark.
pub type Marks<A> = Map<u64, (A, bool)>;

/// The same values, only the one under `id` marked.
pub open spec fn only_marked<A>(m: Marks<A>, id: u64) -> Marks<A> {
    Map::new(|k: u64| m.contains_key(k), |k: u64| (m[k].0, k == id))
}

/// The same values, none of them marked.
pub open spec fn none_marked<A>(m: Marks<A>) -> Marks<A> {
    Map::new(|k: u64| m.contains_key(k), |k: u64| (m[k].0, false))
}

/// The values with `item` among them; a marked item takes the mark from the others.
pub open spec fn with_item<A>(m: Marks<A>, item: Item<A>) -> Marks<A> {
    let rest = if item.marked {
        none_marked(m)
    } else {
        m
    };
    rest.insert(item.id, (item.value, item.marked))
}

/// The values of a snapshot, taken in order.
pub open spec fn snapshot<A>(items: Seq<Item<A>>) -> Marks<A>
    decreases items.len(),
{
    if items.len() == 0 {
        Map::empty()
    } else {
        with_item(snapshot(items.drop_last()), items.last())
    }
}

/// Whether `k` is the id of a marked value.
pub open spec fn is_marked<A>(m: Marks<A>, k: u64) -> bool {
    m.contains_key(k) && m[k].1
}

/// Whether no two values are marked.
pub open spec fn at_most_one<A>(m: Marks<A>) -> bool {
    forall|j: u64, k: u64| #[trigger] is_marked(m, j) && #[trigger] is_marked(m, k) ==> j == k
}

/// The marked value, if there is one.
pub open spec fn marked_value<A>(m: Marks<A>) -> Option<A> {
    if exists|k: u64| is_marked(m, k) {
        Some(m[choose|k: u64| is_marked(m, k)].0)
    } else {
        None
    }
}

/// Values under ids, at most one of them marked.
#[derive(Debug)]
struct Marked<T> {
    values: HashMap<u64, T>,
    mark: Option<u64>,
}

impl<T: DeepView> Marked<T> {
    spec fn view(&self) -> Marks<T::V> {
        Map::new(
            |k: u64| self.values@.contains_key(k),
            |k: u64| (self.values@[k].deep_view(), self.mark == Some(k)),
        )
    }

    fn empty() -> (r: Self)
        ensures
            r@ == Map::<u64, (T::V, bool)>::empty(),
            at_most_one(r@),
    {
        let r = Marked { values: HashMap::new(), mark: None };
        assert(r@ =~= Map::<u64, (T::V, bool)>::empty());
        r
    }

    proof fn lemma_at_most_one(&self)
        ensures
            at_most_one(self@),
    {
    }

    /// The values of a snapshot, taken in order.
    fn of(list: Vec<Described<T>>) -> (r: Self)
        ensures
            r@ == snapshot(items_view(list@)),
    {
        let ghost all = items_view(list@);
        let mut r: Marked<T> = Marked::empty();
        assert(all.take(0) =~= Seq::empty());
        for d in it: list
            invariant
                all == items_view(it.seq()),
                r@ == snapshot(all.take(it.index() as int)),
        {
            let ghost i = it.index() as int;
            assert(all.take(i + 1).drop_last() =~= all.take(i));
            assert(all.take(i + 1).last() == d@);
            r.put(d);
        }
        assert(all.take(all.len() as int) =~= all);
        r
    }

    /// Put a value under its id.
    fn put(&mut self, d: Described<T>)
        ensures
            final(self)@ == with_item(old(self)@, d@),
    {
        let ghost item = d@;
        let ghost before = self@;
        self.values.insert(d.id, d.name);
        if d.marked {
            self.mark = Some(d.id);
        } else if self.mark == Some(d.id) {
            self.mark = None;
        }
        assert(self@ =~= with_item(before, item));
    }

    /// Mark the value under `id` and no other.
    fn mark_only(&mut self, id: u64)
        ensures
            final(self)@ == only_marked(old(self)@, id),
    {
        let ghost before = self@;
        self.mark = Some(id);
        assert(self@ =~= only_marked(before, id));
    }

    /// Drop the value under `id`.
    fn remove(&mut self, id: u64)
        ensures
            final(self)@ == old(self)@.remove(id),
    {
        let ghost before = self@;
        self.values.remove(&id);
        assert(self@ =~= before.remove(id));
    }

    /// Replace the value under `id`, if there is one, and keep its mark.
    fn replace(&mut self, id: u64, value: T)
        ensures
            final(self)@ == (if old(self)@.contains_key(id) {
                old(self)@.insert(id, (value.deep_view(), old(self)@[id].1))
            } else {
                old(self)@
            }),
    {
        let ghost before = self@;
        let ghost said = value.deep_view();
        if self.values.contains_key(&id) {
            self.values.insert(id, value);
            assert(self@ =~= before.insert(id, (said, before[id].1)));
        }
    }

    fn contains(&self, id: u64) -> (r: bool)
        ensures
            r == self@.contains_key(id),
    {
        self.values.contains_key(&id)
    }

    /// The marked value.
    fn marked(&self) -> (r: Option<&T>)
        ensures
            match r {
                Some(v) => marked_value(self@) == Some(v.deep_view()),
                None => marked_value(self@) is None,
            },
    {
        match self.mark {
            Some(id) => {
                let r = self.values.get(&id);
                proof {
                    if self.values@.contains_key(id) {
                        assert(is_marked(self@, id));
                    }
                }
                r
            },
            None => None,
        }
    }
}

/// The desktop's activities and workspaces, as far as the stream has told.
pub struct TrackerView {
    /// Activity names, the active one marked.
    pub activities: Marks<Seq<char>>,
    /// Workspace names, where they have one, the focused one marked.
    pub workspaces: Marks<Option<Seq<char>>>,
}

impl TrackerView {
    /// Before the stream has told anything.
    pub open spec fn initial() -> TrackerView {
        TrackerView { activities: Map::empty(), workspaces: Map::empty() }
    }

    /// What an event makes of the state.
    pub open spec fn after(self, event: EventView) -> TrackerView {
        match event {
            EventView::ActivitiesChanged(items) => TrackerView {
                activities: snapshot(items),
                ..self
            },
            EventView::ActivityCreated(Some(item)) => TrackerView {
                activities: with_item(self.activities, item),
                ..self
            },
            EventView::ActivitySwitched(Some(id)) => TrackerView {
                activities: only_marked(self.activities, id),
                ..self
            },
            EventView::ActivityRemoved(Some(id)) => TrackerView {
                activities: self.activities.remove(id),
                ..self
            },
            EventView::ActivityRenamed(Some((id, name))) => if self.activities.contains_key(id) {
                TrackerView {
                    activities: self.activities.insert(id, (name, self.activities[id].1)),
                    ..self
                }
            } else {
                self
            },
            EventView::WorkspacesChanged(items) => TrackerView {
                workspaces: snapshot(items),
                ..self
            },
            EventView::WorkspaceOpenedOrChanged(Some(item)) => TrackerView {
                workspaces: with_item(self.workspaces, item),
                ..self
            },
            EventView::WorkspaceClosed(Some(id)) => TrackerView {
                workspaces: self.workspaces.remove(id),
                ..self
            },
            EventView::WorkspaceActivated(Some(id)) => {
                let marked = only_marked(self.workspaces, id);
                TrackerView {
                    workspaces: if marked.contains_key(id) {
                        marked
                    } else {
                        marked.insert(id, (None, true))
                    },
                    ..self
                }
            },
            _ => self,
        }
    }

    /// The context that the state amounts to.
    pub open spec fn context(self) -> ContextView {
        ContextView {
            activity: marked_value(self.activities),
            workspace: match marked_value(self.workspaces) {
                Some(name) => name,
                None => None,
            },
        }
    }

    /// At most one activity is active and at most one workspace has the focus.
    pub open spec fn is_single(self) -> bool {
        at_most_one(self.activities) && at_most_one(self.workspaces)
    }
}

/// Applies event-stream lines, maintaining activity + focused-workspace state.
/// Built from the on-connect snapshot events; deltas applied on top.
#[derive(Debug)]
pub struct Tracker {
    activities: Marked<String>,
    workspaces: Marked<Option<String>>,
}

impl View for Tracker {
    type V = TrackerView;

    closed spec fn view(&self) -> TrackerView {
        TrackerView { activities: self.activities@, workspaces: self.workspaces@ }
    }
}

impl Default for Tracker {
    fn default() -> (r: Self)
        ensures
            r@ == TrackerView::initial(),
            r@.is_single(),
    {
        Tracker { activities: Marked::empty(), workspaces: Marked::empty() }
    }
}

impl Tracker {
    /// The active activity's name and the focused workspace's name.
    pub fn context(&self) -> (r: Context)
        ensures
            r@ == self@.context(),
    {
        Context {
            activity: match self.activities.marked() {
                Some(name) => Some(name.clone()),
                None => None,
            },
            workspace: match self.workspaces.marked() {
                Some(name) => text::copy_opt(name),
                None => None,
            },
        }
    }

    /// Apply one context-relevant event.
    pub fn apply_event(&mut self, event: Event)
        ensures
            final(self)@ == old(self)@.after(event@),
            final(self)@.is_single(),
    {
        match event {
            Event::ActivitiesChanged(list) => {
                self.activities = Marked::of(list);
            },
            Event::ActivityCreated(Some(a)) => self.activities.put(a),
            Event::ActivitySwitched(Some(id)) => self.activities.mark_only(id),
            Event::ActivityRemoved(Some(id)) => self.activities.remove(id),
            Event::ActivityRenamed(Some((id, name))) => self.activities.replace(id, name),
            Event::WorkspacesChanged(list) => {
                self.workspaces = Marked::of(list);
            },
            Event::WorkspaceOpenedOrChanged(Some(w)) => self.workspaces.put(w),
            Event::WorkspaceClosed(Some(id)) => self.workspaces.remove(id),
            Event::WorkspaceActivated(Some(id)) => {
                let known: bool = self.workspaces.contains(id);
                self.workspaces.mark_only(id);
                if !known {
                    // activated before it was announced
                    let ghost marked = self.workspaces@;
                    self.workspaces.put(Described { id, name: None, marked: true });
                    assert(none_marked(marked) =~= marked);
                }
            },
            _ => {},
        }
        proof {
            self.activities.lemma_at_most_one();
            self.workspaces.lemma_at_most_one();
        }
    }

    /// Returns true when the line was a context-relevant event.
    pub fn apply_line(&mut self, line: &str) -> (r: bool)
        ensures
            r == (event_on_line(line@) is Some),
            final(self)@ == (match event_on_line(line@) {
                Some(event) => old(self)@.after(event),
                None => old(self)@,
            }),
            final(self)@.is_single(),
    {
        match read_event(line) {
            Some(event) => {
                self.apply_event(event);
                true
            },
            None => {
                proof {
                    self.activities.lemma_at_most_one();
                    self.workspaces.lemma_at_most_one();
                }
                false
            },
        }
    }
}

/// A snapshot marks at most one of its items, whatever it says of them.
proof fn lemma_snapshot<A>(items: Seq<Item<A>>)
    ensures
        at_most_one(snapshot(items)),
    decreases items.len(),
{
    if items.len() > 0 {
        let front = snapshot(items.drop_last());
        lemma_snapshot(items.drop_last());
        lemma_with_item(front, items.last());
    }
}

proof fn lemma_with_item<A>(m: Marks<A>, item: Item<A>)
    requires
        at_most_one(m),
    ensures
        at_most_one(with_item(m, item)),
{
    let after = with_item(m, item);
    assert forall|j: u64, k: u64| #[trigger]
        is_marked(after, j) && #[trigger] is_marked(after, k) implies j == k by {
        if !item.marked {
            assert(is_marked(m, j) && is_marked(m, k));
        }
    }
}

/// No event leaves two activities active or two workspaces focused.
pub proof fn law_events_keep_one_mark(t: TrackerView, event: EventView)
    requires
        t.is_single(),
    ensures
        t.after(event).is_single(),
{
    let after = t.after(event);
    match event {
        EventView::ActivitiesChanged(items) => lemma_snapshot(items),
        EventView::ActivityCreated(Some(item)) => lemma_with_item(t.activities, item),
        EventView::ActivityRemoved(Some(id)) => {
            assert(forall|k: u64| #[trigger] is_marked(after.activities, k) ==> is_marked(t.activities, k));
        },
        EventView::ActivityRenamed(Some((id, name))) => {
            assert(forall|k: u64| #[trigger] is_marked(after.activities, k) ==> is_marked(t.activities, k));
        },
        EventView::WorkspacesChanged(items) => lemma_snapshot(items),
        EventView::WorkspaceOpenedOrChanged(Some(item)) => lemma_with_item(t.workspaces, item),
        EventView::WorkspaceClosed(Some(id)) => {
            assert(forall|k: u64| #[trigger] is_marked(after.workspaces, k) ==> is_marked(t.workspaces, k));
        },
        _ => {},
    }
}

/// The snapshot events that follow a connect rebuild the whole state, whatever
/// was known before.
pub proof fn law_snapshots_rebuild(
    t: TrackerView,
    u: TrackerView,
    activities: Seq<Item<Seq<char>>>,
    workspaces: Seq<Item<Option<Seq<char>>>>,
)
    ensures
        t.after(EventView::ActivitiesChanged(activities)).after(
            EventView::WorkspacesChanged(workspaces),
        ) == u.after(EventView::ActivitiesChanged(activities)).after(
            EventView::WorkspacesChanged(workspaces),
        ),
{
}

/// After a switch the context's activity is the one switched to; after a switch
/// to an activity that was never announced there is none. The workspace stays.
pub proof fn law_switch_decides_the_activity(t: TrackerView, id: u64)
    ensures
        t.after(EventView::ActivitySwitched(Some(id))).context() == (ContextView {
            activity: if t.activities.contains_key(id) {
                Some(t.activities[id].0)
            } else {
                None
            },
            workspace: t.context().workspace,
        }),
{
    let m = only_marked(t.activities, id);
    if t.activities.contains_key(id) {
        assert(is_marked(m, id));
    }
}

/// After a workspace took the focus it is the context's workspace, named if its
/// name is known. The activity stays.
pub proof fn law_focus_decides_the_workspace(t: TrackerView, id: u64)
    ensures
        t.after(EventView::WorkspaceActivated(Some(id))).context() == (ContextView {
            activity: t.context().activity,
            workspace: if t.workspaces.contains_key(id) {
                t.workspaces[id].0
            } else {
                None
            },
        }),
{
    let m = t.after(EventView::WorkspaceActivated(Some(id))).workspaces;
    assert(is_marked(m, id));
}

/// What the announcement of an activity does: it stands under its id as announced, the
/// others keep their names, and lose their mark only to one that is marked itself.
/// So one that is not marked leaves the context alone, unless it had the mark.
pub proof fn law_announced_activities(t: TrackerView, item: Item<Seq<char>>)
    ensures
        ({
            let after = t.after(EventView::ActivityCreated(Some(item)));
            &&& after.workspaces == t.workspaces
            &&& after.activities.contains_key(item.id)
            &&& after.activities[item.id] == (item.value, item.marked)
            &&& forall|k: u64|
                k != item.id ==> #[trigger] after.activities.contains_key(k)
                    == t.activities.contains_key(k)
            &&& forall|k: u64|
                k != item.id && t.activities.contains_key(k) ==> #[trigger] after.activities[k] == (
                    t.activities[k].0,
                    t.activities[k].1 && !item.marked,
                )
            &&& item.marked ==> after.context().activity == Some(item.value)
            &&& forall|k: u64|
                t.is_single() && !item.marked && k != item.id && t.activities.contains_key(k)
                    && (#[trigger] t.activities[k]).1 ==> after.context() == t.context()
            &&& t.is_single() && !item.marked && t.activities.contains_key(item.id)
                && t.activities[item.id].1 ==> after.context().activity is None
        }),
{
    let after = t.after(EventView::ActivityCreated(Some(item)));
    if item.marked {
        assert(is_marked(after.activities, item.id));
    } else {
        assert forall|k: u64|
            t.is_single() && k != item.id && t.activities.contains_key(k) && (
            #[trigger] t.activities[k]).1 implies after.context() == t.context() by {
            assert(is_marked(t.activities, k));
            assert(is_marked(after.activities, k));
            assert forall|j: u64| #[trigger] is_marked(after.activities, j) implies j == k by {
                assert(is_marked(t.activities, j));
            }
        }
        if t.is_single() && t.activities.contains_key(item.id) && t.activities[item.id].1 {
            assert(is_marked(t.activities, item.id));
            assert forall|j: u64| !#[trigger] is_marked(after.activities, j) by {
                if is_marked(after.activities, j) {
                    assert(is_marked(t.activities, j));
                }
            }
        }
    }
}

/// What the announcement of a workspace does: it stands under its id as announced, the
/// others keep their names, and lose their mark only to one that is marked itself.
/// So one that is not marked leaves the context alone, unless it had the mark.
pub proof fn law_announced_workspaces(t: TrackerView, item: Item<Option<Seq<char>>>)
    ensures
        ({
            let after = t.after(EventView::WorkspaceOpenedOrChanged(Some(item)));
            &&& after.activities == t.activities
            &&& after.workspaces.contains_key(item.id)
            &&& after.workspaces[item.id] == (item.value, item.marked)
            &&& forall|k: u64|
                k != item.id ==> #[trigger] after.workspaces.contains_key(k)
                    == t.workspaces.contains_key(k)
            &&& forall|k: u64|
                k != item.id && t.workspaces.contains_key(k) ==> #[trigger] after.workspaces[k] == (
                    t.workspaces[k].0,
                    t.workspaces[k].1 && !item.marked,
                )
            &&& item.marked ==> after.context().workspace == item.value
            &&& forall|k: u64|
                t.is_single() && !item.marked && k != item.id && t.workspaces.contains_key(k)
                    && (#[trigger] t.workspaces[k]).1 ==> after.context() == t.context()
            &&& t.is_single() && !item.marked && t.workspaces.contains_key(item.id)
                && t.workspaces[item.id].1 ==> after.context().workspace is None
        }),
{
    let after = t.after(EventView::WorkspaceOpenedOrChanged(Some(item)));
    if item.marked {
        assert(is_marked(after.workspaces, item.id));
    } else {
        assert forall|k: u64|
            t.is_single() && k != item.id && t.workspaces.contains_key(k) && (
            #[trigger] t.workspaces[k]).1 implies after.context() == t.context() by {
            assert(is_marked(t.workspaces, k));
            assert(is_marked(after.workspaces, k));
            assert forall|j: u64| #[trigger] is_marked(after.workspaces, j) implies j == k by {
                assert(is_marked(t.workspaces, j));
            }
        }
        if t.is_single() && t.workspaces.contains_key(item.id) && t.workspaces[item.id].1 {
            assert(is_marked(t.workspaces, item.id));
            assert forall|j: u64| !#[trigger] is_marked(after.workspaces, j) by {
                if is_marked(after.workspaces, j) {
                    assert(is_marked(t.workspaces, j));
                }
            }
        }
    }
}

/// The last item of a snapshot under an id decides what stands there, and the last
/// marked item has the mark.
proof fn lemma_snapshot_entry<A>(items: Seq<Item<A>>, i: int)
    requires
        0 <= i < items.len(),
        forall|j: int| i < j < items.len() ==> (#[trigger] items[j]).id != items[i].id,
    ensures
        snapshot(items).contains_key(items[i].id),
        snapshot(items)[items[i].id].0 == items[i].value,
        snapshot(items)[items[i].id].1 <==> items[i].marked && forall|j: int|
            i < j < items.len() ==> !(#[trigger] items[j]).marked,
    decreases items.len(),
{
    if i < items.len() - 1 {
        let front = items.drop_last();
        let last = items[items.len() - 1];
        assert(front[i] == items[i]);
        assert forall|j: int| i < j < front.len() implies (#[trigger] front[j]).id
            != front[i].id by {
            assert(front[j] == items[j]);
        }
        lemma_snapshot_entry(front, i);
        assert(last.id != items[i].id);
        if items[i].marked && !last.marked && (forall|j: int|
            i < j < front.len() ==> !(#[trigger] front[j]).marked) {
            assert forall|j: int| i < j < items.len() implies !(#[trigger] items[j]).marked by {
                if j < front.len() {
                    assert(front[j] == items[j]);
                }
            }
        }
        if forall|j: int| i < j < items.len() ==> !(#[trigger] items[j]).marked {
            assert(!last.marked);
            assert forall|j: int| i < j < front.len() implies !(#[trigger] front[j]).marked by {
                assert(front[j] == items[j]);
            }
        }
    }
}

proof fn lemma_snapshot_keys<A>(items: Seq<Item<A>>, k: u64)
    ensures
        snapshot(items).contains_key(k) <==> exists|i: int|
            0 <= i < items.len() && (#[trigger] items[i]).id == k,
    decreases items.len(),
{
    if items.len() > 0 {
        let front = items.drop_last();
        lemma_snapshot_keys(front, k);
        if snapshot(items).contains_key(k) {
            if items.last().id == k {
                assert(items[items.len() - 1].id == k);
            } else {
                let i = choose|i: int| 0 <= i < front.len() && (#[trigger] front[i]).id == k;
                assert(items[i].id == k);
            }
        }
        if exists|i: int| 0 <= i < items.len() && (#[trigger] items[i]).id == k {
            let i = choose|i: int| 0 <= i < items.len() && (#[trigger] items[i]).id == k;
            if i < front.len() {
                assert(front[i].id == k);
            }
        }
    }
}

/// What a snapshot of the activities does: just the listed ids are known, under each
/// the name that was listed last, and the mark is with the last one that claims
/// it. The workspaces stay.
pub proof fn law_activity_snapshots(t: TrackerView, items: Seq<Item<Seq<char>>>, i: int, k: u64)
    ensures
        ({
            let after = t.after(EventView::ActivitiesChanged(items));
            &&& after.workspaces == t.workspaces
            &&& after.activities.contains_key(k) <==> exists|j: int|
                0 <= j < items.len() && (#[trigger] items[j]).id == k
            &&& 0 <= i < items.len() && (forall|j: int|
                i < j < items.len() ==> (#[trigger] items[j]).id != items[i].id) ==> {
                &&& after.activities[items[i].id].0 == items[i].value
                &&& after.activities[items[i].id].1 <==> items[i].marked && forall|j: int|
                    i < j < items.len() ==> !(#[trigger] items[j]).marked
            }
        }),
{
    lemma_snapshot_keys(items, k);
    if 0 <= i < items.len() && (forall|j: int|
        i < j < items.len() ==> (#[trigger] items[j]).id != items[i].id) {
        lemma_snapshot_entry(items, i);
    }
}

/// What a snapshot of the workspaces does: just the listed ids are known, under
/// each the name that was listed last, and the focus is with the last one that
/// claims it. The activities stay.
pub proof fn law_workspace_snapshots(
    t: TrackerView,
    items: Seq<Item<Option<Seq<char>>>>,
    i: int,
    k: u64,
)
    ensures
        ({
            let after = t.after(EventView::WorkspacesChanged(items));
            &&& after.activities == t.activities
            &&& after.workspaces.contains_key(k) <==> exists|j: int|
                0 <= j < items.len() && (#[trigger] items[j]).id == k
            &&& 0 <= i < items.len() && (forall|j: int|
                i < j < items.len() ==> (#[trigger] items[j]).id != items[i].id) ==> {
                &&& after.workspaces[items[i].id].0 == items[i].value
                &&& after.workspaces[items[i].id].1 <==> items[i].marked && forall|j: int|
                    i < j < items.len() ==> !(#[trigger] items[j]).marked
            }
        }),
{
    lemma_snapshot_keys(items, k);
    if 0 <= i < items.len() && (forall|j: int|
        i < j < items.len() ==> (#[trigger] items[j]).id != items[i].id) {
        lemma_snapshot_entry(items, i);
    }
}

/// What a switch does: every known activity keeps its name, and is marked just
/// where it is the one switched to.
pub proof fn law_switches_move_the_mark(t: TrackerView, id: u64, k: u64)
    ensures
        ({
            let after = t.after(EventView::ActivitySwitched(Some(id)));
            &&& after.workspaces == t.workspaces
            &&& after.activities.contains_key(k) == t.activities.contains_key(k)
            &&& t.activities.contains_key(k) ==> after.activities[k] == (
                t.activities[k].0,
                k == id,
            )
        }),
{
}

/// What an activation with the focus does: every known workspace keeps its name,
/// and has the focus just where it is the activated one; one that was not known is
/// known from then on, without a name.
pub proof fn law_activations_move_the_focus(t: TrackerView, id: u64, k: u64)
    ensures
        ({
            let after = t.after(EventView::WorkspaceActivated(Some(id)));
            &&& after.activities == t.activities
            &&& after.workspaces.contains_key(k) <==> k == id || t.workspaces.contains_key(k)
            &&& t.workspaces.contains_key(k) ==> after.workspaces[k] == (
                t.workspaces[k].0,
                k == id,
            )
            &&& !t.workspaces.contains_key(id) ==> after.workspaces[id] == (
                None::<Seq<char>>,
                true,
            )
        }),
{
}

/// What a removal does: the activity or workspace is known no longer, and all else
/// stays.
pub proof fn law_removals_forget_one(t: TrackerView, id: u64, k: u64)
    ensures
        ({
            let removed = t.after(EventView::ActivityRemoved(Some(id)));
            let closed = t.after(EventView::WorkspaceClosed(Some(id)));
            &&& removed.workspaces == t.workspaces
            &&& closed.activities == t.activities
            &&& removed.activities.contains_key(k) <==> k != id && t.activities.contains_key(k)
            &&& closed.workspaces.contains_key(k) <==> k != id && t.workspaces.contains_key(k)
            &&& k != id && t.activities.contains_key(k) ==> removed.activities[k]
                == t.activities[k]
            &&& k != id && t.workspaces.contains_key(k) ==> closed.workspaces[k]
                == t.workspaces[k]
        }),
{
}

/// What a renaming does: a known activity has the new name and keeps its mark, and
/// all else stays; an unknown one stays unknown.
pub proof fn law_renamings_keep_the_mark(t: TrackerView, id: u64, name: Seq<char>, k: u64)
    ensures
        ({
            let after = t.after(EventView::ActivityRenamed(Some((id, name))));
            &&& after.workspaces == t.workspaces
            &&& after.activities.contains_key(k) == t.activities.contains_key(k)
            &&& t.activities.contains_key(k) ==> after.activities[k] == (
                if k == id {
                    name
                } else {
                    t.activities[k].0
                },
                t.activities[k].1,
            )
        }),
{
}

/// An event that lacks what it is about changes nothing.
pub proof fn law_incomplete_events_change_nothing(t: TrackerView)
    ensures
        t.after(EventView::ActivityCreated(None)) == t,
        t.after(EventView::ActivitySwitched(None)) == t,
        t.after(EventView::ActivityRemoved(None)) == t,
        t.after(EventView::ActivityRenamed(None)) == t,
        t.after(EventView::WorkspaceOpenedOrChanged(None)) == t,
        t.after(EventView::WorkspaceClosed(None)) == t,
        t.after(EventView::WorkspaceActivated(None)) == t,
{
}

/// What the context is: the name of the marked activity, and that of the focused
/// workspace, where there is one that has a name.
pub proof fn law_the_context_is_what_is_marked(t: TrackerView, k: u64)
    requires
        forall|i: u64, j: u64|
            t.activities.contains_key(i) && t.activities.contains_key(j) && (
            #[trigger] t.activities[i]).1 && (#[trigger] t.activities[j]).1 ==> i == j,
        forall|i: u64, j: u64|
            t.workspaces.contains_key(i) && t.workspaces.contains_key(j) && (
            #[trigger] t.workspaces[i]).1 && (#[trigger] t.workspaces[j]).1 ==> i == j,
    ensures
        t.activities.contains_key(k) && t.activities[k].1 ==> t.context().activity == Some(
            t.activities[k].0,
        ),
        (forall|j: u64| t.activities.contains_key(j) ==> !(#[trigger] t.activities[j]).1)
            ==> t.context().activity is None,
        t.workspaces.contains_key(k) && t.workspaces[k].1 ==> t.context().workspace
            == t.workspaces[k].0,
        (forall|j: u64| t.workspaces.contains_key(j) ==> !(#[trigger] t.workspaces[j]).1)
            ==> t.context().workspace is None,
        t.is_single(),
{
    if t.activities.contains_key(k) && t.activities[k].1 {
        assert(is_marked(t.activities, k));
    }
    if t.workspaces.contains_key(k) && t.workspaces[k].1 {
        assert(is_marked(t.workspaces, k));
    }
}

/// Before the stream has told anything, nothing is known.
pub proof fn law_nothing_is_known_at_first(k: u64)
    ensures
        !TrackerView::initial().activities.contains_key(k),
        !TrackerView::initial().workspaces.contains_key(k),
{
}

/// What is read under a name in a record: the value that a lookup finds, if it has
/// the kind that is read; and nothing in anything else.
pub proof fn law_members_are_read_by_kind(members: Seq<(Seq<char>, Tree)>, name: Seq<char>)
    ensures
        ({
            let body = Tree::Record(members);
            match table::lookup(members, name) {
                Some(t) => {
                    &&& number_in(body, name) == (if let Tree::Unsigned(n) = t {
                        Some(n)
                    } else {
                        None
                    })
                    &&& text_in(body, name) == (if let Tree::Text(s) = t {
                        Some(s)
                    } else {
                        None
                    })
                    &&& bool_in(body, name) == (if let Tree::Bool(b) = t {
                        Some(b)
                    } else {
                        None
                    })
                    &&& list_in(body, name) == (if let Tree::List(items) = t {
                        items
                    } else {
                        Seq::empty()
                    })
                },
                None => {
                    &&& number_in(body, name) is None
                    &&& text_in(body, name) is None
                    &&& bool_in(body, name) is None
                    &&& list_in(body, name).len() == 0
                },
            }
        }),
        forall|t: Tree|
            !(t is Record) ==> (#[trigger] number_in(t, name)) is None && text_in(t, name) is None
                && bool_in(t, name) is None && list_in(t, name).len() == 0,
{
}

/// What describes an activity: a record with an id and a name; it is active where
/// it says so.
pub proof fn law_described_activities(t: Tree)
    ensures
        item_in::<String>(t) == (match (number_in(t, "id"@), text_in(t, "name"@)) {
            (Some(id), Some(value)) => Some(
                Item { id, value, marked: bool_in(t, "is_active"@) == Some(true) },
            ),
            _ => None,
        }),
{
}

/// What describes a workspace: a record with an id, with or without a name; it has
/// the focus where it says so.
pub proof fn law_described_workspaces(t: Tree)
    ensures
        item_in::<Option<String>>(t) == (match number_in(t, "id"@) {
            Some(id) => Some(
                Item {
                    id,
                    value: text_in(t, "name"@),
                    marked: bool_in(t, "is_focused"@) == Some(true),
                },
            ),
            None => None,
        }),
{
}

/// What a list describes, in its order: what each record describes, where it
/// describes something.
pub proof fn law_lists_are_read_in_order<N: Named>(a: Seq<Tree>, b: Seq<Tree>, t: Tree)
    ensures
        items_in::<N>(a + b) == items_in::<N>(a) + items_in::<N>(b),
        items_in::<N>(seq![t]) == (match item_in::<N>(t) {
            Some(item) => seq![item],
            None => seq![],
        }),
        items_in::<N>(Seq::empty()).len() == 0,
    decreases b.len(),
{
    reveal_with_fuel(items_in, 2);
    assert(seq![t].drop_last() =~= Seq::<Tree>::empty());
    assert(items_in::<N>(seq![t]) =~= (match item_in::<N>(t) {
        Some(item) => seq![item],
        None => seq![],
    }));
    if b.len() == 0 {
        assert(a + b =~= a);
        assert(items_in::<N>(a) + items_in::<N>(b) =~= items_in::<N>(a));
    } else {
        law_lists_are_read_in_order::<N>(a, b.drop_last(), t);
        assert((a + b).drop_last() =~= a + b.drop_last());
        assert((a + b).last() == b.last());
        assert(items_in::<N>(a + b) =~= items_in::<N>(a) + items_in::<N>(b));
    }
}

/// What an event is read from: the first member of a record, whose name is the kind
/// and whose value is the body. Nine kinds are relevant, and each reads its own
/// part of the body.
pub proof fn law_events_by_kind(members: Seq<(Seq<char>, Tree)>)
    requires
        members.len() > 0,
    ensures
        ({
            let kind = members[0].0;
            let body = members[0].1;
            let event = event_in(Tree::Record(members));
            let activity = document::member_of(body, "activity"@);
            let workspace = document::member_of(body, "workspace"@);
            &&& kind == "ActivitiesChanged"@ ==> event == Some(
                EventView::ActivitiesChanged(
                    items_in::<String>(list_in(body, "activities"@)),
                ),
            )
            &&& kind == "ActivityCreated"@ ==> event == Some(
                EventView::ActivityCreated(
                    if activity is Some {
                        item_in::<String>(activity->0)
                    } else {
                        None
                    },
                ),
            )
            &&& kind == "ActivitySwitched"@ ==> event == Some(
                EventView::ActivitySwitched(number_in(body, "id"@)),
            )
            &&& kind == "ActivityRemoved"@ ==> event == Some(
                EventView::ActivityRemoved(number_in(body, "id"@)),
            )
            &&& kind == "ActivityRenamed"@ ==> event == Some(
                EventView::ActivityRenamed(
                    if number_in(body, "id"@) is Some && text_in(body, "name"@) is Some {
                        Some((number_in(body, "id"@)->0, text_in(body, "name"@)->0))
                    } else {
                        None
                    },
                ),
            )
            &&& kind == "WorkspacesChanged"@ ==> event == Some(
                EventView::WorkspacesChanged(
                    items_in::<Option<String>>(list_in(body, "workspaces"@)),
                ),
            )
            &&& kind == "WorkspaceOpenedOrChanged"@ ==> event == Some(
                EventView::WorkspaceOpenedOrChanged(
                    if workspace is Some {
                        item_in::<Option<String>>(workspace->0)
                    } else {
                        None
                    },
                ),
            )
            &&& kind == "WorkspaceClosed"@ ==> event == Some(
                EventView::WorkspaceClosed(number_in(body, "id"@)),
            )
            &&& kind == "WorkspaceActivated"@ ==> event == Some(
                EventView::WorkspaceActivated(
                    if bool_in(body, "focused"@) == Some(true) {
                        number_in(body, "id"@)
                    } else {
                        None
                    },
                ),
            )
            &&& event is Some ==> {
                ||| kind == "ActivitiesChanged"@
                ||| kind == "ActivityCreated"@
                ||| kind == "ActivitySwitched"@
                ||| kind == "ActivityRemoved"@
                ||| kind == "ActivityRenamed"@
                ||| kind == "WorkspacesChanged"@
                ||| kind == "WorkspaceOpenedOrChanged"@
                ||| kind == "WorkspaceClosed"@
                ||| kind == "WorkspaceActivated"@
            }
        }),
{
    reveal_strlit("ActivitiesChanged");
    reveal_strlit("ActivityCreated");
    reveal_strlit("ActivitySwitched");
    reveal_strlit("ActivityRemoved");
    reveal_strlit("ActivityRenamed");
    reveal_strlit("WorkspacesChanged");
    reveal_strlit("WorkspaceOpenedOrChanged");
    reveal_strlit("WorkspaceClosed");
    reveal_strlit("WorkspaceActivated");
    assert("ActivitiesChanged"@[5] == 'i' && "ActivitiesChanged"@[7] == 'i');
    assert("ActivityCreated"@[8] == 'C');
    assert("ActivitySwitched"@[8] == 'S');
    assert("ActivityRemoved"@[8] == 'R' && "ActivityRemoved"@[10] == 'm');
    assert("ActivityRenamed"@[8] == 'R' && "ActivityRenamed"@[10] == 'n');
    assert("WorkspacesChanged"@[9] == 's');
    assert("WorkspaceOpenedOrChanged"@[9] == 'O');
    assert("WorkspaceClosed"@[9] == 'C');
    assert("WorkspaceActivated"@[9] == 'A');
}

/// A line holds the event of the JSON on it, and none where it is no JSON, where
/// that is no record, or an empty one.
pub proof fn law_events_on_lines(line: Seq<char>)
    ensures
        event_on_line(line) == (match document::json_tree(line) {
            Some(t) => if t is Record && t->Record_0.len() > 0 {
                event_in(t)
            } else {
                None
            },
            None => None,
        }),
{
}

/// What the views of contexts and descriptions say is what these hold.
pub proof fn law_views_hold_the_descriptions(
    ctx: Context,
    a: ActivityInfo,
    w: WorkspaceInfo,
    named: String,
)
    ensures
        ctx@.activity is Some <==> ctx.activity is Some,
        ctx.activity matches Some(s) ==> ctx@.activity == Some(s@),
        ctx@.workspace is Some <==> ctx.workspace is Some,
        ctx.workspace matches Some(s) ==> ctx@.workspace == Some(s@),
        a@.id == a.id,
        a@.value == a.name@,
        a@.marked == a.marked,
        w@.id == w.id,
        w@.marked == w.marked,
        w@.value is Some <==> w.name is Some,
        w.name == Some(named) ==> w@.value == Some(named@),
{
}

} // verus!
