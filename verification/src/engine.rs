//! Hysteresis state machine: desktop-context transitions in, hamster commands out.
use crate::text;
use crate::time::{Duration, Instant};
use vstd::prelude::*;

verus! {

/// What the desktop context asks for.
#[derive(Debug, Clone, PartialEq, Eq)]
pub enum Target {
    Track(String),
    Untracked,
}

/// What hamster is to do.
#[derive(Debug, Clone, PartialEq, Eq)]
pub enum Command {
    /// Stop the running fact (server-side "now").
    Stop,
    /// Start tracking from an untracked state (resume-or-placeholder).
    Start { entity: String },
    /// Stop the running fact and start `entity` at the same boundary.
    Switch { entity: String },
}

/// How long to hesitate.
#[derive(Debug, Clone, Copy, PartialEq, Eq)]
pub struct Timings {
    /// Switch between tracked entities at once, save for a flap-back.
    pub switch_immediate: bool,
    /// How long a debounced switch waits, and how long after a switch the
    /// return to the entity before it counts as a flap-back.
    pub return_debounce: Duration,
    /// How long an untracked context lasts before tracking stops.
    pub untracked_grace: Duration,
}

#[derive(Debug, Clone, PartialEq, Eq)]
enum PendingAction {
    Pause,
    Switch(String),
}

#[derive(Debug)]
struct Pending {
    action: PendingAction,
    deadline: Instant,
}

/// What a target says.
pub enum TargetView {
    Track(Seq<char>),
    Untracked,
}

impl View for Target {
    type V = TargetView;

    open spec fn view(&self) -> TargetView {
        match *self {
            Target::Track(e) => TargetView::Track(e@),
            Target::Untracked => TargetView::Untracked,
        }
    }
}

/// What a command says.
pub enum CommandView {
    Stop,
    Start(Seq<char>),
    Switch(Seq<char>),
}

impl View for Command {
    type V = CommandView;

    open spec fn view(&self) -> CommandView {
        match *self {
            Command::Stop => CommandView::Stop,
            Command::Start { entity } => CommandView::Start(entity@),
            Command::Switch { entity } => CommandView::Switch(entity@),
        }
    }
}

/// What several commands say.
pub open spec fn commands_view(v: Seq<Command>) -> Seq<CommandView> {
    v.map_values(|c: Command| c@)
}

/// What waits for its deadline.
pub enum PendingActionView {
    Pause,
    Switch(Seq<char>),
}

/// An action and the point in time, in nanoseconds, at which it is due.
pub struct PendingView {
    pub action: PendingActionView,
    pub deadline: int,
}

/// The state of the engine; points in time are in nanoseconds.
pub struct EngineView {
    pub timings: Timings,
    /// Entity believed to be tracked.
    pub running: Option<Seq<char>>,
    /// Entity that was running before the last switch (flap-back anchor).
    pub previous: Option<Seq<char>>,
    pub last_switch_at: Option<int>,
    pub pending: Option<PendingView>,
}

impl EngineView {
    /// Nothing tracked and nothing remembered.
    pub open spec fn initial(timings: Timings) -> EngineView {
        EngineView { timings, running: None, previous: None, last_switch_at: None, pending: None }
    }

    /// After a reconcile with what hamster reports.
    pub open spec fn reconciled(self, entity: Option<Seq<char>>) -> EngineView {
        if self.running == entity {
            self
        } else {
            EngineView { running: entity, ..EngineView::initial(self.timings) }
        }
    }

    /// Whether a switch to `e` has to wait: every switch where switches are not
    /// immediate, otherwise the return to the previous entity shortly after the
    /// last switch.
    pub open spec fn debounces(self, e: Seq<char>, now: int) -> bool {
        ||| !self.timings.switch_immediate
        ||| {
            &&& self.previous == Some(e)
            &&& self.last_switch_at matches Some(t)
            &&& (if now >= t {
                now - t
            } else {
                0
            }) < self.timings.return_debounce.nanos
        }
    }

    /// After a switch to `e` at `now`.
    pub open spec fn switched(self, e: Seq<char>, now: int) -> EngineView {
        EngineView {
            running: Some(e),
            previous: self.running,
            last_switch_at: Some(now),
            pending: None,
            ..self
        }
    }

    /// The state after a context, and the commands it calls for.
    pub open spec fn on_context(self, target: TargetView, now: int) -> (
        EngineView,
        Seq<CommandView>,
    ) {
        match target {
            TargetView::Track(e) => if self.running == Some(e) {
                (EngineView { pending: None, ..self }, seq![])
            } else if self.pending matches Some(p) && p.action == PendingActionView::Switch(e) {
                (self, seq![])
            } else if self.running is None {
                (
                    EngineView { running: Some(e), ..EngineView::initial(self.timings) },
                    seq![CommandView::Start(e)],
                )
            } else if self.debounces(e, now) {
                (
                    EngineView {
                        pending: Some(
                            PendingView {
                                action: PendingActionView::Switch(e),
                                deadline: now + self.timings.return_debounce.nanos,
                            },
                        ),
                        ..self
                    },
                    seq![],
                )
            } else {
                (self.switched(e, now), seq![CommandView::Switch(e)])
            },
            TargetView::Untracked => if self.running is None {
                (EngineView { pending: None, ..self }, seq![])
            } else if self.pending matches Some(p) && p.action == PendingActionView::Pause {
                (self, seq![])
            } else {
                (
                    EngineView {
                        pending: Some(
                            PendingView {
                                action: PendingActionView::Pause,
                                deadline: now + self.timings.untracked_grace.nanos,
                            },
                        ),
                        ..self
                    },
                    seq![],
                )
            },
        }
    }

    /// The state after the clock was read, and the commands that were due.
    pub open spec fn on_tick(self, now: int) -> (EngineView, Seq<CommandView>) {
        match self.pending {
            Some(p) => if now < p.deadline {
                (self, seq![])
            } else {
                match p.action {
                    PendingActionView::Pause => (
                        EngineView { running: None, pending: None, ..self },
                        seq![CommandView::Stop],
                    ),
                    PendingActionView::Switch(e) => (
                        self.switched(e, now),
                        seq![CommandView::Switch(e)],
                    ),
                }
            },
            None => (self, seq![]),
        }
    }

    /// Whether the deadline that waits, if any, is a point that a clock can show.
    pub open spec fn is_representable(self) -> bool {
        self.pending matches Some(p) ==> p.deadline <= u128::MAX
    }

    /// What holds between any two inputs: only a running fact waits to be
    /// stopped or switched away from, and the flap-back anchor is another
    /// entity than the running one.
    pub open spec fn is_coherent(self) -> bool {
        &&& self.pending is Some ==> self.running is Some
        &&& self.pending matches Some(p) ==> p.action matches PendingActionView::Switch(e)
            ==> self.running != Some(e)
        &&& self.previous is Some == self.last_switch_at is Some
        &&& self.running is Some && self.previous is Some ==> self.running != self.previous
    }
}

/// Decides when the desktop context starts, switches and stops tracking.
#[derive(Debug)]
pub struct Engine {
    timings: Timings,
    running: Option<String>,
    previous: Option<String>,
    last_switch_at: Option<Instant>,
    pending: Option<Pending>,
}

impl View for Engine {
    type V = EngineView;

    closed spec fn view(&self) -> EngineView {
        EngineView {
            timings: self.timings,
            running: text::opt(self.running),
            previous: text::opt(self.previous),
            last_switch_at: match self.last_switch_at {
                Some(t) => Some(t.nanos as int),
                None => None,
            },
            pending: match self.pending {
                Some(p) => Some(
                    PendingView {
                        action: match p.action {
                            PendingAction::Pause => PendingActionView::Pause,
                            PendingAction::Switch(e) => PendingActionView::Switch(e@),
                        },
                        deadline: p.deadline.nanos as int,
                    },
                ),
                None => None,
            },
        }
    }
}

/// Whether `o` holds the text `s`.
fn holds(o: &Option<String>, s: &str) -> (r: bool)
    ensures
        r == (text::opt(*o) == Some(s@)),
{
    match o {
        Some(t) => text::same(t.as_str(), s),
        None => false,
    }
}

impl Engine {
    /// The deadline that waits, if any, is a point that a clock can show.
    pub proof fn lemma_representable(&self)
        ensures
            self@.is_representable(),
    {
    }

    /// An engine that tracks nothing yet.
    pub fn new(timings: Timings) -> (r: Self)
        ensures
            r@ == EngineView::initial(timings),
            r@.is_coherent(),
    {
        Engine { timings, running: None, previous: None, last_switch_at: None, pending: None }
    }

    /// Does not retune an in-flight deadline; it stays anchored to the timings
    /// under which it was scheduled.
    pub fn set_timings(&mut self, timings: Timings)
        ensures
            final(self)@ == (EngineView { timings, ..old(self)@ }),
            old(self)@.is_coherent() ==> final(self)@.is_coherent(),
    {
        self.timings = timings;
    }

    /// Reconcile with hamster reality (FactsChanged / startup). Manual
    /// changes win: adopt the new state and drop all hysteresis history.
    ///
    /// A reconcile that merely confirms the current belief is a no-op by
    /// design: FactsChanged also fires for description/past-fact edits and
    /// as the async echo of this bridge's own commands. None of those say
    /// anything about desktop context, so in-flight timers survive.
    pub fn set_running(&mut self, entity: Option<String>)
        ensures
            final(self)@ == old(self)@.reconciled(text::opt(entity)),
            old(self)@.is_coherent() ==> final(self)@.is_coherent(),
    {
        let confirmed: bool = match &entity {
            Some(e) => holds(&self.running, e.as_str()),
            None => self.running.is_none(),
        };
        if !confirmed {
            self.running = entity;
            self.previous = None;
            self.last_switch_at = None;
            self.pending = None;
        }
    }

    /// When `on_tick` has something to do next.
    pub fn next_deadline(&self) -> (r: Option<Instant>)
        ensures
            match r {
                Some(t) => self@.pending matches Some(p) && p.deadline == t.nanos,
                None => self@.pending is None,
            },
    {
        match &self.pending {
            Some(p) => Some(p.deadline),
            None => None,
        }
    }

    /// React to the context that the desktop shows at `now`.
    pub fn on_context(&mut self, target: Target, now: Instant) -> (r: Vec<Command>)
        requires
            old(self)@.on_context(target@, now.nanos as int).0.is_representable(),
        ensures
            final(self)@ == old(self)@.on_context(target@, now.nanos as int).0,
            commands_view(r@) == old(self)@.on_context(target@, now.nanos as int).1,
            old(self)@.is_coherent() ==> final(self)@.is_coherent(),
    {
        match target {
            Target::Track(e) => self.on_tracked(e, now),
            Target::Untracked => self.on_untracked(now),
        }
    }

    fn on_tracked(&mut self, e: String, now: Instant) -> (r: Vec<Command>)
        requires
            old(self)@.on_context(TargetView::Track(e@), now.nanos as int).0.is_representable(),
        ensures
            final(self)@ == old(self)@.on_context(TargetView::Track(e@), now.nanos as int).0,
            commands_view(r@) == old(self)@.on_context(
                TargetView::Track(e@),
                now.nanos as int,
            ).1,
    {
        let mut r: Vec<Command> = Vec::new();
        assert(commands_view(r@) =~= seq![]);
        if holds(&self.running, e.as_str()) {
            // includes "returned within the grace period": cancel the pause
            self.pending = None;
            return r;
        }
        // keep an already-pending switch to the same entity (don't reset its deadline)
        let same_switch: bool = match &self.pending {
            Some(p) => match &p.action {
                PendingAction::Switch(to) => text::same(to.as_str(), e.as_str()),
                PendingAction::Pause => false,
            },
            None => false,
        };
        if same_switch {
            return r;
        }
        if self.running.is_none() {
            let ghost entity = e@;
            self.pending = None;
            self.running = Some(e.clone());
            self.previous = None;
            self.last_switch_at = None;
            r.push(Command::Start { entity: e });
            assert(commands_view(r@) =~= seq![CommandView::Start(entity)]);
            return r;
        }
        // An untracked excursion replaces a pending Switch with a Pause, so returning re-arms the
        // flap-back window from "now": each return restarts the proof-of-intent clock.

        if self.debounce_switch_to(e.as_str(), now) {
            self.pending = Some(
                Pending {
                    action: PendingAction::Switch(e),
                    deadline: now.plus(self.timings.return_debounce),
                },
            );
            return r;
        }
        self.do_switch(e, now)
    }

    fn on_untracked(&mut self, now: Instant) -> (r: Vec<Command>)
        requires
            old(self)@.on_context(TargetView::Untracked, now.nanos as int).0.is_representable(),
        ensures
            final(self)@ == old(self)@.on_context(TargetView::Untracked, now.nanos as int).0,
            commands_view(r@) == old(self)@.on_context(TargetView::Untracked, now.nanos as int).1,
    {
        let r: Vec<Command> = Vec::new();
        assert(commands_view(r@) =~= seq![]);
        if self.running.is_none() {
            self.pending = None;
            return r;
        }
        // keep an existing pause deadline; replace a pending switch
        let pausing: bool = match &self.pending {
            Some(p) => match &p.action {
                PendingAction::Pause => true,
                PendingAction::Switch(_) => false,
            },
            None => false,
        };
        if !pausing {
            self.pending = Some(
                Pending {
                    action: PendingAction::Pause,
                    deadline: now.plus(self.timings.untracked_grace),
                },
            );
        }
        r
    }

    /// React to the clock showing `now`.
    ///
    /// Fires on now >= deadline. No backdating: the boundary is the caller's "now" at apply
    /// time, so time spent inside a pending window stays attributed to the still-running fact.
    pub fn on_tick(&mut self, now: Instant) -> (r: Vec<Command>)
        ensures
            final(self)@ == old(self)@.on_tick(now.nanos as int).0,
            commands_view(r@) == old(self)@.on_tick(now.nanos as int).1,
            old(self)@.is_coherent() ==> final(self)@.is_coherent(),
    {
        let mut r: Vec<Command> = Vec::new();
        assert(commands_view(r@) =~= seq![]);
        match self.pending.take() {
            None => r,
            Some(p) => {
                if now.nanos < p.deadline.nanos {
                    self.pending = Some(p);
                    return r;
                }
                match p.action {
                    PendingAction::Pause => {
                        self.running = None;
                        r.push(Command::Stop);
                        assert(commands_view(r@) =~= seq![CommandView::Stop]);
                        r
                    },
                    PendingAction::Switch(e) => self.do_switch(e, now),
                }
            },
        }
    }

    fn do_switch(&mut self, e: String, now: Instant) -> (r: Vec<Command>)
        ensures
            final(self)@ == old(self)@.switched(e@, now.nanos as int),
            commands_view(r@) == seq![CommandView::Switch(e@)],
    {
        self.pending = None;
        self.previous = self.running.take();
        self.running = Some(e.clone());
        self.last_switch_at = Some(now);
        let ghost entity = e@;
        let mut r: Vec<Command> = Vec::new();
        r.push(Command::Switch { entity: e });
        assert(commands_view(r@) =~= seq![CommandView::Switch(entity)]);
        r
    }

    /// Flap-back rule: debounce a switch back to the previously running
    /// entity shortly after the last switch, or every switch when
    /// switch_immediate is off.
    fn debounce_switch_to(&self, e: &str, now: Instant) -> (r: bool)
        ensures
            r == self@.debounces(e@, now.nanos as int),
    {
        if !self.timings.switch_immediate {
            return true;
        }
        holds(&self.previous, e) && match self.last_switch_at {
            Some(t) => now.since(t).nanos < self.timings.return_debounce.nanos,
            None => false,
        }
    }
}

/// What hamster tracks after `command`, if it does as told.
pub open spec fn tracked_after(command: CommandView) -> Option<Seq<char>> {
    match command {
        CommandView::Stop => None,
        CommandView::Start(e) => Some(e),
        CommandView::Switch(e) => Some(e),
    }
}

/// Whether `command` makes sense while `running` is tracked: a start needs that
/// nothing runs, a stop that something does, a switch that something else does.
pub open spec fn suits(running: Option<Seq<char>>, command: CommandView) -> bool {
    match command {
        CommandView::Stop => running is Some,
        CommandView::Start(_) => running is None,
        CommandView::Switch(e) => running is Some && running != Some(e),
    }
}

/// Whether the commands of one step lead from the belief before it to the belief after it.
pub open spec fn explains(
    before: EngineView,
    step: (EngineView, Seq<CommandView>),
) -> bool {
    if step.1.len() == 0 {
        step.0.running == before.running
    } else {
        &&& step.1.len() == 1
        &&& suits(before.running, step.1[0])
        &&& step.0.running == tracked_after(step.1[0])
    }
}

/// Every input keeps the engine coherent.
pub proof fn law_engine_stays_coherent(
    e: EngineView,
    target: TargetView,
    entity: Option<Seq<char>>,
    timings: Timings,
    now: int,
)
    requires
        e.is_coherent(),
    ensures
        e.on_context(target, now).0.is_coherent(),
        e.on_tick(now).0.is_coherent(),
        e.reconciled(entity).is_coherent(),
        (EngineView { timings, ..e }).is_coherent(),
{
}

/// The engine's belief changes by its own commands alone: a context or a tick
/// issues at most one command, one that suits what is tracked, and what the
/// engine then believes to be tracked is what the command leaves tracked.
pub proof fn law_belief_follows_commands(e: EngineView, target: TargetView, now: int)
    requires
        e.is_coherent(),
    ensures
        explains(e, e.on_context(target, now)),
        explains(e, e.on_tick(now)),
{
}

/// Starts are immediate: with nothing tracked, entering a tracked context
/// starts it at once, and nothing is left waiting.
pub proof fn law_starts_are_immediate(e: EngineView, entity: Seq<char>, now: int)
    requires
        e.is_coherent(),
        e.running is None,
    ensures
        e.on_context(TargetView::Track(entity), now).1 == seq![CommandView::Start(entity)],
        e.on_context(TargetView::Track(entity), now).0.pending is None,
{
}

/// No context stops tracking; only the clock does, and no sooner than the
/// grace period after the context became untracked.
pub proof fn law_stops_wait_for_the_grace_period(e: EngineView, left: int, now: int)
    requires
        e.is_coherent(),
        e.running is Some,
        !(e.pending matches Some(p) && p.action == PendingActionView::Pause),
    ensures
        ({
            let (away, at_once) = e.on_context(TargetView::Untracked, left);
            &&& at_once == Seq::<CommandView>::empty()
            &&& away.running == e.running
            &&& now < left + e.timings.untracked_grace.nanos ==> away.on_tick(now) == (
                away,
                Seq::<CommandView>::empty(),
            )
            &&& now >= left + e.timings.untracked_grace.nanos ==> {
                &&& away.on_tick(now).1 == seq![CommandView::Stop]
                &&& away.on_tick(now).0.running is None
                &&& away.on_tick(now).0.pending is None
            }
        }),
        forall|target: TargetView, at: int|
            !(#[trigger] e.on_context(target, at)).1.contains(CommandView::Stop),
{
}

/// A return to the running entity before the grace period is over leaves no
/// trace: no command, and the state from before the excursion, with nothing
/// left waiting.
pub proof fn law_return_within_grace_is_silent(
    e: EngineView,
    entity: Seq<char>,
    left: int,
    back: int,
)
    requires
        e.running == Some(entity),
    ensures
        e.on_context(TargetView::Untracked, left).0.on_context(TargetView::Track(entity), back)
            == (EngineView { pending: None, ..e }, Seq::<CommandView>::empty()),
{
}

/// Waiting is never prolonged: another untracked context keeps the pause's
/// deadline, and another context of the entity to switch to keeps the switch's.
pub proof fn law_deadlines_are_not_extended(
    e: EngineView,
    target: TargetView,
    first: int,
    second: int,
)
    requires
        e.is_coherent(),
        e.on_context(target, first).0.pending is Some,
    ensures
        e.on_context(target, first).0.on_context(target, second) == (
            e.on_context(target, first).0,
            Seq::<CommandView>::empty(),
        ),
{
}

/// With immediate switches, a switch that is no flap-back itself happens at
/// once. Within the debounce window after it, the return to the entity before
/// it waits for the length of that window, and happens if the context stays;
/// after the window, and to a third entity, it happens at once.
pub proof fn law_flap_back_is_debounced(
    e: EngineView,
    from: Seq<char>,
    to: Seq<char>,
    third: Seq<char>,
    switched: int,
    back: int,
    now: int,
)
    requires
        e.is_coherent(),
        e.timings.switch_immediate,
        e.running == Some(from),
        !(e.pending matches Some(p) && p.action == PendingActionView::Switch(to)),
        !e.debounces(to, switched),
        from != to,
        third != from,
        third != to,
        switched <= back,
    ensures
        ({
            let debounce = e.timings.return_debounce.nanos;
            let (there, first) = e.on_context(TargetView::Track(to), switched);
            let (waiting, second) = there.on_context(TargetView::Track(from), back);
            &&& first == seq![CommandView::Switch(to)]
            &&& there.on_context(TargetView::Track(third), back).1 == seq![
                CommandView::Switch(third),
            ]
            &&& back - switched >= debounce ==> second == seq![CommandView::Switch(from)]
            &&& back - switched < debounce ==> {
                &&& second == Seq::<CommandView>::empty()
                &&& waiting.running == Some(to)
                &&& now < back + debounce ==> waiting.on_tick(now) == (
                    waiting,
                    Seq::<CommandView>::empty(),
                )
                &&& now >= back + debounce ==> waiting.on_tick(now).1 == seq![
                    CommandView::Switch(from),
                ]
            }
        }),
{
}

/// Without immediate switches every switch between entities waits.
pub proof fn law_every_switch_can_be_debounced(e: EngineView, to: Seq<char>, now: int)
    requires
        !e.timings.switch_immediate,
        e.running is Some,
        e.running != Some(to),
        !(e.pending matches Some(p) && p.action == PendingActionView::Switch(to)),
    ensures
        e.on_context(TargetView::Track(to), now).1 == Seq::<CommandView>::empty(),
        e.on_context(TargetView::Track(to), now).0.pending == Some(
            PendingView {
                action: PendingActionView::Switch(to),
                deadline: now + e.timings.return_debounce.nanos,
            },
        ),
{
}

/// A reconcile that confirms the belief changes nothing; one that changes it
/// leaves no deadline and no flap-back anchor behind.
pub proof fn law_manual_changes_win(e: EngineView, entity: Option<Seq<char>>)
    ensures
        e.reconciled(entity).running == entity,
        e.running == entity ==> e.reconciled(entity) == e,
        e.running != entity ==> e.reconciled(entity).pending is None && e.reconciled(
            entity,
        ).previous is None && e.reconciled(entity).last_switch_at is None,
{
}

/// With immediate switches nothing holds a switch back but a flap-back. Whatever
/// waits, a context of an entity that is neither tracked nor already waited for is
/// switched to at once, unless it is the one that was tracked before the last
/// switch and that switch is more recent than the debounce window is long. The
/// entity that was tracked becomes the flap-back anchor, and nothing waits.
pub proof fn law_switches_are_immediate(e: EngineView, to: Seq<char>, now: int)
    requires
        e.timings.switch_immediate,
        e.running is Some,
        e.running != Some(to),
        !(e.pending matches Some(p) && p.action == PendingActionView::Switch(to)),
        e.previous != Some(to) || e.last_switch_at is None || e.timings.return_debounce.nanos == 0
            || now - e.last_switch_at->0 >= e.timings.return_debounce.nanos,
    ensures
        e.on_context(TargetView::Track(to), now).1 == seq![CommandView::Switch(to)],
        e.on_context(TargetView::Track(to), now).0 == (EngineView {
            timings: e.timings,
            running: Some(to),
            previous: e.running,
            last_switch_at: Some(now),
            pending: None,
        }),
{
}

/// A flap-back waits for the debounce window from now on: no command, and nothing
/// but what waits changes, whatever waited before.
pub proof fn law_flap_backs_wait(e: EngineView, back: Seq<char>, switched: int, now: int)
    requires
        e.running is Some,
        e.running != Some(back),
        e.previous == Some(back),
        e.last_switch_at == Some(switched),
        now - switched < e.timings.return_debounce.nanos,
        e.timings.return_debounce.nanos > 0,
        !(e.pending matches Some(p) && p.action == PendingActionView::Switch(back)),
    ensures
        e.on_context(TargetView::Track(back), now).1.len() == 0,
        e.on_context(TargetView::Track(back), now).0 == (EngineView {
            pending: Some(
                PendingView {
                    action: PendingActionView::Switch(back),
                    deadline: now + e.timings.return_debounce.nanos,
                },
            ),
            ..e
        }),
{
}

/// Without immediate switches every switch waits for the debounce window from now
/// on, and nothing but what waits changes.
pub proof fn law_all_switches_wait(e: EngineView, to: Seq<char>, now: int)
    requires
        !e.timings.switch_immediate,
        e.running is Some,
        e.running != Some(to),
        !(e.pending matches Some(p) && p.action == PendingActionView::Switch(to)),
    ensures
        e.on_context(TargetView::Track(to), now).1.len() == 0,
        e.on_context(TargetView::Track(to), now).0 == (EngineView {
            pending: Some(
                PendingView {
                    action: PendingActionView::Switch(to),
                    deadline: now + e.timings.return_debounce.nanos,
                },
            ),
            ..e
        }),
{
}

/// A context of the entity to switch to changes nothing while the switch waits.
pub proof fn law_a_waiting_switch_goes_on_waiting(e: EngineView, to: Seq<char>, now: int)
    requires
        e.running != Some(to),
        e.pending matches Some(p) && p.action == PendingActionView::Switch(to),
    ensures
        e.on_context(TargetView::Track(to), now).1.len() == 0,
        e.on_context(TargetView::Track(to), now).0 == e,
{
}

/// A context of the tracked entity calls off whatever waits, and changes nothing
/// else.
pub proof fn law_the_tracked_entity_calls_off(e: EngineView, entity: Seq<char>, now: int)
    requires
        e.running == Some(entity),
    ensures
        e.on_context(TargetView::Track(entity), now).1.len() == 0,
        e.on_context(TargetView::Track(entity), now).0 == (EngineView { pending: None, ..e }),
{
}

/// A start forgets every switch before it: there is nothing to flap back to.
pub proof fn law_starts_have_no_past(e: EngineView, entity: Seq<char>, now: int)
    requires
        e.running is None,
        !(e.pending matches Some(p) && p.action == PendingActionView::Switch(entity)),
    ensures
        e.on_context(TargetView::Track(entity), now).1 == seq![CommandView::Start(entity)],
        e.on_context(TargetView::Track(entity), now).0 == (EngineView {
            timings: e.timings,
            running: Some(entity),
            previous: None,
            last_switch_at: None,
            pending: None,
        }),
{
}

/// An untracked context never issues a command. It schedules a pause, in place of
/// a switch that waits, but leaves a pause that waits alone; with nothing tracked
/// nothing is left waiting. It changes nothing else.
pub proof fn law_untracked_contexts_only_schedule(e: EngineView, now: int)
    ensures
        e.on_context(TargetView::Untracked, now).1.len() == 0,
        ({
            let after = e.on_context(TargetView::Untracked, now).0;
            &&& after == (EngineView { pending: after.pending, ..e })
            &&& e.running is None ==> after.pending is None
            &&& e.running is Some && (e.pending matches Some(p) && p.action
                == PendingActionView::Pause) ==> after.pending == e.pending
            &&& e.running is Some && !(e.pending matches Some(p) && p.action
                == PendingActionView::Pause) ==> after.pending == Some(
                PendingView {
                    action: PendingActionView::Pause,
                    deadline: now + e.timings.untracked_grace.nanos,
                },
            )
        }),
{
}

/// The clock does what waits, once and not before its deadline: a pause stops, and
/// keeps the flap-back anchor; a switch makes the entity that was tracked the new
/// anchor.
pub proof fn law_the_clock_does_what_waits(e: EngineView, now: int)
    ensures
        e.pending is None ==> e.on_tick(now).0 == e && e.on_tick(now).1.len() == 0,
        e.pending matches Some(p) ==> {
            &&& now < p.deadline ==> e.on_tick(now).0 == e && e.on_tick(now).1.len() == 0
            &&& now >= p.deadline ==> match p.action {
                PendingActionView::Pause => {
                    &&& e.on_tick(now).1 == seq![CommandView::Stop]
                    &&& e.on_tick(now).0 == (EngineView { running: None, pending: None, ..e })
                },
                PendingActionView::Switch(to) => {
                    &&& e.on_tick(now).1 == seq![CommandView::Switch(to)]
                    &&& e.on_tick(now).0 == (EngineView {
                        timings: e.timings,
                        running: Some(to),
                        previous: e.running,
                        last_switch_at: Some(now),
                        pending: None,
                    })
                },
            }
        },
{
}

/// A reconcile touches no timings, and a new engine tracks, remembers and awaits
/// nothing.
pub proof fn law_timings_are_kept(e: EngineView, entity: Option<Seq<char>>, timings: Timings)
    ensures
        e.reconciled(entity).timings == e.timings,
        EngineView::initial(timings) == (EngineView {
            timings,
            running: None,
            previous: None,
            last_switch_at: None,
            pending: None,
        }),
{
}

} // verus!
