//! The daemon's decisions: contexts in, hamster calls out.
//!
//! The [`Bridge`] holds all state. Whoever drives it waits for the next input or
//! for [`Bridge::next_deadline`], hands what came to it, and performs what it
//! asks for.
use crate::config;
use crate::config::{Config, ConfigView, DefaultsView, TrackedRule, TrackedRuleView};
use crate::engine;
use crate::engine::{
    Command, CommandView, Engine, EngineView, PendingActionView, Target, TargetView, Timings,
};
use crate::events;
use crate::events::{ContextView, Tracker, TrackerView};
use crate::hamster;
use crate::hamster::{Fact, NewFact, NewFactView};
use crate::resume;
use crate::resume::{PlanView, ResumePlan};
use crate::text;
use crate::time::{Duration, Instant};
use vstd::prelude::*;
use vstd::string::*;

verus! {

/// What the daemon reacts to.
#[derive(Debug)]
pub enum LoopInput {
    /// One line from `jiji msg --json event-stream`.
    EventLine(String),
    /// The event-stream subprocess died; state will be rebuilt on reconnect.
    StreamReset,
    /// hamster's FactsChanged signal fired.
    FactsChanged,
    /// A new validated config (file watcher / SIGHUP).
    ConfigReloaded(Config),
}

/// What an input says.
pub enum InputView {
    EventLine(Seq<char>),
    StreamReset,
    FactsChanged,
    ConfigReloaded(ConfigView),
}

impl View for LoopInput {
    type V = InputView;

    open spec fn view(&self) -> InputView {
        match *self {
            LoopInput::EventLine(line) => InputView::EventLine(line@),
            LoopInput::StreamReset => InputView::StreamReset,
            LoopInput::FactsChanged => InputView::FactsChanged,
            LoopInput::ConfigReloaded(config) => InputView::ConfigReloaded(config@),
        }
    }
}

/// What to do about an input.
#[derive(Debug)]
pub enum Reaction {
    /// Execute the commands, in this order.
    Execute(Vec<Command>),
    /// Read today's facts, and hand them to [`Bridge::reconcile`].
    ReadTodaysFacts,
}

/// What a reaction says.
pub enum ReactionView {
    Execute(Seq<CommandView>),
    ReadTodaysFacts,
}

impl View for Reaction {
    type V = ReactionView;

    open spec fn view(&self) -> ReactionView {
        match *self {
            Reaction::Execute(commands) => ReactionView::Execute(
                engine::commands_view(commands@),
            ),
            Reaction::ReadTodaysFacts => ReactionView::ReadTodaysFacts,
        }
    }
}

/// What executing a command begins with.
#[derive(Debug)]
pub enum Preparation {
    /// Stop tracking; that is all.
    Stop,
    /// Read the facts of the last `days` days, and hand them, with the rule, to
    /// [`Bridge::resume_calls`].
    ReadRecentFacts { days: u64, rule: TrackedRule },
    /// The configuration has no rule for the entity.
    Unresolved { message: String },
}

/// What a preparation says.
pub enum PreparationView {
    Stop,
    ReadRecentFacts(u64, TrackedRuleView),
    Unresolved(Seq<char>),
}

impl View for Preparation {
    type V = PreparationView;

    open spec fn view(&self) -> PreparationView {
        match *self {
            Preparation::Stop => PreparationView::Stop,
            Preparation::ReadRecentFacts { days, rule } => PreparationView::ReadRecentFacts(
                days,
                rule@,
            ),
            Preparation::Unresolved { message } => PreparationView::Unresolved(message@),
        }
    }
}

/// A call to make; after one that fails, those behind it are not made.
#[derive(Debug)]
pub enum Call {
    StopTracking,
    AddFact(NewFact),
    Notify(String),
}

/// What a call says.
pub enum CallView {
    StopTracking,
    AddFact(NewFactView),
    Notify(Seq<char>),
}

impl View for Call {
    type V = CallView;

    open spec fn view(&self) -> CallView {
        match *self {
            Call::StopTracking => CallView::StopTracking,
            Call::AddFact(fact) => CallView::AddFact(fact@),
            Call::Notify(message) => CallView::Notify(message@),
        }
    }
}

/// What several calls say.
pub open spec fn calls_view(v: Seq<Call>) -> Seq<CallView> {
    v.map_values(|c: Call| c@)
}

/// How long the defaults have the engine hesitate.
pub open spec fn timings_of(defaults: DefaultsView) -> Timings {
    Timings {
        switch_immediate: defaults.switch_immediate,
        return_debounce: Duration {
            nanos: (defaults.return_debounce_secs * 1_000_000_000) as u128,
        },
        untracked_grace: Duration {
            nanos: (defaults.untracked_grace_secs * 1_000_000_000) as u128,
        },
    }
}

/// How long the defaults have the engine hesitate.
pub fn timings(cfg: &Config) -> (r: Timings)
    ensures
        r == timings_of(cfg@.defaults),
{
    Timings {
        switch_immediate: cfg.defaults.switch_immediate,
        return_debounce: Duration::from_secs(cfg.defaults.return_debounce_secs),
        untracked_grace: Duration::from_secs(cfg.defaults.untracked_grace_secs),
    }
}

/// What a context asks for under a configuration.
pub open spec fn target_in(config: ConfigView, ctx: ContextView) -> TargetView {
    match config.effective(ctx) {
        Some(rule) => TargetView::Track(rule.entity),
        None => TargetView::Untracked,
    }
}

/// What the desktop asks for under a configuration.
pub fn target_of(cfg: &Config, tracker: &Tracker) -> (r: Target)
    requires
        cfg.wf(),
    ensures
        r@ == target_in(cfg@, tracker@.context()),
{
    match cfg.effective(&tracker.context()) {
        Some(rule) => Target::Track(rule.entity),
        None => Target::Untracked,
    }
}

/// The entity of the fact that runs, if one does and has one.
pub open spec fn running_entity(facts: Seq<Fact>, key: Seq<char>) -> Option<Seq<char>> {
    match hamster::last_open(facts) {
        Some(f) => hamster::tagged_entity(f@.tags, key),
        None => None,
    }
}

/// The calls that carry out a plan, after a stop where the command is a switch.
pub open spec fn calls_of(command: CommandView, plan: PlanView) -> Seq<CallView> {
    let stop = if command is Switch {
        seq![CallView::StopTracking]
    } else {
        seq![]
    };
    let notify = match plan.notification {
        Some(message) => seq![CallView::Notify(message)],
        None => seq![],
    };
    stop + seq![CallView::AddFact(plan.fact)] + notify
}

/// The state of the bridge.
pub struct BridgeView {
    pub tracker: TrackerView,
    pub engine: EngineView,
    pub config: ConfigView,
}

impl BridgeView {
    /// Nothing known of the desktop, nothing tracked.
    pub open spec fn initial(config: ConfigView) -> BridgeView {
        BridgeView {
            tracker: TrackerView::initial(),
            engine: EngineView::initial(timings_of(config.defaults)),
            config,
        }
    }

    /// What the desktop asks for.
    pub open spec fn target(self) -> TargetView {
        target_in(self.config, self.tracker.context())
    }

    /// The state after the engine saw the context, and what to do.
    pub open spec fn evaluated(self, now: int) -> (BridgeView, ReactionView) {
        let (engine, commands) = self.engine.on_context(self.target(), now);
        (BridgeView { engine, ..self }, ReactionView::Execute(commands))
    }

    /// The state after an input, and what to do about it.
    pub open spec fn on_input(self, input: InputView, now: int) -> (BridgeView, ReactionView) {
        match input {
            InputView::EventLine(line) => match events::event_on_line(line) {
                Some(event) => BridgeView {
                    tracker: self.tracker.after(event),
                    ..self
                }.evaluated(now),
                None => (self, ReactionView::Execute(seq![])),
            },
            InputView::StreamReset => (
                BridgeView { tracker: TrackerView::initial(), ..self },
                ReactionView::Execute(seq![]),
            ),
            InputView::FactsChanged => (self, ReactionView::ReadTodaysFacts),
            InputView::ConfigReloaded(config) => BridgeView {
                engine: EngineView { timings: timings_of(config.defaults), ..self.engine },
                config,
                ..self
            }.evaluated(now),
        }
    }

    /// The state after the clock was read, and the commands that were due.
    pub open spec fn on_tick(self, now: int) -> (BridgeView, Seq<CommandView>) {
        let (engine, commands) = self.engine.on_tick(now);
        (BridgeView { engine, ..self }, commands)
    }

    /// The state after today's facts were read.
    pub open spec fn reconciled(self, facts: Seq<Fact>) -> BridgeView {
        BridgeView {
            engine: self.engine.reconciled(
                running_entity(facts, self.config.defaults.entity_tag_key),
            ),
            ..self
        }
    }

    /// What executing a command begins with.
    pub open spec fn prepared(self, command: CommandView) -> PreparationView {
        match command {
            CommandView::Stop => PreparationView::Stop,
            CommandView::Start(entity) => self.resume_prepared(entity),
            CommandView::Switch(entity) => self.resume_prepared(entity),
        }
    }

    /// What resuming an entity begins with.
    pub open spec fn resume_prepared(self, entity: Seq<char>) -> PreparationView {
        match self.config.rule_for(entity) {
            Some(rule) => PreparationView::ReadRecentFacts(
                self.config.defaults.resume_lookback_days,
                rule,
            ),
            None => PreparationView::Unresolved("no rule resolves entity '"@ + entity + "'"@),
        }
    }

    /// What holds between any two inputs: the engine hesitates as the
    /// configuration says, and its belief is coherent.
    pub open spec fn is_consistent(self) -> bool {
        &&& self.engine.timings == timings_of(self.config.defaults)
        &&& self.engine.is_coherent()
    }

    /// Whether the switch that waits, if one does, is to an entity with a rule.
    pub open spec fn awaits_a_rule(self) -> bool {
        self.engine.pending matches Some(p) ==> (p.action matches PendingActionView::Switch(e)
            ==> self.config.rule_for(e) is Some)
    }
}

/// Whether a clock that shows `now` can still show every deadline that a
/// configuration can set from there.
pub open spec fn has_room(now: Instant) -> bool {
    now.nanos + u64::MAX * 1_000_000_000 <= u128::MAX
}

/// The state of the daemon.
#[derive(Debug)]
pub struct Bridge {
    tracker: Tracker,
    engine: Engine,
    config: Config,
}

impl View for Bridge {
    type V = BridgeView;

    closed spec fn view(&self) -> BridgeView {
        BridgeView { tracker: self.tracker@, engine: self.engine@, config: self.config@ }
    }
}

impl Bridge {
    /// Whether the state is one that the daemon can be in.
    pub closed spec fn wf(&self) -> bool {
        &&& self.config.wf()
        &&& self@.is_consistent()
    }

    /// A bridge that knows nothing yet. Adopt hamster's current state with
    /// [`Bridge::reconcile`] before acting.
    pub fn new(config: Config) -> (r: Self)
        requires
            config.wf(),
        ensures
            r@ == BridgeView::initial(config@),
            r.wf(),
    {
        let engine: Engine = Engine::new(timings(&config));
        Bridge { tracker: Tracker::default(), engine, config }
    }

    /// When [`Bridge::on_tick`] has something to do next.
    pub fn next_deadline(&self) -> (r: Option<Instant>)
        ensures
            match r {
                Some(t) => self@.engine.pending matches Some(p) && p.deadline == t.nanos,
                None => self@.engine.pending is None,
            },
    {
        self.engine.next_deadline()
    }

    /// React to the clock showing `now`; returns the commands to execute.
    pub fn on_tick(&mut self, now: Instant) -> (r: Vec<Command>)
        requires
            old(self).wf(),
        ensures
            final(self)@ == old(self)@.on_tick(now.nanos as int).0,
            engine::commands_view(r@) == old(self)@.on_tick(now.nanos as int).1,
            final(self).wf(),
    {
        self.engine.on_tick(now)
    }

    /// React to an input that came at `now`.
    pub fn on_input(&mut self, input: LoopInput, now: Instant) -> (r: Reaction)
        requires
            old(self).wf(),
            input matches LoopInput::ConfigReloaded(config) ==> config.wf(),
            has_room(now),
        ensures
            final(self)@ == old(self)@.on_input(input@, now.nanos as int).0,
            r@ == old(self)@.on_input(input@, now.nanos as int).1,
            final(self).wf(),
    {
        match input {
            LoopInput::EventLine(line) => {
                if self.tracker.apply_line(line.as_str()) {
                    self.evaluate(now)
                } else {
                    nothing()
                }
            },
            LoopInput::StreamReset => {
                self.tracker = Tracker::default();
                nothing()
            },
            LoopInput::FactsChanged => Reaction::ReadTodaysFacts,
            LoopInput::ConfigReloaded(config) => {
                self.engine.set_timings(timings(&config));
                self.config = config;
                // re-evaluate once through the normal machinery
                self.evaluate(now)
            },
        }
    }

    fn evaluate(&mut self, now: Instant) -> (r: Reaction)
        requires
            old(self).wf(),
            has_room(now),
        ensures
            final(self)@ == old(self)@.evaluated(now.nanos as int).0,
            r@ == old(self)@.evaluated(now.nanos as int).1,
            final(self).wf(),
    {
        proof {
            self.engine.lemma_representable();
        }
        let target: Target = target_of(&self.config, &self.tracker);
        Reaction::Execute(self.engine.on_context(target, now))
    }

    /// Adopt what hamster reports of today: the entity of the running fact.
    pub fn reconcile(&mut self, facts: &[Fact])
        requires
            old(self).wf(),
        ensures
            final(self)@ == old(self)@.reconciled(facts@),
            final(self).wf(),
    {
        let entity: Option<String> = match hamster::running_fact(facts) {
            Some(f) => hamster::entity_of(f, self.config.defaults.entity_tag_key.as_str()),
            None => None,
        };
        self.engine.set_running(entity);
    }

    /// What executing a command begins with. The rule is resolved at execution
    /// time: the config may have reloaded since the command was scheduled.
    pub fn prepare(&self, cmd: &Command) -> (r: Preparation)
        ensures
            r@ == self@.prepared(cmd@),
    {
        match cmd {
            Command::Stop => Preparation::Stop,
            Command::Start { entity } => self.prepare_resume(entity.as_str()),
            Command::Switch { entity } => self.prepare_resume(entity.as_str()),
        }
    }

    fn prepare_resume(&self, entity: &str) -> (r: Preparation)
        ensures
            r@ == self@.resume_prepared(entity@),
    {
        match self.config.rule_for_entity(entity) {
            Some(rule) => Preparation::ReadRecentFacts {
                days: self.config.defaults.resume_lookback_days,
                rule,
            },
            None => Preparation::Unresolved {
                message: "no rule resolves entity '".to_owned().concat(entity).concat("'"),
            },
        }
    }

    /// The calls that resume the entity of `rule`, given the facts of the
    /// lookback window.
    ///
    /// Switch stops explicitly so the boundary is shared. Start (the engine
    /// believes nothing runs) deliberately does not stop: a manually started
    /// fact must win, and hamster itself closes or merges a previous open fact
    /// when one is added.
    pub fn resume_calls(
        &self,
        cmd: &Command,
        rule: &TrackedRule,
        facts: &[Fact],
        now_local: &str,
    ) -> (r: Vec<Call>)
        ensures
            calls_view(r@) == calls_of(
                cmd@,
                resume::planned(
                    hamster::facts_view(facts@),
                    rule@,
                    self@.config.defaults,
                    now_local@,
                ),
            ),
    {
        let plan: ResumePlan = resume::plan_resume(facts, rule, &self.config.defaults, now_local);
        let ghost planned = plan@;
        let mut calls: Vec<Call> = Vec::new();
        if let Command::Switch { .. } = cmd {
            calls.push(Call::StopTracking);
        }
        calls.push(Call::AddFact(plan.fact));
        if let Some(message) = plan.notification {
            calls.push(Call::Notify(message));
        }
        assert(calls_view(calls@) =~= calls_of(cmd@, planned));
        calls
    }
}

fn nothing() -> (r: Reaction)
    ensures
        r@ == ReactionView::Execute(seq![]),
{
    let commands: Vec<Command> = Vec::new();
    assert(engine::commands_view(commands@) =~= seq![]);
    Reaction::Execute(commands)
}

/// What to tell the user when a call fails.
pub fn failure_notice(detail: &str) -> (r: String)
    ensures
        r@ == "hamster call failed: "@ + detail@,
{
    "hamster call failed: ".to_owned().concat(detail)
}

/// The position of the call to make next, after the one at `made`: the one behind
/// it, where there is one and the call succeeded.
pub open spec fn position_after(calls: Seq<CallView>, made: int, succeeded: bool) -> Option<int> {
    if succeeded && made + 1 < calls.len() {
        Some(made + 1)
    } else {
        None
    }
}

/// Which call to make next, now that the one at position `made` was made.
pub fn next_call(calls: &Vec<Call>, made: usize, succeeded: bool) -> (r: Option<usize>)
    requires
        made < calls@.len(),
    ensures
        match r {
            Some(i) => position_after(calls_view(calls@), made as int, succeeded) == Some(i as int),
            None => position_after(calls_view(calls@), made as int, succeeded) is None,
        },
{
    if succeeded && made < calls.len() - 1 {
        Some(made + 1)
    } else {
        None
    }
}

/// What comes of a configuration that was read again.
#[derive(Debug)]
pub enum Reload {
    /// Hand the new configuration to the bridge.
    Hand(LoopInput),
    /// Keep the previous configuration, and tell the user why.
    Keep { notice: String },
}

/// What a reload says.
pub enum ReloadView {
    Hand(InputView),
    Keep(Seq<char>),
}

impl View for Reload {
    type V = ReloadView;

    open spec fn view(&self) -> ReloadView {
        match *self {
            Reload::Hand(input) => ReloadView::Hand(input@),
            Reload::Keep { notice } => ReloadView::Keep(notice@),
        }
    }
}

/// What comes of a configuration that was read again, or of the message about why
/// it could not be.
pub fn reload(loaded: Result<Config, String>) -> (r: Reload)
    ensures
        r@ == (match loaded {
            Ok(config) => ReloadView::Hand(InputView::ConfigReloaded(config@)),
            Err(message) => ReloadView::Keep("config invalid, still using previous — "@ + message@),
        }),
        (r matches Reload::Hand(LoopInput::ConfigReloaded(config)) ==> loaded == Ok::<
            Config,
            String,
        >(config)),
{
    match loaded {
        Ok(config) => Reload::Hand(LoopInput::ConfigReloaded(config)),
        Err(message) => Reload::Keep {
            notice: "config invalid, still using previous — ".to_owned().concat(message.as_str()),
        },
    }
}

/// The entity that a target has tracked.
pub open spec fn wanted(target: TargetView) -> Option<Seq<char>> {
    match target {
        TargetView::Track(e) => Some(e),
        TargetView::Untracked => None,
    }
}

/// The entity that a command resumes.
pub open spec fn resumed(command: CommandView) -> Option<Seq<char>> {
    match command {
        CommandView::Stop => None,
        CommandView::Start(e) => Some(e),
        CommandView::Switch(e) => Some(e),
    }
}

/// Every input keeps the bridge consistent.
pub proof fn law_bridge_stays_consistent(
    b: BridgeView,
    input: InputView,
    facts: Seq<Fact>,
    now: int,
)
    requires
        b.is_consistent(),
    ensures
        b.on_input(input, now).0.is_consistent(),
        b.on_tick(now).0.is_consistent(),
        b.reconciled(facts).is_consistent(),
{
    let entity = running_entity(facts, b.config.defaults.entity_tag_key);
    engine::law_engine_stays_coherent(b.engine, b.target(), entity, b.engine.timings, now);
    match input {
        InputView::EventLine(line) => {
            if let Some(event) = events::event_on_line(line) {
                let seen = BridgeView { tracker: b.tracker.after(event), ..b };
                engine::law_engine_stays_coherent(
                    b.engine,
                    seen.target(),
                    entity,
                    b.engine.timings,
                    now,
                );
            }
        },
        InputView::ConfigReloaded(config) => {
            let timings = timings_of(config.defaults);
            let retimed = EngineView { timings, ..b.engine };
            let reloaded = BridgeView { engine: retimed, config, ..b };
            engine::law_engine_stays_coherent(b.engine, b.target(), entity, timings, now);
            engine::law_engine_stays_coherent(retimed, reloaded.target(), entity, timings, now);
        },
        _ => {},
    }
}

/// What is tracked comes to match the context: once the engine has seen it, the
/// context's entity is tracked, or will be at the deadline that waits, and where
/// the context is untracked nothing is, or will be.
pub proof fn law_context_is_reached(b: BridgeView, now: int)
    ensures
        ({
            let after = b.evaluated(now).0.engine;
            match after.pending {
                None => after.running == wanted(b.target()),
                Some(p) => {
                    &&& after.on_tick(p.deadline).0.running == wanted(b.target())
                    &&& after.on_tick(p.deadline).0.pending is None
                },
            }
        }),
{
}

/// Only a reload changes the configuration, and it takes effect at once.
pub proof fn law_only_reloads_change_the_config(
    b: BridgeView,
    input: InputView,
    facts: Seq<Fact>,
    now: int,
)
    ensures
        b.on_input(input, now).0.config == (match input {
            InputView::ConfigReloaded(config) => config,
            _ => b.config,
        }),
        b.on_tick(now).0.config == b.config,
        b.reconciled(facts).config == b.config,
        input matches InputView::ConfigReloaded(config) ==> b.on_input(input, now).0.engine.timings
            == timings_of(config.defaults),
{
}

/// A line without a context-relevant event changes nothing, and a stream that
/// ends takes only the picture of the desktop with it: what is tracked and what
/// waits stays.
pub proof fn law_noise_changes_nothing(b: BridgeView, line: Seq<char>, now: int)
    ensures
        events::event_on_line(line) is None ==> b.on_input(InputView::EventLine(line), now) == (
            b,
            ReactionView::Execute(seq![]),
        ),
        b.on_input(InputView::StreamReset, now) == (
            BridgeView { tracker: TrackerView::initial(), ..b },
            ReactionView::Execute(seq![]),
        ),
{
}

/// A command that an input calls for can be executed: under a configuration
/// without a fault, the entity it resumes has a rule.
pub proof fn law_commands_resolve(b: BridgeView, input: InputView, now: int)
    ensures
        ({
            let (after, reaction) = b.on_input(input, now);
            after.config.fault() is None ==> (reaction matches ReactionView::Execute(commands)
                ==> forall|i: int|
                0 <= i < commands.len() ==> !(after.prepared(
                    #[trigger] commands[i],
                ) is Unresolved))
        }),
{
    let (after, reaction) = b.on_input(input, now);
    if after.config.fault() is None {
        config::law_tracked_entities_resolve(after.config, after.tracker.context());
        if let ReactionView::Execute(commands) = reaction {
            assert forall|i: int| 0 <= i < commands.len() implies !(after.prepared(
                #[trigger] commands[i],
            ) is Unresolved) by {
                assert(resumed(commands[i]) is Some ==> resumed(commands[i]) == wanted(
                    after.target(),
                ));
            }
        }
    }
}

/// A switch that waited can be executed too. From the start on, and through every
/// input that leaves a configuration without a fault, the clock and every
/// reconcile, a switch waits only for an entity with a rule; so whatever the clock
/// calls for has its rule. A reload is no exception, since it looks at the context
/// again.
pub proof fn law_delayed_commands_resolve(
    b: BridgeView,
    input: InputView,
    facts: Seq<Fact>,
    now: int,
)
    requires
        b.awaits_a_rule(),
    ensures
        BridgeView::initial(b.config).awaits_a_rule(),
        b.on_input(input, now).0.config.fault() is None ==> b.on_input(
            input,
            now,
        ).0.awaits_a_rule(),
        b.on_tick(now).0.awaits_a_rule(),
        b.reconciled(facts).awaits_a_rule(),
        forall|i: int|
            0 <= i < b.on_tick(now).1.len() ==> !(b.on_tick(now).0.prepared(
                #[trigger] b.on_tick(now).1[i],
            ) is Unresolved),
{
    let after = b.on_input(input, now).0;
    if after.config.fault() is None {
        config::law_tracked_entities_resolve(after.config, after.tracker.context());
    }
}

/// A switch stops what runs before it adds a fact; a start stops nothing.
pub proof fn law_switches_stop_first(command: CommandView, plan: PlanView)
    ensures
        command is Switch ==> {
            &&& calls_of(command, plan)[0] == CallView::StopTracking
            &&& calls_of(command, plan)[1] == CallView::AddFact(plan.fact)
        },
        command is Start ==> {
            &&& calls_of(command, plan)[0] == CallView::AddFact(plan.fact)
            &&& !calls_of(command, plan).contains(CallView::StopTracking)
        },
{
}

/// A failed call heals: once hamster reports that nothing runs, the next context
/// that calls for an entity starts it.
pub proof fn law_failures_heal(b: BridgeView, facts: Seq<Fact>, now: int)
    requires
        b.is_consistent(),
        hamster::last_open(facts) is None,
    ensures
        b.reconciled(facts).engine.running is None,
        wanted(b.target()) matches Some(e) ==> b.reconciled(facts).evaluated(now).1
            == ReactionView::Execute(seq![CommandView::Start(e)]),
{
    let healed = b.reconciled(facts);
    if let Some(e) = wanted(b.target()) {
        engine::law_starts_are_immediate(healed.engine, e, now);
    }
}

/// The calls that are made, from the one at position `at` on, where `outcomes`
/// tells which ones succeed.
pub open spec fn made_calls(calls: Seq<CallView>, at: int, outcomes: Seq<bool>) -> Seq<
    CallView,
>
    decreases calls.len() - at,
{
    if 0 <= at < calls.len() {
        let rest = match position_after(calls, at, outcomes[at]) {
            Some(next) => made_calls(calls, next, outcomes),
            None => seq![],
        };
        seq![calls[at]] + rest
    } else {
        seq![]
    }
}

/// Calls are made in order up to the first that fails, and none behind it.
pub proof fn law_a_failure_ends_the_calls(
    calls: Seq<CallView>,
    failed: int,
    outcomes: Seq<bool>,
)
    requires
        0 <= failed <= calls.len(),
        forall|i: int| 0 <= i < failed ==> #[trigger] outcomes[i],
        failed < calls.len() ==> !outcomes[failed],
    ensures
        made_calls(calls, 0, outcomes) == (if failed < calls.len() {
            calls.take(failed + 1)
        } else {
            calls
        }),
{
    lemma_made_calls(calls, 0, failed, outcomes);
    if failed < calls.len() {
        assert(calls.subrange(0, failed + 1) =~= calls.take(failed + 1));
    } else {
        assert(calls.subrange(0, failed) =~= calls);
    }
}

proof fn lemma_made_calls(
    calls: Seq<CallView>,
    at: int,
    failed: int,
    outcomes: Seq<bool>,
)
    requires
        0 <= at <= failed <= calls.len(),
        forall|i: int| at <= i < failed ==> #[trigger] outcomes[i],
        failed < calls.len() ==> !outcomes[failed],
    ensures
        made_calls(calls, at, outcomes) == calls.subrange(
            at,
            if failed < calls.len() {
                failed + 1
            } else {
                failed
            },
        ),
    decreases calls.len() - at,
{
    let end = if failed < calls.len() {
        failed + 1
    } else {
        failed
    };
    if at < calls.len() {
        if at < failed && at + 1 < calls.len() {
            lemma_made_calls(calls, at + 1, failed, outcomes);
        }
        assert(calls.subrange(at, end) =~= seq![calls[at]] + calls.subrange(at + 1, end));
    }
}

/// What the calls of a command are: one stop in front where it is a switch, and
/// none where it is not; the plan's fact, added once; and behind it the plan's
/// notification, where it has one, and nothing else.
pub proof fn law_one_fact_is_added(command: CommandView, plan: PlanView)
    ensures
        ({
            let calls = calls_of(command, plan);
            let at: int = if command is Switch {
                1
            } else {
                0
            };
            &&& calls.len() == at + 1 + (if plan.notification is Some {
                1int
            } else {
                0int
            })
            &&& command is Switch ==> calls[0] == CallView::StopTracking
            &&& calls[at] == CallView::AddFact(plan.fact)
            &&& forall|i: int|
                0 <= i < calls.len() && (#[trigger] calls[i]) is AddFact ==> i == at
            &&& forall|i: int|
                0 <= i < calls.len() && (#[trigger] calls[i]) is StopTracking ==> i < at
            &&& forall|i: int|
                at < i < calls.len() ==> {
                    &&& (#[trigger] calls[i]) matches CallView::Notify(message)
                    &&& plan.notification == Some(message)
                }
        }),
{
}

/// How long the engine hesitates: as many seconds as the defaults say.
pub proof fn law_timings_are_the_seconds_of_the_defaults(defaults: DefaultsView)
    ensures
        timings_of(defaults).switch_immediate == defaults.switch_immediate,
        timings_of(defaults).return_debounce.nanos == defaults.return_debounce_secs
            * 1_000_000_000,
        timings_of(defaults).untracked_grace.nanos == defaults.untracked_grace_secs
            * 1_000_000_000,
{
}

/// A context asks for the entity of the rule that it calls for, and for nothing
/// just where it calls for none.
pub proof fn law_targets_are_the_entities_of_rules(config: ConfigView, ctx: ContextView)
    ensures
        config.effective(ctx) is None <==> target_in(config, ctx) is Untracked,
        config.effective(ctx) matches Some(rule) ==> target_in(config, ctx) == TargetView::Track(
            rule.entity,
        ),
{
}

/// What an event does: the picture of the desktop follows it, and the engine sees
/// what the new picture asks for; its commands are to be executed.
pub proof fn law_events_reach_the_engine(b: BridgeView, line: Seq<char>, now: int)
    ensures
        events::event_on_line(line) matches Some(event) ==> {
            let (after, reaction) = b.on_input(InputView::EventLine(line), now);
            let target = target_in(b.config, b.tracker.after(event).context());
            &&& after.tracker == b.tracker.after(event)
            &&& after.config == b.config
            &&& after.engine == b.engine.on_context(target, now).0
            &&& reaction == ReactionView::Execute(b.engine.on_context(target, now).1)
        },
{
}

/// What a reload does: the picture of the desktop stays, and the engine, with the
/// new timings, sees what it asks for under the new configuration.
pub proof fn law_reloads_reach_the_engine(b: BridgeView, config: ConfigView, now: int)
    ensures
        ({
            let (after, reaction) = b.on_input(InputView::ConfigReloaded(config), now);
            let target = target_in(config, b.tracker.context());
            let engine = EngineView { timings: timings_of(config.defaults), ..b.engine };
            &&& after.tracker == b.tracker
            &&& after.config == config
            &&& after.engine == engine.on_context(target, now).0
            &&& reaction == ReactionView::Execute(engine.on_context(target, now).1)
        }),
{
}

/// A change of the facts has them read, and changes nothing by itself.
pub proof fn law_changed_facts_are_read(b: BridgeView, now: int)
    ensures
        b.on_input(InputView::FactsChanged, now) == (b, ReactionView::ReadTodaysFacts),
{
}

/// The clock and a reconcile leave the picture of the desktop alone, and the
/// commands are the engine's.
pub proof fn law_the_clock_is_the_engines(b: BridgeView, facts: Seq<Fact>, now: int)
    ensures
        b.on_tick(now).0.tracker == b.tracker,
        b.on_tick(now).0.engine == b.engine.on_tick(now).0,
        b.on_tick(now).1 == b.engine.on_tick(now).1,
        b.reconciled(facts).tracker == b.tracker,
{
}

/// At first nothing is known of the desktop, nothing runs and nothing waits.
pub proof fn law_a_new_bridge_knows_nothing(config: ConfigView, k: u64)
    ensures
        ({
            let b = BridgeView::initial(config);
            &&& b.config == config
            &&& !b.tracker.activities.contains_key(k)
            &&& !b.tracker.workspaces.contains_key(k)
            &&& b.engine.running is None
            &&& b.engine.previous is None
            &&& b.engine.last_switch_at is None
            &&& b.engine.pending is None
            &&& b.engine.timings == timings_of(config.defaults)
        }),
{
}

/// What a reconcile adopts: the value of the first tag, on the last fact without an
/// end, that begins with the configured key and a colon. Where that entity was
/// believed to run already nothing changes; where it was not, nothing waits and
/// nothing is remembered any more.
pub proof fn law_the_running_fact_is_adopted(b: BridgeView, facts: Seq<Fact>, i: int, t: int)
    requires
        0 <= i < facts.len(),
        facts[i].range.end is None,
        forall|j: int| i < j < facts.len() ==> (#[trigger] facts[j]).range.end is Some,
    ensures
        ({
            let prefix = b.config.defaults.entity_tag_key + seq![':'];
            let tags = facts[i]@.tags;
            let after = b.reconciled(facts).engine;
            &&& 0 <= t < tags.len() && prefix.is_prefix_of(tags[t]) && (forall|j: int|
                0 <= j < t ==> !prefix.is_prefix_of(#[trigger] tags[j])) ==> after.running
                == Some(text::trim(tags[t].skip(prefix.len() as int)))
            &&& (forall|j: int| 0 <= j < tags.len() ==> !prefix.is_prefix_of(#[trigger] tags[j]))
                ==> after.running is None
            &&& after.running == b.engine.running ==> after == b.engine
            &&& after.running != b.engine.running ==> after.pending is None
                && after.previous is None && after.last_switch_at is None && after.timings
                == b.engine.timings
        }),
{
    let key = b.config.defaults.entity_tag_key;
    let prefix = key + seq![':'];
    let tags = facts[i]@.tags;
    hamster::law_last_open_fact_runs(facts, i);
    hamster::law_no_tag_no_entity(tags, key);
    if 0 <= t < tags.len() && prefix.is_prefix_of(tags[t]) && (forall|j: int|
        0 <= j < t ==> !prefix.is_prefix_of(#[trigger] tags[j])) {
        hamster::law_first_tag_with_the_key_decides(tags, key, t);
    }
}

/// Where every fact has an end, a reconcile has nothing run.
pub proof fn law_nothing_open_nothing_is_adopted(b: BridgeView, facts: Seq<Fact>)
    requires
        forall|j: int| 0 <= j < facts.len() ==> (#[trigger] facts[j]).range.end is Some,
    ensures
        b.reconciled(facts).engine.running is None,
{
    hamster::law_nothing_open_nothing_runs(facts);
}

/// What executing a command begins with: a stop needs nothing; a start or a switch
/// has the facts of the configured days read for the rule of its entity, and is
/// refused, by the name of the entity, just where there is no rule.
pub proof fn law_commands_are_prepared(b: BridgeView, command: CommandView, entity: Seq<char>)
    ensures
        b.prepared(command) is Stop <==> command is Stop,
        command == CommandView::Start(entity) || command == CommandView::Switch(entity) ==> match (
        b.config.rule_for(entity)) {
            Some(rule) => b.prepared(command) == PreparationView::ReadRecentFacts(
                b.config.defaults.resume_lookback_days,
                rule,
            ),
            None => b.prepared(command) == PreparationView::Unresolved(
                "no rule resolves entity '"@ + entity + "'"@,
            ),
        },
{
}

/// Which call comes next: the one just behind the one that was made, where that one
/// succeeded and was not the last.
pub proof fn law_calls_are_made_in_order(
    calls: Seq<CallView>,
    made: int,
    succeeded: bool,
    next: int,
)
    ensures
        position_after(calls, made, succeeded) == Some(next) <==> succeeded && next == made + 1
            && next < calls.len(),
        position_after(calls, made, succeeded) is None <==> !succeeded || made + 1
            >= calls.len(),
{
}

} // verus!
