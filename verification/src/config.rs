//! Configuration: defaults, per-activity and per-workspace tracking rules.
use crate::events::{Context, ContextView};
use crate::pattern;
use crate::schema;
use crate::schema::Parts;
use crate::source;
use crate::source::Node;
use crate::table;
use crate::table::Table;
use crate::text;
use vstd::prelude::*;
use vstd::string::*;

verus! {

/// Settings that hold for every rule.
#[derive(Debug, Clone)]
pub struct Defaults {
    pub switch_immediate: bool,
    pub return_debounce_secs: u64,
    pub untracked_grace_secs: u64,
    pub entity_tag_key: String,
    pub extra_tags: Vec<String>,
    pub placeholder_activity: String,
    pub placeholder_description: String,
    /// How many days back to look for a prior fact of the same entity to clone
    /// on resume before falling back to a placeholder. `0` = today only.
    pub resume_lookback_days: u64,
    /// When a resume clones a prior fact's description, prepend the continued
    /// marker (`..`) to each carried-over block's first line, but only when the
    /// cloned fact is from the same calendar day. A new day always starts fresh.
    pub mark_continuations: bool,
}

/// What the defaults say.
pub struct DefaultsView {
    pub switch_immediate: bool,
    pub return_debounce_secs: u64,
    pub untracked_grace_secs: u64,
    pub entity_tag_key: Seq<char>,
    pub extra_tags: Seq<Seq<char>>,
    pub placeholder_activity: Seq<char>,
    pub placeholder_description: Seq<char>,
    pub resume_lookback_days: u64,
    pub mark_continuations: bool,
}

impl View for Defaults {
    type V = DefaultsView;

    open spec fn view(&self) -> DefaultsView {
        DefaultsView {
            switch_immediate: self.switch_immediate,
            return_debounce_secs: self.return_debounce_secs,
            untracked_grace_secs: self.untracked_grace_secs,
            entity_tag_key: self.entity_tag_key@,
            extra_tags: text::texts(self.extra_tags@),
            placeholder_activity: self.placeholder_activity@,
            placeholder_description: self.placeholder_description@,
            resume_lookback_days: self.resume_lookback_days,
            mark_continuations: self.mark_continuations,
        }
    }
}

/// The defaults of a configuration that sets none.
pub open spec fn standard_defaults() -> DefaultsView {
    DefaultsView {
        switch_immediate: true,
        return_debounce_secs: 60,
        untracked_grace_secs: 60,
        entity_tag_key: "entity"@,
        extra_tags: Seq::empty(),
        placeholder_activity: "placeholder"@,
        placeholder_description: "auto-started by jiji-hamster-bridge — rename me"@,
        resume_lookback_days: 5,
        mark_continuations: true,
    }
}

impl Default for Defaults {
    fn default() -> (r: Self)
        ensures
            r@ == standard_defaults(),
    {
        let extra_tags: Vec<String> = Vec::new();
        assert(text::texts(extra_tags@) =~= Seq::empty());
        Defaults {
            switch_immediate: true,
            return_debounce_secs: 60,
            untracked_grace_secs: 60,
            entity_tag_key: "entity".to_owned(),
            extra_tags,
            placeholder_activity: "placeholder".to_owned(),
            placeholder_description: "auto-started by jiji-hamster-bridge — rename me".to_owned(),
            resume_lookback_days: 5,
            mark_continuations: true,
        }
    }
}

/// How to track an activity.
#[derive(Debug, Clone)]
pub struct ActivityRule {
    /// Entity tag value; defaults to the activity name.
    pub entity: Option<String>,
    /// Hamster category used when creating placeholder facts for this entity.
    pub category: String,
    pub placeholder_activity: Option<String>,
    pub placeholder_description: Option<String>,
}

/// What an activity rule says.
pub struct ActivityRuleView {
    pub entity: Option<Seq<char>>,
    pub category: Seq<char>,
    pub placeholder_activity: Option<Seq<char>>,
    pub placeholder_description: Option<Seq<char>>,
}

impl View for ActivityRule {
    type V = ActivityRuleView;

    open spec fn view(&self) -> ActivityRuleView {
        ActivityRuleView {
            entity: text::opt(self.entity),
            category: self.category@,
            placeholder_activity: text::opt(self.placeholder_activity),
            placeholder_description: text::opt(self.placeholder_description),
        }
    }
}

/// How to track a workspace, or that it is not to be tracked.
#[derive(Debug, Clone)]
pub struct WorkspaceRule {
    /// Track this workspace under the given entity (overrides the activity).
    pub entity: Option<String>,
    /// `false` = explicitly untracked even inside a tracked activity.
    pub track: Option<bool>,
    /// Placeholder category; falls back to the activity rule with the same entity.
    pub category: Option<String>,
    pub placeholder_activity: Option<String>,
    pub placeholder_description: Option<String>,
}

/// What a workspace rule says.
pub struct WorkspaceRuleView {
    pub entity: Option<Seq<char>>,
    pub track: Option<bool>,
    pub category: Option<Seq<char>>,
    pub placeholder_activity: Option<Seq<char>>,
    pub placeholder_description: Option<Seq<char>>,
}

impl View for WorkspaceRule {
    type V = WorkspaceRuleView;

    open spec fn view(&self) -> WorkspaceRuleView {
        WorkspaceRuleView {
            entity: text::opt(self.entity),
            track: self.track,
            category: text::opt(self.category),
            placeholder_activity: text::opt(self.placeholder_activity),
            placeholder_description: text::opt(self.placeholder_description),
        }
    }
}

/// A fully resolved "track this" decision.
#[derive(Debug, Clone, PartialEq, Eq)]
pub struct TrackedRule {
    pub entity: String,
    pub category: String,
    pub placeholder_activity: String,
    pub placeholder_description: String,
}

/// What a resolved rule says.
pub struct TrackedRuleView {
    pub entity: Seq<char>,
    pub category: Seq<char>,
    pub placeholder_activity: Seq<char>,
    pub placeholder_description: Seq<char>,
}

impl View for TrackedRule {
    type V = TrackedRuleView;

    open spec fn view(&self) -> TrackedRuleView {
        TrackedRuleView {
            entity: self.entity@,
            category: self.category@,
            placeholder_activity: self.placeholder_activity@,
            placeholder_description: self.placeholder_description@,
        }
    }
}

/// What an optional resolved rule says.
pub open spec fn rule_view(r: Option<TrackedRule>) -> Option<TrackedRuleView> {
    match r {
        Some(rule) => Some(rule@),
        None => None,
    }
}

/// Which table a rule stands in.
#[derive(Debug, Clone, Copy, PartialEq, Eq, Structural)]
pub enum Domain {
    Activity,
    Workspace,
}

/// Why a configuration is rejected.
#[derive(Debug, Clone, PartialEq, Eq)]
pub enum ConfigError {
    /// The text is no TOML, or its tables do not have the configuration's shape;
    /// with the complaint of the `toml` crate.
    InvalidToml { detail: String },
    /// A workspace rule says `track = true`.
    TrackTrue { name: String },
    /// A workspace rule has an entity and says `track = false`.
    EntityUntracked { name: String },
    /// Neither a workspace rule nor an activity rule has a category for the entity.
    NoCategory { name: String, entity: String },
    /// A workspace rule has no entity and does not say `track = false`.
    NoEntity { name: String },
    /// A regex key is `//`.
    EmptyRegex { domain: Domain, key: String },
    /// An activity rule with a regex key has no entity.
    RegexWithoutEntity { key: String },
    /// A regex key does not compile; with the complaint of the `regex` crate.
    InvalidRegex { domain: Domain, key: String, detail: String },
}

/// What an error says.
pub enum ErrorView {
    InvalidToml(Seq<char>),
    TrackTrue(Seq<char>),
    EntityUntracked(Seq<char>),
    NoCategory(Seq<char>, Seq<char>),
    NoEntity(Seq<char>),
    EmptyRegex(Domain, Seq<char>),
    RegexWithoutEntity(Seq<char>),
    InvalidRegex(Domain, Seq<char>, Seq<char>),
}

impl View for ConfigError {
    type V = ErrorView;

    open spec fn view(&self) -> ErrorView {
        match *self {
            ConfigError::InvalidToml { detail } => ErrorView::InvalidToml(detail@),
            ConfigError::TrackTrue { name } => ErrorView::TrackTrue(name@),
            ConfigError::EntityUntracked { name } => ErrorView::EntityUntracked(name@),
            ConfigError::NoCategory { name, entity } => ErrorView::NoCategory(name@, entity@),
            ConfigError::NoEntity { name } => ErrorView::NoEntity(name@),
            ConfigError::EmptyRegex { domain, key } => ErrorView::EmptyRegex(domain, key@),
            ConfigError::RegexWithoutEntity { key } => ErrorView::RegexWithoutEntity(key@),
            ConfigError::InvalidRegex { domain, key, detail } => ErrorView::InvalidRegex(
                domain,
                key@,
                detail@,
            ),
        }
    }
}

impl ErrorView {
    /// What went wrong, in one line.
    pub open spec fn message(self) -> Seq<char> {
        match self {
            ErrorView::InvalidToml(_) => "invalid TOML"@,
            ErrorView::TrackTrue(name) => "workspace rule '"@ + name
                + "': track = true is implied; omit the field (track = false is the only meaningful value)"@,
            ErrorView::EntityUntracked(name) => "workspace rule '"@ + name
                + "': entity and track=false are mutually exclusive"@,
            ErrorView::NoCategory(name, entity) => "workspace rule '"@ + name + "': entity '"@
                + entity
                + "' has no category (add category here or an [activities.*] rule with this entity)"@,
            ErrorView::NoEntity(name) => "workspace rule '"@ + name
                + "': needs either entity or track = false"@,
            ErrorView::EmptyRegex(domain, key) => domain.label() + " rule '"@ + key
                + "': empty regex matches everything"@,
            ErrorView::RegexWithoutEntity(key) => "activity rule '"@ + key
                + "': regex rules require an explicit entity"@,
            ErrorView::InvalidRegex(domain, key, _) => domain.label() + " rule '"@ + key
                + "': invalid regex"@,
        }
    }
}

impl Domain {
    /// What a rule of the table is called.
    pub open spec fn label(self) -> Seq<char> {
        match self {
            Domain::Activity => "activity"@,
            Domain::Workspace => "workspace"@,
        }
    }

    fn name(self) -> (r: &'static str)
        ensures
            r@ == self.label(),
    {
        match self {
            Domain::Activity => "activity",
            Domain::Workspace => "workspace",
        }
    }
}

impl ConfigError {
    /// What went wrong, in one line.
    pub fn message(&self) -> (r: String)
        ensures
            r@ == self@.message(),
    {
        match self {
            ConfigError::InvalidToml { detail: _ } => "invalid TOML".to_owned(),
            ConfigError::TrackTrue { name } => quoted("workspace rule '", name.as_str()).concat(
                "': track = true is implied; omit the field (track = false is the only meaningful value)",
            ),
            ConfigError::EntityUntracked { name } => quoted(
                "workspace rule '",
                name.as_str(),
            ).concat("': entity and track=false are mutually exclusive"),
            ConfigError::NoCategory { name, entity } => quoted(
                "workspace rule '",
                name.as_str(),
            ).concat("': entity '").concat(entity.as_str()).concat(
                "' has no category (add category here or an [activities.*] rule with this entity)",
            ),
            ConfigError::NoEntity { name } => quoted("workspace rule '", name.as_str()).concat(
                "': needs either entity or track = false",
            ),
            ConfigError::EmptyRegex { domain, key } => quoted(domain.name(), " rule '").concat(
                key.as_str(),
            ).concat("': empty regex matches everything"),
            ConfigError::RegexWithoutEntity { key } => quoted(
                "activity rule '",
                key.as_str(),
            ).concat("': regex rules require an explicit entity"),
            ConfigError::InvalidRegex { domain, key, detail: _ } => quoted(
                domain.name(),
                " rule '",
            ).concat(key.as_str()).concat("': invalid regex"),
        }
    }
}

/// `a` followed by `b`.
fn quoted(a: &str, b: &str) -> (r: String)
    ensures
        r@ == a@ + b@,
{
    a.to_owned().concat(b)
}

/// The pattern in a regex-form mapping key `/source/`; `None` for a literal key.
pub open spec fn source_in(key: Seq<char>) -> Option<Seq<char>> {
    if key.len() >= 2 && key[0] == '/' && key.last() == '/' {
        Some(key.subrange(1, key.len() - 1))
    } else {
        None
    }
}

/// If `key` is a regex-form mapping key `/source/`, return the inner `source`
/// (which may be empty). Ordinary literal keys return `None`.
pub fn regex_source(key: &str) -> (r: Option<&str>)
    ensures
        match r {
            Some(s) => source_in(key@) == Some(s@),
            None => source_in(key@) is None,
        },
{
    let chars: Vec<char> = text::to_chars(key);
    let n: usize = chars.len();
    if n >= 2 && chars[0] == '/' && chars[n - 1] == '/' {
        Some(key.substring_char(1, n - 1))
    } else {
        None
    }
}

/// The first activity rule whose effective entity is `entity`; a rule without
/// an entity has its own name for one.
pub open spec fn activity_for(
    activities: Seq<(Seq<char>, ActivityRuleView)>,
    entity: Seq<char>,
) -> Option<ActivityRuleView>
    decreases activities.len(),
{
    if activities.len() == 0 {
        None
    } else {
        let (name, rule) = activities[0];
        let own = match rule.entity {
            Some(e) => e,
            None => name,
        };
        if own == entity {
            Some(rule)
        } else {
            activity_for(activities.drop_first(), entity)
        }
    }
}

/// The first workspace rule with `entity` and a category of its own.
pub open spec fn workspace_for(
    workspaces: Seq<(Seq<char>, WorkspaceRuleView)>,
    entity: Seq<char>,
) -> Option<WorkspaceRuleView>
    decreases workspaces.len(),
{
    if workspaces.len() == 0 {
        None
    } else {
        let rule = workspaces[0].1;
        if rule.entity == Some(entity) && rule.category is Some {
            Some(rule)
        } else {
            workspace_for(workspaces.drop_first(), entity)
        }
    }
}

/// What is wrong with a workspace rule.
pub open spec fn workspace_fault(
    activities: Seq<(Seq<char>, ActivityRuleView)>,
    name: Seq<char>,
    rule: WorkspaceRuleView,
) -> Option<ErrorView> {
    if rule.track == Some(true) {
        Some(ErrorView::TrackTrue(name))
    } else {
        match (rule.entity, rule.track) {
            (Some(_), Some(_)) => Some(ErrorView::EntityUntracked(name)),
            (Some(e), None) => if rule.category is None && activity_for(activities, e) is None {
                Some(ErrorView::NoCategory(name, e))
            } else {
                None
            },
            (None, Some(_)) => None,
            (None, None) => Some(ErrorView::NoEntity(name)),
        }
    }
}

/// The first fault among workspace rules.
pub open spec fn workspaces_fault(
    activities: Seq<(Seq<char>, ActivityRuleView)>,
    workspaces: Seq<(Seq<char>, WorkspaceRuleView)>,
) -> Option<ErrorView>
    decreases workspaces.len(),
{
    if workspaces.len() == 0 {
        None
    } else {
        match workspace_fault(activities, workspaces[0].0, workspaces[0].1) {
            Some(e) => Some(e),
            None => workspaces_fault(activities, workspaces.drop_first()),
        }
    }
}

/// What is wrong with a key, if it is regex-form; `lacks` tells whether the
/// rule lacks an entity that it needs.
pub open spec fn key_fault(domain: Domain, key: Seq<char>, lacks: bool) -> Option<ErrorView> {
    match source_in(key) {
        Some(source) => if source.len() == 0 {
            Some(ErrorView::EmptyRegex(domain, key))
        } else if lacks {
            Some(ErrorView::RegexWithoutEntity(key))
        } else {
            match pattern::pattern_fault(source) {
                Some(detail) => Some(ErrorView::InvalidRegex(domain, key, detail)),
                None => None,
            }
        },
        None => None,
    }
}

/// The first fault among the keys of a table.
pub open spec fn keys_fault(domain: Domain, keys: Seq<(Seq<char>, bool)>) -> Option<ErrorView>
    decreases keys.len(),
{
    if keys.len() == 0 {
        None
    } else {
        match key_fault(domain, keys[0].0, keys[0].1) {
            Some(e) => Some(e),
            None => keys_fault(domain, keys.drop_first()),
        }
    }
}

/// The keys of activity rules, each with whether the rule lacks an entity.
pub open spec fn activity_keys(activities: Seq<(Seq<char>, ActivityRuleView)>) -> Seq<
    (Seq<char>, bool),
> {
    activities.map_values(|e: (Seq<char>, ActivityRuleView)| (e.0, e.1.entity is None))
}

/// The keys of workspace rules, which need no entity.
pub open spec fn workspace_keys(workspaces: Seq<(Seq<char>, WorkspaceRuleView)>) -> Seq<
    (Seq<char>, bool),
> {
    workspaces.map_values(|e: (Seq<char>, WorkspaceRuleView)| (e.0, false))
}

/// Whether `key` is regex-form and its pattern matches somewhere in `name`.
pub open spec fn key_finds(key: Seq<char>, name: Seq<char>) -> bool {
    source_in(key) matches Some(source) && pattern::pattern_finds(source, name)
}

/// The first rule with a regex key that matches `name`.
pub open spec fn regex_rule<A>(entries: Seq<(Seq<char>, A)>, name: Seq<char>) -> Option<A>
    decreases entries.len(),
{
    if entries.len() == 0 {
        None
    } else if key_finds(entries[0].0, name) {
        Some(entries[0].1)
    } else {
        regex_rule(entries.drop_first(), name)
    }
}

/// The rule for `name`: the one with that very key, or else the first one with
/// a regex key that matches it.
pub open spec fn matching_rule<A>(entries: Seq<(Seq<char>, A)>, name: Seq<char>) -> Option<A> {
    match table::lookup(entries, name) {
        Some(rule) => Some(rule),
        None => regex_rule(entries, name),
    }
}

/// `first` if it holds something, otherwise `second`.
pub open spec fn or_else(first: Option<Seq<char>>, second: Option<Seq<char>>) -> Option<Seq<char>> {
    match first {
        Some(s) => Some(s),
        None => second,
    }
}

/// `first` if it holds something, otherwise `second`.
pub open spec fn or_value(first: Option<Seq<char>>, second: Seq<char>) -> Seq<char> {
    match first {
        Some(s) => s,
        None => second,
    }
}

/// What a configuration says; the rules stand in the order of their keys.
pub struct ConfigView {
    pub defaults: DefaultsView,
    pub activities: Seq<(Seq<char>, ActivityRuleView)>,
    pub workspaces: Seq<(Seq<char>, WorkspaceRuleView)>,
}

impl ConfigView {
    /// Why the configuration is rejected: the first fault of a workspace rule,
    /// of an activity key, of a workspace key.
    pub open spec fn fault(self) -> Option<ErrorView> {
        match workspaces_fault(self.activities, self.workspaces) {
            Some(e) => Some(e),
            None => match keys_fault(Domain::Activity, activity_keys(self.activities)) {
                Some(e) => Some(e),
                None => keys_fault(Domain::Workspace, workspace_keys(self.workspaces)),
            },
        }
    }

    /// Placeholder parameters for an entity, wherever it is defined.
    pub open spec fn rule_for(self, entity: Seq<char>) -> Option<TrackedRuleView> {
        match activity_for(self.activities, entity) {
            Some(a) => Some(self.from_activity(entity, ActivityRuleView { entity: None, ..a })),
            None => match workspace_for(self.workspaces, entity) {
                Some(w) => Some(
                    TrackedRuleView {
                        entity,
                        category: w.category->0,
                        placeholder_activity: or_value(
                            w.placeholder_activity,
                            self.defaults.placeholder_activity,
                        ),
                        placeholder_description: or_value(
                            w.placeholder_description,
                            self.defaults.placeholder_description,
                        ),
                    },
                ),
                None => None,
            },
        }
    }

    /// The resolved rule of a matched workspace rule; `None` = untracked. What
    /// the rule leaves open is taken from the activity rule with its entity,
    /// and then from the defaults.
    pub open spec fn from_workspace(self, w: WorkspaceRuleView) -> Option<TrackedRuleView> {
        match w.entity {
            Some(entity) if w.track != Some(false) => {
                let base = activity_for(self.activities, entity);
                Some(
                    TrackedRuleView {
                        entity,
                        category: or_value(w.category, base->0.category),
                        placeholder_activity: or_value(
                            or_else(
                                w.placeholder_activity,
                                if base is Some {
                                    base->0.placeholder_activity
                                } else {
                                    None
                                },
                            ),
                            self.defaults.placeholder_activity,
                        ),
                        placeholder_description: or_value(
                            or_else(
                                w.placeholder_description,
                                if base is Some {
                                    base->0.placeholder_description
                                } else {
                                    None
                                },
                            ),
                            self.defaults.placeholder_description,
                        ),
                    },
                )
            },
            _ => None,
        }
    }

    /// The resolved rule of an activity rule that matched `name`, which is the
    /// entity where the rule has none.
    pub open spec fn from_activity(self, name: Seq<char>, a: ActivityRuleView) -> TrackedRuleView {
        TrackedRuleView {
            entity: or_value(a.entity, name),
            category: a.category,
            placeholder_activity: or_value(
                a.placeholder_activity,
                self.defaults.placeholder_activity,
            ),
            placeholder_description: or_value(
                a.placeholder_description,
                self.defaults.placeholder_description,
            ),
        }
    }

    /// The rule that the activity of a context calls for.
    pub open spec fn effective_activity(self, name: Option<Seq<char>>) -> Option<TrackedRuleView> {
        match name {
            Some(n) => match matching_rule(self.activities, n) {
                Some(a) => Some(self.from_activity(n, a)),
                None => None,
            },
            None => None,
        }
    }

    /// The rule that a context calls for; `None` = untracked. A workspace rule
    /// decides where one matches, and an activity rule otherwise.
    pub open spec fn effective(self, ctx: ContextView) -> Option<TrackedRuleView> {
        match ctx.workspace {
            Some(ws) => match matching_rule(self.workspaces, ws) {
                Some(w) => self.from_workspace(w),
                None => self.effective_activity(ctx.activity),
            },
            None => self.effective_activity(ctx.activity),
        }
    }
}

/// The configuration in the document of the text `raw`, or why it is rejected.
pub open spec fn accepted(n: Node, raw: Seq<char>) -> Result<ConfigView, ErrorView> {
    match schema::config_in(n, raw) {
        Ok(config) => match config.fault() {
            Some(e) => Err(e),
            None => Ok(config),
        },
        Err(complaint) => Err(ErrorView::InvalidToml(complaint)),
    }
}

/// The configuration in a TOML text, or why it is rejected.
pub open spec fn parsed(s: Seq<char>) -> Result<ConfigView, ErrorView> {
    match source::toml_node(s) {
        Ok(n) => accepted(n, s),
        Err(complaint) => Err(ErrorView::InvalidToml(complaint)),
    }
}

/// Whether `patterns` are the compiled regex keys of `entries`, each with its
/// position, in the order of the entries.
spec fn covers<A>(patterns: Seq<(regex::Regex, usize)>, entries: Seq<(Seq<char>, A)>) -> bool {
    &&& forall|k: int|
        0 <= k < patterns.len() ==> {
            &&& (#[trigger] patterns[k]).1 < entries.len()
            &&& pattern::plain_pattern(patterns[k].0) is Some
            &&& source_in(entries[patterns[k].1 as int].0) == pattern::plain_pattern(patterns[k].0)
        }
    &&& forall|j: int, k: int|
        0 <= j < k < patterns.len() ==> (#[trigger] patterns[j]).1 < (#[trigger] patterns[k]).1
    &&& forall|i: int|
        0 <= i < entries.len() && source_in((#[trigger] entries[i]).0) is Some ==> exists|k: int|
            0 <= k < patterns.len() && (#[trigger] patterns[k]).1 == i
}

/// Parsed and validated configuration.
///
/// Construct via [`Config::parse`] or [`Config::from_parts`]: the validation
/// there is what `effective` relies on.
#[derive(Debug, Clone)]
pub struct Config {
    pub defaults: Defaults,
    pub activities: Table<ActivityRule>,
    pub workspaces: Table<WorkspaceRule>,
    /// The regex keys, compiled once.
    pub patterns: Patterns,
}

/// The compiled regex keys of a configuration, in the order of the keys.
#[derive(Debug, Clone)]
pub struct Patterns {
    /// Activity patterns with their positions in the table.
    activities: Vec<(regex::Regex, usize)>,
    /// Workspace patterns with their positions in the table.
    workspaces: Vec<(regex::Regex, usize)>,
}

impl Patterns {
    /// Whether these are the regex keys of `config`.
    pub closed spec fn belong_to(&self, config: ConfigView) -> bool {
        &&& covers(self.activities@, config.activities)
        &&& covers(self.workspaces@, config.workspaces)
    }
}

impl View for Config {
    type V = ConfigView;

    open spec fn view(&self) -> ConfigView {
        ConfigView {
            defaults: self.defaults@,
            activities: self.activities@,
            workspaces: self.workspaces@,
        }
    }
}

impl Config {
    /// Whether the configuration is valid: its rules stand in the order of
    /// their keys, its workspace rules have no fault, and its regex keys are
    /// compiled.
    pub open spec fn wf(&self) -> bool {
        &&& table::is_sorted(self@.activities)
        &&& table::is_sorted(self@.workspaces)
        &&& workspaces_fault(self@.activities, self@.workspaces) is None
        &&& self.patterns.belong_to(self@)
    }

    /// Read a configuration from TOML.
    pub fn parse(s: &str) -> (r: Result<Config, ConfigError>)
        ensures
            match r {
                Ok(config) => parsed(s@) == Ok::<ConfigView, ErrorView>(config@) && config.wf(),
                Err(e) => parsed(s@) == Err::<ConfigView, ErrorView>(e@),
            },
    {
        match source::read_toml(s) {
            Ok(v) => Config::from_document(&v, s),
            Err(detail) => Err(ConfigError::InvalidToml { detail }),
        }
    }

    /// Read a configuration from the parsed document of the text `raw`.
    pub fn from_document(v: &toml::Spanned<toml::de::DeValue<'_>>, raw: &str) -> (r: Result<
        Config,
        ConfigError,
    >)
        ensures
            match r {
                Ok(config) => accepted(source::node(*v), raw@) == Ok::<ConfigView, ErrorView>(
                    config@,
                ) && config.wf(),
                Err(e) => accepted(source::node(*v), raw@) == Err::<ConfigView, ErrorView>(e@),
            },
    {
        match schema::read_config(v, raw) {
            Ok(parts) => Config::from_parts(parts),
            Err(detail) => Err(ConfigError::InvalidToml { detail }),
        }
    }

    /// Validate the parts of a configuration and compile its regex keys.
    pub fn from_parts(parts: Parts) -> (r: Result<Config, ConfigError>)
        requires
            table::is_sorted(parts@.activities),
            table::is_sorted(parts@.workspaces),
        ensures
            match r {
                Ok(config) => parts@.fault() is None && config@ == parts@ && config.wf(),
                Err(e) => parts@.fault() == Some(e@),
            },
    {
        if let Err(e) = validate(&parts) {
            return Err(e);
        }
        match build_patterns(&parts) {
            Ok(patterns) => Ok(
                Config {
                    defaults: parts.defaults,
                    activities: parts.activities,
                    workspaces: parts.workspaces,
                    patterns,
                },
            ),
            Err(e) => Err(e),
        }
    }

    /// Resolve placeholder parameters for an entity, wherever it is defined:
    /// activity rules first, then workspace rules carrying an inline category.
    pub fn rule_for_entity(&self, entity: &str) -> (r: Option<TrackedRule>)
        ensures
            rule_view(r) == self@.rule_for(entity@),
    {
        if let Some(a) = self.activity_rule_for_entity(entity) {
            return Some(
                TrackedRule {
                    entity: entity.to_owned(),
                    category: a.category.clone(),
                    placeholder_activity: first_of(
                        &a.placeholder_activity,
                        &self.defaults.placeholder_activity,
                    ),
                    placeholder_description: first_of(
                        &a.placeholder_description,
                        &self.defaults.placeholder_description,
                    ),
                },
            );
        }
        let ghost all = self@.workspaces;
        let mut i: usize = 0;
        assert(all.skip(0) =~= all);
        while i < self.workspaces.len()
            invariant
                i <= all.len(),
                all == self@.workspaces,
                activity_for(self@.activities, entity@) is None,
                workspace_for(all, entity@) == workspace_for(all.skip(i as int), entity@),
            decreases all.len() - i,
        {
            let w: &WorkspaceRule = self.workspaces.value_at(i);
            assert(all.skip(i as int)[0] == all[i as int]);
            if let (Some(e), Some(category)) = (&w.entity, &w.category) {
                if text::same(e.as_str(), entity) {
                    return Some(
                        TrackedRule {
                            entity: entity.to_owned(),
                            category: category.clone(),
                            placeholder_activity: first_of(
                                &w.placeholder_activity,
                                &self.defaults.placeholder_activity,
                            ),
                            placeholder_description: first_of(
                                &w.placeholder_description,
                                &self.defaults.placeholder_description,
                            ),
                        },
                    );
                }
            }
            assert(all.skip(i as int).drop_first() =~= all.skip(i + 1));
            i = i + 1;
        }
        None
    }

    /// The first activity rule whose effective entity matches.
    pub fn activity_rule_for_entity(&self, entity: &str) -> (r: Option<&ActivityRule>)
        ensures
            match r {
                Some(a) => activity_for(self@.activities, entity@) == Some(a@),
                None => activity_for(self@.activities, entity@) is None,
            },
    {
        find_activity(&self.activities, entity)
    }

    /// Build the tracked rule for a matched workspace rule (`None` = untracked).
    fn tracked_from_workspace(&self, w: &WorkspaceRule) -> (r: Option<TrackedRule>)
        requires
            exists|name: Seq<char>| workspace_fault(self@.activities, name, w@) is None,
        ensures
            rule_view(r) == self@.from_workspace(w@),
    {
        if w.track == Some(false) {
            return None;
        }
        match &w.entity {
            Some(entity) => {
                let base: Option<&ActivityRule> = self.activity_rule_for_entity(entity.as_str());
                let category: String = match (&w.category, base) {
                    (Some(c), _) => c.clone(),
                    (None, Some(b)) => b.category.clone(),
                    (None, None) => String::new(),
                };
                let (activity, description) = match base {
                    Some(b) => (
                        first_of(&b.placeholder_activity, &self.defaults.placeholder_activity),
                        first_of(&b.placeholder_description, &self.defaults.placeholder_description),
                    ),
                    None => (
                        self.defaults.placeholder_activity.clone(),
                        self.defaults.placeholder_description.clone(),
                    ),
                };
                Some(
                    TrackedRule {
                        entity: entity.clone(),
                        category,
                        placeholder_activity: first_of(&w.placeholder_activity, &activity),
                        placeholder_description: first_of(&w.placeholder_description, &description),
                    },
                )
            },
            None => None,
        }
    }

    /// Build the tracked rule for a matched activity rule. For regex rules the
    /// entity is always explicit (validated); for exact rules it defaults to the
    /// matched activity name.
    fn tracked_from_activity(&self, name: &String, a: &ActivityRule) -> (r: TrackedRule)
        ensures
            r@ == self@.from_activity(name@, a@),
    {
        TrackedRule {
            entity: first_of(&a.entity, name),
            category: a.category.clone(),
            placeholder_activity: first_of(
                &a.placeholder_activity,
                &self.defaults.placeholder_activity,
            ),
            placeholder_description: first_of(
                &a.placeholder_description,
                &self.defaults.placeholder_description,
            ),
        }
    }

    /// Resolve the effective tracking rule in four-tier precedence: workspace
    /// exact, then workspace regex, then activity exact, then activity regex.
    /// Exact beats regex within each domain; the first regex in sorted-key order
    /// wins. `None` = untracked.
    pub fn effective(&self, ctx: &Context) -> (r: Option<TrackedRule>)
        requires
            self.wf(),
        ensures
            rule_view(r) == self@.effective(ctx@),
    {
        if let Some(ws) = &ctx.workspace {
            if let Some(w) = self.workspaces.get(ws.as_str()) {
                proof {
                    table::lemma_lookup(self@.workspaces, ws@);
                    lemma_no_fault(self@.activities, self@.workspaces);
                }
                return self.tracked_from_workspace(w);
            }
            if let Some(p) = first_match::<WorkspaceRuleView>(
                &self.patterns.workspaces,
                Ghost(self@.workspaces),
                ws.as_str(),
            ) {
                proof {
                    lemma_no_fault(self@.activities, self@.workspaces);
                }
                return self.tracked_from_workspace(self.workspaces.value_at(p));
            }
        }
        match &ctx.activity {
            Some(name) => {
                if let Some(a) = self.activities.get(name.as_str()) {
                    return Some(self.tracked_from_activity(name, a));
                }
                match first_match::<ActivityRuleView>(
                    &self.patterns.activities,
                    Ghost(self@.activities),
                    name.as_str(),
                ) {
                    Some(p) => Some(
                        self.tracked_from_activity(name, self.activities.value_at(p)),
                    ),
                    None => None,
                }
            },
            None => None,
        }
    }
}

/// `first` if it holds something, otherwise `second`.
fn first_of(first: &Option<String>, second: &String) -> (r: String)
    ensures
        r@ == or_value(text::opt(*first), second@),
{
    match first {
        Some(s) => s.clone(),
        None => second.clone(),
    }
}

fn find_activity<'a>(activities: &'a Table<ActivityRule>, entity: &str) -> (r: Option<
    &'a ActivityRule,
>)
    ensures
        match r {
            Some(a) => activity_for(activities@, entity@) == Some(a@),
            None => activity_for(activities@, entity@) is None,
        },
{
    let ghost all = activities@;
    let mut i: usize = 0;
    assert(all.skip(0) =~= all);
    while i < activities.len()
        invariant
            i <= all.len(),
            all == activities@,
            activity_for(all, entity@) == activity_for(all.skip(i as int), entity@),
        decreases all.len() - i,
    {
        let a: &ActivityRule = activities.value_at(i);
        let name: &String = activities.key_at(i);
        assert(all.skip(i as int)[0] == all[i as int]);
        let own: &String = match &a.entity {
            Some(e) => e,
            None => name,
        };
        if text::same(own.as_str(), entity) {
            return Some(a);
        }
        assert(all.skip(i as int).drop_first() =~= all.skip(i + 1));
        i = i + 1;
    }
    None
}

/// Without a fault among the workspace rules, none of them has one.
proof fn lemma_no_fault(
    activities: Seq<(Seq<char>, ActivityRuleView)>,
    workspaces: Seq<(Seq<char>, WorkspaceRuleView)>,
)
    requires
        workspaces_fault(activities, workspaces) is None,
    ensures
        forall|i: int|
            0 <= i < workspaces.len() ==> workspace_fault(
                activities,
                (#[trigger] workspaces[i]).0,
                workspaces[i].1,
            ) is None,
    decreases workspaces.len(),
{
    if workspaces.len() > 0 {
        let rest = workspaces.drop_first();
        lemma_no_fault(activities, rest);
        assert forall|i: int| 0 <= i < workspaces.len() implies workspace_fault(
            activities,
            (#[trigger] workspaces[i]).0,
            workspaces[i].1,
        ) is None by {
            if i > 0 {
                assert(workspaces[i] == rest[i - 1]);
            }
        }
    }
}

/// The first fault among the workspace rules.
fn validate(parts: &Parts) -> (r: Result<(), ConfigError>)
    ensures
        match r {
            Ok(_) => workspaces_fault(parts@.activities, parts@.workspaces) is None,
            Err(e) => workspaces_fault(parts@.activities, parts@.workspaces) == Some(e@),
        },
{
    let ghost acts = parts@.activities;
    let ghost all = parts@.workspaces;
    let mut i: usize = 0;
    assert(all.skip(0) =~= all);
    while i < parts.workspaces.len()
        invariant
            i <= all.len(),
            all == parts@.workspaces,
            acts == parts@.activities,
            workspaces_fault(acts, all) == workspaces_fault(acts, all.skip(i as int)),
        decreases all.len() - i,
    {
        let name: &String = parts.workspaces.key_at(i);
        let w: &WorkspaceRule = parts.workspaces.value_at(i);
        assert(all.skip(i as int)[0] == all[i as int]);
        if w.track == Some(true) {
            return Err(ConfigError::TrackTrue { name: name.clone() });
        }
        match (&w.entity, w.track) {
            (Some(_), Some(_)) => {
                return Err(ConfigError::EntityUntracked { name: name.clone() });
            },
            (None, Some(_)) => {},
            (Some(e), None) => {
                if w.category.is_none() && find_activity(
                    &parts.activities,
                    e.as_str(),
                ).is_none() {
                    return Err(
                        ConfigError::NoCategory { name: name.clone(), entity: e.clone() },
                    );
                }
            },
            (None, None) => {
                return Err(ConfigError::NoEntity { name: name.clone() });
            },
        }
        assert(all.skip(i as int).drop_first() =~= all.skip(i + 1));
        i = i + 1;
    }
    Ok(())
}

/// The position of the first pattern that matches `name`.
fn first_match<A>(
    patterns: &Vec<(regex::Regex, usize)>,
    Ghost(entries): Ghost<Seq<(Seq<char>, A)>>,
    name: &str,
) -> (r: Option<usize>)
    requires
        covers(patterns@, entries),
    ensures
        match r {
            Some(p) => p < entries.len() && regex_rule(entries, name@) == Some(entries[p as int].1),
            None => regex_rule(entries, name@) is None,
        },
{
    let mut k: usize = 0;
    while k < patterns.len()
        invariant
            k <= patterns.len(),
            covers(patterns@, entries),
            forall|j: int|
                0 <= j < k ==> !key_finds(entries[(#[trigger] patterns@[j]).1 as int].0, name@),
        decreases patterns.len() - k,
    {
        if pattern::is_match(&patterns[k].0, name) {
            let p: usize = patterns[k].1;
            proof {
                assert forall|i: int| 0 <= i < p implies !key_finds(
                    (#[trigger] entries[i]).0,
                    name@,
                ) by {
                    if source_in(entries[i].0) is Some {
                        let j = choose|j: int|
                            0 <= j < patterns@.len() && (#[trigger] patterns@[j]).1 == i;
                        if j > k {
                            assert(patterns@[k as int].1 < patterns@[j].1);
                        }
                    }
                }
                lemma_regex_rule(entries, name@, p as int);
            }
            return Some(p);
        }
        k = k + 1;
    }
    proof {
        assert forall|i: int| 0 <= i < entries.len() implies !key_finds(
            (#[trigger] entries[i]).0,
            name@,
        ) by {
            if source_in(entries[i].0) is Some {
                let j = choose|j: int|
                    0 <= j < patterns@.len() && (#[trigger] patterns@[j]).1 == i;
                assert(!key_finds(entries[patterns@[j].1 as int].0, name@));
            }
        }
        lemma_regex_rule(entries, name@, entries.len() as int);
    }
    None
}

/// The first entry whose key finds `name` decides.
proof fn lemma_regex_rule<A>(entries: Seq<(Seq<char>, A)>, name: Seq<char>, p: int)
    requires
        0 <= p <= entries.len(),
        forall|i: int| 0 <= i < p ==> !key_finds((#[trigger] entries[i]).0, name),
        p < entries.len() ==> key_finds(entries[p].0, name),
    ensures
        regex_rule(entries, name) == (if p < entries.len() {
            Some(entries[p].1)
        } else {
            None
        }),
    decreases entries.len(),
{
    if entries.len() > 0 && p > 0 {
        let rest = entries.drop_first();
        assert(!key_finds(entries[0].0, name));
        assert forall|i: int| 0 <= i < p - 1 implies !key_finds((#[trigger] rest[i]).0, name) by {
            assert(rest[i] == entries[i + 1]);
        }
        lemma_regex_rule(rest, name, p - 1);
    }
}

/// Compile every regex-form key. Runs after the rules themselves were
/// validated; the activities' keys come first.
fn build_patterns(parts: &Parts) -> (r: Result<Patterns, ConfigError>)
    ensures
        match r {
            Ok(patterns) => {
                &&& keys_fault(Domain::Activity, activity_keys(parts@.activities)) is None
                &&& keys_fault(Domain::Workspace, workspace_keys(parts@.workspaces)) is None
                &&& patterns.belong_to(parts@)
            },
            Err(e) => (match keys_fault(Domain::Activity, activity_keys(parts@.activities)) {
                Some(fault) => fault,
                None => keys_fault(Domain::Workspace, workspace_keys(parts@.workspaces))->0,
            }) == e@ && (keys_fault(Domain::Activity, activity_keys(parts@.activities)) is Some
                || keys_fault(Domain::Workspace, workspace_keys(parts@.workspaces)) is Some),
        },
{
    let mut keys: Vec<(&String, bool)> = Vec::new();
    let mut i: usize = 0;
    while i < parts.activities.len()
        invariant
            i <= parts@.activities.len(),
            key_views(keys@) == activity_keys(parts@.activities).take(i as int),
        decreases parts@.activities.len() - i,
    {
        let ghost before = key_views(keys@);
        let key: &String = parts.activities.key_at(i);
        let lacks: bool = parts.activities.value_at(i).entity.is_none();
        keys.push((key, lacks));
        assert(key_views(keys@) =~= before.push((key@, lacks)));
        assert(activity_keys(parts@.activities).take(i + 1) =~= before.push((key@, lacks)));
        i = i + 1;
    }
    assert(activity_keys(parts@.activities).take(i as int) =~= activity_keys(parts@.activities));
    let activities: Vec<(regex::Regex, usize)> = match compile_keys(Domain::Activity, &keys) {
        Ok(patterns) => patterns,
        Err(e) => {
            return Err(e);
        },
    };
    let ghost activity_names = key_views(keys@);
    let mut keys: Vec<(&String, bool)> = Vec::new();
    let mut i: usize = 0;
    while i < parts.workspaces.len()
        invariant
            i <= parts@.workspaces.len(),
            key_views(keys@) == workspace_keys(parts@.workspaces).take(i as int),
        decreases parts@.workspaces.len() - i,
    {
        let ghost before = key_views(keys@);
        let key: &String = parts.workspaces.key_at(i);
        keys.push((key, false));
        assert(key_views(keys@) =~= before.push((key@, false)));
        assert(workspace_keys(parts@.workspaces).take(i + 1) =~= before.push((key@, false)));
        i = i + 1;
    }
    assert(workspace_keys(parts@.workspaces).take(i as int) =~= workspace_keys(parts@.workspaces));
    let workspaces: Vec<(regex::Regex, usize)> = match compile_keys(Domain::Workspace, &keys) {
        Ok(patterns) => patterns,
        Err(e) => {
            return Err(e);
        },
    };
    proof {
        lemma_covers(activities@, activity_names, parts@.activities);
        lemma_covers(workspaces@, key_views(keys@), parts@.workspaces);
    }
    Ok(Patterns { activities, workspaces })
}

/// What several keys say.
spec fn key_views(keys: Seq<(&String, bool)>) -> Seq<(Seq<char>, bool)> {
    keys.map_values(|k: (&String, bool)| (k.0@, k.1))
}

/// Patterns cover a table by its keys alone.
proof fn lemma_covers<A, B>(
    patterns: Seq<(regex::Regex, usize)>,
    keys: Seq<(Seq<char>, A)>,
    entries: Seq<(Seq<char>, B)>,
)
    requires
        covers(patterns, keys),
        keys.len() == entries.len(),
        forall|i: int| 0 <= i < keys.len() ==> (#[trigger] keys[i]).0 == entries[i].0,
    ensures
        covers(patterns, entries),
{
    assert forall|k: int| 0 <= k < patterns.len() implies {
        &&& (#[trigger] patterns[k]).1 < entries.len()
        &&& pattern::plain_pattern(patterns[k].0) is Some
        &&& source_in(entries[patterns[k].1 as int].0) == pattern::plain_pattern(patterns[k].0)
    } by {
        assert(keys[patterns[k].1 as int].0 == entries[patterns[k].1 as int].0);
    }
    assert forall|i: int|
        0 <= i < entries.len() && source_in((#[trigger] entries[i]).0) is Some implies exists|k: int|
        0 <= k < patterns.len() && (#[trigger] patterns[k]).1 == i by {
        assert(keys[i].0 == entries[i].0);
    }
}

fn compile_keys(domain: Domain, keys: &Vec<(&String, bool)>) -> (r: Result<
    Vec<(regex::Regex, usize)>,
    ConfigError,
>)
    ensures
        match r {
            Ok(patterns) => keys_fault(domain, key_views(keys@)) is None && covers(
                patterns@,
                key_views(keys@),
            ),
            Err(e) => keys_fault(domain, key_views(keys@)) == Some(e@),
        },
{
    let ghost all = key_views(keys@);
    let mut patterns: Vec<(regex::Regex, usize)> = Vec::new();
    let mut i: usize = 0;
    assert(all.skip(0) =~= all);
    while i < keys.len()
        invariant
            i <= keys.len(),
            all == key_views(keys@),
            keys_fault(domain, all) == keys_fault(domain, all.skip(i as int)),
            covers(patterns@, all.take(i as int)),
        decreases keys.len() - i,
    {
        assert(all.len() == keys@.len());
        assert(all.skip(i as int)[0] == all[i as int]);
        assert(all[i as int] == (keys@[i as int].0@, keys@[i as int].1));
        let key: &String = keys[i].0;
        let ghost before = patterns@;
        if let Some(source) = regex_source(key.as_str()) {
            if source.is_empty() {
                return Err(ConfigError::EmptyRegex { domain, key: key.clone() });
            }
            if keys[i].1 {
                return Err(ConfigError::RegexWithoutEntity { key: key.clone() });
            }
            match pattern::compile(source) {
                Ok(re) => patterns.push((re, i)),
                Err(detail) => {
                    return Err(ConfigError::InvalidRegex { domain, key: key.clone(), detail });
                },
            }
        }
        proof {
            let done = all.take(i + 1);
            let front = all.take(i as int);
            assert forall|k: int| 0 <= k < patterns@.len() implies {
                &&& (#[trigger] patterns@[k]).1 < done.len()
                &&& pattern::plain_pattern(patterns@[k].0) is Some
                &&& source_in(done[patterns@[k].1 as int].0) == pattern::plain_pattern(
                    patterns@[k].0,
                )
            } by {
                if k < before.len() {
                    assert(patterns@[k] == before[k]);
                    assert(done[before[k].1 as int] == front[before[k].1 as int]);
                }
            }
            assert forall|j: int, k: int| 0 <= j < k < patterns@.len() implies (
            #[trigger] patterns@[j]).1 < (#[trigger] patterns@[k]).1 by {
                assert(patterns@[j] == before[j]);
                if k < before.len() {
                    assert(patterns@[k] == before[k]);
                }
            }
            assert forall|m: int|
                0 <= m < done.len() && source_in((#[trigger] done[m]).0) is Some implies exists|
                k: int,
            |
                0 <= k < patterns@.len() && (#[trigger] patterns@[k]).1 == m by {
                if m < i {
                    assert(front[m] == done[m]);
                    let k = choose|k: int| 0 <= k < before.len() && (#[trigger] before[k]).1 == m;
                    assert(patterns@[k] == before[k]);
                } else {
                    assert(patterns@[patterns@.len() - 1].1 == m);
                }
            }
            assert(covers(patterns@, done));
        }
        assert(all.skip(i as int).drop_first() =~= all.skip(i + 1));
        i = i + 1;
    }
    assert(all.take(i as int) =~= all);
    Ok(patterns)
}

/// A rule that stands in a table is found by its entity.
proof fn lemma_activity_for(activities: Seq<(Seq<char>, ActivityRuleView)>, i: int)
    requires
        0 <= i < activities.len(),
    ensures
        activity_for(activities, or_value(activities[i].1.entity, activities[i].0)) is Some,
    decreases activities.len(),
{
    if i > 0 {
        let rest = activities.drop_first();
        assert(rest[i - 1] == activities[i]);
        lemma_activity_for(rest, i - 1);
    }
}

/// A workspace rule with a category that stands in a table is found by its entity.
proof fn lemma_workspace_for(workspaces: Seq<(Seq<char>, WorkspaceRuleView)>, i: int)
    requires
        0 <= i < workspaces.len(),
        workspaces[i].1.entity is Some,
        workspaces[i].1.category is Some,
    ensures
        workspace_for(workspaces, workspaces[i].1.entity->0) is Some,
    decreases workspaces.len(),
{
    if i > 0 {
        let rest = workspaces.drop_first();
        assert(rest[i - 1] == workspaces[i]);
        lemma_workspace_for(rest, i - 1);
    }
}

/// A rule that matches stands in the table, under the very name or else under a
/// regex key that matches it.
proof fn lemma_matching_entry<A>(entries: Seq<(Seq<char>, A)>, name: Seq<char>) -> (i: int)
    requires
        matching_rule(entries, name) is Some,
    ensures
        0 <= i < entries.len(),
        entries[i].0 == name || (table::lookup(entries, name) is None && key_finds(
            entries[i].0,
            name,
        )),
        matching_rule(entries, name) == Some(entries[i].1),
{
    match table::lookup(entries, name) {
        Some(rule) => {
            table::lemma_lookup(entries, name);
            choose|i: int| 0 <= i < entries.len() && entries[i] == (name, rule)
        },
        None => lemma_regex_rule_entry(entries, name),
    }
}

/// A rule that matches by a regex key stands in the table, under a key that
/// matches.
proof fn lemma_regex_rule_entry<A>(entries: Seq<(Seq<char>, A)>, name: Seq<char>) -> (i: int)
    requires
        regex_rule(entries, name) is Some,
    ensures
        0 <= i < entries.len(),
        key_finds(entries[i].0, name),
        regex_rule(entries, name) == Some(entries[i].1),
    decreases entries.len(),
{
    if key_finds(entries[0].0, name) {
        0
    } else {
        let i = lemma_regex_rule_entry(entries.drop_first(), name);
        i + 1
    }
}

/// Without a fault among the keys, no key has one.
proof fn lemma_no_key_fault(domain: Domain, keys: Seq<(Seq<char>, bool)>, i: int)
    requires
        keys_fault(domain, keys) is None,
        0 <= i < keys.len(),
    ensures
        key_fault(domain, keys[i].0, keys[i].1) is None,
    decreases keys.len(),
{
    if i > 0 {
        let rest = keys.drop_first();
        assert(rest[i - 1] == keys[i]);
        lemma_no_key_fault(domain, rest, i - 1);
    }
}

/// A context never calls for an entity that cannot be resolved afterwards: in a
/// configuration without a fault, the entity of every rule that a context calls
/// for has placeholder parameters.
pub proof fn law_tracked_entities_resolve(config: ConfigView, ctx: ContextView)
    ensures
        config.fault() is None ==> (config.effective(ctx) matches Some(rule) ==> config.rule_for(
            rule.entity,
        ) is Some),
{
    if config.fault() is None && config.effective(ctx) is Some {
        let rule = config.effective(ctx)->0;
        lemma_no_fault(config.activities, config.workspaces);
        if ctx.workspace is Some && matching_rule(config.workspaces, ctx.workspace->0) is Some {
            let ws = ctx.workspace->0;
            let i = lemma_matching_entry(config.workspaces, ws);
            assert(workspace_fault(
                config.activities,
                config.workspaces[i].0,
                config.workspaces[i].1,
            ) is None);
            if config.workspaces[i].1.category is Some {
                lemma_workspace_for(config.workspaces, i);
            }
        } else {
            let i = lemma_matching_entry(config.activities, ctx.activity->0);
            lemma_no_key_fault(Domain::Activity, activity_keys(config.activities), i);
            lemma_activity_for(config.activities, i);
        }
    }
}

/// Within a table an exact key beats every regex.
pub proof fn law_exact_keys_win<A>(entries: Seq<(Seq<char>, A)>, i: int)
    requires
        table::is_sorted(entries),
        0 <= i < entries.len(),
    ensures
        matching_rule(entries, entries[i].0) == Some(entries[i].1),
{
    table::lemma_lookup_sorted(entries, i);
}

/// Where a table has no exact key for a name, the first regex in the order of
/// the keys that matches the name wins.
pub proof fn law_first_regex_wins<A>(entries: Seq<(Seq<char>, A)>, name: Seq<char>, i: int)
    requires
        table::is_sorted(entries),
        table::lookup(entries, name) is None,
        0 <= i < entries.len(),
    ensures
        key_finds(entries[i].0, name) && (forall|j: int|
            0 <= j < entries.len() && key_finds((#[trigger] entries[j]).0, name) && j != i
                ==> text::precedes(entries[i].0, entries[j].0)) ==> matching_rule(entries, name)
            == Some(entries[i].1),
{
    if key_finds(entries[i].0, name) && (forall|j: int|
        0 <= j < entries.len() && key_finds((#[trigger] entries[j]).0, name) && j != i
            ==> text::precedes(entries[i].0, entries[j].0)) {
        assert forall|j: int| 0 <= j < i implies !key_finds((#[trigger] entries[j]).0, name) by {
            if key_finds(entries[j].0, name) {
                assert(text::precedes(entries[j].0, entries[i].0));
                text::lemma_precedes_total(entries[i].0, entries[j].0);
            }
        }
        lemma_regex_rule(entries, name, i);
    }
}

/// A name has a rule just where a key equals it or a regex matches it.
pub proof fn law_only_matched_names_have_a_rule<A>(entries: Seq<(Seq<char>, A)>, name: Seq<char>)
    ensures
        matching_rule(entries, name) is Some <==> exists|i: int|
            0 <= i < entries.len() && ((#[trigger] entries[i]).0 == name || key_finds(
                entries[i].0,
                name,
            )),
{
    table::lemma_lookup(entries, name);
    if matching_rule(entries, name) is None {
        if exists|i: int| 0 <= i < entries.len() && key_finds((#[trigger] entries[i]).0, name) {
            lemma_some_regex_rule(
                entries,
                name,
                choose|i: int| 0 <= i < entries.len() && key_finds((#[trigger] entries[i]).0, name),
            );
        }
    } else {
        let i = lemma_matching_entry(entries, name);
        assert(entries[i].0 == name || key_finds(entries[i].0, name));
    }
}

/// Where a regex key matches a name, some regex rule does.
proof fn lemma_some_regex_rule<A>(entries: Seq<(Seq<char>, A)>, name: Seq<char>, i: int)
    requires
        0 <= i < entries.len(),
        key_finds(entries[i].0, name),
    ensures
        regex_rule(entries, name) is Some,
    decreases entries.len(),
{
    if i > 0 {
        assert(entries.drop_first()[i - 1] == entries[i]);
        lemma_some_regex_rule(entries.drop_first(), name, i - 1);
    }
}

/// A workspace rule overrides the activity. Where one matches, the activity
/// makes no difference: `track = false` leaves the context untracked, and any
/// other rule of a configuration without a fault has it tracked.
pub proof fn law_workspace_overrides_activity(
    config: ConfigView,
    ws: Seq<char>,
    a: Option<Seq<char>>,
    b: Option<Seq<char>>,
)
    ensures
        matching_rule(config.workspaces, ws) matches Some(rule) ==> {
            let here = ContextView { workspace: Some(ws), activity: a };
            &&& config.effective(here) == config.effective(ContextView { activity: b, ..here })
            &&& rule.track == Some(false) ==> config.effective(here) is None
            &&& config.fault() is None && rule.track != Some(false) ==> config.effective(
                here,
            ) is Some
        },
{
    if config.fault() is None && matching_rule(config.workspaces, ws) is Some {
        lemma_no_fault(config.activities, config.workspaces);
        let i = lemma_matching_entry(config.workspaces, ws);
        assert(workspace_fault(
            config.activities,
            config.workspaces[i].0,
            config.workspaces[i].1,
        ) is None);
        if let Some(flag) = config.workspaces[i].1.track {
            assert(flag || !flag);
        }
    }
}

/// A named workspace without a rule leaves the decision to the activity.
pub proof fn law_unruled_workspace_defers(
    config: ConfigView,
    ws: Seq<char>,
    activity: Option<Seq<char>>,
)
    ensures
        matching_rule(config.workspaces, ws) is None ==> config.effective(
            ContextView { workspace: Some(ws), activity },
        ) == config.effective(ContextView { workspace: None, activity }),
{
}

/// A key is regex-form just where it is its pattern between two slashes.
pub proof fn law_regex_keys_stand_between_slashes(key: Seq<char>, source: Seq<char>)
    ensures
        source_in(key) == Some(source) <==> key == seq!['/'] + source + seq!['/'],
        source_in(key) is None <==> key.len() < 2 || key[0] != '/' || key[key.len() - 1] != '/',
{
    if source_in(key) == Some(source) {
        assert(key =~= seq!['/'] + source + seq!['/']);
    }
    if key == seq!['/'] + source + seq!['/'] {
        assert(key.subrange(1, key.len() - 1) =~= source);
    }
}

/// A regex key matches a name just where its pattern does, and a literal key
/// matches none.
pub proof fn law_regex_keys_match_by_their_pattern(key: Seq<char>, name: Seq<char>)
    ensures
        forall|source: Seq<char>| #[trigger]
            (seq!['/'] + source + seq!['/']) == key ==> (key_finds(key, name)
                <==> pattern::pattern_finds(source, name)),
        key_finds(key, name) ==> key.len() >= 2 && key[0] == '/' && key[key.len() - 1] == '/',
{
    assert forall|source: Seq<char>| #[trigger]
        (seq!['/'] + source + seq!['/']) == key implies (key_finds(key, name)
        <==> pattern::pattern_finds(source, name)) by {
        law_regex_keys_stand_between_slashes(key, source);
    }
}

/// The first activity rule whose own entity is the wanted one is found.
proof fn lemma_first_activity(
    activities: Seq<(Seq<char>, ActivityRuleView)>,
    entity: Seq<char>,
    i: int,
)
    requires
        0 <= i < activities.len(),
        (activities[i].1.entity == Some(entity) || (activities[i].1.entity is None && activities[i].0 == entity)),
        forall|j: int|
            0 <= j < i ==> !((#[trigger] activities[j]).1.entity == Some(entity) || (activities[j].1.entity is None && activities[j].0 == entity)),
    ensures
        activity_for(activities, entity) == Some(activities[i].1),
    decreases activities.len(),
{
    if i > 0 {
        let rest = activities.drop_first();
        assert(!(activities[0].1.entity == Some(entity) || (activities[0].1.entity is None && activities[0].0 == entity)));
        assert(rest[i - 1] == activities[i]);
        assert forall|j: int| 0 <= j < i - 1 implies !((#[trigger] rest[j]).1.entity == Some(entity) || (rest[j].1.entity is None && rest[j].0 == entity)) by {
            assert(rest[j] == activities[j + 1]);
        }
        lemma_first_activity(rest, entity, i - 1);
    }
}

proof fn lemma_no_activity(activities: Seq<(Seq<char>, ActivityRuleView)>, entity: Seq<char>)
    ensures
        activity_for(activities, entity) is None <==> forall|j: int|
            0 <= j < activities.len() ==> !((#[trigger] activities[j]).1.entity == Some(entity) || (activities[j].1.entity is None && activities[j].0 == entity)),
    decreases activities.len(),
{
    if activities.len() > 0 {
        let rest = activities.drop_first();
        lemma_no_activity(rest, entity);
        if activity_for(activities, entity) is None {
            assert forall|j: int| 0 <= j < activities.len() implies !((#[trigger] activities[j]).1.entity == Some(entity) || (activities[j].1.entity is None && activities[j].0 == entity)) by {
                if j > 0 {
                    assert(rest[j - 1] == activities[j]);
                }
            }
        } else if !(activities[0].1.entity == Some(entity) || (activities[0].1.entity is None && activities[0].0 == entity)) {
            let j = choose|j: int| 0 <= j < rest.len() && ((#[trigger] rest[j]).1.entity == Some(entity) || (rest[j].1.entity is None && rest[j].0 == entity));
            assert(activities[j + 1] == rest[j]);
        }
    }
}

/// What an entity that an activity rule has resolves to: the first such rule in
/// the order of the keys, where a rule without an entity has its key for one. The
/// category is that rule's, and so are the placeholders where it sets them; where
/// it sets none they are the defaults'.
pub proof fn law_activity_rules_resolve(config: ConfigView, entity: Seq<char>, i: int)
    requires
        0 <= i < config.activities.len(),
        (config.activities[i].1.entity == Some(entity) || (config.activities[i].1.entity is None && config.activities[i].0 == entity)),
        forall|j: int|
            0 <= j < i ==> !((#[trigger] config.activities[j]).1.entity == Some(entity) || (config.activities[j].1.entity is None && config.activities[j].0 == entity)),
    ensures
        ({
            let rule = config.activities[i].1;
            &&& activity_for(config.activities, entity) == Some(rule)
            &&& config.rule_for(entity) matches Some(r) && {
                &&& r.entity == entity
                &&& r.category == rule.category
                &&& rule.placeholder_activity matches Some(s) ==> r.placeholder_activity == s
                &&& rule.placeholder_activity is None ==> r.placeholder_activity
                    == config.defaults.placeholder_activity
                &&& rule.placeholder_description matches Some(s) ==> r.placeholder_description
                    == s
                &&& rule.placeholder_description is None ==> r.placeholder_description
                    == config.defaults.placeholder_description
            }
        }),
{
    lemma_first_activity(config.activities, entity, i);
}

proof fn lemma_first_workspace(
    workspaces: Seq<(Seq<char>, WorkspaceRuleView)>,
    entity: Seq<char>,
    i: int,
)
    requires
        0 <= i < workspaces.len(),
        workspaces[i].1.entity == Some(entity),
        workspaces[i].1.category is Some,
        forall|j: int|
            0 <= j < i ==> (#[trigger] workspaces[j]).1.entity != Some(entity)
                || workspaces[j].1.category is None,
    ensures
        workspace_for(workspaces, entity) == Some(workspaces[i].1),
    decreases workspaces.len(),
{
    if i > 0 {
        let rest = workspaces.drop_first();
        assert(workspaces[0].1.entity != Some(entity) || workspaces[0].1.category is None);
        assert(rest[i - 1] == workspaces[i]);
        assert forall|j: int| 0 <= j < i - 1 implies (#[trigger] rest[j]).1.entity != Some(entity)
            || rest[j].1.category is None by {
            assert(rest[j] == workspaces[j + 1]);
        }
        lemma_first_workspace(rest, entity, i - 1);
    }
}

proof fn lemma_no_workspace(workspaces: Seq<(Seq<char>, WorkspaceRuleView)>, entity: Seq<char>)
    ensures
        workspace_for(workspaces, entity) is None <==> forall|j: int|
            0 <= j < workspaces.len() ==> (#[trigger] workspaces[j]).1.entity != Some(entity)
                || workspaces[j].1.category is None,
    decreases workspaces.len(),
{
    if workspaces.len() > 0 {
        let rest = workspaces.drop_first();
        lemma_no_workspace(rest, entity);
        if workspace_for(workspaces, entity) is None {
            assert forall|j: int| 0 <= j < workspaces.len() implies (
            #[trigger] workspaces[j]).1.entity != Some(entity)
                || workspaces[j].1.category is None by {
                if j > 0 {
                    assert(rest[j - 1] == workspaces[j]);
                }
            }
        } else if workspaces[0].1.entity != Some(entity) || workspaces[0].1.category is None {
            let j = choose|j: int|
                0 <= j < rest.len() && (#[trigger] rest[j]).1.entity == Some(entity)
                    && rest[j].1.category is Some;
            assert(workspaces[j + 1] == rest[j]);
        }
    }
}

/// What an entity that no activity rule has resolves to: the first workspace rule
/// with that entity and a category, and for what it leaves open the defaults.
pub proof fn law_workspace_rules_resolve(config: ConfigView, entity: Seq<char>, i: int)
    requires
        forall|j: int|
            0 <= j < config.activities.len() ==> !((#[trigger] config.activities[j]).1.entity == Some(entity) || (config.activities[j].1.entity is None && config.activities[j].0 == entity)),
        0 <= i < config.workspaces.len(),
        config.workspaces[i].1.entity == Some(entity),
        config.workspaces[i].1.category is Some,
        forall|j: int|
            0 <= j < i ==> (#[trigger] config.workspaces[j]).1.entity != Some(entity)
                || config.workspaces[j].1.category is None,
    ensures
        ({
            let rule = config.workspaces[i].1;
            config.rule_for(entity) matches Some(r) && {
                &&& r.entity == entity
                &&& rule.category == Some(r.category)
                &&& rule.placeholder_activity matches Some(s) ==> r.placeholder_activity == s
                &&& rule.placeholder_activity is None ==> r.placeholder_activity
                    == config.defaults.placeholder_activity
                &&& rule.placeholder_description matches Some(s) ==> r.placeholder_description
                    == s
                &&& rule.placeholder_description is None ==> r.placeholder_description
                    == config.defaults.placeholder_description
            }
        }),
{
    lemma_no_activity(config.activities, entity);
    lemma_first_workspace(config.workspaces, entity, i);
}

/// An entity resolves to nothing just where neither an activity rule has it nor a
/// workspace rule has it with a category.
pub proof fn law_only_ruled_entities_resolve(config: ConfigView, entity: Seq<char>)
    ensures
        activity_for(config.activities, entity) is None <==> forall|j: int|
            0 <= j < config.activities.len() ==> !((#[trigger] config.activities[j]).1.entity == Some(entity) || (config.activities[j].1.entity is None && config.activities[j].0 == entity)),
        config.rule_for(entity) is None <==> (forall|j: int|
            0 <= j < config.activities.len() ==> !((#[trigger] config.activities[j]).1.entity == Some(entity) || (config.activities[j].1.entity is None && config.activities[j].0 == entity))) && forall|j: int|
            0 <= j < config.workspaces.len() ==> (#[trigger] config.workspaces[j]).1.entity
                != Some(entity) || config.workspaces[j].1.category is None,
{
    lemma_no_activity(config.activities, entity);
    lemma_no_workspace(config.workspaces, entity);
}

/// What an activity calls for where no workspace rule decides: its rule, with the
/// activity for an entity where the rule has none, and the defaults' placeholders
/// where the rule sets none. Without a rule it calls for nothing, and so does no
/// activity.
pub proof fn law_activities_decide(config: ConfigView, ctx: ContextView, name: Seq<char>)
    ensures
        (ctx.workspace matches Some(ws) ==> matching_rule(config.workspaces, ws) is None) ==> {
            &&& ctx.activity is None ==> config.effective(ctx) is None
            &&& ctx.activity == Some(name) ==> {
                match matching_rule(config.activities, name) {
                    None => config.effective(ctx) is None,
                    Some(rule) => config.effective(ctx) matches Some(r) && {
                        &&& rule.entity matches Some(e) ==> r.entity == e
                        &&& rule.entity is None ==> r.entity == name
                        &&& r.category == rule.category
                        &&& rule.placeholder_activity matches Some(s)
                            ==> r.placeholder_activity == s
                        &&& rule.placeholder_activity is None ==> r.placeholder_activity
                            == config.defaults.placeholder_activity
                        &&& rule.placeholder_description matches Some(s)
                            ==> r.placeholder_description == s
                        &&& rule.placeholder_description is None
                            ==> r.placeholder_description
                            == config.defaults.placeholder_description
                    },
                }
            }
        },
{
}

/// What a workspace with a rule calls for where an activity rule has the same
/// entity: what the workspace rule sets, and for what it leaves open what the first
/// such activity rule sets, and then the defaults.
pub proof fn law_workspaces_fall_back_to_activities(
    config: ConfigView,
    ctx: ContextView,
    ws: Seq<char>,
    entity: Seq<char>,
    i: int,
)
    requires
        0 <= i < config.activities.len(),
        (config.activities[i].1.entity == Some(entity) || (config.activities[i].1.entity is None && config.activities[i].0 == entity)),
        forall|j: int|
            0 <= j < i ==> !((#[trigger] config.activities[j]).1.entity == Some(entity) || (config.activities[j].1.entity is None && config.activities[j].0 == entity)),
    ensures
        ctx.workspace == Some(ws) ==> (matching_rule(config.workspaces, ws) matches Some(rule)
            ==> rule.entity == Some(entity) && rule.track != Some(false) ==> {
            let base = config.activities[i].1;
            config.effective(ctx) matches Some(r) && {
                &&& r.entity == entity
                &&& rule.category matches Some(s) ==> r.category == s
                &&& rule.category is None ==> r.category == base.category
                &&& rule.placeholder_activity matches Some(s) ==> r.placeholder_activity == s
                &&& rule.placeholder_activity is None && base.placeholder_activity is Some
                    ==> Some(r.placeholder_activity) == base.placeholder_activity
                &&& rule.placeholder_activity is None && base.placeholder_activity is None
                    ==> r.placeholder_activity == config.defaults.placeholder_activity
                &&& rule.placeholder_description matches Some(s) ==> r.placeholder_description
                    == s
                &&& rule.placeholder_description is None
                    && base.placeholder_description is Some ==> Some(r.placeholder_description)
                    == base.placeholder_description
                &&& rule.placeholder_description is None
                    && base.placeholder_description is None ==> r.placeholder_description
                    == config.defaults.placeholder_description
            }
        }),
{
    lemma_first_activity(config.activities, entity, i);
}

/// What a workspace with a rule calls for where no activity rule has its entity:
/// what the rule sets, and the defaults' placeholders where it sets none. One
/// without an entity, or with `track = false`, calls for nothing.
pub proof fn law_workspaces_decide(
    config: ConfigView,
    ctx: ContextView,
    ws: Seq<char>,
    entity: Seq<char>,
)
    ensures
        ctx.workspace == Some(ws) ==> (matching_rule(config.workspaces, ws) matches Some(rule)
            ==> {
            &&& rule.entity is None || rule.track == Some(false) ==> config.effective(ctx) is None
            &&& rule.entity == Some(entity) && rule.track != Some(false) && (
                forall|j: int|
            0 <= j < config.activities.len() ==> !((#[trigger] config.activities[j]).1.entity == Some(entity) || (config.activities[j].1.entity is None && config.activities[j].0 == entity))) ==> {
                config.effective(ctx) matches Some(r) && {
                    &&& r.entity == entity
                    &&& rule.category matches Some(s) ==> r.category == s
                    &&& rule.placeholder_activity matches Some(s) ==> r.placeholder_activity
                        == s
                    &&& rule.placeholder_activity is None ==> r.placeholder_activity
                        == config.defaults.placeholder_activity
                    &&& rule.placeholder_description matches Some(s)
                        ==> r.placeholder_description == s
                    &&& rule.placeholder_description is None ==> r.placeholder_description
                        == config.defaults.placeholder_description
                }
            }
        }),
{
    lemma_no_activity(config.activities, entity);
}

/// When a workspace rule is at fault: it says `track = true`; or has an entity and
/// says `track = false`; or has an entity and neither a category nor an activity
/// rule with that entity; or says nothing at all. Each fault names the rule.
pub proof fn law_workspace_rules_at_fault(
    config: ConfigView,
    name: Seq<char>,
    rule: WorkspaceRuleView,
    entity: Seq<char>,
)
    ensures
        ({
            let fault = workspace_fault(config.activities, name, rule);
            &&& rule.track == Some(true) ==> fault == Some(ErrorView::TrackTrue(name))
            &&& rule.track == Some(false) && rule.entity is Some ==> fault == Some(
                ErrorView::EntityUntracked(name),
            )
            &&& rule.track == Some(false) && rule.entity is None ==> fault is None
            &&& rule.track is None && rule.entity is None ==> fault == Some(
                ErrorView::NoEntity(name),
            )
            &&& rule.track is None && rule.entity == Some(entity) && rule.category is Some
                ==> fault is None
            &&& rule.track is None && rule.entity == Some(entity) && rule.category is None ==> (
            if forall|j: int|
            0 <= j < config.activities.len() ==> !((#[trigger] config.activities[j]).1.entity == Some(entity) || (config.activities[j].1.entity is None && config.activities[j].0 == entity)) {
                fault == Some(ErrorView::NoCategory(name, entity))
            } else {
                fault is None
            })
        }),
{
    lemma_no_activity(config.activities, entity);
    if let Some(flag) = rule.track {
        assert(flag || !flag);
    }
}

/// When a key is at fault: its pattern is empty, or its rule lacks an entity that
/// it needs, or the pattern does not compile; a literal key never is. Each fault
/// names the key.
pub proof fn law_keys_at_fault(domain: Domain, key: Seq<char>, lacks: bool)
    ensures
        key.len() < 2 || key[0] != '/' || key[key.len() - 1] != '/' ==> key_fault(
            domain,
            key,
            lacks,
        ) is None,
        key == seq!['/', '/'] ==> key_fault(domain, key, lacks) == Some(
            ErrorView::EmptyRegex(domain, key),
        ),
        forall|source: Seq<char>| #[trigger]
            (seq!['/'] + source + seq!['/']) == key && source.len() > 0 ==> {
                &&& lacks ==> key_fault(domain, key, lacks) == Some(
                    ErrorView::RegexWithoutEntity(key),
                )
                &&& !lacks ==> match pattern::pattern_fault(source) {
                    Some(detail) => key_fault(domain, key, lacks) == Some(
                        ErrorView::InvalidRegex(domain, key, detail),
                    ),
                    None => key_fault(domain, key, lacks) is None,
                }
            },
{
    assert forall|source: Seq<char>| #[trigger]
        (seq!['/'] + source + seq!['/']) == key && source.len() > 0 implies source_in(key)
        == Some(source) by {
        law_regex_keys_stand_between_slashes(key, source);
    }
}

proof fn lemma_workspaces_fault(
    activities: Seq<(Seq<char>, ActivityRuleView)>,
    workspaces: Seq<(Seq<char>, WorkspaceRuleView)>,
    i: int,
)
    ensures
        0 <= i < workspaces.len() && workspace_fault(
            activities,
            workspaces[i].0,
            workspaces[i].1,
        ) is Some && (forall|j: int|
            0 <= j < i ==> workspace_fault(
                activities,
                (#[trigger] workspaces[j]).0,
                workspaces[j].1,
            ) is None) ==> workspaces_fault(activities, workspaces) == workspace_fault(
            activities,
            workspaces[i].0,
            workspaces[i].1,
        ),
        (forall|j: int|
            0 <= j < workspaces.len() ==> workspace_fault(
                activities,
                (#[trigger] workspaces[j]).0,
                workspaces[j].1,
            ) is None) ==> workspaces_fault(activities, workspaces) is None,
    decreases workspaces.len(),
{
    if workspaces.len() > 0 {
        let rest = workspaces.drop_first();
        assert forall|j: int| 0 <= j < rest.len() implies #[trigger] rest[j] == workspaces[j
            + 1] by {}
        lemma_workspaces_fault(activities, rest, i - 1);
        if workspace_fault(activities, workspaces[0].0, workspaces[0].1) is None {
            if forall|j: int|
                0 <= j < workspaces.len() ==> workspace_fault(
                    activities,
                    (#[trigger] workspaces[j]).0,
                    workspaces[j].1,
                ) is None {
                assert forall|j: int| 0 <= j < rest.len() implies workspace_fault(
                    activities,
                    (#[trigger] rest[j]).0,
                    rest[j].1,
                ) is None by {
                    assert(rest[j] == workspaces[j + 1]);
                }
            }
            if 0 < i < workspaces.len() && (forall|j: int|
                0 <= j < i ==> workspace_fault(
                    activities,
                    (#[trigger] workspaces[j]).0,
                    workspaces[j].1,
                ) is None) {
                assert(rest[i - 1] == workspaces[i]);
                assert forall|j: int| 0 <= j < i - 1 implies workspace_fault(
                    activities,
                    (#[trigger] rest[j]).0,
                    rest[j].1,
                ) is None by {
                    assert(rest[j] == workspaces[j + 1]);
                }
            }
        }
    }
}

proof fn lemma_keys_fault(domain: Domain, keys: Seq<(Seq<char>, bool)>, i: int)
    ensures
        0 <= i < keys.len() && key_fault(domain, keys[i].0, keys[i].1) is Some && (forall|j: int|
            0 <= j < i ==> key_fault(domain, (#[trigger] keys[j]).0, keys[j].1) is None)
            ==> keys_fault(domain, keys) == key_fault(domain, keys[i].0, keys[i].1),
        (forall|j: int|
            0 <= j < keys.len() ==> key_fault(
                domain,
                (#[trigger] keys[j]).0,
                keys[j].1,
            ) is None) ==> keys_fault(domain, keys) is None,
    decreases keys.len(),
{
    if keys.len() > 0 {
        let rest = keys.drop_first();
        lemma_keys_fault(domain, rest, i - 1);
        if key_fault(domain, keys[0].0, keys[0].1) is None {
            if forall|j: int|
                0 <= j < keys.len() ==> key_fault(
                    domain,
                    (#[trigger] keys[j]).0,
                    keys[j].1,
                ) is None {
                assert forall|j: int| 0 <= j < rest.len() implies key_fault(
                    domain,
                    (#[trigger] rest[j]).0,
                    rest[j].1,
                ) is None by {
                    assert(rest[j] == keys[j + 1]);
                }
            }
            if 0 < i < keys.len() && (forall|j: int|
                0 <= j < i ==> key_fault(domain, (#[trigger] keys[j]).0, keys[j].1) is None) {
                assert(rest[i - 1] == keys[i]);
                assert forall|j: int| 0 <= j < i - 1 implies key_fault(
                    domain,
                    (#[trigger] rest[j]).0,
                    rest[j].1,
                ) is None by {
                    assert(rest[j] == keys[j + 1]);
                }
            }
        }
    }
}

/// Which fault of a configuration is told: the first one of a workspace rule; if
/// there is none, the first one of an activity key, whose rule needs an entity;
/// and if there is none, the first one of a workspace key. Without any the
/// configuration has no fault.
pub proof fn law_the_first_fault_is_told(config: ConfigView, i: int)
    ensures
        ({
            let a = config.activities;
            let w = config.workspaces;
            let ruled = |k: int| workspace_fault(a, w[k].0, w[k].1);
            let akey = |k: int| key_fault(Domain::Activity, a[k].0, a[k].1.entity is None);
            let wkey = |k: int| key_fault(Domain::Workspace, w[k].0, false);
            &&& 0 <= i < w.len() && ruled(i) is Some && (forall|k: int|
                0 <= k < i ==> (#[trigger] ruled(k)) is None) ==> config.fault() == ruled(i)
            &&& (forall|k: int| 0 <= k < w.len() ==> (#[trigger] ruled(k)) is None) ==> {
                &&& 0 <= i < a.len() && akey(i) is Some && (forall|k: int|
                    0 <= k < i ==> (#[trigger] akey(k)) is None) ==> config.fault() == akey(i)
                &&& (forall|k: int| 0 <= k < a.len() ==> (#[trigger] akey(k)) is None) ==> {
                    &&& 0 <= i < w.len() && wkey(i) is Some && (forall|k: int|
                        0 <= k < i ==> (#[trigger] wkey(k)) is None) ==> config.fault()
                        == wkey(i)
                    &&& (forall|k: int| 0 <= k < w.len() ==> (#[trigger] wkey(k)) is None)
                        ==> config.fault() is None
                }
            }
        }),
{
    let a = config.activities;
    let w = config.workspaces;
    let ruled = |k: int| workspace_fault(a, w[k].0, w[k].1);
    let akey = |k: int| key_fault(Domain::Activity, a[k].0, a[k].1.entity is None);
    let wkey = |k: int| key_fault(Domain::Workspace, w[k].0, false);
    assert forall|k: int| 0 <= k < w.len() implies #[trigger] workspace_fault(
        a,
        w[k].0,
        w[k].1,
    ) == ruled(k) by {}
    let ak = activity_keys(a);
    let wk = workspace_keys(w);
    assert forall|k: int| 0 <= k < a.len() implies #[trigger] key_fault(
        Domain::Activity,
        ak[k].0,
        ak[k].1,
    ) == akey(k) by {}
    assert forall|k: int| 0 <= k < w.len() implies #[trigger] key_fault(
        Domain::Workspace,
        wk[k].0,
        wk[k].1,
    ) == wkey(k) by {}
    lemma_workspaces_fault(a, w, i);
    lemma_keys_fault(Domain::Activity, ak, i);
    lemma_keys_fault(Domain::Workspace, wk, i);
}

/// What a text is read as: a configuration just where its TOML has the shape of one
/// that has no fault. A fault is told as it is, and text that is no TOML, or has
/// another shape, by the complaint about it.
pub proof fn law_only_faultless_texts_are_read(s: Seq<char>)
    ensures
        match source::toml_node(s) {
            Err(complaint) => parsed(s) == Err::<ConfigView, ErrorView>(
                ErrorView::InvalidToml(complaint),
            ),
            Ok(n) => match schema::config_in(n, s) {
                Err(complaint) => parsed(s) == Err::<ConfigView, ErrorView>(
                    ErrorView::InvalidToml(complaint),
                ),
                Ok(config) => {
                    &&& config.fault() is None ==> parsed(s) == Ok::<ConfigView, ErrorView>(config)
                    &&& config.fault() matches Some(e) ==> parsed(s) == Err::<
                        ConfigView,
                        ErrorView,
                    >(e)
                },
            },
        },
{
}

/// What the views of rules and defaults say is what these hold.
pub proof fn law_views_hold_the_rules(
    a: ActivityRule,
    w: WorkspaceRule,
    r: TrackedRule,
    d: Defaults,
)
    ensures
        a@.category == a.category@,
        a@.entity is Some <==> a.entity is Some,
        a.entity matches Some(s) ==> a@.entity == Some(s@),
        a@.placeholder_activity is Some <==> a.placeholder_activity is Some,
        a.placeholder_activity matches Some(s) ==> a@.placeholder_activity == Some(s@),
        a@.placeholder_description is Some <==> a.placeholder_description is Some,
        a.placeholder_description matches Some(s) ==> a@.placeholder_description == Some(s@),
        w@.track == w.track,
        w@.entity is Some <==> w.entity is Some,
        w.entity matches Some(s) ==> w@.entity == Some(s@),
        w@.category is Some <==> w.category is Some,
        w.category matches Some(s) ==> w@.category == Some(s@),
        w@.placeholder_activity is Some <==> w.placeholder_activity is Some,
        w.placeholder_activity matches Some(s) ==> w@.placeholder_activity == Some(s@),
        w@.placeholder_description is Some <==> w.placeholder_description is Some,
        w.placeholder_description matches Some(s) ==> w@.placeholder_description == Some(s@),
        r@.entity == r.entity@,
        r@.category == r.category@,
        r@.placeholder_activity == r.placeholder_activity@,
        r@.placeholder_description == r.placeholder_description@,
        d@.switch_immediate == d.switch_immediate,
        d@.return_debounce_secs == d.return_debounce_secs,
        d@.untracked_grace_secs == d.untracked_grace_secs,
        d@.resume_lookback_days == d.resume_lookback_days,
        d@.mark_continuations == d.mark_continuations,
        d@.entity_tag_key == d.entity_tag_key@,
        d@.placeholder_activity == d.placeholder_activity@,
        d@.placeholder_description == d.placeholder_description@,
        d@.extra_tags.len() == d.extra_tags@.len(),
        forall|i: int|
            0 <= i < d.extra_tags@.len() ==> #[trigger] d@.extra_tags[i] == d.extra_tags@[i]@,
{
}

/// Every message about a rule begins with the table and the name of the rule.
pub proof fn law_messages_quote_the_rule(e: ErrorView, name: Seq<char>, entity: Seq<char>)
    ensures
        ({
            let activity = "activity"@ + " rule '"@ + name + "': "@;
            let workspace = "workspace"@ + " rule '"@ + name + "': "@;
            &&& e == ErrorView::TrackTrue(name) || e == ErrorView::EntityUntracked(name) || e
                == ErrorView::NoEntity(name) || e == ErrorView::NoCategory(name, entity) || e
                == ErrorView::EmptyRegex(Domain::Workspace, name) ==> workspace.is_prefix_of(
                e.message(),
            )
            &&& e == ErrorView::EmptyRegex(Domain::Activity, name) || e
                == ErrorView::RegexWithoutEntity(name) ==> activity.is_prefix_of(e.message())
            &&& e matches ErrorView::InvalidRegex(domain, key, _) ==> key == name ==> (if domain
                is Activity {
                activity
            } else {
                workspace
            }).is_prefix_of(e.message())
            &&& e == ErrorView::NoCategory(name, entity) ==> (workspace + "entity '"@ + entity
                + "' "@).is_prefix_of(e.message())
        }),
{
    reveal_strlit("activity");
    reveal_strlit("workspace");
    reveal_strlit(" rule '");
    reveal_strlit("': ");
    reveal_strlit("workspace rule '");
    reveal_strlit("activity rule '");
    reveal_strlit("entity '");
    reveal_strlit("' ");
    reveal_strlit("': entity '");
    reveal_strlit(
        "': track = true is implied; omit the field (track = false is the only meaningful value)",
    );
    reveal_strlit("': entity and track=false are mutually exclusive");
    reveal_strlit(
        "' has no category (add category here or an [activities.*] rule with this entity)",
    );
    reveal_strlit("': needs either entity or track = false");
    reveal_strlit("': empty regex matches everything");
    reveal_strlit("': regex rules require an explicit entity");
    reveal_strlit("': invalid regex");
}

} // verus!
