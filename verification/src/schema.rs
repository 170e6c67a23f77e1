//! The shape of a configuration document.
//!
//! A record's fields may be named, as the members of a table, or positional, as
//! the items of an array. A table may not have members that are no fields; of an
//! array only the items that stand for fields count.
use crate::config;
use crate::config::{
    ActivityRule, ActivityRuleView, ConfigView, Defaults, DefaultsView, WorkspaceRule,
    WorkspaceRuleView,
};
use crate::source;
use crate::source::{Key, KeyView, Kind, Node};
use crate::table;
use crate::table::Table;
use crate::text;
use vstd::prelude::*;
use vstd::string::*;

verus! {

/// What a field holds.
#[derive(Debug, Clone, Copy, PartialEq, Eq, Structural)]
pub enum FieldKind {
    Text,
    Truth,
    Number,
    Texts,
}

/// The value of a field.
#[derive(Debug)]
pub enum FieldValue {
    Text(String),
    Truth(bool),
    Number(u64),
    Texts(Vec<String>),
}

/// What the value of a field says.
pub enum FieldView {
    Text(Seq<char>),
    Truth(bool),
    Number(u64),
    Texts(Seq<Seq<char>>),
}

impl View for FieldValue {
    type V = FieldView;

    open spec fn view(&self) -> FieldView {
        match *self {
            FieldValue::Text(s) => FieldView::Text(s@),
            FieldValue::Truth(b) => FieldView::Truth(b),
            FieldValue::Number(n) => FieldView::Number(n),
            FieldValue::Texts(v) => FieldView::Texts(text::texts(v@)),
        }
    }
}

/// The fields of a record in order; `None` is one that was left out.
pub type Fields = Seq<Option<FieldView>>;

/// What several fields say.
pub open spec fn fields_view(v: Seq<Option<FieldValue>>) -> Fields {
    v.map_values(
        |f: Option<FieldValue>|
            match f {
                Some(value) => Some(value@),
                None => None,
            },
    )
}

/// What a record looks like.
#[derive(Debug)]
pub struct Shape {
    pub name: &'static str,
    pub names: &'static [&'static str],
    pub kinds: Vec<FieldKind>,
    /// The position of the one field that may not be left out of a table.
    pub needs: Option<usize>,
    /// Whether an array may be too short.
    pub open: bool,
}

/// What a shape says.
pub struct ShapeView {
    pub name: Seq<char>,
    pub names: Seq<Seq<char>>,
    pub kinds: Seq<FieldKind>,
    pub needs: Option<int>,
    pub open: bool,
}

impl View for Shape {
    type V = ShapeView;

    open spec fn view(&self) -> ShapeView {
        ShapeView {
            name: self.name@,
            names: text::views(self.names@),
            kinds: self.kinds@,
            needs: match self.needs {
                Some(i) => Some(i as int),
                None => None,
            },
            open: self.open,
        }
    }
}

impl ShapeView {
    /// Whether the shape has at least three fields, each with a kind.
    pub open spec fn is_proper(self) -> bool {
        &&& self.names.len() >= 3
        &&& self.names.len() == self.kinds.len()
        &&& self.needs matches Some(i) ==> 0 <= i < self.names.len()
    }

    /// The position of the field with the given name.
    pub open spec fn position(self, name: Seq<char>) -> Option<int> {
        position_in(self.names, name)
    }
}

/// The position of a name.
pub open spec fn position_in(names: Seq<Seq<char>>, name: Seq<char>) -> Option<int>
    decreases names.len(),
{
    if names.len() == 0 {
        None
    } else if names[0] == name {
        Some(0)
    } else {
        match position_in(names.drop_first(), name) {
            Some(i) => Some(i + 1),
            None => None,
        }
    }
}

/// The state after a step for each item in order, up to the first complaint.
pub open spec fn run_through<S, X>(
    state: S,
    items: Seq<X>,
    step: spec_fn(S, X) -> Result<S, Seq<char>>,
) -> Result<S, Seq<char>>
    decreases items.len(),
{
    if items.len() == 0 {
        Ok(state)
    } else {
        match step(state, items[0]) {
            Ok(next) => run_through(next, items.drop_first(), step),
            Err(complaint) => Err(complaint),
        }
    }
}

/// The complaint `message` about a value in the text `raw`.
pub open spec fn complaint_about(raw: Seq<char>, n: Node, message: Seq<char>) -> Seq<char> {
    source::complaint_at(raw, n.start, n.end, message)
}

/// Another text of a list.
pub open spec fn add_text(raw: Seq<char>) -> spec_fn(Seq<Seq<char>>, Node) -> Result<
    Seq<Seq<char>>,
    Seq<char>,
> {
    |front: Seq<Seq<char>>, n: Node|
        match n.kind {
            Kind::Text(s) => Ok(front.push(s)),
            _ => Err(complaint_about(raw, n, source::text_complaint(n))),
        }
}

/// The value of a field, or the complaint where it is of another kind.
pub open spec fn field_in(kind: FieldKind, n: Node, raw: Seq<char>) -> Result<
    FieldView,
    Seq<char>,
> {
    match kind {
        FieldKind::Text => match n.kind {
            Kind::Text(s) => Ok(FieldView::Text(s)),
            _ => Err(complaint_about(raw, n, source::text_complaint(n))),
        },
        FieldKind::Truth => match n.kind {
            Kind::Truth(b) => Ok(FieldView::Truth(b)),
            _ => Err(complaint_about(raw, n, source::truth_complaint(n))),
        },
        FieldKind::Number => match source::number_in(n) {
            Ok(number) => Ok(FieldView::Number(number)),
            Err(message) => Err(complaint_about(raw, n, message)),
        },
        FieldKind::Texts => match n.kind {
            Kind::List(items) => match run_through(Seq::empty(), items, add_text(raw)) {
                Ok(texts) => Ok(FieldView::Texts(texts)),
                Err(complaint) => Err(complaint),
            },
            _ => Err(complaint_about(raw, n, source::expecting(n, "a sequence"@))),
        },
    }
}

/// Another named field of a record.
pub open spec fn add_member(shape: ShapeView, raw: Seq<char>) -> spec_fn(
    Fields,
    (KeyView, Node),
) -> Result<Fields, Seq<char>> {
    |fields: Fields, m: (KeyView, Node)|
        match shape.position(m.0.name) {
            Some(i) => match field_in(shape.kinds[i], m.1, raw) {
                Ok(value) => Ok(fields.update(i, Some(value))),
                Err(complaint) => Err(complaint),
            },
            None => Err(
                source::complaint_at(
                    raw,
                    m.0.start,
                    m.0.end,
                    source::unknown_field_message(m.0.name, shape.names),
                ),
            ),
        }
}

/// The next positional field of a record; too few items are a complaint about
/// the whole array, unless the shape is open.
pub open spec fn add_item(shape: ShapeView, n: Node, items: Seq<Node>, raw: Seq<char>) -> spec_fn(
    Fields,
    FieldKind,
) -> Result<Fields, Seq<char>> {
    |fields: Fields, kind: FieldKind|
        if fields.len() < items.len() {
            match field_in(kind, items[fields.len() as int], raw) {
                Ok(value) => Ok(fields.push(Some(value))),
                Err(complaint) => Err(complaint),
            }
        } else if shape.open {
            Ok(fields.push(None))
        } else {
            Err(
                complaint_about(
                    raw,
                    n,
                    source::invalid_length_message(
                        fields.len(),
                        "struct "@ + shape.name + " with "@ + text::decimal(shape.kinds.len())
                            + " elements"@,
                    ),
                ),
            )
        }
}

/// The fields of a record, or the first complaint about it.
pub open spec fn record_in(shape: ShapeView, n: Node, raw: Seq<char>) -> Result<Fields, Seq<char>> {
    match n.kind {
        Kind::Record(members) => match run_through(
            Seq::new(shape.names.len(), |i: int| None),
            members,
            add_member(shape, raw),
        ) {
            Ok(fields) => if shape.needs matches Some(i) && fields[i] is None {
                Err(
                    complaint_about(
                        raw,
                        n,
                        source::missing_field_message(shape.names[shape.needs->0]),
                    ),
                )
            } else {
                Ok(fields)
            },
            Err(complaint) => Err(complaint),
        },
        Kind::List(items) => run_through(
            Seq::empty(),
            shape.kinds,
            add_item(shape, n, items, raw),
        ),
        // a date or time comes as a table with one member of that name
        Kind::Datetime(_) => Err(
            complaint_about(
                raw,
                n,
                source::unknown_field_message("$__toml_private_datetime"@, shape.names),
            ),
        ),
        _ => Err(complaint_about(raw, n, source::expecting(n, "struct "@ + shape.name))),
    }
}

/// What is read from the fields of a record.
pub trait Record: View + Sized {
    /// What the record looks like.
    spec fn shape() -> ShapeView;

    /// What fields of that shape say.
    spec fn of(fields: Fields) -> Self::V;

    /// What the record looks like.
    fn get_shape() -> (r: Shape)
        ensures
            r@ == Self::shape(),
            r@.is_proper(),
    ;

    /// The record with the given fields.
    fn from_fields(fields: Vec<Option<FieldValue>>) -> (r: Self)
        requires
            fields@.len() == Self::shape().names.len(),
        ensures
            r@ == Self::of(fields_view(fields@)),
    ;
}

/// The text of the field at position `i`.
pub open spec fn text_at(fields: Fields, i: int) -> Option<Seq<char>> {
    match fields[i] {
        Some(FieldView::Text(s)) => Some(s),
        _ => None,
    }
}

/// The truth value of the field at position `i`.
pub open spec fn truth_at(fields: Fields, i: int) -> Option<bool> {
    match fields[i] {
        Some(FieldView::Truth(b)) => Some(b),
        _ => None,
    }
}

/// The number of the field at position `i`.
pub open spec fn number_at(fields: Fields, i: int) -> Option<u64> {
    match fields[i] {
        Some(FieldView::Number(n)) => Some(n),
        _ => None,
    }
}

/// The texts of the field at position `i`.
pub open spec fn texts_at(fields: Fields, i: int) -> Option<Seq<Seq<char>>> {
    match fields[i] {
        Some(FieldView::Texts(v)) => Some(v),
        _ => None,
    }
}

fn get_text(fields: &Vec<Option<FieldValue>>, i: usize) -> (r: Option<String>)
    requires
        i < fields@.len(),
    ensures
        text::opt(r) == text_at(fields_view(fields@), i as int),
{
    match &fields[i] {
        Some(FieldValue::Text(s)) => Some(s.clone()),
        _ => None,
    }
}

fn get_truth(fields: &Vec<Option<FieldValue>>, i: usize) -> (r: Option<bool>)
    requires
        i < fields@.len(),
    ensures
        r == truth_at(fields_view(fields@), i as int),
{
    match &fields[i] {
        Some(FieldValue::Truth(b)) => Some(*b),
        _ => None,
    }
}

fn get_number(fields: &Vec<Option<FieldValue>>, i: usize) -> (r: Option<u64>)
    requires
        i < fields@.len(),
    ensures
        r == number_at(fields_view(fields@), i as int),
{
    match &fields[i] {
        Some(FieldValue::Number(n)) => Some(*n),
        _ => None,
    }
}

fn get_texts(fields: &Vec<Option<FieldValue>>, i: usize) -> (r: Option<Vec<String>>)
    requires
        i < fields@.len(),
    ensures
        match r {
            Some(v) => texts_at(fields_view(fields@), i as int) == Some(text::texts(v@)),
            None => texts_at(fields_view(fields@), i as int) is None,
        },
{
    match &fields[i] {
        Some(FieldValue::Texts(v)) => Some(text::copy_all(v)),
        _ => None,
    }
}

/// `first` if it holds something, otherwise `second`.
pub open spec fn or<A>(first: Option<A>, second: A) -> A {
    match first {
        Some(x) => x,
        None => second,
    }
}

impl Record for ActivityRule {
    open spec fn shape() -> ShapeView {
        ShapeView {
            name: "ActivityRule"@,
            names: seq![
                "entity"@,
                "category"@,
                "placeholder_activity"@,
                "placeholder_description"@,
            ],
            kinds: seq![FieldKind::Text, FieldKind::Text, FieldKind::Text, FieldKind::Text],
            needs: Some(1),
            open: false,
        }
    }

    open spec fn of(fields: Fields) -> ActivityRuleView {
        ActivityRuleView {
            entity: text_at(fields, 0),
            category: or(text_at(fields, 1), ""@),
            placeholder_activity: text_at(fields, 2),
            placeholder_description: text_at(fields, 3),
        }
    }

    fn get_shape() -> (r: Shape) {
        let r = Shape {
            name: "ActivityRule",
            names: &["entity", "category", "placeholder_activity", "placeholder_description"],
            kinds: vec![FieldKind::Text, FieldKind::Text, FieldKind::Text, FieldKind::Text],
            needs: Some(1),
            open: false,
        };
        assert(r@.names =~= Self::shape().names);
        assert(r@.kinds =~= Self::shape().kinds);
        r
    }

    fn from_fields(fields: Vec<Option<FieldValue>>) -> (r: Self) {
        ActivityRule {
            entity: get_text(&fields, 0),
            category: match get_text(&fields, 1) {
                Some(s) => s,
                None => "".to_owned(),
            },
            placeholder_activity: get_text(&fields, 2),
            placeholder_description: get_text(&fields, 3),
        }
    }
}

impl Record for WorkspaceRule {
    open spec fn shape() -> ShapeView {
        ShapeView {
            name: "WorkspaceRule"@,
            names: seq![
                "entity"@,
                "track"@,
                "category"@,
                "placeholder_activity"@,
                "placeholder_description"@,
            ],
            kinds: seq![
                FieldKind::Text,
                FieldKind::Truth,
                FieldKind::Text,
                FieldKind::Text,
                FieldKind::Text,
            ],
            needs: None,
            open: false,
        }
    }

    open spec fn of(fields: Fields) -> WorkspaceRuleView {
        WorkspaceRuleView {
            entity: text_at(fields, 0),
            track: truth_at(fields, 1),
            category: text_at(fields, 2),
            placeholder_activity: text_at(fields, 3),
            placeholder_description: text_at(fields, 4),
        }
    }

    fn get_shape() -> (r: Shape) {
        let r = Shape {
            name: "WorkspaceRule",
            names: &[
                "entity",
                "track",
                "category",
                "placeholder_activity",
                "placeholder_description",
            ],
            kinds: vec![
                FieldKind::Text,
                FieldKind::Truth,
                FieldKind::Text,
                FieldKind::Text,
                FieldKind::Text,
            ],
            needs: None,
            open: false,
        };
        assert(r@.names =~= Self::shape().names);
        assert(r@.kinds =~= Self::shape().kinds);
        r
    }

    fn from_fields(fields: Vec<Option<FieldValue>>) -> (r: Self) {
        WorkspaceRule {
            entity: get_text(&fields, 0),
            track: get_truth(&fields, 1),
            category: get_text(&fields, 2),
            placeholder_activity: get_text(&fields, 3),
            placeholder_description: get_text(&fields, 4),
        }
    }
}

impl Record for Defaults {
    open spec fn shape() -> ShapeView {
        ShapeView {
            name: "Defaults"@,
            names: seq![
                "switch_immediate"@,
                "return_debounce_secs"@,
                "untracked_grace_secs"@,
                "entity_tag_key"@,
                "extra_tags"@,
                "placeholder_activity"@,
                "placeholder_description"@,
                "resume_lookback_days"@,
                "mark_continuations"@,
            ],
            kinds: seq![
                FieldKind::Truth,
                FieldKind::Number,
                FieldKind::Number,
                FieldKind::Text,
                FieldKind::Texts,
                FieldKind::Text,
                FieldKind::Text,
                FieldKind::Number,
                FieldKind::Truth,
            ],
            needs: None,
            open: true,
        }
    }

    /// What the record leaves out is standard.
    open spec fn of(fields: Fields) -> DefaultsView {
        let standard = config::standard_defaults();
        DefaultsView {
            switch_immediate: or(truth_at(fields, 0), standard.switch_immediate),
            return_debounce_secs: or(number_at(fields, 1), standard.return_debounce_secs),
            untracked_grace_secs: or(number_at(fields, 2), standard.untracked_grace_secs),
            entity_tag_key: or(text_at(fields, 3), standard.entity_tag_key),
            extra_tags: or(texts_at(fields, 4), standard.extra_tags),
            placeholder_activity: or(text_at(fields, 5), standard.placeholder_activity),
            placeholder_description: or(text_at(fields, 6), standard.placeholder_description),
            resume_lookback_days: or(number_at(fields, 7), standard.resume_lookback_days),
            mark_continuations: or(truth_at(fields, 8), standard.mark_continuations),
        }
    }

    fn get_shape() -> (r: Shape) {
        let r = Shape {
            name: "Defaults",
            names: &[
                "switch_immediate",
                "return_debounce_secs",
                "untracked_grace_secs",
                "entity_tag_key",
                "extra_tags",
                "placeholder_activity",
                "placeholder_description",
                "resume_lookback_days",
                "mark_continuations",
            ],
            kinds: vec![
                FieldKind::Truth,
                FieldKind::Number,
                FieldKind::Number,
                FieldKind::Text,
                FieldKind::Texts,
                FieldKind::Text,
                FieldKind::Text,
                FieldKind::Number,
                FieldKind::Truth,
            ],
            needs: None,
            open: true,
        };
        assert(r@.names =~= Self::shape().names);
        assert(r@.kinds =~= Self::shape().kinds);
        r
    }

    fn from_fields(fields: Vec<Option<FieldValue>>) -> (r: Self) {
        let standard = Defaults::default();
        Defaults {
            switch_immediate: match get_truth(&fields, 0) {
                Some(b) => b,
                None => standard.switch_immediate,
            },
            return_debounce_secs: match get_number(&fields, 1) {
                Some(n) => n,
                None => standard.return_debounce_secs,
            },
            untracked_grace_secs: match get_number(&fields, 2) {
                Some(n) => n,
                None => standard.untracked_grace_secs,
            },
            entity_tag_key: match get_text(&fields, 3) {
                Some(s) => s,
                None => standard.entity_tag_key,
            },
            extra_tags: match get_texts(&fields, 4) {
                Some(v) => v,
                None => standard.extra_tags,
            },
            placeholder_activity: match get_text(&fields, 5) {
                Some(s) => s,
                None => standard.placeholder_activity,
            },
            placeholder_description: match get_text(&fields, 6) {
                Some(s) => s,
                None => standard.placeholder_description,
            },
            resume_lookback_days: match get_number(&fields, 7) {
                Some(n) => n,
                None => standard.resume_lookback_days,
            },
            mark_continuations: match get_truth(&fields, 8) {
                Some(b) => b,
                None => standard.mark_continuations,
            },
        }
    }
}

/// The record in a value, or the first complaint about it.
pub open spec fn record_of<R: Record>(n: Node, raw: Seq<char>) -> Result<R::V, Seq<char>> {
    match record_in(R::shape(), n, raw) {
        Ok(fields) => Ok(R::of(fields)),
        Err(complaint) => Err(complaint),
    }
}

/// Another rule under its name.
pub open spec fn add_rule<R: Record>(raw: Seq<char>) -> spec_fn(
    Seq<(Seq<char>, R::V)>,
    (KeyView, Node),
) -> Result<Seq<(Seq<char>, R::V)>, Seq<char>> {
    |rules: Seq<(Seq<char>, R::V)>, m: (KeyView, Node)|
        match record_of::<R>(m.1, raw) {
            Ok(rule) => Ok(table::inserted(rules, m.0.name, rule)),
            Err(complaint) => Err(complaint),
        }
}

/// The rules under the members of a table, in the order of their names, or the
/// first complaint about one.
pub open spec fn rules_in<R: Record>(n: Node, raw: Seq<char>) -> Result<
    Seq<(Seq<char>, R::V)>,
    Seq<char>,
> {
    match n.kind {
        Kind::Record(members) => run_through(Seq::empty(), members, add_rule::<R>(raw)),
        // a date or time comes as a table with a text for its member
        Kind::Datetime(t) => Err(
            complaint_about(
                raw,
                n,
                "invalid type: string \""@ + t + "\", expected struct "@ + R::shape().name,
            ),
        ),
        _ => Err(complaint_about(raw, n, source::expecting(n, "a map"@))),
    }
}

/// The tables of a configuration.
pub open spec fn config_tables() -> Seq<Seq<char>> {
    seq!["defaults"@, "activities"@, "workspaces"@]
}

/// Another table of a configuration.
pub open spec fn add_table(raw: Seq<char>) -> spec_fn(ConfigView, (KeyView, Node)) -> Result<
    ConfigView,
    Seq<char>,
> {
    |config: ConfigView, m: (KeyView, Node)|
        if m.0.name == "defaults"@ {
            match record_of::<Defaults>(m.1, raw) {
                Ok(defaults) => Ok(ConfigView { defaults, ..config }),
                Err(complaint) => Err(complaint),
            }
        } else if m.0.name == "activities"@ {
            match rules_in::<ActivityRule>(m.1, raw) {
                Ok(activities) => Ok(ConfigView { activities, ..config }),
                Err(complaint) => Err(complaint),
            }
        } else if m.0.name == "workspaces"@ {
            match rules_in::<WorkspaceRule>(m.1, raw) {
                Ok(workspaces) => Ok(ConfigView { workspaces, ..config }),
                Err(complaint) => Err(complaint),
            }
        } else {
            Err(
                source::complaint_at(
                    raw,
                    m.0.start,
                    m.0.end,
                    source::unknown_field_message(m.0.name, config_tables()),
                ),
            )
        }
}

/// The configuration of an empty document.
pub open spec fn empty_config() -> ConfigView {
    ConfigView {
        defaults: config::standard_defaults(),
        activities: Seq::empty(),
        workspaces: Seq::empty(),
    }
}

/// The configuration in the document of the text `raw`, not yet validated, or the
/// first complaint about its shape.
pub open spec fn config_in(n: Node, raw: Seq<char>) -> Result<ConfigView, Seq<char>> {
    match n.kind {
        Kind::Record(members) => run_through(empty_config(), members, add_table(raw)),
        _ => Err(complaint_about(raw, n, source::expecting(n, "struct Config"@))),
    }
}

/// The complaint `message` about a value in the text `raw`.
fn complain(raw: &str, v: &toml::Spanned<toml::de::DeValue<'_>>, message: &str) -> (r: String)
    ensures
        r@ == complaint_about(raw@, source::node(*v), message@),
{
    let (start, end) = source::span(v);
    source::complain_at(raw, start, end, message)
}

fn read_texts(items: &Vec<&toml::Spanned<toml::de::DeValue<'_>>>, raw: &str) -> (r: Result<
    Vec<String>,
    String,
>)
    ensures
        match r {
            Ok(v) => run_through(Seq::empty(), source::nodes(items@), add_text(raw@)) == Ok::<
                Seq<Seq<char>>,
                Seq<char>,
            >(text::texts(v@)),
            Err(e) => run_through(Seq::empty(), source::nodes(items@), add_text(raw@)) == Err::<
                Seq<Seq<char>>,
                Seq<char>,
            >(e@),
        },
{
    let ghost all = source::nodes(items@);
    let ghost whole = run_through(Seq::empty(), all, add_text(raw@));
    let mut v: Vec<String> = Vec::new();
    let mut i: usize = 0;
    assert(text::texts(v@) =~= Seq::empty());
    assert(all.skip(0) =~= all);
    while i < items.len()
        invariant
            i <= items.len(),
            all == source::nodes(items@),
            whole == run_through(Seq::empty(), all, add_text(raw@)),
            whole == run_through(text::texts(v@), all.skip(i as int), add_text(raw@)),
        decreases items.len() - i,
    {
        let ghost front = text::texts(v@);
        assert(all.skip(i as int)[0] == source::node(*items@[i as int]));
        assert(all.skip(i as int).drop_first() =~= all.skip(i + 1));
        match source::read_text(items[i]) {
            Ok(s) => {
                let ghost said = s@;
                v.push(s);
                assert(text::texts(v@) =~= front.push(said));
            },
            Err(message) => {
                return Err(complain(raw, items[i], message.as_str()));
            },
        }
        i = i + 1;
    }
    assert(all.skip(i as int) =~= Seq::empty());
    Ok(v)
}

fn read_field(kind: FieldKind, v: &toml::Spanned<toml::de::DeValue<'_>>, raw: &str) -> (r: Result<
    FieldValue,
    String,
>)
    ensures
        match r {
            Ok(value) => field_in(kind, source::node(*v), raw@) == Ok::<FieldView, Seq<char>>(
                value@,
            ),
            Err(e) => field_in(kind, source::node(*v), raw@) == Err::<FieldView, Seq<char>>(e@),
        },
{
    match kind {
        FieldKind::Text => match source::read_text(v) {
            Ok(s) => Ok(FieldValue::Text(s)),
            Err(message) => Err(complain(raw, v, message.as_str())),
        },
        FieldKind::Truth => match source::read_truth(v) {
            Ok(b) => Ok(FieldValue::Truth(b)),
            Err(message) => Err(complain(raw, v, message.as_str())),
        },
        FieldKind::Number => match source::read_number(v) {
            Ok(n) => Ok(FieldValue::Number(n)),
            Err(message) => Err(complain(raw, v, message.as_str())),
        },
        FieldKind::Texts => match source::items(v) {
            Some(items) => match read_texts(&items, raw) {
                Ok(texts) => Ok(FieldValue::Texts(texts)),
                Err(complaint) => Err(complaint),
            },
            None => Err(complain(raw, v, source::expect(v, "a sequence").as_str())),
        },
    }
}

fn find_name(names: &'static [&'static str], name: &str) -> (r: Option<usize>)
    ensures
        match r {
            Some(i) => position_in(text::views(names@), name@) == Some(i as int) && i
                < names@.len(),
            None => position_in(text::views(names@), name@) is None,
        },
{
    let ghost all = text::views(names@);
    let mut i: usize = 0;
    assert(all.skip(0) =~= all);
    while i < names.len()
        invariant
            i <= names.len(),
            all == text::views(names@),
            position_in(all, name@) == (match position_in(all.skip(i as int), name@) {
                Some(k) => Some(k + i),
                None => None,
            }),
        decreases names.len() - i,
    {
        assert(all.skip(i as int)[0] == names@[i as int]@);
        assert(all.skip(i as int).drop_first() =~= all.skip(i + 1));
        if text::same(names[i], name) {
            return Some(i);
        }
        i = i + 1;
    }
    None
}

/// Fields are kept apart by position.
proof fn lemma_fields_set(v: Seq<Option<FieldValue>>, i: int, value: FieldValue)
    requires
        0 <= i < v.len(),
    ensures
        fields_view(v.update(i, Some(value))) == fields_view(v).update(i, Some(value@)),
{
    assert(fields_view(v.update(i, Some(value))) =~= fields_view(v).update(i, Some(value@)));
}

fn read_named(
    shape: &Shape,
    v: &toml::Spanned<toml::de::DeValue<'_>>,
    m: &Vec<(Key, &toml::Spanned<toml::de::DeValue<'_>>)>,
    raw: &str,
) -> (r: Result<Vec<Option<FieldValue>>, String>)
    requires
        shape@.is_proper(),
        source::node(*v).kind == Kind::Record(source::keyed_nodes(m@)),
    ensures
        match r {
            Ok(fields) => record_in(shape@, source::node(*v), raw@) == Ok::<Fields, Seq<char>>(
                fields_view(fields@),
            ) && fields@.len() == shape@.names.len(),
            Err(e) => record_in(shape@, source::node(*v), raw@) == Err::<Fields, Seq<char>>(e@),
        },
{
    let ghost all = source::keyed_nodes(m@);
    let ghost none: Fields = Seq::new(shape@.names.len(), |i: int| None);
    let ghost whole = run_through(none, all, add_member(shape@, raw@));
    let mut fields: Vec<Option<FieldValue>> = Vec::new();
    let mut k: usize = 0;
    while k < shape.names.len()
        invariant
            k <= shape.names.len(),
            fields@.len() == k,
            forall|j: int| 0 <= j < k ==> fields@[j] is None,
        decreases shape.names.len() - k,
    {
        fields.push(None);
        k = k + 1;
    }
    assert(fields_view(fields@) =~= none);
    assert(all.skip(0) =~= all);
    let mut i: usize = 0;
    while i < m.len()
        invariant
            i <= m.len(),
            shape@.is_proper(),
            all == source::keyed_nodes(m@),
            fields@.len() == shape@.names.len(),
            source::node(*v).kind == Kind::Record(all),
            whole == run_through(
                Seq::new(shape@.names.len(), |i: int| None),
                all,
                add_member(shape@, raw@),
            ),
            whole == run_through(
                fields_view(fields@),
                all.skip(i as int),
                add_member(shape@, raw@),
            ),
        decreases m.len() - i,
    {
        assert(all.len() == m@.len());
        assert(all.skip(i as int)[0] == (m@[i as int].0@, source::node(*m@[i as int].1)));
        assert(all.skip(i as int).drop_first() =~= all.skip(i + 1));
        let key: &Key = &m[i].0;
        match find_name(shape.names, key.name.as_str()) {
            Some(p) => match read_field(shape.kinds[p], m[i].1, raw) {
                Ok(value) => {
                    proof {
                        lemma_fields_set(fields@, p as int, value);
                    }
                    fields.set(p, Some(value));
                },
                Err(complaint) => {
                    return Err(complaint);
                },
            },
            None => {
                let message: String = source::unknown_field(key.name.as_str(), shape.names);
                return Err(source::complain_at(raw, key.start, key.end, message.as_str()));
            },
        }
        i = i + 1;
    }
    assert(all.skip(i as int) =~= Seq::empty());
    if let Some(p) = shape.needs {
        assert(fields_view(fields@)[p as int] is None == fields@[p as int] is None);
        if fields[p].is_none() {
            let message: String = source::missing_field(shape.names[p]);
            return Err(complain(raw, v, message.as_str()));
        }
    }
    Ok(fields)
}

/// What an array of the shape is expected to be.
fn expected_items(shape: &Shape) -> (r: String)
    ensures
        r@ == "struct "@ + shape@.name + " with "@ + text::decimal(shape@.kinds.len())
            + " elements"@,
{
    "struct ".to_owned().concat(shape.name).concat(" with ").concat(
        text::in_decimal(shape.kinds.len()).as_str(),
    ).concat(" elements")
}

fn read_positional(
    shape: &Shape,
    v: &toml::Spanned<toml::de::DeValue<'_>>,
    items: &Vec<&toml::Spanned<toml::de::DeValue<'_>>>,
    raw: &str,
) -> (r: Result<Vec<Option<FieldValue>>, String>)
    requires
        shape@.is_proper(),
        source::node(*v).kind == Kind::List(source::nodes(items@)),
    ensures
        match r {
            Ok(fields) => record_in(shape@, source::node(*v), raw@) == Ok::<Fields, Seq<char>>(
                fields_view(fields@),
            ) && fields@.len() == shape@.names.len(),
            Err(e) => record_in(shape@, source::node(*v), raw@) == Err::<Fields, Seq<char>>(e@),
        },
{
    let ghost n = source::node(*v);
    let ghost all = source::nodes(items@);
    let ghost whole = run_through(Seq::empty(), shape@.kinds, add_item(shape@, n, all, raw@));
    let mut fields: Vec<Option<FieldValue>> = Vec::new();
    let mut i: usize = 0;
    assert(fields_view(fields@) =~= Seq::empty());
    assert(shape@.kinds.skip(0) =~= shape@.kinds);
    while i < shape.kinds.len()
        invariant
            i <= shape.kinds.len(),
            shape@.is_proper(),
            n == source::node(*v),
            all == source::nodes(items@),
            n.kind == Kind::List(all),
            fields@.len() == i,
            whole == record_in(shape@, n, raw@),
            whole == run_through(
                fields_view(fields@),
                shape@.kinds.skip(i as int),
                add_item(shape@, n, all, raw@),
            ),
        decreases shape.kinds.len() - i,
    {
        let ghost front = fields_view(fields@);
        assert(shape@.kinds.skip(i as int)[0] == shape@.kinds[i as int]);
        assert(shape@.kinds.skip(i as int).drop_first() =~= shape@.kinds.skip(i + 1));
        assert(all.len() == items@.len());
        if i < items.len() {
            assert(all[i as int] == source::node(*items@[i as int]));
            match read_field(shape.kinds[i], items[i], raw) {
                Ok(value) => {
                    let ghost said = value@;
                    fields.push(Some(value));
                    assert(fields_view(fields@) =~= front.push(Some(said)));
                },
                Err(complaint) => {
                    return Err(complaint);
                },
            }
        } else if shape.open {
            fields.push(None);
            assert(fields_view(fields@) =~= front.push(None));
        } else {
            let message: String = source::invalid_length(i, expected_items(shape).as_str());
            return Err(complain(raw, v, message.as_str()));
        }
        i = i + 1;
    }
    assert(shape@.kinds.skip(i as int) =~= Seq::empty());
    Ok(fields)
}

fn read_record<R: Record>(v: &toml::Spanned<toml::de::DeValue<'_>>, raw: &str) -> (r: Result<
    R,
    String,
>)
    ensures
        match r {
            Ok(record) => record_of::<R>(source::node(*v), raw@) == Ok::<R::V, Seq<char>>(
                record@,
            ),
            Err(e) => record_of::<R>(source::node(*v), raw@) == Err::<R::V, Seq<char>>(e@),
        },
{
    let shape: Shape = R::get_shape();
    let fields: Result<Vec<Option<FieldValue>>, String> = if let Some(m) = source::members(v) {
        read_named(&shape, v, &m, raw)
    } else if let Some(items) = source::items(v) {
        read_positional(&shape, v, &items, raw)
    } else if source::datetime(v).is_some() {
        let message: String = source::unknown_field("$__toml_private_datetime", shape.names);
        Err(complain(raw, v, message.as_str()))
    } else {
        let what: String = "struct ".to_owned().concat(shape.name);
        Err(complain(raw, v, source::expect(v, what.as_str()).as_str()))
    };
    match fields {
        Ok(f) => Ok(R::from_fields(f)),
        Err(complaint) => Err(complaint),
    }
}

fn read_rules<R: Record>(v: &toml::Spanned<toml::de::DeValue<'_>>, raw: &str) -> (r: Result<
    Table<R>,
    String,
>)
    ensures
        match r {
            Ok(rules) => rules_in::<R>(source::node(*v), raw@) == Ok::<
                Seq<(Seq<char>, R::V)>,
                Seq<char>,
            >(rules@) && table::is_sorted(rules@),
            Err(e) => rules_in::<R>(source::node(*v), raw@) == Err::<
                Seq<(Seq<char>, R::V)>,
                Seq<char>,
            >(e@),
        },
{
    if let Some(m) = source::members(v) {
        let ghost all = source::keyed_nodes(m@);
        let ghost whole = run_through(Seq::empty(), all, add_rule::<R>(raw@));
        let mut rules: Table<R> = Table::new();
        let mut i: usize = 0;
        assert(all.skip(0) =~= all);
        while i < m.len()
            invariant
                i <= m.len(),
                all == source::keyed_nodes(m@),
                source::node(*v).kind == Kind::Record(all),
                table::is_sorted(rules@),
                whole == rules_in::<R>(source::node(*v), raw@),
                whole == run_through(rules@, all.skip(i as int), add_rule::<R>(raw@)),
            decreases m.len() - i,
        {
            assert(all.len() == m@.len());
            assert(all.skip(i as int)[0] == (m@[i as int].0@, source::node(*m@[i as int].1)));
            assert(all.skip(i as int).drop_first() =~= all.skip(i + 1));
            match read_record::<R>(m[i].1, raw) {
                Ok(rule) => rules.insert(m[i].0.name.clone(), rule),
                Err(complaint) => {
                    return Err(complaint);
                },
            }
            i = i + 1;
        }
        assert(all.skip(i as int) =~= Seq::empty());
        Ok(rules)
    } else if let Some(t) = source::datetime(v) {
        let message: String = "invalid type: string \"".to_owned().concat(t.as_str()).concat(
            "\", expected struct ",
        ).concat(R::get_shape().name);
        Err(complain(raw, v, message.as_str()))
    } else {
        Err(complain(raw, v, source::expect(v, "a map").as_str()))
    }
}

/// The parts of a configuration, not yet validated.
#[derive(Debug, Clone)]
pub struct Parts {
    pub defaults: Defaults,
    pub activities: Table<ActivityRule>,
    pub workspaces: Table<WorkspaceRule>,
}

impl View for Parts {
    type V = ConfigView;

    open spec fn view(&self) -> ConfigView {
        ConfigView {
            defaults: self.defaults@,
            activities: self.activities@,
            workspaces: self.workspaces@,
        }
    }
}

/// Read the parts of a configuration from the document of the text `raw`.
pub(crate) fn read_config(v: &toml::Spanned<toml::de::DeValue<'_>>, raw: &str) -> (r: Result<
    Parts,
    String,
>)
    ensures
        match r {
            Ok(parts) => {
                &&& config_in(source::node(*v), raw@) == Ok::<ConfigView, Seq<char>>(parts@)
                &&& table::is_sorted(parts@.activities)
                &&& table::is_sorted(parts@.workspaces)
            },
            Err(e) => config_in(source::node(*v), raw@) == Err::<ConfigView, Seq<char>>(e@),
        },
{
    let m: Vec<(Key, &toml::Spanned<toml::de::DeValue<'_>>)> = match source::members(v) {
        Some(m) => m,
        None => {
            return Err(complain(raw, v, source::expect(v, "struct Config").as_str()));
        },
    };
    let ghost all = source::keyed_nodes(m@);
    let ghost whole = run_through(empty_config(), all, add_table(raw@));
    let mut parts = Parts {
        defaults: Defaults::default(),
        activities: Table::new(),
        workspaces: Table::new(),
    };
    let mut i: usize = 0;
    assert(parts@ == empty_config());
    assert(all.skip(0) =~= all);
    while i < m.len()
        invariant
            i <= m.len(),
            all == source::keyed_nodes(m@),
            source::node(*v).kind == Kind::Record(all),
            table::is_sorted(parts@.activities),
            table::is_sorted(parts@.workspaces),
            whole == config_in(source::node(*v), raw@),
            whole == run_through(parts@, all.skip(i as int), add_table(raw@)),
        decreases m.len() - i,
    {
        assert(all.len() == m@.len());
        assert(all.skip(i as int)[0] == (m@[i as int].0@, source::node(*m@[i as int].1)));
        assert(all.skip(i as int).drop_first() =~= all.skip(i + 1));
        let key: &Key = &m[i].0;
        let ghost before = parts@;
        if text::same(key.name.as_str(), "defaults") {
            match read_record::<Defaults>(m[i].1, raw) {
                Ok(defaults) => {
                    parts.defaults = defaults;
                },
                Err(complaint) => {
                    return Err(complaint);
                },
            }
        } else if text::same(key.name.as_str(), "activities") {
            match read_rules::<ActivityRule>(m[i].1, raw) {
                Ok(activities) => {
                    parts.activities = activities;
                },
                Err(complaint) => {
                    return Err(complaint);
                },
            }
        } else if text::same(key.name.as_str(), "workspaces") {
            match read_rules::<WorkspaceRule>(m[i].1, raw) {
                Ok(workspaces) => {
                    parts.workspaces = workspaces;
                },
                Err(complaint) => {
                    return Err(complaint);
                },
            }
        } else {
            let names: &'static [&'static str] = &["defaults", "activities", "workspaces"];
            assert(text::views(names@) =~= config_tables());
            let message: String = source::unknown_field(key.name.as_str(), names);
            return Err(source::complain_at(raw, key.start, key.end, message.as_str()));
        }
        i = i + 1;
    }
    assert(all.skip(i as int) =~= Seq::empty());
    Ok(parts)
}

/// The last value under `name`.
pub open spec fn last_named(members: Seq<(KeyView, Node)>, name: Seq<char>) -> Option<Node>
    decreases members.len(),
{
    if members.len() == 0 {
        None
    } else {
        match last_named(members.drop_first(), name) {
            Some(n) => Some(n),
            None => if members[0].0.name == name {
                Some(members[0].1)
            } else {
                None
            },
        }
    }
}

proof fn lemma_rules<R: Record>(
    rules: Seq<(Seq<char>, R::V)>,
    members: Seq<(KeyView, Node)>,
    raw: Seq<char>,
)
    requires
        table::is_sorted(rules),
    ensures
        run_through(rules, members, add_rule::<R>(raw)) matches Ok(all) ==> {
            &&& table::is_sorted(all)
            &&& forall|name: Seq<char>|
                match last_named(members, name) {
                    Some(n) => match record_of::<R>(n, raw) {
                        Ok(rule) => #[trigger] table::lookup(all, name) == Some(rule),
                        Err(_) => false,
                    },
                    None => table::lookup(all, name) == table::lookup(rules, name),
                }
        },
    decreases members.len(),
{
    if members.len() > 0 {
        let m = members[0];
        if let Ok(rule) = record_of::<R>(m.1, raw) {
            let next = table::inserted(rules, m.0.name, rule);
            table::law_insertion(rules, m.0.name, rule);
            lemma_rules::<R>(next, members.drop_first(), raw);
        }
    }
}

/// The rules of a table stand in the order of their names, and under each name
/// stands the rule that the document has under it, and no other.
pub proof fn law_rules_stand_under_their_names<R: Record>(n: Node, raw: Seq<char>)
    requires
        n.kind is Record,
    ensures
        rules_in::<R>(n, raw) matches Ok(rules) ==> {
            &&& table::is_sorted(rules)
            &&& forall|name: Seq<char>|
                match last_named(n.kind->Record_0, name) {
                    Some(m) => match record_of::<R>(m, raw) {
                        Ok(rule) => #[trigger] table::lookup(rules, name) == Some(rule),
                        Err(_) => false,
                    },
                    None => table::lookup(rules, name) is None,
                }
        },
{
    lemma_rules::<R>(Seq::empty(), n.kind->Record_0, raw);
}

/// Steps are taken in order: where each step leads from one state to the next, the
/// last state comes of it all; and where one complains, its complaint, whatever is
/// behind it.
pub proof fn law_steps_are_taken_in_order<S, X>(
    states: Seq<S>,
    items: Seq<X>,
    step: spec_fn(S, X) -> Result<S, Seq<char>>,
)
    requires
        0 < states.len() <= items.len() + 1,
        forall|i: int|
            0 <= i < states.len() - 1 ==> step(#[trigger] states[i], items[i]) == Ok::<S, Seq<char>>(
                states[i + 1],
            ),
    ensures
        states.len() == items.len() + 1 ==> run_through(states[0], items, step) == Ok::<
            S,
            Seq<char>,
        >(states.last()),
        states.len() <= items.len() ==> (step(states.last(), items[states.len() - 1]) matches Err(
            complaint,
        ) ==> run_through(states[0], items, step) == Err::<S, Seq<char>>(complaint)),
    decreases states.len(),
{
    if states.len() > 1 {
        let rest = states.drop_first();
        let behind = items.drop_first();
        assert(step(states[0], items[0]) == Ok::<S, Seq<char>>(states[1]));
        assert forall|i: int| 0 <= i < rest.len() - 1 implies step(
            #[trigger] rest[i],
            behind[i],
        ) == Ok::<S, Seq<char>>(rest[i + 1]) by {
            assert(rest[i] == states[i + 1]);
        }
        law_steps_are_taken_in_order(rest, behind, step);
        assert(rest.last() == states.last());
        assert(rest[0] == states[1]);
        if states.len() <= items.len() {
            assert(behind[rest.len() - 1] == items[states.len() - 1]);
        }
    }
}

/// Texts are read from a list just where every item is one, in their order.
proof fn lemma_texts(front: Seq<Seq<char>>, items: Seq<Node>, raw: Seq<char>)
    ensures
        ({
            let whole = run_through(front, items, add_text(raw));
            &&& whole is Ok <==> forall|i: int|
                0 <= i < items.len() ==> (#[trigger] items[i]).kind is Text
            &&& whole matches Ok(all) ==> {
                &&& all.len() == front.len() + items.len()
                &&& forall|i: int| 0 <= i < front.len() ==> #[trigger] all[i] == front[i]
                &&& forall|i: int|
                    0 <= i < items.len() ==> (#[trigger] items[i]).kind == Kind::Text(
                        all[front.len() + i],
                    )
            }
        }),
    decreases items.len(),
{
    if items.len() > 0 {
        let rest = items.drop_first();
        if let Kind::Text(s) = items[0].kind {
            let next = front.push(s);
            lemma_texts(next, rest, raw);
            let whole = run_through(front, items, add_text(raw));
            assert(whole == run_through(next, rest, add_text(raw)));
            if whole is Ok {
                let all = whole->Ok_0;
                assert forall|i: int| 0 <= i < items.len() implies (#[trigger] items[i]).kind
                    == Kind::Text(all[front.len() + i]) by {
                    if i > 0 {
                        assert(rest[i - 1] == items[i]);
                        assert(all[next.len() + (i - 1)] == all[front.len() + i]);
                    } else {
                        assert(all[front.len() as int] == next[front.len() as int]);
                    }
                }
                assert forall|i: int| 0 <= i < front.len() implies #[trigger] all[i]
                    == front[i] by {
                    assert(all[i] == next[i]);
                }
            } else {
                let i = choose|i: int| 0 <= i < rest.len() && !((#[trigger] rest[i]).kind is Text);
                assert(items[i + 1] == rest[i]);
            }
        }
    }
}

/// What a field holds: what the value is, if it has the wanted kind; a number, what
/// its digits stand for; and texts, those of a list with nothing else in it, in
/// their order.
pub proof fn law_fields_have_their_kind(n: Node, raw: Seq<char>)
    ensures
        field_in(FieldKind::Text, n, raw) is Ok <==> n.kind is Text,
        n.kind matches Kind::Text(s) ==> field_in(FieldKind::Text, n, raw) == Ok::<
            FieldView,
            Seq<char>,
        >(FieldView::Text(s)),
        field_in(FieldKind::Truth, n, raw) is Ok <==> n.kind is Truth,
        n.kind matches Kind::Truth(b) ==> field_in(FieldKind::Truth, n, raw) == Ok::<
            FieldView,
            Seq<char>,
        >(FieldView::Truth(b)),
        field_in(FieldKind::Number, n, raw) is Ok <==> source::number_in(n) is Ok,
        source::number_in(n) matches Ok(number) ==> field_in(FieldKind::Number, n, raw) == Ok::<
            FieldView,
            Seq<char>,
        >(FieldView::Number(number)),
        field_in(FieldKind::Texts, n, raw) is Ok <==> (n.kind matches Kind::List(items)
            && forall|i: int| 0 <= i < items.len() ==> (#[trigger] items[i]).kind is Text),
        field_in(FieldKind::Texts, n, raw) matches Ok(value) ==> (value matches FieldView::Texts(
            texts,
        ) && texts.len() == n.kind->List_0.len() && forall|i: int|
            0 <= i < texts.len() ==> (#[trigger] n.kind->List_0[i]).kind == Kind::Text(texts[i])),
{
    if let Kind::List(items) = n.kind {
        lemma_texts(Seq::empty(), items, raw);
    }
}

/// A name stands where it is found, and is found where it stands.
proof fn lemma_position(names: Seq<Seq<char>>, name: Seq<char>)
    ensures
        match position_in(names, name) {
            Some(i) => 0 <= i < names.len() && names[i] == name,
            None => forall|i: int| 0 <= i < names.len() ==> #[trigger] names[i] != name,
        },
    decreases names.len(),
{
    if names.len() > 0 {
        let rest = names.drop_first();
        lemma_position(rest, name);
        if position_in(names, name) is None {
            assert forall|i: int| 0 <= i < names.len() implies #[trigger] names[i] != name by {
                if i > 0 {
                    assert(rest[i - 1] == names[i]);
                }
            }
        }
    }
}

/// Whether a member is a field of the shape, of the kind that it should have.
spec fn fits(shape: ShapeView, raw: Seq<char>, m: (KeyView, Node)) -> bool {
    shape.position(m.0.name) matches Some(i) && field_in(shape.kinds[i], m.1, raw) is Ok
}

/// Named fields are read just where each member fits, and under each name the last
/// one counts.
proof fn lemma_members(
    shape: ShapeView,
    raw: Seq<char>,
    fields: Fields,
    members: Seq<(KeyView, Node)>,
)
    requires
        fields.len() == shape.names.len(),
        forall|i: int, j: int|
            0 <= i < j < shape.names.len() ==> #[trigger] shape.names[i]
                != #[trigger] shape.names[j],
    ensures
        ({
            let whole = run_through(fields, members, add_member(shape, raw));
            &&& whole is Ok <==> forall|j: int|
                0 <= j < members.len() ==> fits(shape, raw, #[trigger] members[j])
            &&& whole matches Ok(all) ==> {
                &&& all.len() == shape.names.len()
                &&& forall|i: int|
                    0 <= i < shape.names.len() ==> #[trigger] all[i] == (match last_named(
                        members,
                        shape.names[i],
                    ) {
                        Some(m) => Some(field_in(shape.kinds[i], m, raw)->Ok_0),
                        None => fields[i],
                    })
            }
        }),
    decreases members.len(),
{
    if members.len() > 0 {
        let rest = members.drop_first();
        let m = members[0];
        lemma_position(shape.names, m.0.name);
        if fits(shape, raw, m) {
            let at = shape.position(m.0.name)->0;
            let next = fields.update(at, Some(field_in(shape.kinds[at], m.1, raw)->Ok_0));
            lemma_members(shape, raw, next, rest);
            let whole = run_through(fields, members, add_member(shape, raw));
            assert(whole == run_through(next, rest, add_member(shape, raw)));
            if whole is Ok {
                let all = whole->Ok_0;
                assert forall|j: int| 0 <= j < members.len() implies fits(
                    shape,
                    raw,
                    #[trigger] members[j],
                ) by {
                    if j > 0 {
                        assert(rest[j - 1] == members[j]);
                    }
                }
            } else {
                let j = choose|j: int|
                    0 <= j < rest.len() && !fits(shape, raw, #[trigger] rest[j]);
                assert(members[j + 1] == rest[j]);
            }
        }
    }
}

/// What is found under a name is a member with that name.
proof fn lemma_last_named(members: Seq<(KeyView, Node)>, name: Seq<char>)
    ensures
        match last_named(members, name) {
            Some(n) => exists|j: int|
                0 <= j < members.len() && (#[trigger] members[j]).0.name == name && members[j].1
                    == n,
            None => forall|j: int|
                0 <= j < members.len() ==> (#[trigger] members[j]).0.name != name,
        },
    decreases members.len(),
{
    if members.len() > 0 {
        let rest = members.drop_first();
        lemma_last_named(rest, name);
        match last_named(rest, name) {
            Some(n) => {
                let j = choose|j: int|
                    0 <= j < rest.len() && (#[trigger] rest[j]).0.name == name && rest[j].1 == n;
                assert(members[j + 1] == rest[j]);
            },
            None => {
                if members[0].0.name != name {
                    assert forall|j: int| 0 <= j < members.len() implies (
                    #[trigger] members[j]).0.name != name by {
                        if j > 0 {
                            assert(rest[j - 1] == members[j]);
                        }
                    }
                }
            },
        }
    }
}

/// The value that counts under a name is the last one under it, and there is none
/// just where no member has that name.
pub proof fn law_the_last_of_a_name_counts(
    members: Seq<(KeyView, Node)>,
    name: Seq<char>,
    i: int,
)
    ensures
        0 <= i < members.len() && members[i].0.name == name && (forall|j: int|
            i < j < members.len() ==> (#[trigger] members[j]).0.name != name) ==> last_named(
            members,
            name,
        ) == Some(members[i].1),
        last_named(members, name) is None <==> forall|j: int|
            0 <= j < members.len() ==> (#[trigger] members[j]).0.name != name,
    decreases members.len(),
{
    lemma_last_named(members, name);
    if members.len() > 0 && 0 <= i < members.len() {
        let rest = members.drop_first();
        law_the_last_of_a_name_counts(rest, name, i - 1);
        if members[i].0.name == name && (forall|j: int|
            i < j < members.len() ==> (#[trigger] members[j]).0.name != name) {
            assert forall|j: int| i - 1 < j < rest.len() implies (
            #[trigger] rest[j]).0.name != name by {
                assert(rest[j] == members[j + 1]);
            }
            if i > 0 {
                assert(rest[i - 1] == members[i]);
            } else {
                lemma_last_named(rest, name);
                if last_named(rest, name) is Some {
                    let j = choose|j: int|
                        0 <= j < rest.len() && (#[trigger] rest[j]).0.name == name;
                    assert(members[j + 1] == rest[j]);
                }
            }
        }
    }
}

/// The text under a name.
pub open spec fn text_under(members: Seq<(KeyView, Node)>, name: Seq<char>) -> Option<Seq<char>> {
    match last_named(members, name) {
        Some(n) => match n.kind {
            Kind::Text(s) => Some(s),
            _ => None,
        },
        None => None,
    }
}

/// The truth value under a name.
pub open spec fn truth_under(members: Seq<(KeyView, Node)>, name: Seq<char>) -> Option<bool> {
    match last_named(members, name) {
        Some(n) => match n.kind {
            Kind::Truth(b) => Some(b),
            _ => None,
        },
        None => None,
    }
}

/// The number under a name.
pub open spec fn number_under(members: Seq<(KeyView, Node)>, name: Seq<char>) -> Option<u64> {
    match last_named(members, name) {
        Some(n) => match source::number_in(n) {
            Ok(number) => Some(number),
            Err(_) => None,
        },
        None => None,
    }
}

/// What is read of a named field, by the kind that it should have.
proof fn lemma_named_field(
    shape: ShapeView,
    raw: Seq<char>,
    members: Seq<(KeyView, Node)>,
    all: Fields,
    i: int,
)
    requires
        shape.names.len() == shape.kinds.len(),
        forall|i: int, j: int|
            0 <= i < j < shape.names.len() ==> #[trigger] shape.names[i]
                != #[trigger] shape.names[j],
        run_through(
            Seq::new(shape.names.len(), |i: int| None::<FieldView>),
            members,
            add_member(shape, raw),
        ) == Ok::<Fields, Seq<char>>(all),
        0 <= i < shape.names.len(),
    ensures
        all.len() == shape.names.len(),
        shape.kinds[i] is Text ==> text_at(all, i) == text_under(members, shape.names[i]),
        shape.kinds[i] is Truth ==> truth_at(all, i) == truth_under(members, shape.names[i]),
        shape.kinds[i] is Number ==> number_at(all, i) == number_under(members, shape.names[i]),
        all[i] is None <==> last_named(members, shape.names[i]) is None,
        shape.kinds[i] is Texts ==> match last_named(members, shape.names[i]) {
            None => texts_at(all, i) is None,
            Some(n) => n.kind matches Kind::List(items) && texts_at(all, i) matches Some(texts)
                && texts.len() == items.len() && forall|k: int|
                0 <= k < items.len() ==> (#[trigger] items[k]).kind == Kind::Text(texts[k]),
        },
{
    let name = shape.names[i];
    lemma_members(shape, raw, Seq::new(shape.names.len(), |i: int| None), members);
    lemma_last_named(members, name);
    if let Some(n) = last_named(members, name) {
        let j = choose|j: int|
            0 <= j < members.len() && (#[trigger] members[j]).0.name == name && members[j].1 == n;
        assert(fits(shape, raw, members[j]));
        lemma_position(shape.names, name);
        assert(shape.position(name) == Some(i));
        law_fields_have_their_kind(n, raw);
        assert(all[i] == Some(field_in(shape.kinds[i], n, raw)->Ok_0));
    } else {
        assert(all[i] is None);
    }
}

proof fn lemma_activity_names()
    ensures
        <ActivityRule as Record>::shape().is_proper(),
        forall|i: int, j: int|
            0 <= i < j < 4 ==> #[trigger] <ActivityRule as Record>::shape().names[i]
                != #[trigger] <ActivityRule as Record>::shape().names[j],
{
    reveal_strlit("entity");
    reveal_strlit("category");
    reveal_strlit("placeholder_activity");
    reveal_strlit("placeholder_description");
    let names = <ActivityRule as Record>::shape().names;
    assert(names[0].len() == 6);
    assert(names[1].len() == 8);
    assert(names[2].len() == 20);
    assert(names[3].len() == 23);
    assert forall|i: int, j: int| 0 <= i < j < 4 implies #[trigger] names[i]
        != #[trigger] names[j] by {
        assert(names[i] == names[j] ==> names[i].len() == names[j].len());
        assert(i == 0 || i == 1 || i == 2 || i == 3);
        assert(j == 0 || j == 1 || j == 2 || j == 3);
    }
}

proof fn lemma_workspace_names()
    ensures
        <WorkspaceRule as Record>::shape().is_proper(),
        forall|i: int, j: int|
            0 <= i < j < 5 ==> #[trigger] <WorkspaceRule as Record>::shape().names[i]
                != #[trigger] <WorkspaceRule as Record>::shape().names[j],
{
    reveal_strlit("entity");
    reveal_strlit("track");
    reveal_strlit("category");
    reveal_strlit("placeholder_activity");
    reveal_strlit("placeholder_description");
    let names = <WorkspaceRule as Record>::shape().names;
    assert(names[0].len() == 6);
    assert(names[1].len() == 5);
    assert(names[2].len() == 8);
    assert(names[3].len() == 20);
    assert(names[4].len() == 23);
    assert forall|i: int, j: int| 0 <= i < j < 5 implies #[trigger] names[i]
        != #[trigger] names[j] by {
        assert(names[i] == names[j] ==> names[i].len() == names[j].len());
        assert(i == 0 || i == 1 || i == 2 || i == 3 || i == 4);
        assert(j == 0 || j == 1 || j == 2 || j == 3 || j == 4);
    }
}

proof fn lemma_default_names()
    ensures
        <Defaults as Record>::shape().is_proper(),
        forall|i: int, j: int|
            0 <= i < j < 9 ==> #[trigger] <Defaults as Record>::shape().names[i]
                != #[trigger] <Defaults as Record>::shape().names[j],
{
    reveal_strlit("switch_immediate");
    reveal_strlit("return_debounce_secs");
    reveal_strlit("untracked_grace_secs");
    reveal_strlit("entity_tag_key");
    reveal_strlit("extra_tags");
    reveal_strlit("placeholder_activity");
    reveal_strlit("placeholder_description");
    reveal_strlit("resume_lookback_days");
    reveal_strlit("mark_continuations");
    let names = <Defaults as Record>::shape().names;
    assert(names[0].len() == 16);
    assert(names[1].len() == 20);
    assert(names[2].len() == 20);
    assert(names[3].len() == 14);
    assert(names[4].len() == 10);
    assert(names[5].len() == 20);
    assert(names[6].len() == 23);
    assert(names[7].len() == 20);
    assert(names[8].len() == 18);
    assert(names[1][0] == 'r' && names[1][2] == 't');
    assert(names[7][0] == 'r' && names[7][2] == 's');
    assert(names[2][0] == 'u');
    assert(names[5][0] == 'p');
    assert forall|i: int, j: int| 0 <= i < j < 9 implies #[trigger] names[i]
        != #[trigger] names[j] by {
        assert(names[i] == names[j] ==> names[i].len() == names[j].len());
        assert(names[i] == names[j] ==> names[i][0] == names[j][0] && names[i][2]
            == names[j][2]);
        assert(i == 0 || i == 1 || i == 2 || i == 3 || i == 4 || i == 5 || i == 6 || i == 7 || i == 8);
        assert(j == 0 || j == 1 || j == 2 || j == 3 || j == 4 || j == 5 || j == 6 || j == 7 || j == 8);
    }
}

/// The fields of a table are read just where each member fits and the one that is
/// needed is there.
proof fn lemma_record(shape: ShapeView, n: Node, raw: Seq<char>)
    requires
        n.kind is Record,
        shape.is_proper(),
        forall|i: int, j: int|
            0 <= i < j < shape.names.len() ==> #[trigger] shape.names[i]
                != #[trigger] shape.names[j],
    ensures
        record_in(shape, n, raw) is Ok <==> (forall|j: int|
            0 <= j < n.kind->Record_0.len() ==> fits(
                shape,
                raw,
                #[trigger] n.kind->Record_0[j],
            )) && (shape.needs matches Some(i) ==> last_named(
            n.kind->Record_0,
            shape.names[i],
        ) is Some),
        record_in(shape, n, raw) matches Ok(all) ==> run_through(
            Seq::new(shape.names.len(), |i: int| None::<FieldView>),
            n.kind->Record_0,
            add_member(shape, raw),
        ) == Ok::<Fields, Seq<char>>(all),
{
    let members = n.kind->Record_0;
    let none = Seq::new(shape.names.len(), |i: int| None::<FieldView>);
    lemma_members(shape, raw, none, members);
    let whole = run_through(none, members, add_member(shape, raw));
    if whole is Ok && shape.needs is Some {
        lemma_named_field(shape, raw, members, whole->Ok_0, shape.needs->0);
    }
}

/// What an activity rule in a table is read as. A table is one just where each of its
/// members is the entity, the category or a placeholder, each a text, and the
/// category is there; and the rule has each from the member of that name.
pub proof fn law_activity_rules_are_read_by_name(n: Node, raw: Seq<char>)
    requires
        n.kind is Record,
    ensures
        ({
            let members = n.kind->Record_0;
            &&& record_of::<ActivityRule>(n, raw) is Ok <==> (forall|j: int|
                0 <= j < members.len() ==> {
                    let name = (#[trigger] members[j]).0.name;
                    &&& members[j].1.kind is Text
                    &&& (name == "entity"@
                    || name == "category"@
                    || name == "placeholder_activity"@
                    || name == "placeholder_description"@)
                }) && last_named(members, "category"@) is Some
            &&& record_of::<ActivityRule>(n, raw) matches Ok(rule) ==> {
                &&& rule.entity == text_under(members, "entity"@)
                &&& Some(rule.category) == text_under(members, "category"@)
                &&& rule.placeholder_activity == text_under(members, "placeholder_activity"@)
                &&& rule.placeholder_description == text_under(
                    members,
                    "placeholder_description"@,
                )
            }
        }),
{
    let shape = <ActivityRule as Record>::shape();
    let members = n.kind->Record_0;
    lemma_activity_names();
    lemma_record(shape, n, raw);
    assert forall|j: int| 0 <= j < members.len() implies fits(shape, raw, #[trigger] members[j])
        == ({
        let name = members[j].0.name;
        &&& members[j].1.kind is Text
        &&& (name == "entity"@
        || name == "category"@
        || name == "placeholder_activity"@
        || name == "placeholder_description"@)
    }) by {
        lemma_position(shape.names, members[j].0.name);
        assert(shape.names[0] == "entity"@ && shape.names[1] == "category"@);
        assert(shape.names[2] == "placeholder_activity"@);
        assert(shape.names[3] == "placeholder_description"@);
        law_fields_have_their_kind(members[j].1, raw);
    }
    if let Ok(all) = record_in(shape, n, raw) {
        lemma_named_field(shape, raw, members, all, 0);
        lemma_named_field(shape, raw, members, all, 1);
        lemma_named_field(shape, raw, members, all, 2);
        lemma_named_field(shape, raw, members, all, 3);
        lemma_last_named(members, "category"@);
        let m = last_named(members, "category"@)->0;
        assert(m.kind is Text);
    }
}

/// What a workspace rule in a table is read as. A table is one just where each of its
/// members is the entity, the category or a placeholder, each a text, or the truth
/// value that says whether to track it; and the rule has each from the member of
/// that name.
pub proof fn law_workspace_rules_are_read_by_name(n: Node, raw: Seq<char>)
    requires
        n.kind is Record,
    ensures
        ({
            let members = n.kind->Record_0;
            &&& record_of::<WorkspaceRule>(n, raw) is Ok <==> (forall|j: int|
                0 <= j < members.len() ==> {
                    let name = (#[trigger] members[j]).0.name;
                    ||| name == "track"@ && members[j].1.kind is Truth
                    ||| members[j].1.kind is Text && (name == "entity"@
                    || name == "category"@
                    || name == "placeholder_activity"@
                    || name == "placeholder_description"@)
                })
            &&& record_of::<WorkspaceRule>(n, raw) matches Ok(rule) ==> {
                &&& rule.entity == text_under(members, "entity"@)
                &&& rule.track == truth_under(members, "track"@)
                &&& rule.category == text_under(members, "category"@)
                &&& rule.placeholder_activity == text_under(members, "placeholder_activity"@)
                &&& rule.placeholder_description == text_under(
                    members,
                    "placeholder_description"@,
                )
            }
        }),
{
    let shape = <WorkspaceRule as Record>::shape();
    let members = n.kind->Record_0;
    lemma_workspace_names();
    lemma_record(shape, n, raw);
    assert forall|j: int| 0 <= j < members.len() implies fits(shape, raw, #[trigger] members[j])
        == ({
        let name = members[j].0.name;
        ||| name == "track"@ && members[j].1.kind is Truth
        ||| members[j].1.kind is Text && (name == "entity"@
        || name == "category"@
        || name == "placeholder_activity"@
        || name == "placeholder_description"@)
    }) by {
        lemma_position(shape.names, members[j].0.name);
        assert(shape.names[0] == "entity"@ && shape.names[1] == "track"@);
        assert(shape.names[2] == "category"@ && shape.names[3] == "placeholder_activity"@);
        assert(shape.names[4] == "placeholder_description"@);
        law_fields_have_their_kind(members[j].1, raw);
    }
    if let Ok(all) = record_in(shape, n, raw) {
        lemma_named_field(shape, raw, members, all, 0);
        lemma_named_field(shape, raw, members, all, 1);
        lemma_named_field(shape, raw, members, all, 2);
        lemma_named_field(shape, raw, members, all, 3);
        lemma_named_field(shape, raw, members, all, 4);
    }
}

/// What the defaults in a table are read as: each setting from the member of its
/// name, and where there is none the standard one.
#[verifier::spinoff_prover]
pub proof fn law_defaults_are_read_by_name(n: Node, raw: Seq<char>)
    requires
        n.kind is Record,
    ensures
        ({
            let members = n.kind->Record_0;
            record_of::<Defaults>(n, raw) matches Ok(d) ==> {
                &&& d.switch_immediate == (truth_under(members, "switch_immediate"@) != Some(
                    false,
                ))
                &&& match number_under(members, "return_debounce_secs"@) {
                    Some(secs) => d.return_debounce_secs == secs,
                    None => d.return_debounce_secs == 60,
                }
                &&& match number_under(members, "untracked_grace_secs"@) {
                    Some(secs) => d.untracked_grace_secs == secs,
                    None => d.untracked_grace_secs == 60,
                }
                &&& match text_under(members, "entity_tag_key"@) {
                    Some(s) => d.entity_tag_key == s,
                    None => d.entity_tag_key == "entity"@,
                }
                &&& match last_named(members, "extra_tags"@) {
                    Some(m) => m.kind matches Kind::List(items) && d.extra_tags.len()
                        == items.len() && forall|k: int|
                        0 <= k < items.len() ==> (#[trigger] items[k]).kind == Kind::Text(
                            d.extra_tags[k],
                        ),
                    None => d.extra_tags.len() == 0,
                }
                &&& match text_under(members, "placeholder_activity"@) {
                    Some(s) => d.placeholder_activity == s,
                    None => d.placeholder_activity == "placeholder"@,
                }
                &&& match text_under(members, "placeholder_description"@) {
                    Some(s) => d.placeholder_description == s,
                    None => d.placeholder_description
                        == "auto-started by jiji-hamster-bridge — rename me"@,
                }
                &&& match number_under(members, "resume_lookback_days"@) {
                    Some(days) => d.resume_lookback_days == days,
                    None => d.resume_lookback_days == 5,
                }
                &&& d.mark_continuations == (truth_under(members, "mark_continuations"@) != Some(
                    false,
                ))
            }
        }),
{
    let shape = <Defaults as Record>::shape();
    let members = n.kind->Record_0;
    lemma_default_names();
    lemma_record(shape, n, raw);
    if let Ok(all) = record_in(shape, n, raw) {
        lemma_named_field(shape, raw, members, all, 0);
        lemma_named_field(shape, raw, members, all, 1);
        lemma_named_field(shape, raw, members, all, 2);
        lemma_named_field(shape, raw, members, all, 3);
        lemma_named_field(shape, raw, members, all, 4);
        lemma_named_field(shape, raw, members, all, 5);
        lemma_named_field(shape, raw, members, all, 6);
        lemma_named_field(shape, raw, members, all, 7);
        lemma_named_field(shape, raw, members, all, 8);
        if let Some(b) = truth_under(members, "switch_immediate"@) {
            assert(b || !b);
        }
        if let Some(b) = truth_under(members, "mark_continuations"@) {
            assert(b || !b);
        }
    }
}

/// A table holds defaults just where each of its members is a setting of the right
/// kind.
#[verifier::spinoff_prover]
pub proof fn law_only_settings_are_defaults(n: Node, raw: Seq<char>)
    requires
        n.kind is Record,
    ensures
        record_of::<Defaults>(n, raw) is Ok <==> forall|j: int|
            0 <= j < n.kind->Record_0.len() ==> {
                let name = (#[trigger] n.kind->Record_0[j]).0.name;
                let value = n.kind->Record_0[j].1;
                ||| value.kind is Truth && (name == "switch_immediate"@ || name
                    == "mark_continuations"@)
                ||| source::number_in(value) is Ok && (name == "return_debounce_secs"@ || name
                    == "untracked_grace_secs"@ || name == "resume_lookback_days"@)
                ||| value.kind is Text && (name == "entity_tag_key"@ || name
                    == "placeholder_activity"@ || name == "placeholder_description"@)
                ||| name == "extra_tags"@ && (value.kind matches Kind::List(items)
                    && forall|i: int| 0 <= i < items.len() ==> (#[trigger] items[i]).kind is Text)
            },
{
    let shape = <Defaults as Record>::shape();
    let members = n.kind->Record_0;
    lemma_default_names();
    lemma_record(shape, n, raw);
    assert forall|j: int| 0 <= j < members.len() implies fits(shape, raw, #[trigger] members[j])
        == ({
        let name = members[j].0.name;
        let value = members[j].1;
        ||| value.kind is Truth && (name == "switch_immediate"@ || name == "mark_continuations"@)
        ||| source::number_in(value) is Ok && (name == "return_debounce_secs"@ || name
            == "untracked_grace_secs"@ || name == "resume_lookback_days"@)
        ||| value.kind is Text && (name == "entity_tag_key"@ || name == "placeholder_activity"@
            || name == "placeholder_description"@)
        ||| name == "extra_tags"@ && (value.kind matches Kind::List(items) && forall|i: int|
            0 <= i < items.len() ==> (#[trigger] items[i]).kind is Text)
    }) by {
        lemma_position(shape.names, members[j].0.name);
        assert(shape.names[0] == "switch_immediate"@);
        assert(shape.names[1] == "return_debounce_secs"@);
        assert(shape.names[2] == "untracked_grace_secs"@);
        assert(shape.names[3] == "entity_tag_key"@);
        assert(shape.names[4] == "extra_tags"@);
        assert(shape.names[5] == "placeholder_activity"@);
        assert(shape.names[6] == "placeholder_description"@);
        assert(shape.names[7] == "resume_lookback_days"@);
        assert(shape.names[8] == "mark_continuations"@);
        law_fields_have_their_kind(members[j].1, raw);
    }
}

/// Positional fields are read from as many items as the shape has fields.
proof fn lemma_items(
    shape: ShapeView,
    n: Node,
    items: Seq<Node>,
    raw: Seq<char>,
    fields: Fields,
)
    requires
        fields.len() <= shape.kinds.len(),
    ensures
        ({
            let from = fields.len() as int;
            let whole = run_through(
                fields,
                shape.kinds.skip(from),
                add_item(shape, n, items, raw),
            );
            &&& whole is Ok <==> forall|i: int|
                from <= i < shape.kinds.len() ==> (if i < items.len() {
                    field_in(#[trigger] shape.kinds[i], items[i], raw) is Ok
                } else {
                    shape.open
                })
            &&& whole matches Ok(all) ==> {
                &&& all.len() == shape.kinds.len()
                &&& forall|i: int| 0 <= i < from ==> #[trigger] all[i] == fields[i]
                &&& forall|i: int|
                    from <= i < shape.kinds.len() ==> #[trigger] all[i] == (if i < items.len() {
                        Some(field_in(shape.kinds[i], items[i], raw)->Ok_0)
                    } else {
                        None
                    })
            }
        }),
    decreases shape.kinds.len() - fields.len(),
{
    let from = fields.len() as int;
    let left = shape.kinds.skip(from);
    let step = add_item(shape, n, items, raw);
    if left.len() > 0 {
        assert(left[0] == shape.kinds[from]);
        assert(left.drop_first() =~= shape.kinds.skip(from + 1));
        if let Ok(next) = step(fields, left[0]) {
            assert(next.len() == from + 1);
            lemma_items(shape, n, items, raw, next);
            let whole = run_through(fields, left, step);
            assert(whole == run_through(next, shape.kinds.skip(from + 1), step));
            if whole is Ok {
                let all = whole->Ok_0;
                assert(all[from] == next[from]);
                assert forall|i: int| 0 <= i < from implies #[trigger] all[i] == fields[i] by {
                    assert(all[i] == next[i]);
                }
            }
        }
    }
}

/// What an array is read as: its items are the fields in their order, and items
/// beyond them do not count. It may have too few only where the shape is open; what
/// it lacks is left out.
pub proof fn law_arrays_are_read_in_order(shape: ShapeView, n: Node, raw: Seq<char>)
    requires
        n.kind is List,
    ensures
        ({
            let items = n.kind->List_0;
            &&& record_in(shape, n, raw) is Ok <==> forall|i: int|
                0 <= i < shape.kinds.len() ==> (if i < items.len() {
                    field_in(#[trigger] shape.kinds[i], items[i], raw) is Ok
                } else {
                    shape.open
                })
            &&& record_in(shape, n, raw) matches Ok(all) ==> all.len() == shape.kinds.len()
                && forall|i: int|
                0 <= i < shape.kinds.len() ==> #[trigger] all[i] == (if i < items.len() {
                    Some(field_in(shape.kinds[i], items[i], raw)->Ok_0)
                } else {
                    None
                })
        }),
{
    lemma_items(shape, n, n.kind->List_0, raw, Seq::empty());
    assert(shape.kinds.skip(0) =~= shape.kinds);
}

/// What an activity rule in an array is read as: the entity, the category, and the
/// placeholder's activity and description, all texts.
pub proof fn law_activity_rules_are_read_in_order(n: Node, raw: Seq<char>)
    requires
        n.kind is List,
    ensures
        ({
            let items = n.kind->List_0;
            &&& record_of::<ActivityRule>(n, raw) is Ok <==> items.len() >= 4
                && items[0].kind is Text && items[1].kind is Text && items[2].kind is Text
                && items[3].kind is Text
            &&& record_of::<ActivityRule>(n, raw) matches Ok(rule) ==> {
                &&& rule.entity == Some(items[0].kind->Text_0)
                &&& rule.category == items[1].kind->Text_0
                &&& rule.placeholder_activity == Some(items[2].kind->Text_0)
                &&& rule.placeholder_description == Some(items[3].kind->Text_0)
            }
        }),
{
    let shape = <ActivityRule as Record>::shape();
    let items = n.kind->List_0;
    law_arrays_are_read_in_order(shape, n, raw);
    assert forall|i: int| 0 <= i < 4 && i < items.len() implies (field_in(
        #[trigger] shape.kinds[i],
        items[i],
        raw,
    ) is Ok <==> items[i].kind is Text) by {
        assert(i == 0 || i == 1 || i == 2 || i == 3);
        law_fields_have_their_kind(items[i], raw);
    }
    assert(shape.kinds[0] is Text && shape.kinds[1] is Text && shape.kinds[2] is Text
        && shape.kinds[3] is Text);
    if let Ok(all) = record_in(shape, n, raw) {
        law_fields_have_their_kind(items[0], raw);
        law_fields_have_their_kind(items[1], raw);
        law_fields_have_their_kind(items[2], raw);
        law_fields_have_their_kind(items[3], raw);
        assert(all[0] is Some && all[1] is Some && all[2] is Some && all[3] is Some);
    }
}

/// What a workspace rule in an array is read as: the entity, whether to track it, the
/// category, and the placeholder's activity and description.
pub proof fn law_workspace_rules_are_read_in_order(n: Node, raw: Seq<char>)
    requires
        n.kind is List,
    ensures
        ({
            let items = n.kind->List_0;
            &&& record_of::<WorkspaceRule>(n, raw) is Ok <==> items.len() >= 5
                && items[0].kind is Text && items[1].kind is Truth && items[2].kind is Text
                && items[3].kind is Text && items[4].kind is Text
            &&& record_of::<WorkspaceRule>(n, raw) matches Ok(rule) ==> {
                &&& rule.entity == Some(items[0].kind->Text_0)
                &&& rule.track == Some(items[1].kind->Truth_0)
                &&& rule.category == Some(items[2].kind->Text_0)
                &&& rule.placeholder_activity == Some(items[3].kind->Text_0)
                &&& rule.placeholder_description == Some(items[4].kind->Text_0)
            }
        }),
{
    let shape = <WorkspaceRule as Record>::shape();
    let items = n.kind->List_0;
    law_arrays_are_read_in_order(shape, n, raw);
    assert forall|i: int| 0 <= i < 5 && i < items.len() implies (field_in(
        #[trigger] shape.kinds[i],
        items[i],
        raw,
    ) is Ok <==> (if i == 1 {
        items[i].kind is Truth
    } else {
        items[i].kind is Text
    })) by {
        assert(i == 0 || i == 1 || i == 2 || i == 3 || i == 4);
        law_fields_have_their_kind(items[i], raw);
    }
    assert(shape.kinds[0] is Text && shape.kinds[1] is Truth && shape.kinds[2] is Text
        && shape.kinds[3] is Text && shape.kinds[4] is Text);
    if let Ok(all) = record_in(shape, n, raw) {
        law_fields_have_their_kind(items[0], raw);
        law_fields_have_their_kind(items[1], raw);
        law_fields_have_their_kind(items[2], raw);
        law_fields_have_their_kind(items[3], raw);
        law_fields_have_their_kind(items[4], raw);
        assert(all[0] is Some && all[1] is Some && all[2] is Some && all[3] is Some
            && all[4] is Some);
    }
}

/// What the defaults in an array are read as: the settings in their order, and for
/// those that the array is too short for the standard ones.
#[verifier::spinoff_prover]
pub proof fn law_defaults_are_read_in_order(n: Node, raw: Seq<char>)
    requires
        n.kind is List,
    ensures
        ({
            let items = n.kind->List_0;
            record_of::<Defaults>(n, raw) matches Ok(d) ==> {
                &&& if 0 < items.len() {
                    items[0].kind == Kind::Truth(d.switch_immediate)
                } else {
                    d.switch_immediate
                }
                &&& if 1 < items.len() {
                    source::number_in(items[1]) == Ok::<u64, Seq<char>>(d.return_debounce_secs)
                } else {
                    d.return_debounce_secs == 60
                }
                &&& if 2 < items.len() {
                    source::number_in(items[2]) == Ok::<u64, Seq<char>>(d.untracked_grace_secs)
                } else {
                    d.untracked_grace_secs == 60
                }
                &&& if 3 < items.len() {
                    items[3].kind == Kind::Text(d.entity_tag_key)
                } else {
                    d.entity_tag_key == "entity"@
                }
                &&& if 4 < items.len() {
                    items[4].kind matches Kind::List(tags) && tags.len() == d.extra_tags.len()
                        && forall|k: int|
                        0 <= k < tags.len() ==> (#[trigger] tags[k]).kind == Kind::Text(
                            d.extra_tags[k],
                        )
                } else {
                    d.extra_tags.len() == 0
                }
                &&& if 5 < items.len() {
                    items[5].kind == Kind::Text(d.placeholder_activity)
                } else {
                    d.placeholder_activity == "placeholder"@
                }
                &&& if 6 < items.len() {
                    items[6].kind == Kind::Text(d.placeholder_description)
                } else {
                    d.placeholder_description == "auto-started by jiji-hamster-bridge — rename me"@
                }
                &&& if 7 < items.len() {
                    source::number_in(items[7]) == Ok::<u64, Seq<char>>(d.resume_lookback_days)
                } else {
                    d.resume_lookback_days == 5
                }
                &&& if 8 < items.len() {
                    items[8].kind == Kind::Truth(d.mark_continuations)
                } else {
                    d.mark_continuations
                }
            }
        }),
{
    let shape = <Defaults as Record>::shape();
    let items = n.kind->List_0;
    law_arrays_are_read_in_order(shape, n, raw);
    if let Ok(all) = record_in(shape, n, raw) {
        assert(shape.kinds[0] is Truth && shape.kinds[8] is Truth);
        assert(shape.kinds[1] is Number && shape.kinds[2] is Number && shape.kinds[7] is Number);
        assert(shape.kinds[3] is Text && shape.kinds[5] is Text && shape.kinds[6] is Text);
        assert(shape.kinds[4] is Texts);
        assert(all[0] is None || all[0] is Some);
        assert(all[1] is None || all[1] is Some);
        assert(all[2] is None || all[2] is Some);
        assert(all[3] is None || all[3] is Some);
        assert(all[4] is None || all[4] is Some);
        assert(all[5] is None || all[5] is Some);
        assert(all[6] is None || all[6] is Some);
        assert(all[7] is None || all[7] is Some);
        assert(all[8] is None || all[8] is Some);
        law_fields_have_their_kind(items[0], raw);
        law_fields_have_their_kind(items[1], raw);
        law_fields_have_their_kind(items[2], raw);
        law_fields_have_their_kind(items[3], raw);
        law_fields_have_their_kind(items[4], raw);
        law_fields_have_their_kind(items[5], raw);
        law_fields_have_their_kind(items[6], raw);
        law_fields_have_their_kind(items[7], raw);
        law_fields_have_their_kind(items[8], raw);
    }
}

/// Only tables and arrays are records, only tables hold rules, and only a table is a
/// configuration.
pub proof fn law_other_values_are_refused<R: Record>(n: Node, raw: Seq<char>)
    ensures
        !(n.kind is Record) && !(n.kind is List) ==> record_of::<R>(n, raw) is Err,
        !(n.kind is Record) ==> rules_in::<R>(n, raw) is Err,
        !(n.kind is Record) ==> config_in(n, raw) is Err,
{
}

proof fn lemma_all_rules<R: Record>(
    rules: Seq<(Seq<char>, R::V)>,
    members: Seq<(KeyView, Node)>,
    raw: Seq<char>,
    i: int,
)
    ensures
        ({
            let whole = run_through(rules, members, add_rule::<R>(raw));
            &&& whole is Ok <==> forall|j: int|
                0 <= j < members.len() ==> record_of::<R>((#[trigger] members[j]).1, raw) is Ok
            &&& 0 <= i < members.len() && (forall|j: int|
                0 <= j < i ==> record_of::<R>((#[trigger] members[j]).1, raw) is Ok) ==> (
            record_of::<R>(members[i].1, raw) matches Err(complaint) ==> whole == Err::<
                Seq<(Seq<char>, R::V)>,
                Seq<char>,
            >(complaint))
        }),
    decreases members.len(),
{
    if members.len() > 0 {
        let rest = members.drop_first();
        if let Ok(rule) = record_of::<R>(members[0].1, raw) {
            let next = table::inserted(rules, members[0].0.name, rule);
            lemma_all_rules::<R>(next, rest, raw, i - 1);
            let whole = run_through(rules, members, add_rule::<R>(raw));
            assert(whole == run_through(next, rest, add_rule::<R>(raw)));
            if whole is Ok {
                assert forall|j: int| 0 <= j < members.len() implies record_of::<R>(
                    (#[trigger] members[j]).1,
                    raw,
                ) is Ok by {
                    if j > 0 {
                        assert(rest[j - 1] == members[j]);
                    }
                }
            } else {
                let j = choose|j: int|
                    0 <= j < rest.len() && !(record_of::<R>((#[trigger] rest[j]).1, raw) is Ok);
                assert(members[j + 1] == rest[j]);
            }
            if 0 < i < members.len() && (forall|j: int|
                0 <= j < i ==> record_of::<R>((#[trigger] members[j]).1, raw) is Ok) {
                assert(rest[i - 1] == members[i]);
                assert forall|j: int| 0 <= j < i - 1 implies record_of::<R>(
                    (#[trigger] rest[j]).1,
                    raw,
                ) is Ok by {
                    assert(rest[j] == members[j + 1]);
                }
            }
        }
    }
}

/// A table holds rules just where every member of it is one, and is complained of as
/// its first member that is none.
pub proof fn law_every_member_is_a_rule<R: Record>(n: Node, raw: Seq<char>, i: int)
    requires
        n.kind is Record,
    ensures
        ({
            let members = n.kind->Record_0;
            &&& rules_in::<R>(n, raw) is Ok <==> forall|j: int|
                0 <= j < members.len() ==> record_of::<R>((#[trigger] members[j]).1, raw) is Ok
            &&& 0 <= i < members.len() && (forall|j: int|
                0 <= j < i ==> record_of::<R>((#[trigger] members[j]).1, raw) is Ok) ==> (
            record_of::<R>(members[i].1, raw) matches Err(complaint) ==> rules_in::<R>(n, raw)
                == Err::<Seq<(Seq<char>, R::V)>, Seq<char>>(complaint))
        }),
{
    lemma_all_rules::<R>(Seq::empty(), n.kind->Record_0, raw, i);
}

/// Whether a member is a table of a configuration, with what it should hold.
spec fn is_table(raw: Seq<char>, m: (KeyView, Node)) -> bool {
    ||| m.0.name == "defaults"@ && record_of::<Defaults>(m.1, raw) is Ok
    ||| m.0.name == "activities"@ && rules_in::<ActivityRule>(m.1, raw) is Ok
    ||| m.0.name == "workspaces"@ && rules_in::<WorkspaceRule>(m.1, raw) is Ok
}

proof fn lemma_tables(config: ConfigView, members: Seq<(KeyView, Node)>, raw: Seq<char>)
    ensures
        ({
            let whole = run_through(config, members, add_table(raw));
            &&& whole is Ok <==> forall|j: int|
                0 <= j < members.len() ==> is_table(raw, #[trigger] members[j])
            &&& whole matches Ok(all) ==> {
                &&& match last_named(members, "defaults"@) {
                    Some(m) => record_of::<Defaults>(m, raw) == Ok::<DefaultsView, Seq<char>>(
                        all.defaults,
                    ),
                    None => all.defaults == config.defaults,
                }
                &&& match last_named(members, "activities"@) {
                    Some(m) => rules_in::<ActivityRule>(m, raw) == Ok::<
                        Seq<(Seq<char>, ActivityRuleView)>,
                        Seq<char>,
                    >(all.activities),
                    None => all.activities == config.activities,
                }
                &&& match last_named(members, "workspaces"@) {
                    Some(m) => rules_in::<WorkspaceRule>(m, raw) == Ok::<
                        Seq<(Seq<char>, WorkspaceRuleView)>,
                        Seq<char>,
                    >(all.workspaces),
                    None => all.workspaces == config.workspaces,
                }
            }
        }),
    decreases members.len(),
{
    reveal_strlit("defaults");
    reveal_strlit("activities");
    reveal_strlit("workspaces");
    assert("defaults"@.len() == 8 && "activities"@.len() == 10 && "workspaces"@.len() == 10);
    assert("activities"@[0] == 'a' && "workspaces"@[0] == 'w');
    if members.len() > 0 {
        let rest = members.drop_first();
        let step = add_table(raw);
        let whole = run_through(config, members, step);
        if let Ok(next) = step(config, members[0]) {
            lemma_tables(next, rest, raw);
            assert(whole == run_through(next, rest, step));
            assert(is_table(raw, members[0]));
            if whole is Ok {
                assert forall|j: int| 0 <= j < members.len() implies is_table(
                    raw,
                    #[trigger] members[j],
                ) by {
                    if j > 0 {
                        assert(rest[j - 1] == members[j]);
                    }
                }
            } else {
                let j = choose|j: int| 0 <= j < rest.len() && !is_table(raw, #[trigger] rest[j]);
                assert(members[j + 1] == rest[j]);
            }
        } else {
            assert(!is_table(raw, members[0]));
        }
    }
}

/// What a document is read as. It is a configuration just where each of its members
/// is the table of the defaults, of the activity rules or of the workspace rules, and
/// holds what it should; each part is what its table holds, and without the table
/// the defaults are standard and there are no rules.
pub proof fn law_documents_are_read_by_table(n: Node, raw: Seq<char>)
    requires
        n.kind is Record,
    ensures
        ({
            let members = n.kind->Record_0;
            &&& config_in(n, raw) is Ok <==> forall|j: int|
                0 <= j < members.len() ==> {
                    let name = (#[trigger] members[j]).0.name;
                    let table = members[j].1;
                    ||| name == "defaults"@ && record_of::<Defaults>(table, raw) is Ok
                    ||| name == "activities"@ && rules_in::<ActivityRule>(table, raw) is Ok
                    ||| name == "workspaces"@ && rules_in::<WorkspaceRule>(table, raw) is Ok
                }
            &&& config_in(n, raw) matches Ok(config) ==> {
                &&& match last_named(members, "defaults"@) {
                    Some(m) => record_of::<Defaults>(m, raw) == Ok::<DefaultsView, Seq<char>>(
                        config.defaults,
                    ),
                    None => config.defaults == config::standard_defaults(),
                }
                &&& match last_named(members, "activities"@) {
                    Some(m) => rules_in::<ActivityRule>(m, raw) == Ok::<
                        Seq<(Seq<char>, ActivityRuleView)>,
                        Seq<char>,
                    >(config.activities),
                    None => config.activities.len() == 0,
                }
                &&& match last_named(members, "workspaces"@) {
                    Some(m) => rules_in::<WorkspaceRule>(m, raw) == Ok::<
                        Seq<(Seq<char>, WorkspaceRuleView)>,
                        Seq<char>,
                    >(config.workspaces),
                    None => config.workspaces.len() == 0,
                }
            }
        }),
{
    let members = n.kind->Record_0;
    lemma_tables(empty_config(), members, raw);
    assert forall|j: int| 0 <= j < members.len() implies is_table(raw, #[trigger] members[j])
        == ({
        let name = members[j].0.name;
        let table = members[j].1;
        ||| name == "defaults"@ && record_of::<Defaults>(table, raw) is Ok
        ||| name == "activities"@ && rules_in::<ActivityRule>(table, raw) is Ok
        ||| name == "workspaces"@ && rules_in::<WorkspaceRule>(table, raw) is Ok
    }) by {}
}

/// An empty table of defaults is standard: the settings that a document without the
/// table has are those that one with an empty table has.
pub proof fn law_empty_defaults_are_standard(n: Node, raw: Seq<char>)
    requires
        n.kind is Record,
        n.kind->Record_0.len() == 0,
    ensures
        record_of::<Defaults>(n, raw) == Ok::<DefaultsView, Seq<char>>(
            config::standard_defaults(),
        ),
{
}

/// A table is complained of as its first member that is no field or of another kind:
/// of the one, by its key; of the other, by its value.
pub proof fn law_the_first_member_at_fault_is_told(
    shape: ShapeView,
    n: Node,
    raw: Seq<char>,
    i: int,
)
    requires
        n.kind is Record,
        0 <= i < n.kind->Record_0.len(),
    ensures
        ({
            let members = n.kind->Record_0;
            let (key, value) = members[i];
            (forall|j: int|
                0 <= j < i ==> (shape.position((#[trigger] members[j]).0.name) matches Some(at)
                    && field_in(shape.kinds[at], members[j].1, raw) is Ok)) ==> {
                &&& !shape.names.contains(key.name) ==> record_in(shape, n, raw) == Err::<
                    Fields,
                    Seq<char>,
                >(
                    source::complaint_at(
                        raw,
                        key.start,
                        key.end,
                        source::unknown_field_message(key.name, shape.names),
                    ),
                )
                &&& shape.position(key.name) matches Some(at) ==> (field_in(
                    shape.kinds[at],
                    value,
                    raw,
                ) matches Err(complaint) ==> record_in(shape, n, raw) == Err::<
                    Fields,
                    Seq<char>,
                >(complaint))
            }
        }),
{
    let members = n.kind->Record_0;
    if forall|j: int|
        0 <= j < i ==> (shape.position((#[trigger] members[j]).0.name) matches Some(at)
            && field_in(shape.kinds[at], members[j].1, raw) is Ok) {
        lemma_first_member(
            shape,
            raw,
            Seq::new(shape.names.len(), |i: int| None::<FieldView>),
            members,
            i,
        );
        lemma_position(shape.names, members[i].0.name);
        if let Some(at) = shape.position(members[i].0.name) {
            assert(shape.names.contains(shape.names[at]));
        }
    }
}

/// An activity rule that lacks nothing but the category is complained of as a whole.
pub proof fn law_a_missing_category_is_told(n: Node, raw: Seq<char>)
    requires
        n.kind is Record,
        forall|j: int|
            0 <= j < n.kind->Record_0.len() ==> {
                let name = (#[trigger] n.kind->Record_0[j]).0.name;
                &&& n.kind->Record_0[j].1.kind is Text
                &&& (name == "entity"@ || name == "placeholder_activity"@ || name
                    == "placeholder_description"@)
            },
    ensures
        record_of::<ActivityRule>(n, raw) == Err::<ActivityRuleView, Seq<char>>(
            source::complaint_at(raw, n.start, n.end, "missing field `category`"@),
        ),
{
    let shape = <ActivityRule as Record>::shape();
    let members = n.kind->Record_0;
    let none = Seq::new(shape.names.len(), |i: int| None::<FieldView>);
    lemma_activity_names();
    lemma_members(shape, raw, none, members);
    reveal_strlit("category");
    reveal_strlit("missing field `");
    reveal_strlit("`");
    reveal_strlit("missing field `category`");
    reveal_strlit("entity");
    reveal_strlit("placeholder_activity");
    reveal_strlit("placeholder_description");
    assert forall|j: int| 0 <= j < members.len() implies fits(
        shape,
        raw,
        #[trigger] members[j],
    ) by {
        lemma_position(shape.names, members[j].0.name);
        assert(shape.names[0] == "entity"@ && shape.names[1] == "category"@);
        assert(shape.names[2] == "placeholder_activity"@);
        assert(shape.names[3] == "placeholder_description"@);
        law_fields_have_their_kind(members[j].1, raw);
    }
    lemma_last_named(members, "category"@);
    lemma_named_field(
        shape,
        raw,
        members,
        run_through(none, members, add_member(shape, raw))->Ok_0,
        1,
    );
    assert("missing field `"@ + "category"@ + "`"@ =~= "missing field `category`"@);
}

proof fn lemma_first_member(
    shape: ShapeView,
    raw: Seq<char>,
    fields: Fields,
    members: Seq<(KeyView, Node)>,
    i: int,
)
    requires
        0 <= i < members.len(),
        forall|j: int| 0 <= j < i ==> fits(shape, raw, #[trigger] members[j]),
    ensures
        ({
            let whole = run_through(fields, members, add_member(shape, raw));
            let (key, value) = members[i];
            &&& shape.position(key.name) is None ==> whole == Err::<Fields, Seq<char>>(
                source::complaint_at(
                    raw,
                    key.start,
                    key.end,
                    source::unknown_field_message(key.name, shape.names),
                ),
            )
            &&& shape.position(key.name) matches Some(at) ==> (field_in(
                shape.kinds[at],
                value,
                raw,
            ) matches Err(complaint) ==> whole == Err::<Fields, Seq<char>>(complaint))
        }),
    decreases members.len(),
{
    if i > 0 {
        let rest = members.drop_first();
        assert(fits(shape, raw, members[0]));
        let step = add_member(shape, raw);
        let next = step(fields, members[0])->Ok_0;
        assert(rest[i - 1] == members[i]);
        assert forall|j: int| 0 <= j < i - 1 implies fits(shape, raw, #[trigger] rest[j]) by {
            assert(rest[j] == members[j + 1]);
        }
        lemma_first_member(shape, raw, next, rest, i - 1);
        assert(run_through(fields, members, step) == run_through(next, rest, step));
    }
}

} // verus!
