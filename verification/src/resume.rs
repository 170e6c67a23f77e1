//! Resume planning: clone the newest recent entity-tagged fact, or start a placeholder.
use crate::calendar;
use crate::calendar::Date;
use crate::config::{Defaults, DefaultsView, TrackedRule, TrackedRuleView};
use crate::hamster;
use crate::hamster::{Fact, FactView, NewFact, NewFactView, NewRange};
use crate::markers;
use crate::text;
use vstd::prelude::*;
use vstd::string::*;

verus! {

/// The fact to submit, and what to tell the user.
#[derive(Debug, Clone)]
pub struct ResumePlan {
    pub fact: NewFact,
    pub notification: Option<String>,
}

/// What a plan says.
pub struct PlanView {
    pub fact: NewFactView,
    pub notification: Option<Seq<char>>,
}

impl View for ResumePlan {
    type V = PlanView;

    open spec fn view(&self) -> PlanView {
        PlanView { fact: self.fact@, notification: text::opt(self.notification) }
    }
}

/// The date token of a timestamp: its first word, or the text itself where it
/// has none.
pub open spec fn date_of(ts: Seq<char>) -> Seq<char> {
    if text::is_blank(ts) {
        ts
    } else {
        first_word(text::trim_start(ts))
    }
}

/// What stands before the first white space.
pub open spec fn first_word(s: Seq<char>) -> Seq<char>
    decreases s.len(),
{
    if s.len() == 0 || text::is_space(s[0]) {
        Seq::empty()
    } else {
        seq![s[0]] + first_word(s.drop_first())
    }
}

/// Whether a fact started on the day of `now`.
pub open spec fn is_same_day(f: FactView, now: Seq<char>) -> bool {
    f.start matches Some(start) && date_of(start) == date_of(now)
}

/// The description to carry forward from a fact.
pub open spec fn carried(f: FactView, defaults: DefaultsView, now: Seq<char>) -> Seq<char> {
    if defaults.mark_continuations && is_same_day(f, now) {
        markers::continued(f.description)
    } else {
        f.description
    }
}

/// The newest fact of the entity; the facts stand oldest first.
pub open spec fn newest_of(facts: Seq<FactView>, key: Seq<char>, entity: Seq<char>) -> Option<
    FactView,
>
    decreases facts.len(),
{
    if facts.len() == 0 {
        None
    } else if hamster::tagged_entity(facts.last().tags, key) == Some(entity) {
        Some(facts.last())
    } else {
        newest_of(facts.drop_last(), key, entity)
    }
}

/// The tag that carries an entity.
pub open spec fn entity_tag(key: Seq<char>, entity: Seq<char>) -> Seq<char> {
    key + ": "@ + entity
}

/// The plan that continues a fact.
pub open spec fn clone_of(f: FactView, defaults: DefaultsView, now: Seq<char>) -> PlanView {
    PlanView {
        fact: NewFactView {
            activity: f.activity,
            category: f.category,
            description: carried(f, defaults, now),
            tags: f.tags,
            start: now,
            end: None,
        },
        notification: None,
    }
}

/// The plan that starts a placeholder.
pub open spec fn placeholder(
    rule: TrackedRuleView,
    defaults: DefaultsView,
    now: Seq<char>,
) -> PlanView {
    PlanView {
        fact: NewFactView {
            activity: rule.placeholder_activity,
            category: rule.category,
            description: rule.placeholder_description,
            tags: seq![entity_tag(defaults.entity_tag_key, rule.entity)] + defaults.extra_tags,
            start: now,
            end: None,
        },
        notification: Some(
            "started placeholder for "@ + rule.entity
                + " — rename it in hamster when convenient"@,
        ),
    }
}

/// How to resume the entity of a rule.
pub open spec fn planned(
    facts: Seq<FactView>,
    rule: TrackedRuleView,
    defaults: DefaultsView,
    now: Seq<char>,
) -> PlanView {
    match newest_of(facts, defaults.entity_tag_key, rule.entity) {
        Some(f) => clone_of(f, defaults, now),
        None => placeholder(rule, defaults, now),
    }
}

/// `now_local` is a hamster-format local timestamp ("YYYY-MM-DD HH:MM").
///
/// `facts` is the recent fact window (see [`day_range`]) the planner searches,
/// newest-first, for a prior fact of the same entity to clone. Pure planning
/// only: the returned fact is open-ended (`end: None`), so the caller must stop
/// any currently running fact before submitting it, including when the matched
/// template fact is itself still running.
pub fn plan_resume(
    facts: &[Fact],
    rule: &TrackedRule,
    defaults: &Defaults,
    now_local: &str,
) -> (r: ResumePlan)
    ensures
        r@ == planned(hamster::facts_view(facts@), rule@, defaults@, now_local@),
{
    let ghost all = hamster::facts_view(facts@);
    let ghost key = defaults.entity_tag_key@;
    let mut i: usize = facts.len();
    assert(all.take(i as int) =~= all);
    while i > 0
        invariant
            i <= facts.len(),
            all == hamster::facts_view(facts@),
            key == defaults.entity_tag_key@,
            newest_of(all, key, rule.entity@) == newest_of(all.take(i as int), key, rule.entity@),
        decreases i,
    {
        let f: &Fact = &facts[i - 1];
        assert(all.take(i as int).last() == f@);
        if let Some(entity) = hamster::entity_of(f, defaults.entity_tag_key.as_str()) {
            if text::same(entity.as_str(), rule.entity.as_str()) {
                return ResumePlan {
                    fact: NewFact {
                        activity: f.activity.clone(),
                        category: f.category.clone(),
                        description: carried_description(f, defaults, now_local),
                        tags: text::copy_all(&f.tags),
                        range: NewRange { start: now_local.to_owned(), end: None },
                    },
                    notification: None,
                };
            }
        }
        assert(all.take(i as int).drop_last() =~= all.take(i - 1));
        i = i - 1;
    }
    let mut tags: Vec<String> = Vec::new();
    tags.push(
        defaults.entity_tag_key.clone().concat(": ").concat(rule.entity.as_str()),
    );
    let mut extra: Vec<String> = text::copy_all(&defaults.extra_tags);
    tags.append(&mut extra);
    assert(text::texts(tags@) =~= planned(all, rule@, defaults@, now_local@).fact.tags);
    ResumePlan {
        fact: NewFact {
            activity: rule.placeholder_activity.clone(),
            category: rule.category.clone(),
            description: rule.placeholder_description.clone(),
            tags,
            range: NewRange { start: now_local.to_owned(), end: None },
        },
        notification: Some(
            "started placeholder for ".to_owned().concat(rule.entity.as_str()).concat(
                " — rename it in hamster when convenient",
            ),
        ),
    }
}

/// The description to carry forward when cloning `f`. When continuation marking
/// is enabled and `f` started on the same calendar day as `now_local`, each
/// carried-over block's first line is stamped with the continued marker (`..`);
/// otherwise the description is cloned verbatim. A cross-day clone (or a fact
/// with no recorded start) is a fresh effort today and is never marked.
pub fn carried_description(f: &Fact, defaults: &Defaults, now_local: &str) -> (r: String)
    ensures
        r@ == carried(f@, defaults@, now_local@),
{
    let same_day: bool = match &f.range.start {
        Some(start) => text::same(date_part(start.as_str()), date_part(now_local)),
        None => false,
    };
    if defaults.mark_continuations && same_day {
        markers::mark_continuation(f.description.as_str())
    } else {
        f.description.clone()
    }
}

/// The "YYYY-MM-DD" date token of a hamster-format "YYYY-MM-DD HH:MM" timestamp.
pub fn date_part(ts: &str) -> (r: &str)
    ensures
        r@ == date_of(ts@),
{
    let (_, rest) = text::split_indent(ts);
    proof {
        text::lemma_blank(ts@);
        text::lemma_indent(ts@);
    }
    let chars: Vec<char> = text::to_chars(rest);
    if chars.len() == 0 {
        return ts;
    }
    let mut n: usize = 0;
    assert(rest@.skip(0) =~= rest@);
    while n < chars.len() && !text::is_white_space(chars[n])
        invariant
            n <= chars.len(),
            chars@ == rest@,
            first_word(rest@) == rest@.take(n as int) + first_word(rest@.skip(n as int)),
        decreases chars.len() - n,
    {
        assert(rest@.skip(n as int).drop_first() =~= rest@.skip(n + 1));
        assert(rest@.take(n + 1) + first_word(rest@.skip(n + 1)) =~= rest@.take(n as int) + (seq![
            rest@[n as int],
        ] + first_word(rest@.skip(n + 1))));
        n = n + 1;
    }
    assert(first_word(rest@.skip(n as int)) =~= Seq::empty());
    assert(first_word(rest@) =~= rest@.take(n as int));
    rest.substring_char(0, n)
}

/// Hamster `GetFactsJSON` range string spanning the last `days` days: from
/// `days` days before `today` through `today`, inclusive. `days == 0` yields a
/// single-day (today-only) range. Pure: the clock is supplied via `today`.
pub fn day_range(today: Date, days: u64) -> (r: String)
    requires
        today.is_date(),
        today.reaches(days as int),
    ensures
        r@ == today.days_before(days as int).text() + " "@ + today.text(),
{
    let start: Date = calendar::go_back(today, days);
    proof {
        calendar::law_days_before(today, days as int, start);
    }
    calendar::write_date(start).concat(" ").concat(calendar::write_date(today).as_str())
}

/// A range of no days is that of today alone.
pub proof fn law_today_only(today: Date)
    requires
        today.is_date(),
    ensures
        today.days_before(0) == today,
{
    calendar::law_days_before(today, 0, today);
}

/// The date token of a timestamp is what stands before the first white space.
pub proof fn law_date_of_timestamp(date: Seq<char>, rest: Seq<char>)
    requires
        date.len() > 0,
        forall|i: int| 0 <= i < date.len() ==> !text::is_space(#[trigger] date[i]),
        rest.len() > 0 ==> text::is_space(rest[0]),
    ensures
        date_of(date + rest) == date,
{
    let ts = date + rest;
    assert(ts[0] == date[0]);
    assert(text::indent(ts) == 0);
    assert(text::trim_start(ts) =~= ts);
    lemma_first_word(date, rest);
}

proof fn lemma_first_word(word: Seq<char>, rest: Seq<char>)
    requires
        forall|i: int| 0 <= i < word.len() ==> !text::is_space(#[trigger] word[i]),
        rest.len() > 0 ==> text::is_space(rest[0]),
    ensures
        first_word(word + rest) == word,
    decreases word.len(),
{
    let s = word + rest;
    if word.len() == 0 {
        assert(s =~= rest);
        assert(first_word(s) =~= word);
    } else {
        let tail = word.drop_first();
        assert(s.drop_first() =~= tail + rest);
        assert forall|i: int| 0 <= i < tail.len() implies !text::is_space(#[trigger] tail[i]) by {
            assert(tail[i] == word[i + 1]);
        }
        lemma_first_word(tail, rest);
        assert(s[0] == word[0]);
        assert(first_word(s) =~= word);
    }
}

/// Every plan is open-ended and starts now.
pub proof fn law_plans_are_open(
    facts: Seq<FactView>,
    rule: TrackedRuleView,
    defaults: DefaultsView,
    now: Seq<char>,
)
    ensures
        planned(facts, rule, defaults, now).fact.start == now,
        planned(facts, rule, defaults, now).fact.end is None,
{
}

/// The fact that is resumed is the last one whose tags name the entity.
pub proof fn law_newest_match_is_resumed(
    facts: Seq<FactView>,
    rule: TrackedRuleView,
    defaults: DefaultsView,
    now: Seq<char>,
    i: int,
)
    requires
        0 <= i < facts.len(),
        hamster::tagged_entity(facts[i].tags, defaults.entity_tag_key) == Some(rule.entity),
        forall|j: int|
            i < j < facts.len() ==> hamster::tagged_entity(
                (#[trigger] facts[j]).tags,
                defaults.entity_tag_key,
            ) != Some(rule.entity),
    ensures
        planned(facts, rule, defaults, now) == clone_of(facts[i], defaults, now),
    decreases facts.len(),
{
    if i < facts.len() - 1 {
        let front = facts.drop_last();
        assert(facts.last() == facts[facts.len() - 1]);
        assert forall|j: int| i < j < front.len() implies hamster::tagged_entity(
            (#[trigger] front[j]).tags,
            defaults.entity_tag_key,
        ) != Some(rule.entity) by {
            assert(front[j] == facts[j]);
        }
        law_newest_match_is_resumed(front, rule, defaults, now, i);
    }
}

/// A placeholder is started, and the user told of it, just where no fact's tags
/// name the entity.
pub proof fn law_placeholders_only_without_a_match(
    facts: Seq<FactView>,
    rule: TrackedRuleView,
    defaults: DefaultsView,
    now: Seq<char>,
)
    ensures
        planned(facts, rule, defaults, now).notification is Some <==> forall|i: int|
            0 <= i < facts.len() ==> hamster::tagged_entity(
                (#[trigger] facts[i]).tags,
                defaults.entity_tag_key,
            ) != Some(rule.entity),
    decreases facts.len(),
{
    if facts.len() > 0 {
        let front = facts.drop_last();
        law_placeholders_only_without_a_match(front, rule, defaults, now);
        assert(facts.last() == facts[facts.len() - 1]);
        if newest_of(facts, defaults.entity_tag_key, rule.entity) is None {
            assert forall|i: int| 0 <= i < facts.len() implies hamster::tagged_entity(
                (#[trigger] facts[i]).tags,
                defaults.entity_tag_key,
            ) != Some(rule.entity) by {
                if i < front.len() {
                    assert(front[i] == facts[i]);
                }
            }
        } else if hamster::tagged_entity(facts.last().tags, defaults.entity_tag_key) != Some(
            rule.entity,
        ) {
            let i = choose|i: int|
                0 <= i < front.len() && hamster::tagged_entity(
                    (#[trigger] front[i]).tags,
                    defaults.entity_tag_key,
                ) == Some(rule.entity);
            assert(facts[i] == front[i]);
        }
    }
}

/// What is cloned on another day, from a fact without a start, or with marking
/// disabled, keeps its description; so does every placeholder.
pub proof fn law_only_same_day_clones_are_marked(
    facts: Seq<FactView>,
    rule: TrackedRuleView,
    defaults: DefaultsView,
    now: Seq<char>,
)
    ensures
        match newest_of(facts, defaults.entity_tag_key, rule.entity) {
            Some(f) => planned(facts, rule, defaults, now).fact.description == (
            if defaults.mark_continuations && is_same_day(f, now) {
                markers::continued(f.description)
            } else {
                f.description
            }),
            None => planned(facts, rule, defaults, now).fact.description
                == rule.placeholder_description,
        },
{
}

/// The tag of an entity reads back as the entity without white space around it.
proof fn lemma_entity_tag(key: Seq<char>, entity: Seq<char>, rest: Seq<Seq<char>>)
    ensures
        hamster::tagged_entity(seq![entity_tag(key, entity)] + rest, key) == Some(
            text::trim(entity),
        ),
{
    reveal_strlit(": ");
    let tags = seq![entity_tag(key, entity)] + rest;
    let prefix = key.push(':');
    assert(tags[0] == entity_tag(key, entity));
    assert(prefix.is_prefix_of(tags[0])) by {
        assert(tags[0].take(prefix.len() as int) =~= prefix);
    }
    let value = tags[0].skip(prefix.len() as int);
    assert(value =~= seq![' '] + entity);
    assert(value.drop_first() =~= entity);
    assert(text::is_space(value[0]));
    text::lemma_indent(entity);
    assert(text::trim_start(value) =~= text::trim_start(entity));
}

/// A resume teaches the next one: whatever the user makes of the submitted fact,
/// as long as its tags stay it is what the entity is resumed from next time. This
/// holds for every entity without white space around it.
pub proof fn law_resumes_are_found_again(
    facts: Seq<FactView>,
    rule: TrackedRuleView,
    defaults: DefaultsView,
    now: Seq<char>,
    reported: FactView,
    later: Seq<char>,
)
    requires
        text::trim(rule.entity) == rule.entity,
        reported.tags == planned(facts, rule, defaults, now).fact.tags,
    ensures
        planned(facts.push(reported), rule, defaults, later) == clone_of(
            reported,
            defaults,
            later,
        ),
{
    lemma_entity_tag(defaults.entity_tag_key, rule.entity, defaults.extra_tags);
    lemma_newest_has_entity(facts, defaults.entity_tag_key, rule.entity);
    assert(facts.push(reported).last() == reported);
}

proof fn lemma_newest_has_entity(facts: Seq<FactView>, key: Seq<char>, entity: Seq<char>)
    ensures
        newest_of(facts, key, entity) matches Some(f) ==> hamster::tagged_entity(f.tags, key)
            == Some(entity),
    decreases facts.len(),
{
    if facts.len() > 0 {
        lemma_newest_has_entity(facts.drop_last(), key, entity);
    }
}

/// What is resumed of the last fact whose tags name the entity: its activity, its
/// category and its tags as they are, from now on, open-ended and without a word to
/// the user. Its description is carried over, and marked as continued just where
/// marking is enabled and the fact began on the day of now.
pub proof fn law_a_resume_clones_the_fact(
    facts: Seq<FactView>,
    rule: TrackedRuleView,
    defaults: DefaultsView,
    now: Seq<char>,
    i: int,
)
    requires
        0 <= i < facts.len(),
        hamster::tagged_entity(facts[i].tags, defaults.entity_tag_key) == Some(rule.entity),
        forall|j: int|
            i < j < facts.len() ==> hamster::tagged_entity(
                (#[trigger] facts[j]).tags,
                defaults.entity_tag_key,
            ) != Some(rule.entity),
    ensures
        ({
            let plan = planned(facts, rule, defaults, now);
            &&& plan.fact.activity == facts[i].activity
            &&& plan.fact.category == facts[i].category
            &&& plan.fact.tags == facts[i].tags
            &&& plan.fact.start == now
            &&& plan.fact.end is None
            &&& plan.notification is None
            &&& !defaults.mark_continuations || facts[i].start is None ==> plan.fact.description
                == facts[i].description
            &&& facts[i].start matches Some(start) ==> date_of(start) != date_of(now)
                ==> plan.fact.description == facts[i].description
            &&& facts[i].start matches Some(start) ==> date_of(start) == date_of(now)
                && defaults.mark_continuations ==> plan.fact.description == markers::continued(
                facts[i].description,
            )
        }),
{
    law_newest_match_is_resumed(facts, rule, defaults, now, i);
}

/// What is started where no fact's tags name the entity: a placeholder with what
/// the rule says, from now on and open-ended, tagged first with the entity behind
/// the configured key and then with the configured tags in their order; and the user
/// is told the entity.
pub proof fn law_a_placeholder_follows_the_rule(
    facts: Seq<FactView>,
    rule: TrackedRuleView,
    defaults: DefaultsView,
    now: Seq<char>,
)
    requires
        forall|i: int|
            0 <= i < facts.len() ==> hamster::tagged_entity(
                (#[trigger] facts[i]).tags,
                defaults.entity_tag_key,
            ) != Some(rule.entity),
    ensures
        ({
            let plan = planned(facts, rule, defaults, now);
            &&& plan.fact.activity == rule.placeholder_activity
            &&& plan.fact.category == rule.category
            &&& plan.fact.description == rule.placeholder_description
            &&& plan.fact.start == now
            &&& plan.fact.end is None
            &&& plan.fact.tags.len() == defaults.extra_tags.len() + 1
            &&& plan.fact.tags[0] == defaults.entity_tag_key + seq![':', ' '] + rule.entity
            &&& forall|k: int|
                0 < k < plan.fact.tags.len() ==> #[trigger] plan.fact.tags[k]
                    == defaults.extra_tags[k - 1]
            &&& plan.notification == Some(
                "started placeholder for "@ + rule.entity
                    + " — rename it in hamster when convenient"@,
            )
        }),
{
    law_placeholders_only_without_a_match(facts, rule, defaults, now);
    reveal_strlit(": ");
    assert(": "@ =~= seq![':', ' ']);
}

/// What is carried over of a description, over all facts: it is marked just where
/// marking is enabled and the fact began on the day of now.
pub proof fn law_descriptions_are_carried(f: FactView, defaults: DefaultsView, now: Seq<char>)
    ensures
        f.start matches Some(start) ==> date_of(start) == date_of(now)
            && defaults.mark_continuations ==> carried(f, defaults, now) == markers::continued(
            f.description,
        ),
        f.start matches Some(start) ==> date_of(start) != date_of(now) ==> carried(
            f,
            defaults,
            now,
        ) == f.description,
        f.start is None || !defaults.mark_continuations ==> carried(f, defaults, now)
            == f.description,
{
}

/// White space in front of a timestamp makes no difference to its date, and one
/// that is nothing but white space is taken as it is.
pub proof fn law_dates_are_first_words(space: Seq<char>, date: Seq<char>, rest: Seq<char>)
    requires
        forall|i: int| 0 <= i < space.len() ==> text::is_space(#[trigger] space[i]),
        forall|i: int| 0 <= i < date.len() ==> !text::is_space(#[trigger] date[i]),
        rest.len() > 0 ==> text::is_space(rest[0]),
    ensures
        date.len() > 0 ==> date_of(space + date + rest) == date,
        date_of(space) == space,
{
    if date.len() > 0 {
        let ts = space + date + rest;
        assert(ts =~= space + (date + rest));
        assert((date + rest)[0] == date[0]);
        text::law_indent_divides(space, date + rest);
        assert(ts[space.len() as int] == date[0]);
        assert(!text::is_blank(ts));
        lemma_first_word(date, rest);
    }
}

} // verus!
