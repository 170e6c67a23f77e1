//! Hamster facts: what the time tracker reports, and what the bridge submits.
use crate::text;
use vstd::prelude::*;
use vstd::string::*;

verus! {

/// A fact as reported by hamster.
#[derive(Debug, Clone)]
pub struct Fact {
    pub activity: String,
    pub category: String,
    pub description: String,
    pub tags: Vec<String>,
    pub id: i64,
    pub range: FactRange,
}

/// When a fact started and ended, as local "YYYY-MM-DD HH:MM" timestamps.
#[derive(Debug, Clone)]
pub struct FactRange {
    /// Hamster reports some facts without a start.
    pub start: Option<String>,
    /// `None` while the fact is running.
    pub end: Option<String>,
}

/// A fact to submit to hamster, which assigns its id.
#[derive(Debug, Clone)]
pub struct NewFact {
    pub activity: String,
    pub category: String,
    pub description: String,
    pub tags: Vec<String>,
    pub range: NewRange,
}

/// The range of a new fact, as local "YYYY-MM-DD HH:MM" timestamps.
#[derive(Debug, Clone)]
pub struct NewRange {
    pub start: String,
    pub end: Option<String>,
}

/// What a reported fact says.
pub struct FactView {
    pub activity: Seq<char>,
    pub category: Seq<char>,
    pub description: Seq<char>,
    pub tags: Seq<Seq<char>>,
    pub id: int,
    pub start: Option<Seq<char>>,
    pub end: Option<Seq<char>>,
}

/// What a submitted fact says.
pub struct NewFactView {
    pub activity: Seq<char>,
    pub category: Seq<char>,
    pub description: Seq<char>,
    pub tags: Seq<Seq<char>>,
    pub start: Seq<char>,
    pub end: Option<Seq<char>>,
}

impl View for Fact {
    type V = FactView;

    open spec fn view(&self) -> FactView {
        FactView {
            activity: self.activity@,
            category: self.category@,
            description: self.description@,
            tags: text::texts(self.tags@),
            id: self.id as int,
            start: text::opt(self.range.start),
            end: text::opt(self.range.end),
        }
    }
}

impl View for NewFact {
    type V = NewFactView;

    open spec fn view(&self) -> NewFactView {
        NewFactView {
            activity: self.activity@,
            category: self.category@,
            description: self.description@,
            tags: text::texts(self.tags@),
            start: self.range.start@,
            end: text::opt(self.range.end),
        }
    }
}

impl Fact {
    /// Whether the fact has no end yet.
    pub fn is_running(&self) -> (r: bool)
        ensures
            r == (self@.end is None),
    {
        self.range.end.is_none()
    }
}

/// What several reported facts say.
pub open spec fn facts_view(facts: Seq<Fact>) -> Seq<FactView> {
    facts.map_values(|f: Fact| f@)
}

/// The value of the first tag of the form `<key>:<value>`, trimmed.
pub open spec fn tagged_entity(tags: Seq<Seq<char>>, key: Seq<char>) -> Option<Seq<char>>
    decreases tags.len(),
{
    let prefix = key.push(':');
    if tags.len() == 0 {
        None
    } else if prefix.is_prefix_of(tags[0]) {
        Some(text::trim(tags[0].skip(prefix.len() as int)))
    } else {
        tagged_entity(tags.drop_first(), key)
    }
}

/// Extract the entity from a fact's tags: a tag `"<key>: <value>"`
/// (leading/trailing whitespace around the value is trimmed).
pub fn entity_of(fact: &Fact, tag_key: &str) -> (r: Option<String>)
    ensures
        text::opt(r) == tagged_entity(fact@.tags, tag_key@),
{
    let mut prefix: String = tag_key.to_owned();
    prefix.append(":");
    proof {
        reveal_strlit(":");
    }
    assert(prefix@ =~= tag_key@.push(':'));
    let ghost tags = text::texts(fact.tags@);
    let mut i: usize = 0;
    assert(tags.skip(0) =~= tags);
    while i < fact.tags.len()
        invariant
            i <= fact.tags.len(),
            tags == text::texts(fact.tags@),
            prefix@ == tag_key@.push(':'),
            tagged_entity(tags, tag_key@) == tagged_entity(tags.skip(i as int), tag_key@),
        decreases fact.tags.len() - i,
    {
        let tag: &str = fact.tags[i].as_str();
        assert(tags.skip(i as int)[0] == tag@);
        if text::has_prefix(tag, prefix.as_str()) {
            let n: usize = prefix.as_str().unicode_len();
            let len: usize = tag.unicode_len();
            let value: &str = tag.substring_char(n, len);
            return Some(text::trimmed(value).to_owned());
        }
        assert(tags.skip(i as int).drop_first() =~= tags.skip(i + 1));
        i = i + 1;
    }
    None
}

/// The last fact that is still open.
pub open spec fn last_open(facts: Seq<Fact>) -> Option<Fact>
    decreases facts.len(),
{
    if facts.len() == 0 {
        None
    } else if facts.last()@.end is None {
        Some(facts.last())
    } else {
        last_open(facts.drop_last())
    }
}

/// The currently running fact, if any (last open-ended fact of the day).
pub fn running_fact(facts: &[Fact]) -> (r: Option<&Fact>)
    ensures
        match r {
            Some(f) => last_open(facts@) == Some(*f),
            None => last_open(facts@) is None,
        },
{
    let mut i: usize = facts.len();
    assert(facts@.take(i as int) =~= facts@);
    while i > 0
        invariant
            i <= facts.len(),
            last_open(facts@) == last_open(facts@.take(i as int)),
        decreases i,
    {
        let fact: &Fact = &facts[i - 1];
        if fact.is_running() {
            return Some(fact);
        }
        assert(facts@.take(i as int).drop_last() =~= facts@.take(i - 1));
        i = i - 1;
    }
    None
}

/// What the entity of a fact is: the value behind the key and a colon in the first
/// tag that begins with them, wherever in the list that tag stands.
pub proof fn law_first_tag_with_the_key_decides(tags: Seq<Seq<char>>, key: Seq<char>, i: int)
    requires
        0 <= i < tags.len(),
        (key + seq![':']).is_prefix_of(tags[i]),
        forall|j: int| 0 <= j < i ==> !(key + seq![':']).is_prefix_of(#[trigger] tags[j]),
    ensures
        tagged_entity(tags, key) == Some(text::trim(tags[i].skip(key.len() as int + 1))),
    decreases tags.len(),
{
    assert(key + seq![':'] =~= key.push(':'));
    if i > 0 {
        let rest = tags.drop_first();
        assert(rest[i - 1] == tags[i]);
        assert(!(key + seq![':']).is_prefix_of(tags[0]));
        assert forall|j: int| 0 <= j < i - 1 implies !(key + seq![':']).is_prefix_of(
            #[trigger] rest[j],
        ) by {
            assert(rest[j] == tags[j + 1]);
        }
        law_first_tag_with_the_key_decides(rest, key, i - 1);
    }
}

/// A fact has no entity just where no tag begins with the key and a colon.
pub proof fn law_no_tag_no_entity(tags: Seq<Seq<char>>, key: Seq<char>)
    ensures
        tagged_entity(tags, key) is None <==> forall|i: int|
            0 <= i < tags.len() ==> !(key + seq![':']).is_prefix_of(#[trigger] tags[i]),
    decreases tags.len(),
{
    assert(key + seq![':'] =~= key.push(':'));
    if tags.len() > 0 {
        let rest = tags.drop_first();
        law_no_tag_no_entity(rest, key);
        if tagged_entity(tags, key) is None {
            assert forall|i: int| 0 <= i < tags.len() implies !(key + seq![':']).is_prefix_of(
                #[trigger] tags[i],
            ) by {
                if i > 0 {
                    assert(rest[i - 1] == tags[i]);
                }
            }
        } else if !(key + seq![':']).is_prefix_of(tags[0]) {
            let i = choose|i: int|
                0 <= i < rest.len() && (key + seq![':']).is_prefix_of(#[trigger] rest[i]);
            assert(tags[i + 1] == rest[i]);
        }
    }
}

/// The running fact is one without an end, and every fact behind it has one.
pub proof fn law_last_open_fact_runs(facts: Seq<Fact>, i: int)
    requires
        0 <= i < facts.len(),
        facts[i].range.end is None,
        forall|j: int| i < j < facts.len() ==> (#[trigger] facts[j]).range.end is Some,
    ensures
        last_open(facts) == Some(facts[i]),
    decreases facts.len(),
{
    if i < facts.len() - 1 {
        let front = facts.drop_last();
        assert(facts[facts.len() - 1].range.end is Some);
        assert forall|j: int| i < j < front.len() implies (
        #[trigger] front[j]).range.end is Some by {
            assert(front[j] == facts[j]);
        }
        law_last_open_fact_runs(front, i);
    }
}

/// Nothing runs just where every fact has an end.
pub proof fn law_nothing_open_nothing_runs(facts: Seq<Fact>)
    ensures
        last_open(facts) is None <==> forall|i: int|
            0 <= i < facts.len() ==> (#[trigger] facts[i]).range.end is Some,
    decreases facts.len(),
{
    if facts.len() > 0 {
        let front = facts.drop_last();
        law_nothing_open_nothing_runs(front);
        assert(facts.last() == facts[facts.len() - 1]);
        if last_open(facts) is None {
            assert forall|i: int| 0 <= i < facts.len() implies (
            #[trigger] facts[i]).range.end is Some by {
                if i < front.len() {
                    assert(front[i] == facts[i]);
                }
            }
        } else if facts.last().range.end is Some {
            let i = choose|i: int| 0 <= i < front.len() && (#[trigger] front[i]).range.end is None;
            assert(facts[i] == front[i]);
        }
    }
}

/// What the views of facts say is what the facts hold.
pub proof fn law_views_hold_the_facts(fact: Fact, new: NewFact)
    ensures
        fact@.activity == fact.activity@,
        fact@.category == fact.category@,
        fact@.description == fact.description@,
        fact@.tags.len() == fact.tags@.len(),
        forall|i: int| 0 <= i < fact.tags@.len() ==> #[trigger] fact@.tags[i] == fact.tags@[i]@,
        fact@.start is Some <==> fact.range.start is Some,
        fact.range.start matches Some(s) ==> fact@.start == Some(s@),
        fact@.end is Some <==> fact.range.end is Some,
        fact.range.end matches Some(s) ==> fact@.end == Some(s@),
        new@.activity == new.activity@,
        new@.category == new.category@,
        new@.description == new.description@,
        new@.tags.len() == new.tags@.len(),
        forall|i: int| 0 <= i < new.tags@.len() ==> #[trigger] new@.tags[i] == new.tags@[i]@,
        new@.start == new.range.start@,
        new@.end is Some <==> new.range.end is Some,
        new.range.end matches Some(s) ==> new@.end == Some(s@),
{
}

} // verus!
