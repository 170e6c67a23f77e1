//! Rule tables: values under text keys, kept in key order.
use crate::text;
use vstd::prelude::*;

verus! {

/// Values under distinct text keys, in the order of the keys.
#[derive(Debug, Clone)]
pub struct Table<T> {
    entries: Vec<(String, T)>,
}

impl<T: View> View for Table<T> {
    type V = Seq<(Seq<char>, T::V)>;

    closed spec fn view(&self) -> Seq<(Seq<char>, T::V)> {
        self.entries@.map_values(|e: (String, T)| (e.0@, e.1@))
    }
}

/// Whether every key precedes the keys after it, so that none occurs twice.
pub open spec fn is_sorted<A>(entries: Seq<(Seq<char>, A)>) -> bool {
    forall|i: int, j: int|
        0 <= i < j < entries.len() ==> text::precedes((#[trigger] entries[i]).0, (
        #[trigger] entries[j]).0)
}

/// The value of the first entry under `key`.
pub open spec fn lookup<A>(entries: Seq<(Seq<char>, A)>, key: Seq<char>) -> Option<A>
    decreases entries.len(),
{
    if entries.len() == 0 {
        None
    } else if entries[0].0 == key {
        Some(entries[0].1)
    } else {
        lookup(entries.drop_first(), key)
    }
}

/// How many entries come before the place of `key`.
pub open spec fn place<A>(entries: Seq<(Seq<char>, A)>, key: Seq<char>) -> nat
    decreases entries.len(),
{
    if entries.len() > 0 && text::precedes(entries[0].0, key) {
        1 + place(entries.drop_first(), key)
    } else {
        0
    }
}

/// The entries with `value` under `key`, in its place or instead of the value there.
pub open spec fn inserted<A>(
    entries: Seq<(Seq<char>, A)>,
    key: Seq<char>,
    value: A,
) -> Seq<(Seq<char>, A)> {
    let p = place(entries, key) as int;
    if p < entries.len() && entries[p].0 == key {
        entries.update(p, (key, value))
    } else {
        entries.insert(p, (key, value))
    }
}

/// What `place` counts.
proof fn lemma_place<A>(entries: Seq<(Seq<char>, A)>, key: Seq<char>)
    ensures
        place(entries, key) <= entries.len(),
        forall|i: int|
            0 <= i < place(entries, key) ==> text::precedes((#[trigger] entries[i]).0, key),
        place(entries, key) < entries.len() ==> !text::precedes(
            entries[place(entries, key) as int].0,
            key,
        ),
    decreases entries.len(),
{
    if entries.len() > 0 && text::precedes(entries[0].0, key) {
        let rest = entries.drop_first();
        lemma_place(rest, key);
        assert forall|i: int| 0 <= i < place(entries, key) implies text::precedes(
            (#[trigger] entries[i]).0,
            key,
        ) by {
            if i > 0 {
                assert(entries[i] == rest[i - 1]);
            }
        }
    }
}

/// A lookup finds the value of an entry under the key, where there is one.
pub proof fn lemma_lookup<A>(entries: Seq<(Seq<char>, A)>, key: Seq<char>)
    ensures
        lookup(entries, key) matches Some(v) ==> entries.contains((key, v)),
        lookup(entries, key) is None ==> forall|i: int|
            0 <= i < entries.len() ==> (#[trigger] entries[i]).0 != key,
    decreases entries.len(),
{
    if entries.len() > 0 {
        let rest = entries.drop_first();
        if entries[0].0 == key {
            assert(entries[0] == (key, entries[0].1));
        } else {
            lemma_lookup(rest, key);
            if let Some(v) = lookup(rest, key) {
                let j = choose|j: int| 0 <= j < rest.len() && rest[j] == (key, v);
                assert(entries[j + 1] == (key, v));
            } else {
                assert forall|i: int| 0 <= i < entries.len() implies (#[trigger] entries[i]).0
                    != key by {
                    if i > 0 {
                        assert(entries[i] == rest[i - 1]);
                    }
                }
            }
        }
    }
}

/// In a sorted table the entry at each position is the one its key finds.
pub proof fn lemma_lookup_sorted<A>(entries: Seq<(Seq<char>, A)>, i: int)
    requires
        is_sorted(entries),
        0 <= i < entries.len(),
    ensures
        lookup(entries, entries[i].0) == Some(entries[i].1),
{
    let key = entries[i].0;
    lemma_lookup(entries, key);
    match lookup(entries, key) {
        Some(v) => {
            let j = choose|j: int| 0 <= j < entries.len() && entries[j] == (key, v);
            if j < i {
                text::lemma_precedes_total(entries[j].0, entries[i].0);
            } else if i < j {
                text::lemma_precedes_total(entries[i].0, entries[j].0);
            }
        },
        None => {
            assert(entries[i].0 == key);
        },
    }
}

/// Insertion keeps a table sorted, puts the value under its key, and leaves
/// what is found under every other key as it was.
pub proof fn law_insertion<A>(entries: Seq<(Seq<char>, A)>, key: Seq<char>, value: A)
    requires
        is_sorted(entries),
    ensures
        is_sorted(inserted(entries, key, value)),
        lookup(inserted(entries, key, value), key) == Some(value),
        forall|other: Seq<char>|
            other != key ==> #[trigger] lookup(inserted(entries, key, value), other) == lookup(
                entries,
                other,
            ),
{
    let p = place(entries, key) as int;
    let after = inserted(entries, key, value);
    lemma_place(entries, key);
    let replaces = p < entries.len() && entries[p].0 == key;
    assert(after[p] == (key, value));
    if p < entries.len() {
        text::lemma_precedes_total(entries[p].0, key);
    }
    assert forall|i: int, j: int| 0 <= i < j < after.len() implies text::precedes(
        (#[trigger] after[i]).0,
        (#[trigger] after[j]).0,
    ) by {
        if replaces {
            assert(after[i].0 == entries[i].0);
            assert(after[j].0 == entries[j].0);
        } else if j < p {
            assert(after[i] == entries[i] && after[j] == entries[j]);
        } else if j == p {
            assert(after[i] == entries[i]);
        } else if i < p {
            assert(after[i] == entries[i] && after[j] == entries[j - 1]);
        } else if i == p {
            assert(after[j] == entries[j - 1]);
            if j - 1 > p {
                text::lemma_precedes_transitive(key, entries[p].0, entries[j - 1].0);
            }
        } else {
            assert(after[i] == entries[i - 1] && after[j] == entries[j - 1]);
        }
    }
    lemma_lookup_sorted(after, p);
    assert forall|other: Seq<char>| other != key implies #[trigger] lookup(after, other) == lookup(
        entries,
        other,
    ) by {
        lemma_lookup(entries, other);
        lemma_lookup(after, other);
        if let Some(v) = lookup(entries, other) {
            let j = choose|j: int| 0 <= j < entries.len() && entries[j] == (other, v);
            let k = if replaces || j < p { j } else { j + 1 };
            assert(after[k] == entries[j]);
            lemma_lookup_sorted(after, k);
        } else if let Some(v) = lookup(after, other) {
            let k = choose|k: int| 0 <= k < after.len() && after[k] == (other, v);
            let j = if replaces || k < p { k } else { k - 1 };
            assert(k != p);
            assert(entries[j] == after[k]);
        }
    }
}

impl<T: View> Table<T> {
    /// A table without entries.
    pub fn new() -> (r: Self)
        ensures
            r@ == Seq::<(Seq<char>, T::V)>::empty(),
            is_sorted(r@),
    {
        let r = Table { entries: Vec::new() };
        assert(r@ =~= Seq::<(Seq<char>, T::V)>::empty());
        r
    }

    /// The number of entries.
    pub fn len(&self) -> (r: usize)
        ensures
            r == self@.len(),
    {
        self.entries.len()
    }

    /// The key at position `i`.
    pub fn key_at(&self, i: usize) -> (r: &String)
        requires
            i < self@.len(),
        ensures
            r@ == self@[i as int].0,
    {
        &self.entries[i].0
    }

    /// The value at position `i`.
    pub fn value_at(&self, i: usize) -> (r: &T)
        requires
            i < self@.len(),
        ensures
            r@ == self@[i as int].1,
    {
        &self.entries[i].1
    }

    /// The value under `key`.
    pub fn get(&self, key: &str) -> (r: Option<&T>)
        ensures
            match r {
                Some(v) => lookup(self@, key@) == Some(v@),
                None => lookup(self@, key@) is None,
            },
    {
        let mut i: usize = 0;
        assert(self@.skip(0) =~= self@);
        while i < self.entries.len()
            invariant
                i <= self.entries.len(),
                self.entries.len() == self@.len(),
                lookup(self@, key@) == lookup(self@.skip(i as int), key@),
            decreases self.entries.len() - i,
        {
            assert(self@.skip(i as int)[0] == self@[i as int]);
            if text::same(self.key_at(i).as_str(), key) {
                return Some(self.value_at(i));
            }
            assert(self@.skip(i as int).drop_first() =~= self@.skip(i + 1));
            i = i + 1;
        }
        None
    }

    /// Put `value` under `key`, replacing the value there.
    pub fn insert(&mut self, key: String, value: T)
        ensures
            final(self)@ == inserted(old(self)@, key@, value@),
            is_sorted(old(self)@) ==> is_sorted(final(self)@),
    {
        let ghost before = self@;
        let mut p: usize = 0;
        assert(before.skip(0) =~= before);
        while p < self.entries.len() && text::is_before(self.entries[p].0.as_str(), key.as_str())
            invariant
                p <= self.entries.len(),
                self.entries.len() == before.len(),
                self@ == before,
                place(before, key@) == p + place(before.skip(p as int), key@),
            decreases self.entries.len() - p,
        {
            assert(before[p as int].0 == self.entries@[p as int].0@);
            assert(before.skip(p as int).drop_first() =~= before.skip(p + 1));
            p = p + 1;
        }
        proof {
            if p < before.len() {
                assert(before[p as int].0 == self.entries@[p as int].0@);
                assert(before.skip(p as int)[0] == before[p as int]);
            }
            if is_sorted(before) {
                law_insertion(before, key@, value@);
            }
        }
        let ghost item = (key@, value@);
        if p < self.entries.len() && text::same(self.entries[p].0.as_str(), key.as_str()) {
            self.entries.set(p, (key, value));
            assert(self@ =~= before.update(p as int, item));
        } else {
            self.entries.insert(p, (key, value));
            assert(self@ =~= before.insert(p as int, item));
        }
    }
}

/// What a lookup finds: the value of an entry under the key with no such entry
/// before it.
pub proof fn law_lookup_finds_the_first<A>(entries: Seq<(Seq<char>, A)>, i: int)
    requires
        0 <= i < entries.len(),
        forall|j: int| 0 <= j < i ==> (#[trigger] entries[j]).0 != entries[i].0,
    ensures
        lookup(entries, entries[i].0) == Some(entries[i].1),
    decreases entries.len(),
{
    if i > 0 {
        let rest = entries.drop_first();
        assert(rest[i - 1] == entries[i]);
        assert(entries[0].0 != entries[i].0);
        assert forall|j: int| 0 <= j < i - 1 implies (#[trigger] rest[j]).0 != rest[i - 1].0 by {
            assert(rest[j] == entries[j + 1]);
        }
        law_lookup_finds_the_first(rest, i - 1);
    }
}

/// A lookup finds nothing just where no entry has the key.
pub proof fn law_lookup_finds_nothing<A>(entries: Seq<(Seq<char>, A)>, key: Seq<char>)
    ensures
        lookup(entries, key) is None <==> forall|i: int|
            0 <= i < entries.len() ==> (#[trigger] entries[i]).0 != key,
{
    lemma_lookup(entries, key);
    if let Some(v) = lookup(entries, key) {
        let i = choose|i: int| 0 <= i < entries.len() && entries[i] == (key, v);
        assert(entries[i].0 == key);
    }
}

/// In a sorted table no key stands twice, and each stands before the later ones.
pub proof fn law_sorted<A>(entries: Seq<(Seq<char>, A)>, i: int, j: int)
    requires
        is_sorted(entries),
        0 <= i < j < entries.len(),
    ensures
        text::precedes(entries[i].0, entries[j].0),
        entries[i].0 != entries[j].0,
{
    assert(text::precedes(entries[i].0, entries[j].0));
    text::lemma_precedes_total(entries[i].0, entries[j].0);
}

} // verus!
