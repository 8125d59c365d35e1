//! A map from texts to values, kept in key order.
use crate::text::{
    lemma_lt_asymmetric, lemma_lt_irreflexive, lemma_lt_total, lemma_lt_transitive, less, lt, same,
};
use vstd::prelude::*;

verus! {

/// Entries in strictly increasing key order; so no key occurs twice.
pub open spec fn in_order<A>(entries: Seq<(Seq<char>, A)>) -> bool {
    forall|i: int, j: int|
        0 <= i < j < entries.len() ==> lt((#[trigger] entries[i]).0, (#[trigger] entries[j]).0)
}

/// The value under a key.
pub open spec fn lookup<A>(entries: Seq<(Seq<char>, A)>, key: Seq<char>) -> Option<A>
    decreases entries.len(),
{
    if entries.len() == 0 {
        None
    } else if entries[0].0 == key {
        Some(entries[0].1)
    } else {
        lookup(entries.drop_first(), key)
    }
}

/// The entries with the value under a key set.
pub open spec fn put<A>(entries: Seq<(Seq<char>, A)>, key: Seq<char>, value: A) -> Seq<
    (Seq<char>, A),
>
    decreases entries.len(),
{
    if entries.len() == 0 {
        seq![(key, value)]
    } else if entries[0].0 == key {
        seq![(key, value)] + entries.drop_first()
    } else if lt(key, entries[0].0) {
        seq![(key, value)] + entries
    } else {
        seq![entries[0]] + put(entries.drop_first(), key, value)
    }
}

proof fn lemma_in_order_rest<A>(entries: Seq<(Seq<char>, A)>)
    requires
        in_order(entries),
        entries.len() > 0,
    ensures
        in_order(entries.drop_first()),
{
    let rest = entries.drop_first();
    assert forall|i: int, j: int| 0 <= i < j < rest.len() implies lt(
        (#[trigger] rest[i]).0,
        (#[trigger] rest[j]).0,
    ) by {
        assert(rest[i] == entries[i + 1]);
        assert(rest[j] == entries[j + 1]);
    }
}

pub proof fn lemma_lookup_absent<A>(entries: Seq<(Seq<char>, A)>, key: Seq<char>)
    requires
        forall|i: int| 0 <= i < entries.len() ==> (#[trigger] entries[i]).0 != key,
    ensures
        lookup(entries, key) is None,
    decreases entries.len(),
{
    if entries.len() > 0 {
        let rest = entries.drop_first();
        assert forall|i: int| 0 <= i < rest.len() implies (#[trigger] rest[i]).0 != key by {
            assert(rest[i] == entries[i + 1]);
        }
        lemma_lookup_absent(rest, key);
    }
}

/// Setting a key changes what is found under that key and nothing else.
pub proof fn lemma_lookup_put<A>(
    entries: Seq<(Seq<char>, A)>,
    key: Seq<char>,
    value: A,
    other: Seq<char>,
)
    ensures
        lookup(put(entries, key, value), other) == if key == other {
            Some(value)
        } else {
            lookup(entries, other)
        },
    decreases entries.len(),
{
    let after = put(entries, key, value);
    if entries.len() == 0 {
        assert(after.drop_first() == entries);
    } else {
        let rest = entries.drop_first();
        if entries[0].0 == key {
            assert(after.drop_first() == rest);
        } else if lt(key, entries[0].0) {
            assert(after.drop_first() == entries);
        } else {
            lemma_lookup_put(rest, key, value, other);
            assert(after.drop_first() == put(rest, key, value));
        }
    }
}

/// Every entry after a set is the new one or an old one.
pub proof fn lemma_put_members<A>(
    entries: Seq<(Seq<char>, A)>,
    key: Seq<char>,
    value: A,
    i: int,
)
    requires
        0 <= i < put(entries, key, value).len(),
    ensures
        put(entries, key, value)[i] == (key, value) || exists|j: int|
            0 <= j < entries.len() && entries[j] == put(entries, key, value)[i],
    decreases entries.len(),
{
    let after = put(entries, key, value);
    if entries.len() > 0 {
        let rest = entries.drop_first();
        if entries[0].0 == key {
            if i > 0 {
                assert(after[i] == entries[i]);
            }
        } else if lt(key, entries[0].0) {
            if i > 0 {
                assert(after[i] == entries[i - 1]);
            }
        } else {
            if i == 0 {
                assert(after[0] == entries[0]);
            } else {
                assert(after[i] == put(rest, key, value)[i - 1]);
                lemma_put_members(rest, key, value, i - 1);
                if after[i] != (key, value) {
                    let j = choose|j: int|
                        0 <= j < rest.len() && rest[j] == put(rest, key, value)[i - 1];
                    assert(entries[j + 1] == after[i]);
                }
            }
        }
    }
}

pub proof fn lemma_put_in_order<A>(entries: Seq<(Seq<char>, A)>, key: Seq<char>, value: A)
    requires
        in_order(entries),
    ensures
        in_order(put(entries, key, value)),
    decreases entries.len(),
{
    let after = put(entries, key, value);
    if entries.len() > 0 {
        let rest = entries.drop_first();
        lemma_in_order_rest(entries);
        if entries[0].0 == key {
            assert forall|i: int, j: int| 0 <= i < j < after.len() implies lt(
                (#[trigger] after[i]).0,
                (#[trigger] after[j]).0,
            ) by {
                assert(after[i].0 == entries[i].0);
                assert(after[j].0 == entries[j].0);
            }
        } else if lt(key, entries[0].0) {
            assert forall|i: int, j: int| 0 <= i < j < after.len() implies lt(
                (#[trigger] after[i]).0,
                (#[trigger] after[j]).0,
            ) by {
                assert(after[j] == entries[j - 1]);
                if i == 0 {
                    if j > 1 {
                        lemma_lt_transitive(key, entries[0].0, entries[j - 1].0);
                    }
                } else {
                    assert(after[i] == entries[i - 1]);
                }
            }
        } else {
            lemma_lt_total(key, entries[0].0);
            let tail = put(rest, key, value);
            lemma_put_in_order(rest, key, value);
            assert forall|i: int, j: int| 0 <= i < j < after.len() implies lt(
                (#[trigger] after[i]).0,
                (#[trigger] after[j]).0,
            ) by {
                assert(after[j] == tail[j - 1]);
                if i == 0 {
                    lemma_put_members(rest, key, value, j - 1);
                    if tail[j - 1] != (key, value) {
                        let k = choose|k: int| 0 <= k < rest.len() && rest[k] == tail[j - 1];
                        assert(rest[k] == entries[k + 1]);
                    }
                } else {
                    assert(after[i] == tail[i - 1]);
                }
            }
        }
    }
}

/// Where a key stands, or would stand, among the entries.
proof fn lemma_put_at<A>(entries: Seq<(Seq<char>, A)>, key: Seq<char>, value: A, at: int)
    requires
        in_order(entries),
        0 <= at <= entries.len(),
        forall|i: int| 0 <= i < at ==> lt((#[trigger] entries[i]).0, key),
        at < entries.len() ==> !lt(entries[at].0, key),
    ensures
        put(entries, key, value) == entries.take(at) + seq![(key, value)] + entries.skip(
            if at < entries.len() && entries[at].0 == key {
                at + 1
            } else {
                at
            },
        ),
        lookup(entries, key) == (if at < entries.len() && entries[at].0 == key {
            Some(entries[at].1)
        } else {
            None::<A>
        }),
    decreases entries.len(),
{
    if entries.len() == 0 {
        assert(entries.take(at) + seq![(key, value)] + entries.skip(at) == seq![(key, value)]);
    } else {
        let rest = entries.drop_first();
        lemma_in_order_rest(entries);
        lemma_lt_total(key, entries[0].0);
        if at == 0 {
            if entries[0].0 == key {
                assert(entries.take(0) + seq![(key, value)] + entries.skip(1) == seq![(key, value)]
                    + rest);
            } else {
                assert(lt(key, entries[0].0));
                assert(entries.take(0) + seq![(key, value)] + entries.skip(0) == seq![(key, value)]
                    + entries);
                assert forall|i: int| 0 <= i < entries.len() implies (#[trigger] entries[i]).0
                    != key by {
                    if i > 0 {
                        lemma_lt_transitive(key, entries[0].0, entries[i].0);
                        lemma_lt_irreflexive(key);
                    }
                }
                lemma_lookup_absent(entries, key);
            }
        } else {
            assert(lt(entries[0].0, key));
            lemma_lt_asymmetric(entries[0].0, key);
            lemma_lt_irreflexive(key);
            assert forall|i: int| 0 <= i < at - 1 implies lt((#[trigger] rest[i]).0, key) by {
                assert(rest[i] == entries[i + 1]);
            }
            if at < entries.len() {
                assert(rest[at - 1] == entries[at]);
            }
            lemma_put_at(rest, key, value, at - 1);
            let skip = if at < entries.len() && entries[at].0 == key {
                at + 1
            } else {
                at
            };
            assert(seq![entries[0]] + (rest.take(at - 1) + seq![(key, value)] + rest.skip(skip - 1))
                == entries.take(at) + seq![(key, value)] + entries.skip(skip));
        }
    }
}

/// The entries without the one under a key.
pub open spec fn without<A>(entries: Seq<(Seq<char>, A)>, key: Seq<char>) -> Seq<(Seq<char>, A)>
    decreases entries.len(),
{
    if entries.len() == 0 {
        entries
    } else if entries[0].0 == key {
        entries.drop_first()
    } else {
        seq![entries[0]] + without(entries.drop_first(), key)
    }
}

/// Taking out what was not there before it was put in leaves the entries as
/// they were.
pub proof fn taking_out_reverses_putting_in<A>(
    entries: Seq<(Seq<char>, A)>,
    key: Seq<char>,
    value: A,
)
    requires
        in_order(entries),
        lookup(entries, key) is None,
    ensures
        without(put(entries, key, value), key) == entries,
    decreases entries.len(),
{
    let after = put(entries, key, value);
    if entries.len() == 0 {
        assert(without(after, key) == entries);
    } else if lt(key, entries[0].0) {
        assert(after.drop_first() == entries);
    } else {
        let rest = entries.drop_first();
        lemma_in_order_rest(entries);
        taking_out_reverses_putting_in(rest, key, value);
        assert(after.drop_first() == put(rest, key, value));
        assert(seq![entries[0]] + rest == entries);
    }
}

proof fn lemma_without_at<A>(entries: Seq<(Seq<char>, A)>, key: Seq<char>, at: int)
    requires
        0 <= at < entries.len(),
        entries[at].0 == key,
        forall|i: int| 0 <= i < at ==> (#[trigger] entries[i]).0 != key,
    ensures
        without(entries, key) == entries.remove(at),
    decreases at,
{
    if at == 0 {
        assert(entries.drop_first() == entries.remove(0));
    } else {
        let rest = entries.drop_first();
        assert(entries[0].0 != key);
        lemma_without_at(rest, key, at - 1);
        assert(seq![entries[0]] + rest.remove(at - 1) == entries.remove(at));
    }
}

proof fn lemma_without_absent<A>(entries: Seq<(Seq<char>, A)>, key: Seq<char>)
    requires
        lookup(entries, key) is None,
    ensures
        without(entries, key) == entries,
    decreases entries.len(),
{
    if entries.len() > 0 {
        lemma_without_absent(entries.drop_first(), key);
        assert(seq![entries[0]] + entries.drop_first() == entries);
    }
}

/// A map whose keys are texts, walked in key order.
#[derive(Clone, Debug, PartialEq, Eq)]
pub struct Ordered<V> {
    pub entries: Vec<(String, V)>,
}

pub open spec fn entry_views<V: View>(entries: Seq<(String, V)>) -> Seq<(Seq<char>, V::V)> {
    entries.map_values(|entry: (String, V)| (entry.0@, entry.1@))
}

impl<V: View> View for Ordered<V> {
    type V = Seq<(Seq<char>, V::V)>;

    open spec fn view(&self) -> Seq<(Seq<char>, V::V)> {
        entry_views(self.entries@)
    }
}

impl<V: View> Ordered<V> {
    pub open spec fn wf(&self) -> bool {
        in_order(self@)
    }

    pub fn new() -> (r: Self)
        ensures
            r.wf(),
            r@ == Seq::<(Seq<char>, V::V)>::empty(),
    {
        let r = Ordered { entries: Vec::new() };
        assert(r@ == Seq::<(Seq<char>, V::V)>::empty());
        r
    }

    /// The first position whose key does not come before `key`.
    fn place(&self, key: &str) -> (r: usize)
        requires
            self.wf(),
        ensures
            r <= self@.len(),
            self@.len() == self.entries@.len(),
            forall|i: int| 0 <= i < r ==> lt((#[trigger] self@[i]).0, key@),
            r < self@.len() ==> !lt(self@[r as int].0, key@),
    {
        let mut i: usize = 0;
        while i < self.entries.len() && less(self.entries[i].0.as_str(), key)
            invariant
                i <= self.entries@.len(),
                forall|j: int| 0 <= j < i ==> lt((#[trigger] self@[j]).0, key@),
            decreases self.entries@.len() - i,
        {
            assert(self@[i as int].0 == self.entries@[i as int].0@);
            i += 1;
        }
        i
    }

    /// Where the key stands.
    pub fn position(&self, key: &str) -> (r: Option<usize>)
        requires
            self.wf(),
        ensures
            match r {
                Some(i) => i < self.entries@.len() && self@[i as int].0 == key@ && lookup(
                    self@,
                    key@,
                ) == Some(self@[i as int].1),
                None => lookup(self@, key@) is None,
            },
    {
        let at: usize = self.place(key);
        if at < self.entries.len() {
            proof {
                lemma_put_at(self@, key@, self@[at as int].1, at as int);
            }
            assert(self@[at as int].0 == self.entries@[at as int].0@);
            if same(self.entries[at].0.as_str(), key) {
                return Some(at);
            }
        } else {
            proof {
                assert forall|i: int| 0 <= i < self@.len() implies (#[trigger] self@[i]).0
                    != key@ by {
                    lemma_lt_irreflexive(key@);
                }
                lemma_lookup_absent(self@, key@);
            }
        }
        None
    }

    pub fn get(&self, key: &str) -> (r: Option<&V>)
        requires
            self.wf(),
        ensures
            match r {
                Some(v) => lookup(self@, key@) == Some(v@),
                None => lookup(self@, key@) is None,
            },
    {
        match self.position(key) {
            Some(i) => Some(&self.entries[i].1),
            None => None,
        }
    }

    /// Takes the value under a key out.
    pub fn remove(&mut self, key: &str)
        requires
            old(self).wf(),
        ensures
            final(self).wf(),
            final(self)@ == without(old(self)@, key@),
    {
        let ghost before = self@;
        match self.position(key) {
            Some(at) => {
                proof {
                    assert forall|i: int| 0 <= i < at implies (#[trigger] before[i]).0 != key@ by {
                        lemma_lt_irreflexive(key@);
                    }
                    lemma_without_at(before, key@, at as int);
                }
                self.entries.remove(at);
                assert(self@ == before.remove(at as int));
            },
            None => {
                proof {
                    lemma_without_absent(before, key@);
                }
            },
        }
    }

    /// Sets the value under a key; says whether the key was there before.
    pub fn insert(&mut self, key: String, value: V) -> (r: bool)
        requires
            old(self).wf(),
        ensures
            final(self).wf(),
            final(self)@ == put(old(self)@, key@, value@),
            r == (lookup(old(self)@, key@) is Some),
    {
        let at: usize = self.place(key.as_str());
        let ghost before = self@;
        proof {
            lemma_put_at(before, key@, value@, at as int);
            lemma_put_in_order(before, key@, value@);
        }
        if at < self.entries.len() && same(self.entries[at].0.as_str(), key.as_str()) {
            assert(before[at as int].0 == self.entries@[at as int].0@);
            self.entries.set(at, (key, value));
            assert(self@ == before.take(at as int) + seq![(key@, value@)] + before.skip(at + 1));
            true
        } else {
            assert(at < before.len() ==> before[at as int].0 == self.entries@[at as int].0@);
            self.entries.insert(at, (key, value));
            assert(self@ == before.take(at as int) + seq![(key@, value@)] + before.skip(at as int));
            false
        }
    }
}

/// Properties of a kernel function, or the fields of a fingerprint.
pub type Properties = Ordered<String>;

impl Ordered<String> {
    /// The text under a key, or the empty text.
    pub fn text(&self, key: &str) -> (r: &str)
        requires
            self.wf(),
        ensures
            r@ == text_of(self@, key@),
    {
        match self.get(key) {
            Some(value) => value.as_str(),
            None => {
                proof {
                    reveal_strlit("");
                }
                ""
            },
        }
    }

    /// The text under a key, where there is one.
    pub fn find(&self, key: &str) -> (r: Option<&str>)
        requires
            self.wf(),
        ensures
            (match r {
                Some(value) => Some(value@),
                None => None,
            }) == lookup(self@, key@),
    {
        match self.get(key) {
            Some(value) => Some(value.as_str()),
            None => None,
        }
    }

    /// Sets the text under a key, where there is a text that is not empty.
    pub fn insert_text(&mut self, key: &str, value: Option<&str>)
        requires
            old(self).wf(),
        ensures
            final(self).wf(),
            final(self)@ == put_text(
                old(self)@,
                key@,
                match value {
                    Some(text) => Some(text@),
                    None => None,
                },
            ),
    {
        match value {
            Some(text) => {
                if !text.is_empty() {
                    self.insert(key.to_owned(), text.to_owned());
                }
            },
            None => {},
        }
    }

    /// Whether a text that is not empty stands under the key.
    pub fn has(&self, key: &str) -> (r: bool)
        requires
            self.wf(),
        ensures
            r == (text_of(self@, key@).len() > 0),
    {
        !self.text(key).is_empty()
    }

    pub fn copy(&self) -> (r: Self)
        ensures
            r@ == self@,
    {
        let mut entries: Vec<(String, String)> = Vec::new();
        let mut i: usize = 0;
        while i < self.entries.len()
            invariant
                i <= self.entries@.len(),
                entries@ == self.entries@.take(i as int),
            decreases self.entries@.len() - i,
        {
            entries.push((self.entries[i].0.clone(), self.entries[i].1.clone()));
            i += 1;
        }
        Ordered { entries }
    }
}

/// The entries with a key set to a text, where there is one that is not empty.
pub open spec fn put_text(
    entries: Seq<(Seq<char>, Seq<char>)>,
    key: Seq<char>,
    value: Option<Seq<char>>,
) -> Seq<(Seq<char>, Seq<char>)> {
    match value {
        Some(text) => if text.len() > 0 {
            put(entries, key, text)
        } else {
            entries
        },
        None => entries,
    }
}

/// The text under a key, or the empty text.
pub open spec fn text_of(entries: Seq<(Seq<char>, Seq<char>)>, key: Seq<char>) -> Seq<char> {
    match lookup(entries, key) {
        Some(value) => value,
        None => Seq::empty(),
    }
}

} // verus!
