//! A set of names, kept in order.
use crate::text::{
    copy_list, lemma_lt_asymmetric, lemma_lt_irreflexive, lemma_lt_total, lemma_lt_transitive, less,
    lt, same, texts,
};
use vstd::prelude::*;

verus! {

/// Names in strictly increasing order; so none occurs twice.
pub open spec fn names_in_order(names: Seq<Seq<char>>) -> bool {
    forall|i: int, j: int|
        0 <= i < j < names.len() ==> lt(#[trigger] names[i], #[trigger] names[j])
}

pub open spec fn with_name(names: Seq<Seq<char>>, name: Seq<char>) -> Seq<Seq<char>>
    decreases names.len(),
{
    if names.len() == 0 {
        seq![name]
    } else if names[0] == name {
        names
    } else if lt(name, names[0]) {
        seq![name] + names
    } else {
        seq![names[0]] + with_name(names.drop_first(), name)
    }
}

pub open spec fn without_name(names: Seq<Seq<char>>, name: Seq<char>) -> Seq<Seq<char>>
    decreases names.len(),
{
    if names.len() == 0 {
        names
    } else if names[0] == name {
        names.drop_first()
    } else {
        seq![names[0]] + without_name(names.drop_first(), name)
    }
}

proof fn lemma_order_rest(names: Seq<Seq<char>>)
    requires
        names_in_order(names),
        names.len() > 0,
    ensures
        names_in_order(names.drop_first()),
{
    let rest = names.drop_first();
    assert forall|i: int, j: int| 0 <= i < j < rest.len() implies lt(
        #[trigger] rest[i],
        #[trigger] rest[j],
    ) by {
        assert(rest[i] == names[i + 1]);
        assert(rest[j] == names[j + 1]);
    }
}

proof fn lemma_split_first(names: Seq<Seq<char>>, x: Seq<char>)
    requires
        names.len() > 0,
    ensures
        names.contains(x) <==> x == names[0] || names.drop_first().contains(x),
{
    if names.contains(x) {
        let i = choose|i: int| 0 <= i < names.len() && names[i] == x;
        if i > 0 {
            assert(names.drop_first()[i - 1] == x);
        }
    }
    if names.drop_first().contains(x) {
        let i = choose|i: int| 0 <= i < names.drop_first().len() && names.drop_first()[i] == x;
        assert(names[i + 1] == x);
    }
}

/// Adding a name adds that name and nothing else.
pub proof fn lemma_with_name(names: Seq<Seq<char>>, name: Seq<char>)
    requires
        names_in_order(names),
    ensures
        names_in_order(with_name(names, name)),
        forall|x: Seq<char>| #[trigger]
            with_name(names, name).contains(x) <==> names.contains(x) || x == name,
        with_name(names, name).len() == names.len() + if names.contains(name) {
            0int
        } else {
            1int
        },
    decreases names.len(),
{
    let after = with_name(names, name);
    if names.len() == 0 {
        assert(after[0] == name);
        assert forall|x: Seq<char>| #[trigger] after.contains(x) <==> names.contains(x) || x
            == name by {}
    } else {
        let rest = names.drop_first();
        lemma_order_rest(names);
        if names[0] == name {
            assert(names.contains(name));
        } else if lt(name, names[0]) {
            assert forall|i: int, j: int| 0 <= i < j < after.len() implies lt(
                #[trigger] after[i],
                #[trigger] after[j],
            ) by {
                assert(after[j] == names[j - 1]);
                if i == 0 {
                    if j > 1 {
                        lemma_lt_transitive(name, names[0], names[j - 1]);
                    }
                } else {
                    assert(after[i] == names[i - 1]);
                }
            }
            if names.contains(name) {
                let k = choose|k: int| 0 <= k < names.len() && names[k] == name;
                if k > 0 {
                    assert(lt(names[0], names[k]));
                    lemma_lt_asymmetric(name, names[0]);
                }
            }
            assert forall|x: Seq<char>| #[trigger] after.contains(x) <==> names.contains(x) || x
                == name by {
                lemma_split_first(after, x);
                assert(after.drop_first() == names);
            }
        } else {
            lemma_with_name(rest, name);
            lemma_lt_total(name, names[0]);
            let tail = with_name(rest, name);
            assert(after.drop_first() == tail);
            assert forall|x: Seq<char>| #[trigger] after.contains(x) <==> names.contains(x) || x
                == name by {
                lemma_split_first(after, x);
                lemma_split_first(names, x);
            }
            assert forall|i: int, j: int| 0 <= i < j < after.len() implies lt(
                #[trigger] after[i],
                #[trigger] after[j],
            ) by {
                assert(after[j] == tail[j - 1]);
                if i == 0 {
                    assert(tail.contains(tail[j - 1]));
                    if tail[j - 1] != name {
                        let k = choose|k: int| 0 <= k < rest.len() && rest[k] == tail[j - 1];
                        assert(rest[k] == names[k + 1]);
                    }
                } else {
                    assert(after[i] == tail[i - 1]);
                }
            }
            lemma_split_first(names, name);
        }
    }
}

/// Removing a name removes that name and nothing else.
pub proof fn lemma_without_name(names: Seq<Seq<char>>, name: Seq<char>)
    requires
        names_in_order(names),
    ensures
        names_in_order(without_name(names, name)),
        forall|x: Seq<char>| #[trigger]
            without_name(names, name).contains(x) <==> names.contains(x) && x != name,
        without_name(names, name).len() <= names.len(),
    decreases names.len(),
{
    let after = without_name(names, name);
    if names.len() > 0 {
        let rest = names.drop_first();
        lemma_order_rest(names);
        if names[0] == name {
            assert forall|x: Seq<char>| #[trigger] after.contains(x) <==> names.contains(x) && x
                != name by {
                lemma_split_first(names, x);
                if rest.contains(name) {
                    let k = choose|k: int| 0 <= k < rest.len() && rest[k] == name;
                    assert(names[k + 1] == name);
                    assert(lt(names[0], names[k + 1]));
                    lemma_lt_irreflexive(name);
                }
            }
        } else {
            lemma_without_name(rest, name);
            let tail = without_name(rest, name);
            assert(after.drop_first() == tail);
            assert forall|x: Seq<char>| #[trigger] after.contains(x) <==> names.contains(x) && x
                != name by {
                lemma_split_first(after, x);
                lemma_split_first(names, x);
            }
            assert forall|i: int, j: int| 0 <= i < j < after.len() implies lt(
                #[trigger] after[i],
                #[trigger] after[j],
            ) by {
                assert(after[j] == tail[j - 1]);
                if i == 0 {
                    assert(tail.contains(tail[j - 1]));
                    assert(rest.contains(tail[j - 1]));
                    let k = choose|k: int| 0 <= k < rest.len() && rest[k] == tail[j - 1];
                    assert(rest[k] == names[k + 1]);
                } else {
                    assert(after[i] == tail[i - 1]);
                }
            }
        }
    }
}

proof fn lemma_with_at(names: Seq<Seq<char>>, name: Seq<char>, at: int)
    requires
        names_in_order(names),
        0 <= at <= names.len(),
        forall|i: int| 0 <= i < at ==> lt(#[trigger] names[i], name),
        at < names.len() ==> !lt(names[at], name),
    ensures
        with_name(names, name) == (if at < names.len() && names[at] == name {
            names
        } else {
            names.insert(at, name)
        }),
        without_name(names, name) == (if at < names.len() && names[at] == name {
            names.remove(at)
        } else {
            names
        }),
        names.contains(name) <==> at < names.len() && names[at] == name,
    decreases names.len(),
{
    if names.len() == 0 {
        assert(names.insert(0, name) == seq![name]);
    } else {
        let rest = names.drop_first();
        lemma_order_rest(names);
        lemma_lt_total(name, names[0]);
        lemma_split_first(names, name);
        if at == 0 {
            if names[0] == name {
                assert(names.remove(0) == rest);
            } else {
                assert(names.insert(0, name) == seq![name] + names);
                assert forall|i: int| 0 <= i < names.len() implies #[trigger] names[i] != name by {
                    if i > 0 {
                        lemma_lt_transitive(name, names[0], names[i]);
                        lemma_lt_irreflexive(name);
                    }
                }
                lemma_absent(names, name);
            }
        } else {
            assert(lt(names[0], name));
            lemma_lt_asymmetric(names[0], name);
            lemma_lt_irreflexive(name);
            assert forall|i: int| 0 <= i < at - 1 implies lt(#[trigger] rest[i], name) by {
                assert(rest[i] == names[i + 1]);
            }
            if at < names.len() {
                assert(rest[at - 1] == names[at]);
            }
            lemma_with_at(rest, name, at - 1);
            if at < names.len() && names[at] == name {
                assert(seq![names[0]] + rest == names);
                assert(seq![names[0]] + rest.remove(at - 1) == names.remove(at));
            } else {
                assert(seq![names[0]] + rest.insert(at - 1, name) == names.insert(at, name));
                assert(seq![names[0]] + rest == names);
            }
        }
    }
}

proof fn lemma_absent(names: Seq<Seq<char>>, name: Seq<char>)
    requires
        forall|i: int| 0 <= i < names.len() ==> #[trigger] names[i] != name,
    ensures
        without_name(names, name) == names,
    decreases names.len(),
{
    if names.len() > 0 {
        let rest = names.drop_first();
        assert forall|i: int| 0 <= i < rest.len() implies #[trigger] rest[i] != name by {
            assert(rest[i] == names[i + 1]);
        }
        lemma_absent(rest, name);
        assert(seq![names[0]] + rest == names);
    }
}

/// Names without repetition, in order.
#[derive(Debug)]
pub struct NameSet {
    pub names: Vec<String>,
}

impl View for NameSet {
    type V = Seq<Seq<char>>;

    open spec fn view(&self) -> Seq<Seq<char>> {
        texts(self.names@)
    }
}

impl NameSet {
    pub open spec fn wf(&self) -> bool {
        names_in_order(self@)
    }

    pub fn new() -> (r: Self)
        ensures
            r.wf(),
            r@ == Seq::<Seq<char>>::empty(),
    {
        let r = NameSet { names: Vec::new() };
        assert(r@ == Seq::<Seq<char>>::empty());
        r
    }

    fn place(&self, name: &str) -> (r: usize)
        requires
            self.wf(),
        ensures
            r <= self@.len(),
            forall|i: int| 0 <= i < r ==> lt(#[trigger] self@[i], name@),
            r < self@.len() ==> !lt(self@[r as int], name@),
    {
        let mut i: usize = 0;
        while i < self.names.len() && less(self.names[i].as_str(), name)
            invariant
                i <= self.names@.len(),
                forall|j: int| 0 <= j < i ==> lt(#[trigger] self@[j], name@),
            decreases self.names@.len() - i,
        {
            assert(self@[i as int] == self.names@[i as int]@);
            i += 1;
        }
        i
    }

    pub fn contains(&self, name: &str) -> (r: bool)
        requires
            self.wf(),
        ensures
            r == self@.contains(name@),
    {
        let at: usize = self.place(name);
        proof {
            lemma_with_at(self@, name@, at as int);
        }
        assert(at < self.names@.len() ==> self@[at as int] == self.names@[at as int]@);
        at < self.names.len() && same(self.names[at].as_str(), name)
    }

    pub fn insert(&mut self, name: String)
        requires
            old(self).wf(),
        ensures
            final(self).wf(),
            final(self)@ == with_name(old(self)@, name@),
    {
        let at: usize = self.place(name.as_str());
        let ghost before = self@;
        proof {
            lemma_with_at(before, name@, at as int);
            lemma_with_name(before, name@);
        }
        assert(at < self.names@.len() ==> self@[at as int] == self.names@[at as int]@);
        if at < self.names.len() && same(self.names[at].as_str(), name.as_str()) {
            return;
        }
        self.names.insert(at, name);
        assert(self@ == before.insert(at as int, name@));
    }

    pub fn remove(&mut self, name: &str)
        requires
            old(self).wf(),
        ensures
            final(self).wf(),
            final(self)@ == without_name(old(self)@, name@),
    {
        let at: usize = self.place(name);
        let ghost before = self@;
        proof {
            lemma_with_at(before, name@, at as int);
            lemma_without_name(before, name@);
        }
        assert(at < self.names@.len() ==> self@[at as int] == self.names@[at as int]@);
        if at < self.names.len() && same(self.names[at].as_str(), name) {
            self.names.remove(at);
            assert(self@ == before.remove(at as int));
        }
    }

    /// The names, in order.
    pub fn list(&self) -> (r: Vec<String>)
        ensures
            texts(r@) == self@,
    {
        copy_list(self.names.as_slice())
    }
}

/// Adding a name that is there changes nothing.
pub proof fn lemma_with_present(names: Seq<Seq<char>>, name: Seq<char>)
    requires
        names_in_order(names),
        names.contains(name),
    ensures
        with_name(names, name) == names,
    decreases names.len(),
{
    if names.len() > 0 && names[0] != name {
        let k = choose|k: int| 0 <= k < names.len() && names[k] == name;
        assert(lt(names[0], names[k]));
        lemma_lt_asymmetric(names[0], name);
        lemma_order_rest(names);
        lemma_split_first(names, name);
        lemma_with_present(names.drop_first(), name);
        assert(seq![names[0]] + names.drop_first() == names);
    }
}

/// Removing a name that is not there changes nothing.
pub proof fn lemma_without_missing(names: Seq<Seq<char>>, name: Seq<char>)
    requires
        !names.contains(name),
    ensures
        without_name(names, name) == names,
{
    assert forall|i: int| 0 <= i < names.len() implies #[trigger] names[i] != name by {
        assert(names.contains(names[i]));
    }
    lemma_absent(names, name);
}

/// Removing a name that was just added to a set without it gives the set back.
pub proof fn remove_reverses_insert(names: Seq<Seq<char>>, name: Seq<char>)
    requires
        names_in_order(names),
        !names.contains(name),
    ensures
        without_name(with_name(names, name), name) == names,
    decreases names.len(),
{
    if names.len() == 0 {
        assert(seq![name].drop_first() == names);
    } else {
        let rest = names.drop_first();
        lemma_order_rest(names);
        lemma_split_first(names, name);
        assert(names.contains(names[0]));
        if lt(name, names[0]) {
            assert((seq![name] + names).drop_first() == names);
        } else {
            remove_reverses_insert(rest, name);
            let after = with_name(names, name);
            assert(after.drop_first() == with_name(rest, name));
            assert(seq![names[0]] + rest == names);
        }
    }
}

/// Adding a name that was just removed gives the set back.
pub proof fn insert_reverses_remove(names: Seq<Seq<char>>, name: Seq<char>)
    requires
        names_in_order(names),
        names.contains(name),
    ensures
        with_name(without_name(names, name), name) == names,
    decreases names.len(),
{
    if names.len() > 0 {
        let rest = names.drop_first();
        lemma_order_rest(names);
        lemma_split_first(names, name);
        if names[0] == name {
            assert(seq![name] + rest == names);
            if rest.len() > 0 {
                assert(rest[0] == names[1]);
                assert(lt(names[0], names[1]));
                lemma_lt_irreflexive(name);
            } else {
                assert(seq![name] == names);
            }
        } else {
            insert_reverses_remove(rest, name);
            let k = choose|k: int| 0 <= k < names.len() && names[k] == name;
            assert(lt(names[0], names[k]));
            lemma_lt_asymmetric(names[0], name);
            let after = without_name(names, name);
            assert(after.drop_first() == without_name(rest, name));
            assert(seq![names[0]] + rest == names);
        }
    }
}

/// Adding names one by one to the empty set lists them in order; a list that
/// is in order already comes out unchanged.
pub open spec fn name_set_of(list: Seq<Seq<char>>) -> Seq<Seq<char>>
    decreases list.len(),
{
    if list.len() == 0 {
        Seq::empty()
    } else {
        with_name(name_set_of(list.drop_last()), list.last())
    }
}

pub proof fn lemma_name_set(list: Seq<Seq<char>>)
    ensures
        names_in_order(name_set_of(list)),
        name_set_of(list).len() <= list.len(),
        forall|x: Seq<char>| #[trigger] name_set_of(list).contains(x) <==> list.contains(x),
    decreases list.len(),
{
    if list.len() > 0 {
        let head = list.drop_last();
        lemma_name_set(head);
        lemma_with_name(name_set_of(head), list.last());
        assert forall|x: Seq<char>| #[trigger] name_set_of(list).contains(x) <==> list.contains(
            x,
        ) by {
            if list.contains(x) {
                let i = choose|i: int| 0 <= i < list.len() && list[i] == x;
                if i < head.len() {
                    assert(head[i] == x);
                }
            }
            if head.contains(x) {
                let i = choose|i: int| 0 <= i < head.len() && head[i] == x;
                assert(list[i] == x);
            }
            assert(list[list.len() - 1] == list.last());
        }
    } else {
        assert forall|x: Seq<char>| #[trigger] name_set_of(list).contains(x) <==> list.contains(
            x,
        ) by {}
    }
}

pub proof fn lemma_ordered_list_is_set(list: Seq<Seq<char>>)
    requires
        names_in_order(list),
    ensures
        name_set_of(list) == list,
    decreases list.len(),
{
    if list.len() > 0 {
        let head = list.drop_last();
        assert(names_in_order(head)) by {
            assert forall|i: int, j: int| 0 <= i < j < head.len() implies lt(
                #[trigger] head[i],
                #[trigger] head[j],
            ) by {
                assert(head[i] == list[i]);
                assert(head[j] == list[j]);
            }
        }
        lemma_ordered_list_is_set(head);
        assert forall|i: int| 0 <= i < head.len() implies lt(#[trigger] head[i], list.last()) by {
            assert(head[i] == list[i]);
            assert(lt(list[i], list[list.len() - 1]));
        }
        lemma_with_at(head, list.last(), head.len() as int);
        assert(head.insert(head.len() as int, list.last()) == list);
    } else {
        assert(list == Seq::<Seq<char>>::empty());
    }
}

} // verus!
