//! Values by name, in the order of the names.

use vstd::prelude::*;
use crate::order;
use crate::text;

verus! {

/// Values by name, each name once, in the order of the names.
#[derive(Debug)]
pub struct Table<V> {
    pub entries: Vec<(String, V)>,
}

/// The entries with their names as characters.
pub open spec fn rows<V>(entries: Seq<(String, V)>) -> Seq<(Seq<char>, V)> {
    Seq::new(entries.len(), |i: int| (entries[i].0@, entries[i].1))
}

/// Every name comes before the names behind it.
pub open spec fn sorted<V>(list: Seq<(Seq<char>, V)>) -> bool {
    forall|i: int, j: int|
        0 <= i < j < list.len() ==> order::before(#[trigger] list[i].0, #[trigger] list[j].0)
}

/// Where the name stands in the list.
pub open spec fn stands_at<V>(list: Seq<(Seq<char>, V)>, name: Seq<char>, i: int) -> bool {
    0 <= i < list.len() && list[i].0 == name
}

/// The values by name.
pub open spec fn contents<V>(list: Seq<(Seq<char>, V)>) -> Map<Seq<char>, V>
    decreases list.len(),
{
    if list.len() == 0 {
        Map::empty()
    } else {
        contents(list.drop_last()).insert(list.last().0, list.last().1)
    }
}

pub proof fn lemma_contents_domain<V>(list: Seq<(Seq<char>, V)>, name: Seq<char>)
    ensures
        contents(list).contains_key(name) <==> exists|i: int| stands_at(list, name, i),
    decreases list.len(),
{
    if list.len() > 0 {
        let init = list.drop_last();
        lemma_contents_domain(init, name);
        if contents(init).contains_key(name) {
            let i = choose|i: int| stands_at(init, name, i);
            assert(stands_at(list, name, i));
        }
        if list.last().0 == name {
            assert(stands_at(list, name, list.len() - 1));
        }
        if exists|i: int| stands_at(list, name, i) {
            let i = choose|i: int| stands_at(list, name, i);
            if i < init.len() {
                assert(stands_at(init, name, i));
            }
        }
    }
}

/// In a sorted list each name has its own value.
pub proof fn lemma_contents_value<V>(list: Seq<(Seq<char>, V)>, i: int)
    requires
        sorted(list),
        0 <= i < list.len(),
    ensures
        contents(list).contains_key(list[i].0),
        contents(list)[list[i].0] == list[i].1,
    decreases list.len(),
{
    let init = list.drop_last();
    if i < list.len() - 1 {
        assert(sorted(init)) by {
            assert forall|a: int, b: int| 0 <= a < b < init.len() implies order::before(
                #[trigger] init[a].0,
                #[trigger] init[b].0,
            ) by {
                assert(order::before(list[a].0, list[b].0));
            }
        }
        lemma_contents_value(init, i);
        assert(init[i] == list[i]);
        assert(order::before(list[i].0, list[list.len() - 1].0));
        order::lemma_before_irreflexive(list[i].0);
    }
}

proof fn lemma_unique<V>(list: Seq<(Seq<char>, V)>, i: int, j: int)
    requires
        sorted(list),
        0 <= i < list.len(),
        0 <= j < list.len(),
        list[i].0 == list[j].0,
    ensures
        i == j,
{
    order::lemma_before_irreflexive(list[i].0);
    if i < j {
        assert(order::before(list[i].0, list[j].0));
    } else if j < i {
        assert(order::before(list[j].0, list[i].0));
    }
}

impl<V: Copy> Table<V> {
    pub open spec fn list(self) -> Seq<(Seq<char>, V)> {
        rows(self.entries@)
    }

    /// Each name once, in order.
    pub open spec fn valid(self) -> bool {
        sorted(self.list())
    }

    /// The values by name.
    pub open spec fn map(self) -> Map<Seq<char>, V> {
        contents(self.list())
    }

    pub fn new() -> (out: Self)
        ensures
            out.valid(),
            out.map() == Map::<Seq<char>, V>::empty(),
            out.entries@.len() == 0,
    {
        let out: Table<V> = Table { entries: Vec::new() };
        assert(out.list() =~= Seq::empty());
        out
    }

    /// How many entries have names before `name`.
    fn position(&self, name: &str) -> (at: usize)
        requires
            self.valid(),
        ensures
            at <= self.entries@.len(),
            forall|i: int| 0 <= i < at ==> order::before(#[trigger] self.list()[i].0, name@),
            at < self.entries@.len() ==> !order::before(self.list()[at as int].0, name@),
    {
        let n: usize = self.entries.len();
        let mut at: usize = 0;
        while at < n && order::comes_before(self.entries[at].0.as_str(), name)
            invariant
                n == self.entries@.len(),
                at <= n,
                forall|i: int| 0 <= i < at ==> order::before(#[trigger] self.list()[i].0, name@),
            decreases n - at,
        {
            assert(self.list()[at as int].0 == self.entries@[at as int].0@);
            at += 1;
        }
        if at < n {
            assert(self.list()[at as int].0 == self.entries@[at as int].0@);
        }
        at
    }

    proof fn lemma_absent(self, name: Seq<char>, at: int)
        requires
            self.valid(),
            0 <= at <= self.list().len(),
            forall|i: int| 0 <= i < at ==> order::before(#[trigger] self.list()[i].0, name),
            at < self.list().len() ==> order::before(name, self.list()[at].0),
        ensures
            forall|i: int| at <= i < self.list().len() ==> order::before(
                name,
                #[trigger] self.list()[i].0,
            ),
            !self.map().contains_key(name),
    {
        let list = self.list();
        assert forall|i: int| at <= i < list.len() implies order::before(
            name,
            #[trigger] list[i].0,
        ) by {
            if i > at {
                assert(order::before(list[at].0, list[i].0));
                order::lemma_before_transitive(name, list[at].0, list[i].0);
            }
        }
        lemma_contents_domain(list, name);
        order::lemma_before_irreflexive(name);
    }

    /// The value that has the name.
    pub fn get(&self, name: &str) -> (out: Option<V>)
        requires
            self.valid(),
        ensures
            out == if self.map().contains_key(name@) {
                Some(self.map()[name@])
            } else {
                None
            },
    {
        let at: usize = self.position(name);
        if at < self.entries.len() {
            assert(self.list()[at as int].0 == self.entries@[at as int].0@);
            if text::same(self.entries[at].0.as_str(), name) {
                proof {
                    lemma_contents_value(self.list(), at as int);
                }
                return Some(self.entries[at].1);
            }
            proof {
                order::lemma_before_total(self.list()[at as int].0, name@);
            }
        }
        proof {
            self.lemma_absent(name@, at as int);
        }
        None
    }

    /// Gives the name the value, in the place of one it may have.
    pub fn set(&mut self, name: &str, value: V)
        requires
            old(self).valid(),
        ensures
            final(self).valid(),
            final(self).map() == old(self).map().insert(name@, value),
    {
        let ghost before = self.list();
        let ghost first = *self;
        let at: usize = self.position(name);
        if at < self.entries.len() {
            assert(before[at as int].0 == self.entries@[at as int].0@);
            if text::same(self.entries[at].0.as_str(), name) {
                self.entries.set(at, (name.to_owned(), value));
                proof {
                    let after = self.list();
                    assert(after =~= before.update(at as int, (name@, value)));
                    assert(sorted(after));
                    assert forall|k: Seq<char>|
                        contents(after).contains_key(k) <==> contents(before).insert(
                            name@,
                            value,
                        ).contains_key(k) by {
                        lemma_contents_domain(after, k);
                        lemma_contents_domain(before, k);
                        if contents(before).contains_key(k) {
                            let i = choose|i: int| stands_at(before, k, i);
                            assert(stands_at(after, k, i));
                        }
                        if contents(after).contains_key(k) {
                            let i = choose|i: int| stands_at(after, k, i);
                            assert(stands_at(before, k, i));
                        }
                        if k == name@ {
                            assert(stands_at(after, k, at as int));
                        }
                    }
                    assert forall|k: Seq<char>| #[trigger]
                        contents(after).contains_key(k) implies contents(after)[k] == contents(
                        before,
                    ).insert(name@, value)[k] by {
                        lemma_contents_domain(after, k);
                        let i = choose|i: int| stands_at(after, k, i);
                        lemma_contents_value(after, i);
                        lemma_contents_value(before, i);
                        if k == name@ {
                            lemma_unique(after, i, at as int);
                        }
                    }
                    assert(contents(after) =~= contents(before).insert(name@, value));
                }
                return;
            }
            proof {
                order::lemma_before_total(before[at as int].0, name@);
            }
        }
        proof {
            first.lemma_absent(name@, at as int);
        }
        self.entries.insert(at, (name.to_owned(), value));
        proof {
            let after = self.list();
            assert(after =~= before.insert(at as int, (name@, value)));
            assert forall|i: int, j: int| 0 <= i < j < after.len() implies order::before(
                #[trigger] after[i].0,
                #[trigger] after[j].0,
            ) by {
                let a = if i < at {
                    i
                } else {
                    i - 1
                };
                let b = if j < at {
                    j
                } else {
                    j - 1
                };
                if i != at && j != at {
                    assert(order::before(before[a].0, before[b].0));
                } else if i == at {
                    assert(order::before(name@, before[b].0));
                } else {
                    assert(order::before(before[a].0, name@));
                }
            }
            assert forall|k: Seq<char>|
                contents(after).contains_key(k) <==> contents(before).insert(
                    name@,
                    value,
                ).contains_key(k) by {
                lemma_contents_domain(after, k);
                lemma_contents_domain(before, k);
                if contents(before).contains_key(k) {
                    let i = choose|i: int| stands_at(before, k, i);
                    if i < at {
                        assert(stands_at(after, k, i));
                    } else {
                        assert(stands_at(after, k, i + 1));
                    }
                }
                if contents(after).contains_key(k) {
                    let i = choose|i: int| stands_at(after, k, i);
                    if i < at {
                        assert(stands_at(before, k, i));
                    } else if i > at {
                        assert(stands_at(before, k, i - 1));
                    }
                }
                if k == name@ {
                    assert(stands_at(after, k, at as int));
                }
            }
            assert forall|k: Seq<char>| #[trigger] contents(after).contains_key(k) implies contents(
                after,
            )[k] == contents(before).insert(name@, value)[k] by {
                lemma_contents_domain(after, k);
                let i = choose|i: int| stands_at(after, k, i);
                lemma_contents_value(after, i);
                if i < at {
                    lemma_contents_value(before, i);
                } else if i > at {
                    lemma_contents_value(before, i - 1);
                }
                if k == name@ {
                    lemma_unique(after, i, at as int);
                } else if i == at {
                }
            }
            assert(contents(after) =~= contents(before).insert(name@, value));
        }
    }
}

} // verus!
