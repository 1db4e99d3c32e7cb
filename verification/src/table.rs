//! Maps from names to values that are walked in the order of their names.
use vstd::prelude::*;

use crate::text;

verus! {

/// A map from names to values, walked in the order of the names.
#[derive(Debug)]
pub struct Table<V> {
    entries: Vec<(String, V)>,
}

/// Do the names stand in order, each of them once?
pub open spec fn ascending(names: Seq<Seq<char>>) -> bool {
    forall|i: int, j: int|
        0 <= i < j < names.len() ==> text::text_lt(#[trigger] names[i], #[trigger] names[j])
}

/// The names of a finite set, in order.
pub open spec fn in_order(names: Set<Seq<char>>) -> Seq<Seq<char>> {
    choose|list: Seq<Seq<char>>| ascending(list) && #[trigger] list.to_set() == names
}

/// The last of the names in order is the greatest of them.
proof fn lemma_ascending_last(list: Seq<Seq<char>>, name: Seq<char>)
    requires
        ascending(list),
        list.contains(name),
    ensures
        name == list.last() || text::text_lt(name, list.last()),
{
    let i = choose|i: int| 0 <= i < list.len() && list[i] == name;
    if i < list.len() - 1 {
        assert(text::text_lt(list[i], list[list.len() - 1]));
    }
}

/// There is one way to put the names of a set in order.
pub proof fn lemma_ascending_unique(a: Seq<Seq<char>>, b: Seq<Seq<char>>)
    requires
        ascending(a),
        ascending(b),
        a.to_set() == b.to_set(),
    ensures
        a == b,
    decreases a.len(),
{
    if a.len() == 0 {
        if b.len() > 0 {
            assert(b.to_set().contains(b[0]));
            assert(a.contains(b[0]));
        }
        assert(a =~= b);
    } else {
        assert(a.to_set().contains(a.last()));
        assert(b.contains(a.last()));
        assert(b.to_set().contains(b.last()));
        assert(a.contains(b.last()));
        lemma_ascending_last(a, b.last());
        lemma_ascending_last(b, a.last());
        text::lemma_text_lt_irreflexive(a.last());
        if a.last() != b.last() {
            text::lemma_text_lt_transitive(a.last(), b.last(), a.last());
        }
        let x = a.drop_last();
        let y = b.drop_last();
        assert forall|name: Seq<char>| x.to_set().contains(name) <==> y.to_set().contains(name) by {
            lemma_drop_last_set(a, name);
            lemma_drop_last_set(b, name);
        }
        assert(x.to_set() =~= y.to_set());
        assert(ascending(x));
        assert(ascending(y));
        lemma_ascending_unique(x, y);
        assert(a =~= x.push(a.last()));
        assert(b =~= y.push(b.last()));
    }
}

/// The names of a list are those before the last one, and the last one.
pub proof fn lemma_but_last(list: Seq<Seq<char>>)
    requires
        list.len() > 0,
    ensures
        forall|name: Seq<char>|
            list.contains(name) <==> list.drop_last().contains(name) || name == list.last(),
{
    let shorter = list.drop_last();
    assert forall|name: Seq<char>| list.contains(name) <==> shorter.contains(name) || name
        == list.last() by {
        if shorter.contains(name) {
            let i = choose|i: int| 0 <= i < shorter.len() && shorter[i] == name;
            assert(list[i] == name);
        }
        if list.contains(name) && name != list.last() {
            let i = choose|i: int| 0 <= i < list.len() && list[i] == name;
            assert(shorter[i] == name);
        }
        assert(list[list.len() - 1] == list.last());
    }
}

/// The last name of a list in which none stands twice is not among those before it.
pub proof fn lemma_last_is_new(list: Seq<Seq<char>>)
    requires
        list.len() > 0,
        list.no_duplicates(),
    ensures
        !list.drop_last().contains(list.last()),
{
    let shorter = list.drop_last();
    if shorter.contains(list.last()) {
        let i = choose|i: int| 0 <= i < shorter.len() && shorter[i] == list.last();
        assert(list[i] == list.last());
    }
}

proof fn lemma_drop_last_set(list: Seq<Seq<char>>, name: Seq<char>)
    requires
        ascending(list),
        list.len() > 0,
    ensures
        list.drop_last().to_set().contains(name) <==> list.to_set().contains(name) && name
            != list.last(),
{
    lemma_but_last(list);
    let shorter = list.drop_last();
    if shorter.contains(name) {
        let i = choose|i: int| 0 <= i < shorter.len() && shorter[i] == name;
        assert(text::text_lt(list[i], list[list.len() - 1]));
        text::lemma_text_lt_irreflexive(name);
    }
}

/// A finite set of names has a greatest one.
proof fn lemma_greatest(names: Set<Seq<char>>) -> (greatest: Seq<char>)
    requires
        names.finite(),
        names.len() > 0,
    ensures
        names.contains(greatest),
        forall|name: Seq<char>| #[trigger]
            names.contains(name) && name != greatest ==> text::text_lt(name, greatest),
    decreases names.len(),
{
    let one = names.choose();
    let rest = names.remove(one);
    if rest.len() == 0 {
        assert forall|name: Seq<char>| #[trigger] names.contains(name) implies name == one by {
            if name != one {
                assert(rest.contains(name));
            }
        }
        one
    } else {
        let most = lemma_greatest(rest);
        text::lemma_text_lt_total(one, most);
        let greatest = if text::text_lt(most, one) {
            one
        } else {
            most
        };
        assert forall|name: Seq<char>| #[trigger]
            names.contains(name) && name != greatest implies text::text_lt(name, greatest) by {
            if name != one && name != most {
                assert(rest.contains(name));
                assert(text::text_lt(name, most));
                if greatest == one {
                    text::lemma_text_lt_transitive(name, most, one);
                }
            }
        }
        greatest
    }
}

/// The names of a finite set can be put in order.
proof fn lemma_can_be_ordered(names: Set<Seq<char>>) -> (list: Seq<Seq<char>>)
    requires
        names.finite(),
    ensures
        ascending(list),
        list.to_set() == names,
    decreases names.len(),
{
    if names.len() == 0 {
        let list = Seq::<Seq<char>>::empty();
        assert(list.to_set() =~= names);
        list
    } else {
        let greatest = lemma_greatest(names);
        let shorter = lemma_can_be_ordered(names.remove(greatest));
        let list = shorter.push(greatest);
        assert forall|i: int, j: int| 0 <= i < j < list.len() implies text::text_lt(
            #[trigger] list[i],
            #[trigger] list[j],
        ) by {
            if j == shorter.len() {
                assert(shorter.to_set().contains(shorter[i]));
                assert(names.contains(list[i]));
            }
        }
        lemma_but_last(list);
        assert(list.drop_last() =~= shorter);
        assert forall|name: Seq<char>| list.to_set().contains(name) <==> names.contains(name) by {
            assert(shorter.to_set().contains(name) <==> names.remove(greatest).contains(name));
            assert(list.contains(name) <==> shorter.contains(name) || name == greatest);
        }
        assert(list.to_set() =~= names);
        list
    }
}

/// The names of a finite set in order are those of the set, each of them once.
pub proof fn lemma_in_order(names: Set<Seq<char>>)
    requires
        names.finite(),
    ensures
        ascending(in_order(names)),
        in_order(names).no_duplicates(),
        in_order(names).len() == names.len(),
        forall|name: Seq<char>|
            in_order(names).contains(name) <==> #[trigger] names.contains(name),
{
    let list = lemma_can_be_ordered(names);
    let ordered = in_order(names);
    assert(ascending(ordered) && ordered.to_set() == names);
    assert forall|i: int, j: int|
        0 <= i < ordered.len() && 0 <= j < ordered.len() && i != j implies ordered[i]
        != ordered[j] by {
        text::lemma_text_lt_irreflexive(ordered[i]);
        if i < j {
            assert(text::text_lt(ordered[i], ordered[j]));
        } else {
            assert(text::text_lt(ordered[j], ordered[i]));
        }
    }
    ordered.unique_seq_to_set();
    assert forall|name: Seq<char>| ordered.contains(name) <==> #[trigger] names.contains(name) by {
        assert(ordered.to_set().contains(name) <==> ordered.contains(name));
    }
}

impl<V> Table<V> {
    spec fn holds(&self, name: Seq<char>) -> bool {
        exists|i: int| 0 <= i < self.entries@.len() && #[trigger] self.entries@[i].0@ == name
    }

    spec fn place(&self, name: Seq<char>) -> int {
        choose|i: int| 0 <= i < self.entries@.len() && #[trigger] self.entries@[i].0@ == name
    }

    /// The map that the table stands for.
    pub closed spec fn map(&self) -> Map<Seq<char>, V> {
        Map::new(
            |name: Seq<char>| self.holds(name),
            |name: Seq<char>| self.entries@[self.place(name)].1,
        )
    }

    /// The names, as they are walked.
    pub closed spec fn names(&self) -> Seq<Seq<char>> {
        self.entries@.map_values(|entry: (String, V)| entry.0@)
    }

    /// The names stand in order.
    pub closed spec fn wf(&self) -> bool {
        ascending(self.names())
    }

    /// A table is walked in the order of its names, through each of them once, and through no
    /// others.
    pub proof fn lemma_names(&self)
        requires
            self.wf(),
        ensures
            ascending(self.names()),
            self.names().no_duplicates(),
            forall|name: Seq<char>|
                self.names().contains(name) <==> #[trigger] self.map().contains_key(name),
            forall|i: int|
                0 <= i < self.names().len() ==>
                    self.map().contains_key(#[trigger] self.names()[i]),
            self.map().dom().finite(),
            self.map().dom() == self.names().to_set(),
            self.map().len() == self.names().len(),
            self.names() == in_order(self.map().dom()),
    {
        let names = self.names();
        assert forall|i: int, j: int|
            0 <= i < names.len() && 0 <= j < names.len() && i != j implies
                names[i] != names[j] by {
            text::lemma_text_lt_irreflexive(names[i]);
            if i < j {
                assert(text::text_lt(names[i], names[j]));
            } else {
                assert(text::text_lt(names[j], names[i]));
            }
        }
        assert forall|name: Seq<char>|
            names.contains(name) <==> #[trigger] self.map().contains_key(name) by {
            if names.contains(name) {
                let i = choose|i: int| 0 <= i < names.len() && names[i] == name;
                assert(self.entries@[i].0@ == name);
                assert(self.holds(name));
            }
            if self.map().contains_key(name) {
                assert(self.holds(name));
                let i = self.place(name);
                assert(names[i] == name);
            }
        }
        assert(self.map().dom() =~= names.to_set());
        names.unique_seq_to_set();
        vstd::seq_lib::seq_to_set_is_finite(names);
        assert(ascending(names) && names.to_set() == self.map().dom());
        lemma_ascending_unique(names, in_order(self.map().dom()));
    }

    /// A name stands at one place only.
    proof fn lemma_place(&self, i: int)
        requires
            self.wf(),
            0 <= i < self.entries@.len(),
        ensures
            self.holds(self.entries@[i].0@),
            self.place(self.entries@[i].0@) == i,
            self.map().contains_key(self.entries@[i].0@),
            self.map()[self.entries@[i].0@] == self.entries@[i].1,
    {
        let name = self.entries@[i].0@;
        assert(self.holds(name));
        let j = self.place(name);
        assert(self.entries@[j].0@ == name);
        text::lemma_text_lt_irreflexive(name);
        assert(self.names()[i] == name && self.names()[j] == name);
    }

    /// An empty table.
    pub fn new() -> (table: Self)
        ensures
            table.wf(),
            table.map() == Map::<Seq<char>, V>::empty(),
            table.names() == Seq::<Seq<char>>::empty(),
    {
        let table = Table { entries: Vec::new() };
        assert(table.map() =~= Map::empty());
        assert(table.names() =~= Seq::empty());
        table
    }

    /// The number of names.
    pub fn len(&self) -> (n: usize)
        ensures
            n == self.names().len(),
    {
        self.entries.len()
    }

    /// The name at a place of the walk.
    pub fn name_at(&self, i: usize) -> (name: &String)
        requires
            i < self.names().len(),
        ensures
            name@ == self.names()[i as int],
    {
        &self.entries[i].0
    }

    /// The value at a place of the walk.
    pub fn value_at(&self, i: usize) -> (value: &V)
        requires
            self.wf(),
            i < self.names().len(),
        ensures
            self.map().contains_key(self.names()[i as int]),
            *value == self.map()[self.names()[i as int]],
    {
        proof {
            self.lemma_place(i as int);
        }
        &self.entries[i].1
    }

    /// The first place whose name does not stand before `name`.
    fn first_from(&self, name: &str) -> (at: usize)
        requires
            self.wf(),
        ensures
            at <= self.entries@.len(),
            forall|i: int| 0 <= i < at ==> text::text_lt(#[trigger] self.entries@[i].0@, name@),
            at < self.entries@.len() ==> !text::text_lt(self.entries@[at as int].0@, name@),
    {
        let mut at: usize = 0;
        while at < self.entries.len() && text::text_before(self.entries[at].0.as_str(), name)
            invariant
                at <= self.entries@.len(),
                forall|i: int| 0 <= i < at ==> text::text_lt(#[trigger] self.entries@[i].0@, name@),
            decreases self.entries@.len() - at,
        {
            at += 1;
        }
        at
    }

    fn find(&self, name: &str) -> (found: Result<usize, usize>)
        requires
            self.wf(),
        ensures
            match found {
                Ok(at) => at < self.entries@.len() && self.entries@[at as int].0@ == name@,
                Err(at) => {
                    &&& at <= self.entries@.len()
                    &&& !self.holds(name@)
                    &&& forall|i: int|
                        0 <= i < at ==> text::text_lt(#[trigger] self.entries@[i].0@, name@)
                    &&& forall|i: int|
                        at <= i < self.entries@.len() ==>
                            text::text_lt(name@, #[trigger] self.entries@[i].0@)
                },
            },
    {
        let at = self.first_from(name);
        if at < self.entries.len() && text::same_text(self.entries[at].0.as_str(), name) {
            return Ok(at);
        }
        proof {
            assert forall|i: int|
                at <= i < self.entries@.len() implies
                    text::text_lt(name@, #[trigger] self.entries@[i].0@) by {
                let first = self.entries@[at as int].0@;
                text::lemma_text_lt_total(name@, first);
                if i > at {
                    assert(text::text_lt(self.names()[at as int], self.names()[i]));
                    text::lemma_text_lt_transitive(name@, first, self.entries@[i].0@);
                }
            }
            text::lemma_text_lt_irreflexive(name@);
            if self.holds(name@) {
                let i = self.place(name@);
                assert(self.entries@[i].0@ == name@);
            }
        }
        Err(at)
    }

    /// The value of a name.
    pub fn get(&self, name: &str) -> (value: Option<&V>)
        requires
            self.wf(),
        ensures
            match value {
                Some(v) => self.map().contains_key(name@) && *v == self.map()[name@],
                None => !self.map().contains_key(name@),
            },
    {
        match self.find(name) {
            Ok(at) => {
                proof {
                    self.lemma_place(at as int);
                }
                Some(&self.entries[at].1)
            },
            Err(_) => None,
        }
    }

    /// Is there a value of this name?
    pub fn contains_name(&self, name: &str) -> (yes: bool)
        requires
            self.wf(),
        ensures
            yes == self.map().contains_key(name@),
    {
        self.get(name).is_some()
    }

    /// Puts a value under a name, in place of what was there.
    pub fn insert(&mut self, name: String, value: V)
        requires
            old(self).wf(),
        ensures
            final(self).wf(),
            final(self).map() == old(self).map().insert(name@, value),
    {
        let ghost before = *self;
        match self.find(name.as_str()) {
            Ok(at) => {
                let ghost key = self.entries@[at as int].0@;
                self.entries[at].1 = value;
                proof {
                    assert forall|i: int|
                        0 <= i < self.entries@.len() implies
                            #[trigger] self.entries@[i].0@ == before.entries@[i].0@ by {}
                    assert(self.names() =~= before.names());
                    lemma_same_map(before, *self, name@, value, at as int);
                }
            },
            Err(at) => {
                let ghost key = name@;
                self.entries.insert(at, (name, value));
                proof {
                    lemma_inserted(before, *self, key, value, at as int);
                }
            },
        }
    }

    /// Takes the value of a name out.
    pub fn remove(&mut self, name: &str) -> (value: Option<V>)
        requires
            old(self).wf(),
        ensures
            final(self).wf(),
            final(self).map() == old(self).map().remove(name@),
            match value {
                Some(v) => old(self).map().contains_key(name@) && v == old(self).map()[name@],
                None => !old(self).map().contains_key(name@),
            },
    {
        let ghost before = *self;
        match self.find(name) {
            Ok(at) => {
                proof {
                    before.lemma_place(at as int);
                }
                let entry = self.entries.remove(at);
                proof {
                    lemma_removed(before, *self, at as int);
                }
                Some(entry.1)
            },
            Err(_) => {
                assert(self.map() =~= before.map().remove(name@));
                None
            },
        }
    }
}

proof fn lemma_same_map<V>(before: Table<V>, after: Table<V>, name: Seq<char>, value: V, at: int)
    requires
        before.wf(),
        after.wf(),
        0 <= at < before.entries@.len(),
        before.entries@.len() == after.entries@.len(),
        before.entries@[at].0@ == name,
        after.entries@[at].0@ == name,
        after.entries@[at].1 == value,
        forall|i: int|
            0 <= i < before.entries@.len() && i != at ==> before.entries@[i] == after.entries@[i],
    ensures
        after.map() == before.map().insert(name, value),
{
    assert forall|key: Seq<char>|
        after.map().contains_key(key) <==> before.map().insert(name, value).contains_key(key) by {
        if after.holds(key) {
            let i = after.place(key);
            assert(before.entries@[i].0@ == key);
        }
        if before.holds(key) {
            let i = before.place(key);
            assert(after.entries@[i].0@ == key);
        }
        before.lemma_place(at);
        after.lemma_place(at);
    }
    assert forall|key: Seq<char>|
        after.map().contains_key(key) implies
            #[trigger] after.map()[key] == before.map().insert(name, value)[key] by {
        let i = after.place(key);
        assert(after.holds(key));
        after.lemma_place(i);
        before.lemma_place(i);
        after.lemma_place(at);
    }
    assert(after.map() =~= before.map().insert(name, value));
}

proof fn lemma_inserted<V>(before: Table<V>, after: Table<V>, name: Seq<char>, value: V, at: int)
    requires
        before.wf(),
        0 <= at <= before.entries@.len(),
        !before.holds(name),
        forall|i: int| 0 <= i < at ==> text::text_lt(#[trigger] before.entries@[i].0@, name),
        forall|i: int|
            at <= i < before.entries@.len() ==>
                text::text_lt(name, #[trigger] before.entries@[i].0@),
        after.entries@.len() == before.entries@.len() + 1,
        after.entries@[at].0@ == name,
        after.entries@[at].1 == value,
        forall|i: int| 0 <= i < at ==> after.entries@[i] == before.entries@[i],
        forall|i: int|
            at < i < after.entries@.len() ==> after.entries@[i] == before.entries@[i - 1],
    ensures
        after.wf(),
        after.map() == before.map().insert(name, value),
{
    let old_names = before.names();
    let names = after.names();
    assert forall|i: int, j: int|
        0 <= i < j < names.len() implies
            text::text_lt(#[trigger] names[i], #[trigger] names[j]) by {
        if j < at {
            assert(text::text_lt(old_names[i], old_names[j]));
        } else if j == at {
            assert(text::text_lt(before.entries@[i].0@, name));
        } else if i < at {
            assert(text::text_lt(old_names[i], old_names[j - 1]));
        } else if i == at {
            assert(text::text_lt(name, before.entries@[j - 1].0@));
        } else {
            assert(text::text_lt(old_names[i - 1], old_names[j - 1]));
        }
    }
    assert forall|key: Seq<char>|
        after.map().contains_key(key) <==> before.map().insert(name, value).contains_key(key) by {
        if after.holds(key) {
            let i = after.place(key);
            if i < at {
                assert(before.entries@[i].0@ == key);
            } else if i > at {
                assert(before.entries@[i - 1].0@ == key);
            }
        }
        if before.holds(key) {
            let i = before.place(key);
            if i < at {
                assert(after.entries@[i].0@ == key);
            } else {
                assert(after.entries@[i + 1].0@ == key);
            }
        }
        after.lemma_place(at);
    }
    assert forall|key: Seq<char>|
        after.map().contains_key(key) implies
            #[trigger] after.map()[key] == before.map().insert(name, value)[key] by {
        let i = after.place(key);
        assert(after.holds(key));
        after.lemma_place(i);
        if i < at {
            before.lemma_place(i);
        } else if i > at {
            before.lemma_place(i - 1);
        }
        after.lemma_place(at);
    }
    assert(after.map() =~= before.map().insert(name, value));
}

proof fn lemma_removed<V>(before: Table<V>, after: Table<V>, at: int)
    requires
        before.wf(),
        0 <= at < before.entries@.len(),
        after.entries@ == before.entries@.remove(at),
    ensures
        after.wf(),
        after.map() == before.map().remove(before.entries@[at].0@),
{
    let name = before.entries@[at].0@;
    let old_names = before.names();
    let names = after.names();
    assert forall|i: int, j: int|
        0 <= i < j < names.len() implies
            text::text_lt(#[trigger] names[i], #[trigger] names[j]) by {
        let a = if i < at { i } else { i + 1 };
        let b = if j < at { j } else { j + 1 };
        assert(text::text_lt(old_names[a], old_names[b]));
    }
    before.lemma_place(at);
    assert forall|key: Seq<char>|
        after.map().contains_key(key) <==> before.map().remove(name).contains_key(key) by {
        if after.holds(key) {
            let i = after.place(key);
            let a = if i < at { i } else { i + 1 };
            before.lemma_place(a);
            assert(before.entries@[a].0@ == key);
        }
        if before.holds(key) && key != name {
            let i = before.place(key);
            let a = if i < at { i } else { i - 1 };
            assert(after.entries@[a].0@ == key);
        }
    }
    assert forall|key: Seq<char>|
        after.map().contains_key(key) implies
            #[trigger] after.map()[key] == before.map().remove(name)[key] by {
        let i = after.place(key);
        assert(after.holds(key));
        after.lemma_place(i);
        let a = if i < at { i } else { i + 1 };
        before.lemma_place(a);
    }
    assert(after.map() =~= before.map().remove(name));
}

} // verus!
