//! A small map from names to values that keeps its entries in the order
//! in which their names first came in.

use vstd::prelude::*;

verus! {

/// A map keyed by name. Looking a name up compares it, character by
/// character, with the names already there.
#[derive(Debug)]
pub struct NameMap<V> {
    entries: Vec<(String, V)>,
}

/// The map that a list of entries stands for: each entry overrides what
/// earlier ones said of the same name.
spec fn entries_map<V>(s: Seq<(String, V)>) -> Map<Seq<char>, V>
    decreases s.len(),
{
    if s.len() == 0 {
        Map::empty()
    } else {
        entries_map(s.drop_last()).insert(s.last().0@, s.last().1)
    }
}

/// No entry of `s` from position `from` on has the name `k`.
spec fn absent_from<V>(s: Seq<(String, V)>, k: Seq<char>, from: int) -> bool {
    forall|j: int| from <= j < s.len() ==> (#[trigger] s[j]).0@ != k
}

proof fn lemma_absent<V>(s: Seq<(String, V)>, k: Seq<char>)
    requires
        absent_from(s, k, 0),
    ensures
        !entries_map(s).contains_key(k),
    decreases s.len(),
{
    if s.len() > 0 {
        assert(s.last() == s[s.len() - 1]);
        assert forall|j: int| 0 <= j < s.drop_last().len() implies (#[trigger] s.drop_last()[j]).0@
            != k by {
            assert(s.drop_last()[j] == s[j]);
        }
        lemma_absent(s.drop_last(), k);
    }
}

proof fn lemma_last_match<V>(s: Seq<(String, V)>, k: Seq<char>, i: int)
    requires
        0 <= i < s.len(),
        s[i].0@ == k,
        absent_from(s, k, i + 1),
    ensures
        entries_map(s).contains_key(k),
        entries_map(s)[k] == s[i].1,
    decreases s.len(),
{
    if i == s.len() - 1 {
    } else {
        assert(s.last() == s[s.len() - 1]);
        assert forall|j: int| i + 1 <= j < s.drop_last().len() implies (
        #[trigger] s.drop_last()[j]).0@ != k by {
            assert(s.drop_last()[j] == s[j]);
        }
        lemma_last_match(s.drop_last(), k, i);
    }
}

proof fn lemma_replace<V>(s: Seq<(String, V)>, i: int, name: String, v: V)
    requires
        0 <= i < s.len(),
        s[i].0@ == name@,
        absent_from(s, name@, i + 1),
    ensures
        entries_map(s.update(i, (name, v))) == entries_map(s).insert(name@, v),
    decreases s.len(),
{
    let t = s.update(i, (name, v));
    if i == s.len() - 1 {
        assert(t.drop_last() =~= s.drop_last());
        assert(entries_map(t) =~= entries_map(s).insert(name@, v));
    } else {
        assert(s.last() == s[s.len() - 1]);
        assert forall|j: int| i + 1 <= j < s.drop_last().len() implies (
        #[trigger] s.drop_last()[j]).0@ != name@ by {
            assert(s.drop_last()[j] == s[j]);
        }
        lemma_replace(s.drop_last(), i, name, v);
        assert(t.drop_last() =~= s.drop_last().update(i, (name, v)));
        assert(t.last() == s.last());
        assert(entries_map(t) =~= entries_map(s).insert(name@, v));
    }
}

proof fn lemma_domain<V>(s: Seq<(String, V)>, k: Seq<char>)
    requires
        entries_map(s).contains_key(k),
    ensures
        exists|i: int| 0 <= i < s.len() && (#[trigger] s[i]).0@ == k,
    decreases s.len(),
{
    if s.len() > 0 {
        if s.last().0@ == k {
            assert(s[s.len() - 1].0@ == k);
        } else {
            lemma_domain(s.drop_last(), k);
            let i = choose|i: int| 0 <= i < s.drop_last().len() && (#[trigger] s.drop_last()[i]).0@ == k;
            assert(s[i] == s.drop_last()[i]);
        }
    }
}

proof fn lemma_present<V>(s: Seq<(String, V)>, i: int)
    requires
        0 <= i < s.len(),
    ensures
        entries_map(s).contains_key(s[i].0@),
    decreases s.len(),
{
    if i < s.len() - 1 {
        lemma_present(s.drop_last(), i);
    }
}

impl<V> NameMap<V> {
    /// What the map holds: for each name, its value.
    pub closed spec fn view(&self) -> Map<Seq<char>, V> {
        entries_map(self.entries@)
    }

    /// The names of the entries, in the order in which they first came in.
    pub closed spec fn names(&self) -> Seq<Seq<char>> {
        Seq::new(self.entries@.len(), |i: int| self.entries@[i].0@)
    }

    /// The names that the entries list are exactly those that the map holds.
    pub proof fn lemma_names(&self)
        ensures
            forall|i: int| 0 <= i < self.names().len() ==> self@.contains_key(#[trigger] self.names()[i]),
            forall|k: Seq<char>| self@.contains_key(k) ==> self.names().contains(k),
    {
        assert forall|i: int| 0 <= i < self.names().len() implies self@.contains_key(
            #[trigger] self.names()[i],
        ) by {
            lemma_present(self.entries@, i);
        }
        assert forall|k: Seq<char>| self@.contains_key(k) implies self.names().contains(k) by {
            lemma_domain(self.entries@, k);
            let i = choose|i: int| 0 <= i < self.entries@.len() && (#[trigger] self.entries@[i]).0@ == k;
            assert(self.names()[i] == k);
        }
    }

    /// A map that holds nothing.
    pub fn new() -> (m: Self)
        ensures
            m@ == Map::<Seq<char>, V>::empty(),
            m.names().len() == 0,
    {
        NameMap { entries: Vec::new() }
    }

    /// How many names the map holds entries for.
    pub fn len(&self) -> (n: usize)
        ensures
            n == self.names().len(),
    {
        self.entries.len()
    }

    /// The name of the `i`-th entry.
    pub fn name_at(&self, i: usize) -> (name: &String)
        requires
            i < self.names().len(),
        ensures
            name@ == self.names()[i as int],
            self@.contains_key(name@),
    {
        proof {
            lemma_present(self.entries@, i as int);
        }
        &self.entries[i].0
    }

    /// Position of the last entry named `name`, if there is one.
    fn position(&self, name: &String) -> (r: Option<usize>)
        ensures
            match r {
                Some(i) => i < self.entries@.len() && self.entries@[i as int].0@ == name@
                    && absent_from(self.entries@, name@, i + 1),
                None => absent_from(self.entries@, name@, 0),
            },
    {
        let mut i: usize = self.entries.len();
        while i > 0
            invariant
                i <= self.entries@.len(),
                absent_from(self.entries@, name@, i as int),
            decreases i,
        {
            i = i - 1;
            if self.entries[i].0 == *name {
                return Some(i);
            }
        }
        None
    }

    /// Whether the map holds a value for `name`.
    pub fn contains_key(&self, name: &String) -> (b: bool)
        ensures
            b == self@.contains_key(name@),
    {
        match self.position(name) {
            Some(i) => {
                proof {
                    lemma_last_match(self.entries@, name@, i as int);
                }
                true
            },
            None => {
                proof {
                    lemma_absent(self.entries@, name@);
                }
                false
            },
        }
    }

    /// The value held for `name`, if any.
    pub fn get(&self, name: &String) -> (r: Option<&V>)
        ensures
            match r {
                Some(v) => self@.contains_key(name@) && *v == self@[name@],
                None => !self@.contains_key(name@),
            },
    {
        match self.position(name) {
            Some(i) => {
                proof {
                    lemma_last_match(self.entries@, name@, i as int);
                }
                Some(&self.entries[i].1)
            },
            None => {
                proof {
                    lemma_absent(self.entries@, name@);
                }
                None
            },
        }
    }

    /// Sets the value held for `name`, replacing the one that was there.
    pub fn insert(&mut self, name: String, value: V)
        ensures
            final(self)@ == old(self)@.insert(name@, value),
            final(self).names() == (if old(self)@.contains_key(name@) {
                old(self).names()
            } else {
                old(self).names().push(name@)
            }),
    {
        match self.position(&name) {
            Some(i) => {
                proof {
                    lemma_replace(self.entries@, i as int, name, value);
                    lemma_last_match(self.entries@, name@, i as int);
                }
                self.entries.set(i, (name, value));
                assert(self.names() =~= old(self).names());
            },
            None => {
                let ghost before = self.entries@;
                proof {
                    assert(before.push((name, value)).drop_last() =~= before);
                    lemma_absent(before, name@);
                }
                self.entries.push((name, value));
                assert(self.names() =~= old(self).names().push(name@));
            },
        }
    }
}

} // verus!
