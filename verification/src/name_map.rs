//! A map keyed by names, kept as an association list with distinct keys.

use vstd::prelude::*;

verus! {

/// The map that a list of named entries denotes.
pub open spec fn map_of<V>(s: Seq<(String, V)>) -> Map<Seq<char>, V>
    decreases s.len(),
{
    if s.len() == 0 {
        Map::empty()
    } else {
        map_of(s.drop_last()).insert(s.last().0@, s.last().1)
    }
}

/// The names of a list of entries, in order.
pub open spec fn names_of<V>(s: Seq<(String, V)>) -> Seq<Seq<char>> {
    s.map_values(|e: (String, V)| e.0@)
}

pub open spec fn distinct_names<V>(s: Seq<(String, V)>) -> bool {
    forall|i: int, j: int| 0 <= i < s.len() && 0 <= j < s.len() && i != j ==> s[i].0@ != s[j].0@
}

proof fn lemma_map_of_dom<V>(s: Seq<(String, V)>, k: Seq<char>)
    ensures
        map_of(s).contains_key(k) <==> exists|i: int| 0 <= i < s.len() && s[i].0@ == k,
    decreases s.len(),
{
    if s.len() > 0 {
        lemma_map_of_dom(s.drop_last(), k);
        if map_of(s).contains_key(k) && s.last().0@ != k {
            let i = choose|i: int| 0 <= i < s.len() - 1 && s.drop_last()[i].0@ == k;
            assert(s[i].0@ == k);
        }
        if exists|i: int| 0 <= i < s.len() && s[i].0@ == k {
            let i = choose|i: int| 0 <= i < s.len() && s[i].0@ == k;
            if i < s.len() - 1 {
                assert(s.drop_last()[i].0@ == k);
            }
        }
    }
}

proof fn lemma_map_of_at<V>(s: Seq<(String, V)>, i: int)
    requires
        distinct_names(s),
        0 <= i < s.len(),
    ensures
        map_of(s).contains_key(s[i].0@),
        map_of(s)[s[i].0@] == s[i].1,
    decreases s.len(),
{
    if i < s.len() - 1 {
        lemma_map_of_at(s.drop_last(), i);
        assert(s.drop_last()[i] == s[i]);
    }
}

proof fn lemma_map_of_finite<V>(s: Seq<(String, V)>)
    ensures
        map_of(s).dom().finite(),
    decreases s.len(),
{
    if s.len() > 0 {
        lemma_map_of_finite(s.drop_last());
    }
}

proof fn lemma_map_of_update<V>(s: Seq<(String, V)>, i: int, v: V)
    requires
        distinct_names(s),
        0 <= i < s.len(),
    ensures
        map_of(s.update(i, (s[i].0, v))) == map_of(s).insert(s[i].0@, v),
    decreases s.len(),
{
    let t = s.update(i, (s[i].0, v));
    if i == s.len() - 1 {
        assert(t.drop_last() =~= s.drop_last());
        lemma_map_of_dom(s.drop_last(), s[i].0@);
        assert(map_of(s).insert(s[i].0@, v) =~= map_of(s.drop_last()).insert(s[i].0@, v));
    } else {
        assert(t.drop_last() =~= s.drop_last().update(i, (s[i].0, v)));
        lemma_map_of_update(s.drop_last(), i, v);
        assert(map_of(t) =~= map_of(s).insert(s[i].0@, v));
    }
}

proof fn lemma_map_of_remove<V>(s: Seq<(String, V)>, i: int)
    requires
        distinct_names(s),
        0 <= i < s.len(),
    ensures
        map_of(s.remove(i)) == map_of(s).remove(s[i].0@),
    decreases s.len(),
{
    let t = s.remove(i);
    if i == s.len() - 1 {
        assert(t =~= s.drop_last());
        lemma_map_of_dom(s.drop_last(), s[i].0@);
        assert(map_of(s).remove(s[i].0@) =~= map_of(s.drop_last()));
    } else {
        assert(t.drop_last() =~= s.drop_last().remove(i));
        lemma_map_of_remove(s.drop_last(), i);
        assert(t.last() == s.last());
        assert(map_of(t) =~= map_of(s).remove(s[i].0@));
    }
}

/// A map from names to values. Entries keep the order in which their names
/// were first inserted.
pub struct NameMap<V> {
    entries: Vec<(String, V)>,
}

impl<V> NameMap<V> {
    #[verifier::type_invariant]
    spec fn inv(self) -> bool {
        distinct_names(self.entries@)
    }

    /// The map denoted.
    pub closed spec fn view(self) -> Map<Seq<char>, V> {
        map_of(self.entries@)
    }

    /// The names held, in order of first insertion.
    pub closed spec fn names(self) -> Seq<Seq<char>> {
        names_of(self.entries@)
    }

    /// The empty map.
    pub fn new() -> (r: Self)
        ensures
            r.view() == Map::<Seq<char>, V>::empty(),
            r.names() == Seq::<Seq<char>>::empty(),
    {
        let r = NameMap { entries: Vec::new() };
        assert(r.names() =~= Seq::<Seq<char>>::empty());
        r
    }

    /// The position of `name`, if present.
    fn find(&self, name: &str) -> (r: Option<usize>)
        ensures
            match r {
                Some(i) => i < self.entries@.len() && self.entries@[i as int].0@ == name@,
                None => forall|j: int| 0 <= j < self.entries@.len() ==> self.entries@[j].0@ != name@,
            },
    {
        let k = name.to_owned();
        let mut i: usize = 0;
        while i < self.entries.len()
            invariant
                k@ == name@,
                i <= self.entries@.len(),
                forall|j: int| 0 <= j < i ==> self.entries@[j].0@ != name@,
            decreases self.entries@.len() - i,
        {
            if self.entries[i].0 == k {
                return Some(i);
            }
            i = i + 1;
        }
        None
    }

    /// Facts that hold of every map: the names are distinct and are its domain.
    pub fn names_vec(&self) -> (r: Vec<String>)
        ensures
            r@.map_values(|s: String| s@) == self.names(),
            self.names().no_duplicates(),
            forall|k: Seq<char>| self.view().contains_key(k) <==> self.names().contains(k),
            self.view().dom().finite(),
    {
        proof {
            use_type_invariant(self);
            lemma_map_of_finite(self.entries@);
        }
        let mut r: Vec<String> = Vec::new();
        let mut i: usize = 0;
        while i < self.entries.len()
            invariant
                i <= self.entries@.len(),
                r@.len() == i,
                forall|j: int| 0 <= j < i ==> (#[trigger] r@[j])@ == self.entries@[j].0@,
            decreases self.entries@.len() - i,
        {
            r.push(self.entries[i].0.clone());
            i = i + 1;
        }
        proof {
            assert(r@.map_values(|s: String| s@) =~= self.names());
            assert forall|k: Seq<char>| self.view().contains_key(k) <==> self.names().contains(k) by {
                lemma_map_of_dom(self.entries@, k);
                if self.names().contains(k) {
                    let j = choose|j: int| 0 <= j < self.names().len() && self.names()[j] == k;
                    assert(self.entries@[j].0@ == k);
                }
                if self.view().contains_key(k) {
                    let j = choose|j: int| 0 <= j < self.entries@.len() && self.entries@[j].0@ == k;
                    assert(self.names()[j] == k);
                }
            }
        }
        r
    }

    /// Number of entries.
    pub fn len(&self) -> (r: usize)
        ensures
            r == self.names().len(),
    {
        self.entries.len()
    }

    pub fn contains_key(&self, name: &str) -> (r: bool)
        ensures
            r == self.view().contains_key(name@),
    {
        proof {
            lemma_map_of_dom(self.entries@, name@);
        }
        self.find(name).is_some()
    }

    /// The value held under `name`.
    pub fn get(&self, name: &str) -> (r: Option<&V>)
        ensures
            match r {
                Some(v) => self.view().contains_key(name@) && self.view()[name@] == *v,
                None => !self.view().contains_key(name@),
            },
    {
        proof {
            use_type_invariant(self);
            lemma_map_of_dom(self.entries@, name@);
        }
        match self.find(name) {
            Some(i) => {
                proof {
                    lemma_map_of_at(self.entries@, i as int);
                }
                Some(&self.entries[i].1)
            },
            None => None,
        }
    }

    /// The entry at position `i` in name order.
    pub fn entry_at(&self, i: usize) -> (r: (&String, &V))
        requires
            i < self.names().len(),
        ensures
            r.0@ == self.names()[i as int],
            self.view().contains_key(r.0@),
            self.view()[r.0@] == *r.1,
    {
        proof {
            use_type_invariant(self);
            lemma_map_of_at(self.entries@, i as int);
        }
        (&self.entries[i].0, &self.entries[i].1)
    }

    /// Sets `name` to `value`, replacing any value it had.
    pub fn insert(&mut self, name: String, value: V)
        ensures
            final(self).view() == old(self).view().insert(name@, value),
            final(self).names() == (if old(self).view().contains_key(name@) {
                old(self).names()
            } else {
                old(self).names().push(name@)
            }),
    {
        proof {
            use_type_invariant(&*self);
            lemma_map_of_dom(self.entries@, name@);
        }
        match self.find(name.as_str()) {
            Some(i) => {
                let ghost s = self.entries@;
                proof {
                    lemma_map_of_update(s, i as int, value);
                }
                let mut es: Vec<(String, V)> = Vec::new();
                std::mem::swap(&mut es, &mut self.entries);
                let k = es[i].0.clone();
                es.set(i, (k, value));
                assert(es@ =~= s.update(i as int, (s[i as int].0, value)));
                self.entries = es;
                assert(names_of(self.entries@) =~= names_of(s));
            },
            None => {
                let ghost s = self.entries@;
                let mut es: Vec<(String, V)> = Vec::new();
                std::mem::swap(&mut es, &mut self.entries);
                es.push((name, value));
                assert(es@.drop_last() =~= s);
                proof {
                    assert forall|a: int, b: int|
                        0 <= a < es@.len() && 0 <= b < es@.len() && a != b implies es@[a].0@ != es@[b].0@ by {
                        if a < s.len() && b < s.len() {
                            assert(es@[a] == s[a] && es@[b] == s[b]);
                        }
                    }
                }
                self.entries = es;
                assert(names_of(self.entries@) =~= names_of(s).push(self.entries@.last().0@));
            },
        }
    }

    /// Sets `name` to `value` only where `name` is not present yet.
    pub fn insert_if_absent(&mut self, name: String, value: V)
        ensures
            final(self).view() == (if old(self).view().contains_key(name@) {
                old(self).view()
            } else {
                old(self).view().insert(name@, value)
            }),
            final(self).names() == (if old(self).view().contains_key(name@) {
                old(self).names()
            } else {
                old(self).names().push(name@)
            }),
    {
        if !self.contains_key(name.as_str()) {
            self.insert(name, value);
        }
    }

    /// Removes `name`, returning the value it had.
    pub fn remove(&mut self, name: &str) -> (r: Option<V>)
        ensures
            final(self).view() == old(self).view().remove(name@),
            match r {
                Some(v) => old(self).view().contains_key(name@) && old(self).view()[name@] == v,
                None => !old(self).view().contains_key(name@),
            },
    {
        proof {
            use_type_invariant(&*self);
            lemma_map_of_dom(self.entries@, name@);
        }
        match self.find(name) {
            Some(i) => {
                let ghost s = self.entries@;
                proof {
                    lemma_map_of_remove(s, i as int);
                    lemma_map_of_at(s, i as int);
                }
                let mut es: Vec<(String, V)> = Vec::new();
                std::mem::swap(&mut es, &mut self.entries);
                let e = es.remove(i);
                assert(es@ =~= s.remove(i as int));
                proof {
                    assert forall|a: int, b: int|
                        0 <= a < es@.len() && 0 <= b < es@.len() && a != b implies es@[a].0@ != es@[b].0@ by {
                        let a2 = if a < i { a } else { a + 1 };
                        let b2 = if b < i { b } else { b + 1 };
                        assert(es@[a] == s[a2] && es@[b] == s[b2]);
                    }
                }
                self.entries = es;
                Some(e.1)
            },
            None => {
                proof {
                    assert(old(self).view().remove(name@) =~= old(self).view());
                }
                None
            },
        }
    }
}

} // verus!
