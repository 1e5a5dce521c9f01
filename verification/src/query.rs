//! The queries a search runs with: a set of cell texts, or a map from a
//! column title to the set of cell texts looked for under it.
use vstd::prelude::*;

verus! {

/// The texts of a sequence of strings.
pub open spec fn texts(v: Seq<String>) -> Seq<Seq<char>> {
    v.map_values(|s: String| s@)
}

/// A set of strings that keeps the order in which they were first inserted.
#[derive(Debug)]
pub struct QuerySet {
    items: Vec<String>,
}

impl View for QuerySet {
    type V = Seq<Seq<char>>;

    closed spec fn view(&self) -> Seq<Seq<char>> {
        texts(self.items@)
    }
}

impl QuerySet {
    #[verifier::type_invariant]
    closed spec fn distinct(self) -> bool {
        texts(self.items@).no_duplicates()
    }

    /// An empty set.
    pub fn new() -> (r: QuerySet)
        ensures
            r@ == Seq::<Seq<char>>::empty(),
    {
        let r = QuerySet { items: Vec::new() };
        assert(r@ =~= Seq::<Seq<char>>::empty());
        r
    }

    /// The number of members.
    pub fn len(&self) -> (n: usize)
        ensures
            n == self@.len(),
    {
        self.items.len()
    }

    /// The member at position `i` in insertion order.
    pub fn get(&self, i: usize) -> (s: &String)
        requires
            i < self@.len(),
        ensures
            s@ == self@[i as int],
    {
        &self.items[i]
    }

    /// Whether `s` is a member.
    pub fn contains(&self, s: &String) -> (b: bool)
        ensures
            b == self@.contains(s@),
    {
        let mut i: usize = 0;
        while i < self.items.len()
            invariant
                i <= self.items@.len(),
                forall|j: int| 0 <= j < i ==> self.items@[j]@ != s@,
            decreases self.items@.len() - i,
        {
            if self.items[i] == *s {
                assert(self@[i as int] == s@);
                return true;
            }
            i = i + 1;
        }
        assert forall|j: int| 0 <= j < self@.len() implies self@[j] != s@ by {
            assert(self@[j] == self.items@[j]@);
        }
        false
    }

    /// Adds `s` at the end unless it is already a member; says whether it was added.
    pub fn insert(&mut self, s: String) -> (added: bool)
        ensures
            added == !old(self)@.contains(s@),
            final(self)@ == (if added {
                old(self)@.push(s@)
            } else {
                old(self)@
            }),
    {
        proof {
            use_type_invariant(&*self);
        }
        if self.contains(&s) {
            return false;
        }
        let mut items: Vec<String> = Vec::new();
        std::mem::swap(&mut items, &mut self.items);
        let ghost before = items@;
        items.push(s);
        proof {
            assert(texts(items@) =~= texts(before).push(s@));
            assert forall|i: int, j: int|
                0 <= i < texts(items@).len() && 0 <= j < texts(items@).len() && i != j implies
                texts(items@)[i] != texts(items@)[j] by {
                if i < before.len() && j < before.len() {
                    assert(texts(before)[i] != texts(before)[j]);
                } else if i == before.len() {
                    assert(texts(before).contains(texts(before)[j]));
                } else {
                    assert(texts(before).contains(texts(before)[i]));
                }
            }
        }
        self.items = items;
        true
    }

    /// A copy of this set.
    pub fn duplicate(&self) -> (r: QuerySet)
        ensures
            r@ == self@,
    {
        proof {
            use_type_invariant(self);
        }
        let mut items: Vec<String> = Vec::new();
        let mut i: usize = 0;
        while i < self.items.len()
            invariant
                i <= self.items@.len(),
                texts(items@) == texts(self.items@).take(i as int),
            decreases self.items@.len() - i,
        {
            let ghost prev = items@;
            let c = self.items[i].clone();
            items.push(c);
            proof {
                assert(texts(items@) =~= texts(prev).push(c@));
                assert(texts(self.items@).take(i + 1) =~= texts(self.items@).take(i as int).push(
                    self.items@[i as int]@,
                ));
            }
            i = i + 1;
        }
        assert(texts(self.items@).take(i as int) =~= texts(self.items@));
        QuerySet { items }
    }
}

/// In a sequence without repeats, the position of an element is where it stands.
proof fn lemma_index_of_unique<A>(s: Seq<A>, i: int)
    requires
        s.no_duplicates(),
        0 <= i < s.len(),
    ensures
        s.index_of(s[i]) == i,
{
    assert(s.contains(s[i]));
    let j = s.index_of(s[i]);
    assert(0 <= j < s.len() && s[j] == s[i]);
}

/// A map from a column title to the set of cell texts looked for under it,
/// keeping its titles in the order in which they were first inserted.
#[derive(Debug)]
pub struct TitleQuery {
    entries: Vec<(String, QuerySet)>,
}

impl TitleQuery {
    /// The titles, in order.
    pub closed spec fn keys(self) -> Seq<Seq<char>> {
        self.entries@.map_values(|e: (String, QuerySet)| e.0@)
    }

    /// The sets, in the order of their titles.
    pub closed spec fn values(self) -> Seq<Seq<Seq<char>>> {
        self.entries@.map_values(|e: (String, QuerySet)| e.1@)
    }

    /// The set looked for under `title`, if `title` is a key.
    pub open spec fn lookup(self, title: Seq<char>) -> Option<Seq<Seq<char>>> {
        if self.keys().contains(title) {
            Some(self.values()[self.keys().index_of(title)])
        } else {
            None
        }
    }

    #[verifier::type_invariant]
    closed spec fn distinct_keys(self) -> bool {
        self.keys().no_duplicates()
    }

    /// An empty map.
    pub fn new() -> (r: TitleQuery)
        ensures
            r.keys() == Seq::<Seq<char>>::empty(),
            r.values() == Seq::<Seq<Seq<char>>>::empty(),
    {
        let r = TitleQuery { entries: Vec::new() };
        assert(r.keys() =~= Seq::<Seq<char>>::empty());
        assert(r.values() =~= Seq::<Seq<Seq<char>>>::empty());
        r
    }

    /// The number of titles.
    pub fn len(&self) -> (n: usize)
        ensures
            n == self.keys().len(),
    {
        self.entries.len()
    }

    /// The title at position `i` and its set.
    pub fn entry(&self, i: usize) -> (r: (&String, &QuerySet))
        requires
            i < self.keys().len(),
        ensures
            r.0@ == self.keys()[i as int],
            r.1@ == self.values()[i as int],
    {
        (&self.entries[i].0, &self.entries[i].1)
    }

    /// The position of `title` among the keys.
    fn position(&self, title: &String) -> (r: Option<usize>)
        ensures
            r matches Some(i) ==> i < self.keys().len() && self.keys()[i as int] == title@,
            r is None ==> !self.keys().contains(title@),
    {
        let mut i: usize = 0;
        while i < self.entries.len()
            invariant
                i <= self.entries@.len(),
                forall|j: int| 0 <= j < i ==> self.keys()[j] != title@,
            decreases self.entries@.len() - i,
        {
            if self.entries[i].0 == *title {
                return Some(i);
            }
            i = i + 1;
        }
        None
    }

    /// The set looked for under `title`.
    pub fn get(&self, title: &String) -> (r: Option<&QuerySet>)
        ensures
            match r {
                Some(q) => self.lookup(title@) == Some(q@),
                None => self.lookup(title@) is None,
            },
    {
        proof {
            use_type_invariant(self);
        }
        match self.position(title) {
            Some(i) => {
                proof {
                    self.keys().index_of_first_ensures(title@);
                }
                Some(&self.entries[i].1)
            },
            None => None,
        }
    }

    /// Whether `title` is a key.
    pub fn contains_key(&self, title: &String) -> (b: bool)
        ensures
            b == self.keys().contains(title@),
    {
        self.position(title).is_some()
    }

    /// Sets the set looked for under `title`: a new title goes last, a known one
    /// keeps its place.
    pub fn insert(&mut self, title: String, values: QuerySet)
        ensures
            final(self).lookup(title@) == Some(values@),
            forall|k: Seq<char>| k != title@ ==> final(self).lookup(k) == old(self).lookup(k),
            final(self).keys() == (if old(self).keys().contains(title@) {
                old(self).keys()
            } else {
                old(self).keys().push(title@)
            }),
    {
        proof {
            use_type_invariant(&*self);
        }
        let pos = self.position(&title);
        let mut entries: Vec<(String, QuerySet)> = Vec::new();
        std::mem::swap(&mut entries, &mut self.entries);
        let ghost before = entries@;
        let ghost kb = before.map_values(|e: (String, QuerySet)| e.0@);
        let ghost vb = before.map_values(|e: (String, QuerySet)| e.1@);
        let ghost t = title@;
        let ghost q = values@;
        match pos {
            Some(i) => {
                entries.set(i, (title, values));
                proof {
                    let ka = entries@.map_values(|e: (String, QuerySet)| e.0@);
                    let va = entries@.map_values(|e: (String, QuerySet)| e.1@);
                    assert(ka =~= kb);
                    assert(va =~= vb.update(i as int, q));
                    lemma_index_of_unique(kb, i as int);
                    assert forall|k: Seq<char>| k != t && kb.contains(k) implies va[kb.index_of(k)]
                        == vb[kb.index_of(k)] by {
                        let j = kb.index_of(k);
                        assert(kb[j] == k);
                    }
                }
            },
            None => {
                entries.push((title, values));
                proof {
                    let ka = entries@.map_values(|e: (String, QuerySet)| e.0@);
                    let va = entries@.map_values(|e: (String, QuerySet)| e.1@);
                    assert(ka =~= kb.push(t));
                    assert(va =~= vb.push(q));
                    assert forall|a: int, b: int|
                        0 <= a < ka.len() && 0 <= b < ka.len() && a != b implies ka[a] != ka[b] by {
                        if a < kb.len() && b < kb.len() {
                            assert(kb[a] != kb[b]);
                        } else if a == kb.len() {
                            assert(kb.contains(kb[b]));
                        } else {
                            assert(kb.contains(kb[a]));
                        }
                    }
                    assert(ka[kb.len() as int] == t);
                    lemma_index_of_unique(ka, kb.len() as int);
                    assert forall|k: Seq<char>| k != t && kb.contains(k) implies ka.index_of(k)
                        == kb.index_of(k) && ka.contains(k) by {
                        let j = kb.index_of(k);
                        assert(kb[j] == k);
                        assert(ka[j] == k);
                        lemma_index_of_unique(kb, j);
                        lemma_index_of_unique(ka, j);
                    }
                    assert forall|k: Seq<char>| k != t && ka.contains(k) implies kb.contains(k) by {
                        let j = ka.index_of(k);
                        assert(ka[j] == k);
                        assert(kb[j] == k);
                    }
                }
            },
        }
        self.entries = entries;
    }
}

} // verus!
