use vstd::prelude::*;

verus! {

/// The watch list: package names, each paired with the last version seen.
///
/// The entries keep their insertion order, keys are pairwise distinct, and
/// the abstract view is the map from name to version that forgets the order.
pub struct WatchMap {
    entries: Vec<(String, String)>,
}

/// The map described by a sequence of (name, version) entries.
spec fn map_of(s: Seq<(String, String)>) -> Map<Seq<char>, Seq<char>>
    decreases s.len(),
{
    if s.len() == 0 {
        Map::empty()
    } else {
        map_of(s.drop_last()).insert(s.last().0@, s.last().1@)
    }
}

/// No two entries share a name.
spec fn distinct_keys(s: Seq<(String, String)>) -> bool {
    forall|i: int, j: int| 0 <= i < j < s.len() ==> s[i].0@ != s[j].0@
}

/// Every entry's version string is non-empty.
spec fn nonempty_versions(s: Seq<(String, String)>) -> bool {
    forall|i: int| 0 <= i < s.len() ==> #[trigger] s[i].1@.len() > 0
}

proof fn lemma_map_of_contains(s: Seq<(String, String)>)
    ensures
        forall|k: Seq<char>|
            map_of(s).contains_key(k) <==> exists|i: int| 0 <= i < s.len() && s[i].0@ == k,
    decreases s.len(),
{
    if s.len() > 0 {
        let dl = s.drop_last();
        lemma_map_of_contains(dl);
        assert(map_of(s) == map_of(dl).insert(s.last().0@, s.last().1@));
        assert forall|k: Seq<char>| map_of(s).contains_key(k) implies exists|i: int|
            0 <= i < s.len() && s[i].0@ == k by {
            if k == s.last().0@ {
                assert(s[s.len() - 1].0@ == k);
            } else {
                assert(map_of(dl).contains_key(k));
                let i = choose|i: int| 0 <= i < dl.len() && dl[i].0@ == k;
                assert(dl[i] == s[i]);
                assert(s[i].0@ == k);
            }
        }
        assert forall|k: Seq<char>| (exists|i: int| 0 <= i < s.len() && s[i].0@ == k)
            implies map_of(s).contains_key(k) by {
            let i = choose|i: int| 0 <= i < s.len() && s[i].0@ == k;
            if i < s.len() - 1 {
                assert(dl[i].0@ == k);
                assert(map_of(dl).contains_key(k));
            } else {
                assert(k == s.last().0@);
            }
        }
    }
}

proof fn lemma_map_of_index(s: Seq<(String, String)>, i: int)
    requires
        distinct_keys(s),
        0 <= i < s.len(),
    ensures
        map_of(s).contains_key(s[i].0@),
        map_of(s)[s[i].0@] == s[i].1@,
    decreases s.len(),
{
    if i == s.len() - 1 {
    } else {
        assert(distinct_keys(s.drop_last()));
        lemma_map_of_index(s.drop_last(), i);
        assert(s[i].0@ != s.last().0@);
    }
}

proof fn lemma_map_of_push(s: Seq<(String, String)>, p: (String, String))
    ensures
        map_of(s.push(p)) == map_of(s).insert(p.0@, p.1@),
{
    assert(s.push(p).drop_last() =~= s);
    assert(s.push(p).last() == p);
}

proof fn lemma_map_of_update(s: Seq<(String, String)>, i: int, p: (String, String))
    requires
        distinct_keys(s),
        0 <= i < s.len(),
        s[i].0@ == p.0@,
    ensures
        map_of(s.update(i, p)) =~= map_of(s).insert(p.0@, p.1@),
    decreases s.len(),
{
    let u = s.update(i, p);
    if i == s.len() - 1 {
        assert(u.drop_last() =~= s.drop_last());
        assert(u.last() == p);
        assert(map_of(u) =~= map_of(s).insert(p.0@, p.1@));
    } else {
        assert(distinct_keys(s.drop_last()));
        lemma_map_of_update(s.drop_last(), i, p);
        assert(u.drop_last() =~= s.drop_last().update(i, p));
        assert(u.last() == s.last());
        assert(s[i].0@ != s.last().0@);
        assert(map_of(u) =~= map_of(s).insert(p.0@, p.1@));
    }
}

proof fn lemma_map_of_remove(s: Seq<(String, String)>, i: int)
    requires
        distinct_keys(s),
        0 <= i < s.len(),
    ensures
        map_of(s.remove(i)) =~= map_of(s).remove(s[i].0@),
    decreases s.len(),
{
    let r = s.remove(i);
    let k = s[i].0@;
    if i == s.len() - 1 {
        assert(r =~= s.drop_last());
        lemma_map_of_contains(s.drop_last());
        assert(!map_of(s.drop_last()).contains_key(k));
        assert(map_of(r) =~= map_of(s).remove(k));
    } else {
        assert(distinct_keys(s.drop_last()));
        lemma_map_of_remove(s.drop_last(), i);
        assert(r.drop_last() =~= s.drop_last().remove(i));
        assert(r.last() == s.last());
        assert(k != s.last().0@);
        assert(map_of(r) =~= map_of(s).remove(k));
    }
}

impl WatchMap {
    /// Keys are pairwise distinct, and every stored version is non-empty.
    pub closed spec fn wf(self) -> bool {
        distinct_keys(self.entries@) && nonempty_versions(self.entries@)
    }

    /// The entries in order, as plain character sequences.
    pub closed spec fn pairs(self) -> Seq<(Seq<char>, Seq<char>)> {
        self.entries@.map_values(|p: (String, String)| (p.0@, p.1@))
    }

    pub fn new() -> (r: WatchMap)
        ensures
            r.wf(),
            r@ == Map::<Seq<char>, Seq<char>>::empty(),
            r.pairs() == Seq::<(Seq<char>, Seq<char>)>::empty(),
    {
        let r = WatchMap { entries: Vec::new() };
        proof {
            assert(r.pairs() =~= Seq::<(Seq<char>, Seq<char>)>::empty());
        }
        r
    }

    pub fn len(&self) -> (r: usize)
        ensures
            r == self.pairs().len(),
    {
        self.entries.len()
    }

    pub fn is_empty(&self) -> (r: bool)
        requires
            self.wf(),
        ensures
            r == (self.pairs().len() == 0),
            r == (self@ == Map::<Seq<char>, Seq<char>>::empty()),
    {
        proof {
            if self.entries@.len() > 0 {
                lemma_map_of_index(self.entries@, 0);
            } else {
                assert(self@ =~= Map::<Seq<char>, Seq<char>>::empty());
            }
        }
        self.entries.len() == 0
    }

    pub fn name_at(&self, i: usize) -> (r: String)
        requires
            i < self.pairs().len(),
        ensures
            r@ == self.pairs()[i as int].0,
    {
        self.entries[i].0.clone()
    }

    pub fn version_at(&self, i: usize) -> (r: String)
        requires
            i < self.pairs().len(),
        ensures
            r@ == self.pairs()[i as int].1,
    {
        self.entries[i].1.clone()
    }

    fn index_of(&self, name: &str) -> (r: Option<usize>)
        ensures
            match r {
                Some(i) => i < self.entries@.len() && self.entries@[i as int].0@ == name@,
                None => forall|j: int| 0 <= j < self.entries@.len() ==> self.entries@[j].0@ != name@,
            },
    {
        let mut i: usize = 0;
        while i < self.entries.len()
            invariant
                i <= self.entries@.len(),
                forall|j: int| 0 <= j < i ==> self.entries@[j].0@ != name@,
            decreases self.entries@.len() - i,
        {
            if crate::text::str_eq(self.entries[i].0.as_str(), name) {
                return Some(i);
            }
            i = i + 1;
        }
        None
    }

    pub fn contains(&self, name: &str) -> (r: bool)
        requires
            self.wf(),
        ensures
            r == self@.contains_key(name@),
    {
        proof {
            lemma_map_of_contains(self.entries@);
        }
        match self.index_of(name) {
            Some(_) => true,
            None => false,
        }
    }

    pub fn get(&self, name: &str) -> (r: Option<String>)
        requires
            self.wf(),
        ensures
            r is Some <==> self@.contains_key(name@),
            r is Some ==> r->0@ == self@[name@],
    {
        proof {
            lemma_map_of_contains(self.entries@);
        }
        match self.index_of(name) {
            Some(i) => {
                proof {
                    lemma_map_of_index(self.entries@, i as int);
                }
                Some(self.entries[i].1.clone())
            },
            None => None,
        }
    }

    /// Insert or overwrite one entry. An existing entry keeps its position;
    /// a new entry goes to the end.
    pub fn insert(&mut self, name: &str, version: &str)
        requires
            old(self).wf(),
            version@.len() > 0,
        ensures
            final(self).wf(),
            final(self)@ == old(self)@.insert(name@, version@),
            old(self)@.contains_key(name@) ==> {
                &&& final(self).pairs().len() == old(self).pairs().len()
                &&& forall|j: int|
                    0 <= j < old(self).pairs().len() ==> #[trigger] final(self).pairs()[j] == (
                    if old(self).pairs()[j].0 == name@ {
                        (name@, version@)
                    } else {
                        old(self).pairs()[j]
                    })
            },
            !old(self)@.contains_key(name@) ==> final(self).pairs() == old(self).pairs().push(
                (name@, version@),
            ),
    {
        proof {
            lemma_map_of_contains(self.entries@);
        }
        let pair = (name.to_owned(), version.to_owned());
        match self.index_of(name) {
            Some(i) => {
                proof {
                    lemma_map_of_index(self.entries@, i as int);
                    lemma_map_of_update(self.entries@, i as int, pair);
                }
                self.entries[i] = pair;
                proof {
                    assert(self@ =~= old(self)@.insert(name@, version@));
                    assert forall|j: int| 0 <= j < old(self).pairs().len() implies #[trigger] self
                        .pairs()[j] == (if old(self).pairs()[j].0 == name@ {
                        (name@, version@)
                    } else {
                        old(self).pairs()[j]
                    }) by {
                        if j != i as int {
                            assert(old(self).entries@[j].0@ != old(self).entries@[i as int].0@);
                        }
                    }
                }
            },
            None => {
                proof {
                    lemma_map_of_push(self.entries@, pair);
                }
                self.entries.push(pair);
                proof {
                    assert(self.pairs() =~= old(self).pairs().push((name@, version@)));
                    assert(self@ =~= old(self)@.insert(name@, version@));
                }
            },
        }
    }

    /// Remove one entry; the prior version comes back when the name was there.
    pub fn remove(&mut self, name: &str) -> (r: Option<String>)
        requires
            old(self).wf(),
        ensures
            final(self).wf(),
            old(self)@.contains_key(name@) ==> {
                &&& r is Some
                &&& r->0@ == old(self)@[name@]
                &&& final(self)@ == old(self)@.remove(name@)
                &&& exists|i: int|
                    0 <= i < old(self).pairs().len() && old(self).pairs()[i].0 == name@
                        && final(self).pairs() == old(self).pairs().remove(i)
            },
            !old(self)@.contains_key(name@) ==> {
                &&& r is None
                &&& final(self)@ == old(self)@
                &&& final(self).pairs() == old(self).pairs()
            },
    {
        proof {
            lemma_map_of_contains(self.entries@);
        }
        match self.index_of(name) {
            Some(i) => {
                proof {
                    lemma_map_of_index(self.entries@, i as int);
                    lemma_map_of_remove(self.entries@, i as int);
                }
                let (_, version) = self.entries.remove(i);
                proof {
                    assert(self@ =~= old(self)@.remove(name@));
                    assert(self.pairs() =~= old(self).pairs().remove(i as int));
                    assert(old(self).pairs()[i as int].0 == name@);
                }
                Some(version)
            },
            None => None,
        }
    }
}

/// Law: the ordered entries say exactly what the map says. Every entry
/// pairs a watched name with its stored version, and every watched name
/// stands in exactly the entries that carry its stored version.
pub proof fn lemma_pairs_agree_with_view(m: WatchMap)
    requires
        m.wf(),
    ensures
        forall|j: int|
            0 <= j < m.pairs().len() ==> m@.contains_key(#[trigger] m.pairs()[j].0)
                && m@[m.pairs()[j].0] == m.pairs()[j].1,
        forall|k: Seq<char>|
            m@.contains_key(k) ==> exists|j: int|
                0 <= j < m.pairs().len() && #[trigger] m.pairs()[j] == (k, m@[k]),
{
    assert forall|j: int| 0 <= j < m.pairs().len() implies m@.contains_key(
        #[trigger] m.pairs()[j].0,
    ) && m@[m.pairs()[j].0] == m.pairs()[j].1 by {
        lemma_map_of_index(m.entries@, j);
    }
    assert forall|k: Seq<char>| m@.contains_key(k) implies exists|j: int|
        0 <= j < m.pairs().len() && #[trigger] m.pairs()[j] == (k, m@[k]) by {
        lemma_map_of_contains(m.entries@);
        let i = choose|i: int| 0 <= i < m.entries@.len() && m.entries@[i].0@ == k;
        lemma_map_of_index(m.entries@, i);
        assert(m.pairs()[i] == (k, m@[k]));
    }
}

/// Law: every stored version string is non-empty.
pub proof fn lemma_versions_nonempty(m: WatchMap)
    requires
        m.wf(),
    ensures
        forall|j: int| 0 <= j < m.pairs().len() ==> #[trigger] m.pairs()[j].1.len() > 0,
{
    assert forall|j: int| 0 <= j < m.pairs().len() implies #[trigger] m.pairs()[j].1.len()
        > 0 by {
        assert(m.entries@[j].1@.len() > 0);
    }
}

impl View for WatchMap {
    type V = Map<Seq<char>, Seq<char>>;

    closed spec fn view(&self) -> Map<Seq<char>, Seq<char>> {
        map_of(self.entries@)
    }
}

} // verus!
