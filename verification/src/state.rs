use vstd::prelude::*;

verus! {

/// The mapping that a list of `(name, value)` entries denotes: a later
/// entry for the same name wins.
pub open spec fn entries_map<T>(s: Seq<(String, T)>) -> Map<Seq<char>, T>
    decreases s.len(),
{
    if s.len() == 0 {
        Map::empty()
    } else {
        entries_map(s.drop_last()).insert(s.last().0@, s.last().1)
    }
}

pub open spec fn entries_unique<T>(s: Seq<(String, T)>) -> bool {
    forall|i: int, j: int| 0 <= i < j < s.len() ==> s[i].0@ != s[j].0@
}

proof fn lemma_entries_map_absent<T>(s: Seq<(String, T)>, k: Seq<char>)
    requires
        forall|i: int| 0 <= i < s.len() ==> s[i].0@ != k,
    ensures
        !entries_map(s).dom().contains(k),
    decreases s.len(),
{
    if s.len() > 0 {
        lemma_entries_map_absent(s.drop_last(), k);
    }
}

proof fn lemma_entries_map_remove<T>(s: Seq<(String, T)>, i: int, k: Seq<char>)
    requires
        entries_unique(s),
        0 <= i < s.len(),
        s[i].0@ == k,
    ensures
        entries_map(s.remove(i)) =~= entries_map(s).remove(k),
    decreases s.len(),
{
    if i == s.len() - 1 {
        assert(s.remove(i) =~= s.drop_last());
        assert(forall|j: int| 0 <= j < s.drop_last().len() ==> s.drop_last()[j].0@ != k);
        lemma_entries_map_absent(s.drop_last(), k);
        assert(entries_map(s.drop_last()) =~= entries_map(s).remove(k));
    } else {
        let dl = s.drop_last();
        assert(s.remove(i).drop_last() =~= dl.remove(i));
        assert(s.remove(i).last() == s.last());
        lemma_entries_map_remove(dl, i, k);
        assert(entries_map(s.remove(i)) =~= entries_map(dl.remove(i)).insert(
            s.last().0@,
            s.last().1,
        ));
        assert(s.last().0@ != k);
        assert(entries_map(dl).remove(k).insert(s.last().0@, s.last().1) =~= entries_map(
            dl,
        ).insert(s.last().0@, s.last().1).remove(k));
    }
}

proof fn lemma_entries_map_update<T>(s: Seq<(String, T)>, i: int, p: (String, T))
    requires
        entries_unique(s),
        0 <= i < s.len(),
        s[i].0@ == p.0@,
    ensures
        entries_map(s.update(i, p)) =~= entries_map(s).insert(p.0@, p.1),
    decreases s.len(),
{
    if i == s.len() - 1 {
        assert(s.update(i, p).drop_last() =~= s.drop_last());
        assert(s.update(i, p).last() == p);
        assert(entries_map(s.drop_last()).insert(p.0@, p.1) =~= entries_map(s).insert(
            p.0@,
            p.1,
        ));
    } else {
        let dl = s.drop_last();
        assert(s.update(i, p).drop_last() =~= dl.update(i, p));
        assert(s.update(i, p).last() == s.last());
        lemma_entries_map_update(dl, i, p);
        assert(s.last().0@ != p.0@);
        assert(entries_map(dl).insert(p.0@, p.1).insert(s.last().0@, s.last().1) =~= entries_map(
            dl,
        ).insert(s.last().0@, s.last().1).insert(p.0@, p.1));
        assert(entries_map(s.update(i, p)) =~= entries_map(dl.update(i, p)).insert(
            s.last().0@,
            s.last().1,
        ));
    }
}

/// A name-to-value table with unique names, the shape in which the shared
/// shell state keeps variables and aliases.  Its meaning is the mapping
/// from each entry's name to its value.
#[derive(Debug, Clone)]
pub struct StrMap<T> {
    entries: Vec<(String, T)>,
}

impl<T> StrMap<T> {
    /// The entries as listed, oldest binding first.
    pub closed spec fn entries_seq(&self) -> Seq<(String, T)> {
        self.entries@
    }

    pub open spec fn view(&self) -> Map<Seq<char>, T> {
        entries_map(self.entries_seq())
    }

    pub open spec fn wf(&self) -> bool {
        entries_unique(self.entries_seq())
    }

    pub fn new() -> (r: StrMap<T>)
        ensures
            r.wf(),
            r@ =~= Map::<Seq<char>, T>::empty(),
            r.entries_seq() == Seq::<(String, T)>::empty(),
    {
        StrMap { entries: Vec::new() }
    }

    /// The value bound to `name`, if any.
    pub fn get(&self, name: &String) -> (r: Option<&T>)
        ensures
            match r {
                Some(v) => self@.dom().contains(name@) && self@[name@] == *v,
                None => !self@.dom().contains(name@),
            },
    {
        let n = self.entries.len();
        let mut k: usize = n;
        proof {
            assert(self.entries@.take(n as int) =~= self.entries@);
        }
        loop
            invariant
                k <= n,
                n == self.entries@.len(),
                entries_map(self.entries@).dom().contains(name@) == entries_map(
                    self.entries@.take(k as int),
                ).dom().contains(name@),
                entries_map(self.entries@).dom().contains(name@) ==> entries_map(
                    self.entries@.take(k as int),
                )[name@] == entries_map(self.entries@)[name@],
            decreases k,
        {
            if k == 0 {
                proof {
                    assert(self.entries@.take(0) =~= Seq::<(String, T)>::empty());
                }
                return None;
            }
            let ghost pre = self.entries@.take(k as int);
            proof {
                assert(pre.drop_last() =~= self.entries@.take(k - 1));
                assert(pre.last() == self.entries@[k - 1]);
                assert(entries_map(pre) == entries_map(self.entries@.take(k - 1)).insert(
                    self.entries@[k - 1].0@,
                    self.entries@[k - 1].1,
                ));
            }
            if self.entries[k - 1].0 == *name {
                return Some(&self.entries[k - 1].1);
            }
            k = k - 1;
        }
    }

    /// Drops the binding of `name`, telling whether there was one.
    pub fn remove(&mut self, name: &String) -> (r: bool)
        requires
            old(self).wf(),
        ensures
            final(self).wf(),
            final(self)@ =~= old(self)@.remove(name@),
            r == old(self)@.dom().contains(name@),
    {
        let n = self.entries.len();
        let mut k: usize = 0;
        while k < n
            invariant
                k <= n,
                n == self.entries@.len(),
                self == old(self),
                old(self).wf(),
                forall|j: int| 0 <= j < k ==> self.entries@[j].0@ != name@,
            decreases n - k,
        {
            if self.entries[k].0 == *name {
                proof {
                    lemma_entries_map_remove(self.entries@, k as int, name@);
                    lemma_entries_map_contains(self.entries@, k as int);
                }
                let ghost se0 = self.entries@;
                let _ = self.entries.remove(k);
                proof {
                    let se = self.entries@;
                    assert(se == se0.remove(k as int));
                    assert(forall|a: int, b: int|
                        0 <= a < b < se.len() ==> se[a].0@ != se[b].0@) by {
                        assert(forall|a: int|
                            0 <= a < se.len() ==> se[a] == (if a < k {
                                se0[a]
                            } else {
                                se0[a + 1]
                            }));
                    }
                }
                return true;
            }
            k = k + 1;
        }
        proof {
            lemma_entries_map_absent(self.entries@, name@);
            assert(self@ =~= old(self)@.remove(name@));
        }
        false
    }

    /// Binds `name` to `value`, replacing any earlier binding in place:
    /// a name already bound keeps its position in the listing; a new one
    /// goes to the end.
    pub fn insert(&mut self, name: String, value: T)
        requires
            old(self).wf(),
        ensures
            final(self).wf(),
            final(self)@ =~= old(self)@.insert(name@, value),
            old(self)@.dom().contains(name@) ==> exists|i: int|
                0 <= i < old(self).entries_seq().len() && (#[trigger] old(
                    self,
                ).entries_seq()[i]).0@ == name@ && final (self).entries_seq() == old(
                    self,
                ).entries_seq().update(i, (name, value)),
            !old(self)@.dom().contains(name@) ==> final (self).entries_seq() == old(
                self,
            ).entries_seq().push((name, value)),
    {
        let n = self.entries.len();
        let mut k: usize = 0;
        while k < n
            invariant
                k <= n,
                n == self.entries@.len(),
                self == old(self),
                old(self).wf(),
                forall|j: int| 0 <= j < k ==> self.entries@[j].0@ != name@,
            decreases n - k,
        {
            if self.entries[k].0 == name {
                let ghost se0 = self.entries@;
                proof {
                    lemma_entries_map_contains(se0, k as int);
                    lemma_entries_map_update(se0, k as int, (name, value));
                }
                let _ = self.entries.remove(k);
                self.entries.insert(k, (name, value));
                proof {
                    assert(self.entries@ =~= se0.update(k as int, (name, value)));
                    let se = self.entries@;
                    assert(forall|a: int, b: int|
                        0 <= a < b < se.len() ==> se[a].0@ != se[b].0@) by {
                        assert(forall|a: int|
                            0 <= a < se.len() ==> (#[trigger] se[a]).0@ == se0[a].0@);
                    }
                }
                return ;
            }
            k = k + 1;
        }
        let ghost mide = self.entries@;
        proof {
            lemma_entries_map_absent(mide, name@);
        }
        self.entries.push((name, value));
        proof {
            assert(self.entries@.drop_last() =~= mide);
            assert(self@ =~= entries_map(mide).insert(
                self.entries@.last().0@,
                self.entries@.last().1,
            ));
        }
    }

    /// Drops every binding.
    pub fn clear(&mut self)
        ensures
            final(self).wf(),
            final(self)@ =~= Map::<Seq<char>, T>::empty(),
            final(self).entries_seq() == Seq::<(String, T)>::empty(),
    {
        self.entries = Vec::new();
    }

    /// The entries, for listing them in order.
    pub fn list(&self) -> (r: &Vec<(String, T)>)
        ensures
            r@ == self.entries_seq(),
    {
        &self.entries
    }

    pub fn is_empty(&self) -> (r: bool)
        ensures
            r == (self.entries_seq().len() == 0),
    {
        self.entries.len() == 0
    }
}

proof fn lemma_entries_map_contains<T>(s: Seq<(String, T)>, j: int)
    requires
        0 <= j < s.len(),
    ensures
        entries_map(s).dom().contains(s[j].0@),
    decreases s.len(),
{
    if j < s.len() - 1 {
        lemma_entries_map_contains(s.drop_last(), j);
    }
}

} // verus!
