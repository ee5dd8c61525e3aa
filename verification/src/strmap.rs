//! A string-keyed association map with a mathematical `Map` view,
//! kept in insertion order with pairwise-distinct keys.  It stands
//! in for a hash map where the contents themselves are reasoned
//! about.
use vstd::prelude::*;

verus! {

/// The map described by an association list, insertions applied
/// left to right.
pub open spec fn assoc_view<T>(pairs: Seq<(Seq<char>, T)>) -> Map<Seq<char>, T>
    decreases pairs.len(),
{
    if pairs.len() == 0 {
        Map::empty()
    } else {
        assoc_view(pairs.drop_last()).insert(pairs.last().0, pairs.last().1)
    }
}

/// The keys of `assoc_view` are exactly the first components.
pub proof fn lemma_assoc_view_domain<T>(pairs: Seq<(Seq<char>, T)>, key: Seq<char>)
    ensures
        assoc_view(pairs).contains_key(key) <==> exists|i: int|
            0 <= i < pairs.len() && (#[trigger] pairs[i]).0 == key,
    decreases pairs.len(),
{
    if pairs.len() > 0 {
        lemma_assoc_view_domain(pairs.drop_last(), key);
        if pairs.last().0 == key {
            assert(pairs[pairs.len() - 1].0 == key);
        } else if assoc_view(pairs).contains_key(key) {
            let i = choose|i: int|
                0 <= i < pairs.drop_last().len() && (#[trigger] pairs.drop_last()[i]).0 == key;
            assert(pairs[i].0 == key);
        } else {
            assert(forall|i: int|
                0 <= i < pairs.len() - 1 && (#[trigger] pairs[i]).0 == key
                    ==> pairs.drop_last()[i].0 == key);
        }
    }
}

/// With distinct keys, the view holds each pair's value at its key.
pub proof fn lemma_assoc_view_get<T>(pairs: Seq<(Seq<char>, T)>, i: int)
    requires
        0 <= i < pairs.len(),
        forall|a: int, b: int|
            0 <= a < b < pairs.len() ==> (#[trigger] pairs[a]).0 != (#[trigger] pairs[b]).0,
    ensures
        assoc_view(pairs).contains_key(pairs[i].0),
        assoc_view(pairs)[pairs[i].0] == pairs[i].1,
    decreases pairs.len(),
{
    if i == pairs.len() - 1 {
    } else {
        assert(pairs.drop_last()[i] == pairs[i]);
        lemma_assoc_view_get(pairs.drop_last(), i);
        assert(pairs.last().0 != pairs[i].0);
    }
}

/// Replacing the pair at `i`, key kept, is an insertion on the view.
proof fn lemma_assoc_view_update<T>(pairs: Seq<(Seq<char>, T)>, i: int, value: T)
    requires
        0 <= i < pairs.len(),
        forall|a: int, b: int|
            0 <= a < b < pairs.len() ==> (#[trigger] pairs[a]).0 != (#[trigger] pairs[b]).0,
    ensures
        assoc_view(pairs.update(i, (pairs[i].0, value))) == assoc_view(pairs).insert(
            pairs[i].0,
            value,
        ),
    decreases pairs.len(),
{
    let updated = pairs.update(i, (pairs[i].0, value));
    if i == pairs.len() - 1 {
        assert(updated.drop_last() =~= pairs.drop_last());
        assert(assoc_view(updated) =~= assoc_view(pairs).insert(pairs[i].0, value));
    } else {
        let rest = pairs.drop_last();
        assert(forall|a: int, b: int|
            0 <= a < b < rest.len() ==> (#[trigger] rest[a]).0 != (#[trigger] rest[b]).0);
        lemma_assoc_view_update(rest, i, value);
        assert(updated.drop_last() =~= rest.update(i, (rest[i].0, value)));
        assert(updated.last() == pairs.last());
        assert(pairs.last().0 != pairs[i].0);
        assert(assoc_view(updated) =~= assoc_view(pairs).insert(pairs[i].0, value));
    }
}

/// Taking the pair at `i` out is, on the map, a removal of its key.
proof fn lemma_assoc_view_remove<T>(pairs: Seq<(Seq<char>, T)>, i: int)
    requires
        0 <= i < pairs.len(),
        forall|a: int, b: int|
            0 <= a < b < pairs.len() ==> (#[trigger] pairs[a]).0 != (#[trigger] pairs[b]).0,
    ensures
        assoc_view(pairs.remove(i)) == assoc_view(pairs).remove(pairs[i].0),
    decreases pairs.len(),
{
    let key = pairs[i].0;
    if i == pairs.len() - 1 {
        assert(pairs.remove(i) =~= pairs.drop_last());
        lemma_assoc_view_domain(pairs.drop_last(), key);
        assert(forall|a: int|
            0 <= a < pairs.len() - 1 ==> (#[trigger] pairs.drop_last()[a]).0 == pairs[a].0);
        assert(!assoc_view(pairs.drop_last()).contains_key(key));
        assert(assoc_view(pairs.remove(i)) =~= assoc_view(pairs).remove(key));
    } else {
        let rest = pairs.drop_last();
        assert(forall|a: int, b: int|
            0 <= a < b < rest.len() ==> (#[trigger] rest[a]).0 != (#[trigger] rest[b]).0);
        lemma_assoc_view_remove(rest, i);
        assert(pairs.remove(i).drop_last() =~= rest.remove(i));
        assert(pairs.remove(i).last() == pairs.last());
        assert(pairs.last().0 != key);
        assert(assoc_view(pairs.remove(i)) =~= assoc_view(pairs).remove(key));
    }
}

/// A string-keyed map, insertion-ordered, with distinct keys.
pub struct StrMap<V> {
    pairs: Vec<(String, V)>,
}

impl<V: DeepView> View for StrMap<V> {
    type V = Map<Seq<char>, <V as DeepView>::V>;

    closed spec fn view(&self) -> Map<Seq<char>, <V as DeepView>::V> {
        assoc_view(self.pairs.deep_view())
    }
}

impl<V: DeepView> StrMap<V> {
    /// The entries, in insertion order.
    pub closed spec fn entries(&self) -> Seq<(Seq<char>, <V as DeepView>::V)> {
        self.pairs.deep_view()
    }

    /// No key is stored twice.
    pub closed spec fn well_formed(&self) -> bool {
        forall|a: int, b: int|
            0 <= a < b < self.pairs.deep_view().len() ==> (#[trigger] self.pairs.deep_view()[a]).0
                != (#[trigger] self.pairs.deep_view()[b]).0
    }

    /// Each entry is found at its key.
    pub proof fn lemma_entry(&self, i: int)
        requires
            self.well_formed(),
            0 <= i < self.entries().len(),
        ensures
            self@.contains_key(self.entries()[i].0),
            self@[self.entries()[i].0] == self.entries()[i].1,
    {
        lemma_assoc_view_get(self.pairs.deep_view(), i);
    }

    /// Every key in the view names an entry.
    pub proof fn lemma_key(&self, key: Seq<char>)
        ensures
            self@.contains_key(key) <==> exists|i: int|
                0 <= i < self.entries().len() && (#[trigger] self.entries()[i]).0 == key,
    {
        lemma_assoc_view_domain(self.pairs.deep_view(), key);
        if self@.contains_key(key) {
            let i = choose|i: int|
                0 <= i < self.pairs.deep_view().len() && (#[trigger] self.pairs.deep_view()[i]).0
                    == key;
            assert(self.entries()[i].0 == key);
        } else {
            assert(forall|i: int|
                0 <= i < self.entries().len() && (#[trigger] self.entries()[i]).0 == key
                    ==> self.pairs.deep_view()[i].0 == key);
        }
    }

    pub fn new() -> (m: StrMap<V>)
        ensures
            m.well_formed(),
            m@ == Map::<Seq<char>, <V as DeepView>::V>::empty(),
            m.entries() == Seq::<(Seq<char>, <V as DeepView>::V)>::empty(),
    {
        let m = StrMap { pairs: Vec::new() };
        proof {
            assert(m.pairs.deep_view() =~= Seq::<(Seq<char>, <V as DeepView>::V)>::empty());
        }
        m
    }

    /// How many entries the map holds.
    pub fn len(&self) -> (n: usize)
        ensures
            n == self.entries().len(),
    {
        self.pairs.len()
    }

    /// The key of the entry at `i`.
    pub fn key_at(&self, i: usize) -> (k: &String)
        requires
            i < self.entries().len(),
        ensures
            k@ == self.entries()[i as int].0,
    {
        proof {
            assert(self.pairs.deep_view()[i as int] == self.pairs@[i as int].deep_view());
        }
        &self.pairs[i].0
    }

    /// The value of the entry at `i`.
    pub fn value_at(&self, i: usize) -> (v: &V)
        requires
            i < self.entries().len(),
        ensures
            v.deep_view() == self.entries()[i as int].1,
    {
        proof {
            assert(self.pairs.deep_view()[i as int] == self.pairs@[i as int].deep_view());
        }
        &self.pairs[i].1
    }

    /// Store `value` under `key`, overriding an earlier entry for
    /// the same key and keeping insertion order otherwise.
    pub fn insert(&mut self, key: String, value: V)
        requires
            old(self).well_formed(),
        ensures
            final(self).well_formed(),
            final(self)@ == old(self)@.insert(key@, value.deep_view()),
    {
        let n: usize = self.pairs.len();
        let mut i: usize = 0;
        while i < n
            invariant
                n == self.pairs.deep_view().len(),
                i <= n,
                self == old(self),
                self.well_formed(),
                forall|k: int| 0 <= k < i ==> (#[trigger] self.pairs.deep_view()[k]).0 != key@,
            decreases n - i,
        {
            proof {
                assert(self.pairs.deep_view()[i as int] == self.pairs@[i as int].deep_view());
            }
            if crate::text::string_eq_str(&self.pairs[i].0, key.as_str()) {
                let ghost oldpairs = self.pairs.deep_view();
                self.pairs.set(i, (key, value));
                proof {
                    let updated = self.pairs.deep_view();
                    assert(updated =~~= oldpairs.update(
                        i as int,
                        (oldpairs[i as int].0, updated[i as int].1),
                    ));
                    assert(forall|a: int|
                        0 <= a < updated.len() ==> (#[trigger] updated[a]).0 == oldpairs[a].0);
                    lemma_assoc_view_update(oldpairs, i as int, updated[i as int].1);
                }
                return ;
            }
            i = i + 1;
        }
        let ghost oldpairs = self.pairs.deep_view();
        let ghost vv = value.deep_view();
        self.pairs.push((key, value));
        proof {
            let updated = self.pairs.deep_view();
            assert(updated =~~= oldpairs.push((updated.last().0, updated.last().1)));
            assert(updated.drop_last() =~= oldpairs);
            assert(forall|a: int|
                0 <= a < oldpairs.len() ==> (#[trigger] updated[a]) == oldpairs[a]);
        }
    }

    /// Look a key up; `None` when the map has no entry for it.
    pub fn get(&self, key: &str) -> (r: Option<&V>)
        requires
            self.well_formed(),
        ensures
            match r {
                Some(v) => self@.contains_key(key@) && v.deep_view() == self@[key@],
                None => !self@.contains_key(key@),
            },
    {
        let n: usize = self.pairs.len();
        let mut i: usize = 0;
        while i < n
            invariant
                self.well_formed(),
                n == self.pairs.deep_view().len(),
                i <= n,
                forall|k: int| 0 <= k < i ==> (#[trigger] self.pairs.deep_view()[k]).0 != key@,
            decreases n - i,
        {
            proof {
                assert(self.pairs.deep_view()[i as int] == self.pairs@[i as int].deep_view());
            }
            if crate::text::string_eq_str(&self.pairs[i].0, key) {
                proof {
                    lemma_assoc_view_get(self.pairs.deep_view(), i as int);
                }
                return Some(&self.pairs[i].1);
            }
            i = i + 1;
        }
        proof {
            lemma_assoc_view_domain(self.pairs.deep_view(), key@);
        }
        None
    }

    /// Take the entry for `key` out, handing its value back.
    pub fn remove(&mut self, key: &str) -> (r: Option<V>)
        requires
            old(self).well_formed(),
        ensures
            final(self).well_formed(),
            match r {
                Some(v) => old(self)@.contains_key(key@) && v.deep_view() == old(self)@[key@]
                    && final(self)@ == old(self)@.remove(key@),
                None => !old(self)@.contains_key(key@) && final(self)@ == old(self)@,
            },
    {
        let n: usize = self.pairs.len();
        let mut i: usize = 0;
        while i < n
            invariant
                n == self.pairs.deep_view().len(),
                i <= n,
                self == old(self),
                self.well_formed(),
                forall|k: int| 0 <= k < i ==> (#[trigger] self.pairs.deep_view()[k]).0 != key@,
            decreases n - i,
        {
            proof {
                assert(self.pairs.deep_view()[i as int] == self.pairs@[i as int].deep_view());
            }
            if crate::text::string_eq_str(&self.pairs[i].0, key) {
                let ghost oldpairs = self.pairs.deep_view();
                proof {
                    lemma_assoc_view_get(oldpairs, i as int);
                }
                let removed = self.pairs.remove(i);
                proof {
                    let updated = self.pairs.deep_view();
                    assert(updated =~~= oldpairs.remove(i as int));
                    assert(forall|a: int|
                        0 <= a < i ==> (#[trigger] updated[a]) == oldpairs[a]);
                    assert(forall|a: int|
                        i <= a < updated.len() ==> (#[trigger] updated[a]) == oldpairs[a + 1]);
                    lemma_assoc_view_remove(oldpairs, i as int);
                }
                return Some(removed.1);
            }
            i = i + 1;
        }
        proof {
            lemma_assoc_view_domain(self.pairs.deep_view(), key@);
        }
        None
    }

    /// Whether the map has an entry for `key`.
    pub fn contains_key(&self, key: &str) -> (r: bool)
        requires
            self.well_formed(),
        ensures
            r == self@.contains_key(key@),
    {
        match self.get(key) {
            Some(_) => true,
            None => false,
        }
    }
}

} // verus!
