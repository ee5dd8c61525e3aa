//! A small association table from tag-name variants to canonical
//! names, with a mathematical `Map` view.  Later insertions win, as
//! they would in a hash map filled in order.
use vstd::prelude::*;

verus! {

/// The map described by an association list, insertions applied left
/// to right, so that a later pair overrides an earlier one with the
/// same key.
pub open spec fn assoc_map(pairs: Seq<(Seq<char>, Seq<char>)>) -> Map<Seq<char>, Seq<char>>
    decreases pairs.len(),
{
    if pairs.len() == 0 {
        Map::empty()
    } else {
        assoc_map(pairs.drop_last()).insert(pairs.last().0, pairs.last().1)
    }
}

/// The keys of `assoc_map` are exactly the first components of the
/// pairs.
pub proof fn lemma_assoc_map_domain(pairs: Seq<(Seq<char>, Seq<char>)>, key: Seq<char>)
    ensures
        assoc_map(pairs).contains_key(key) <==> exists|i: int|
            0 <= i < pairs.len() && pairs[i].0 == key,
    decreases pairs.len(),
{
    if pairs.len() > 0 {
        lemma_assoc_map_domain(pairs.drop_last(), key);
        if pairs.last().0 == key {
            assert(pairs[pairs.len() - 1].0 == key);
        } else if assoc_map(pairs).contains_key(key) {
            let i = choose|i: int| 0 <= i < pairs.drop_last().len() && pairs.drop_last()[i].0
                == key;
            assert(pairs[i].0 == key);
        } else {
            assert(forall|i: int|
                0 <= i < pairs.len() - 1 && pairs[i].0 == key ==> pairs.drop_last()[i].0 == key);
        }
    }
}

/// With pairwise-distinct keys, looking a key up in `assoc_map` gives
/// the value stored beside it.
pub proof fn lemma_assoc_map_get(pairs: Seq<(Seq<char>, Seq<char>)>, i: int)
    requires
        0 <= i < pairs.len(),
        forall|a: int, b: int|
            0 <= a < b < pairs.len() ==> (#[trigger] pairs[a]).0 != (#[trigger] pairs[b]).0,
    ensures
        assoc_map(pairs).contains_key(pairs[i].0),
        assoc_map(pairs)[pairs[i].0] == pairs[i].1,
    decreases pairs.len(),
{
    if i == pairs.len() - 1 {
    } else {
        assert(pairs.drop_last()[i] == pairs[i]);
        lemma_assoc_map_get(pairs.drop_last(), i);
        assert(pairs.last().0 != pairs[i].0);
    }
}

/// A lookup table from tag-name variants to their canonical names.
pub struct AliasTable {
    pairs: Vec<(String, String)>,
}

impl View for AliasTable {
    type V = Map<Seq<char>, Seq<char>>;

    closed spec fn view(&self) -> Map<Seq<char>, Seq<char>> {
        assoc_map(self.pairs.deep_view())
    }
}

impl AliasTable {
    /// The table never stores two entries for one key.
    pub closed spec fn well_formed(&self) -> bool {
        forall|a: int, b: int|
            0 <= a < b < self.pairs.deep_view().len() ==> (#[trigger] self.pairs.deep_view()[a]).0
                != (#[trigger] self.pairs.deep_view()[b]).0
    }

    pub fn new() -> (t: AliasTable)
        ensures
            t.well_formed(),
            t@ == Map::<Seq<char>, Seq<char>>::empty(),
    {
        let t = AliasTable { pairs: Vec::new() };
        proof {
            assert(t.pairs.deep_view() =~= Seq::<(Seq<char>, Seq<char>)>::empty());
        }
        t
    }

    /// How many variants the table maps.
    pub fn len(&self) -> (n: usize)
        requires
            self.well_formed(),
        ensures
            n == self@.dom().len(),
    {
        proof {
            self.lemma_len();
        }
        self.pairs.len()
    }

    proof fn lemma_len(&self)
        requires
            self.well_formed(),
        ensures
            self@.dom().len() == self.pairs.deep_view().len(),
    {
        Self::lemma_assoc_len(self.pairs.deep_view());
    }

    proof fn lemma_assoc_len(pairs: Seq<(Seq<char>, Seq<char>)>)
        requires
            forall|a: int, b: int|
                0 <= a < b < pairs.len() ==> (#[trigger] pairs[a]).0 != (#[trigger] pairs[b]).0,
        ensures
            assoc_map(pairs).dom().len() == pairs.len(),
            assoc_map(pairs).dom().finite(),
        decreases pairs.len(),
    {
        if pairs.len() > 0 {
            let rest = pairs.drop_last();
            assert(forall|a: int, b: int|
                0 <= a < b < rest.len() ==> (#[trigger] rest[a]).0 != (#[trigger] rest[b]).0);
            Self::lemma_assoc_len(rest);
            lemma_assoc_map_domain(rest, pairs.last().0);
            assert(forall|i: int| 0 <= i < rest.len() ==> rest[i] == pairs[i]);
            assert(!assoc_map(rest).contains_key(pairs.last().0));
            assert(assoc_map(pairs).dom() =~= assoc_map(rest).dom().insert(pairs.last().0));
            vstd::set::axiom_set_insert_len(assoc_map(rest).dom(), pairs.last().0);
        } else {
            assert(assoc_map(pairs).dom() =~= Set::<Seq<char>>::empty());
        }
    }

    /// Record that `from` is a variant of `to`, overriding any earlier
    /// entry for `from`.
    pub fn insert(&mut self, from: String, to: String)
        requires
            old(self).well_formed(),
        ensures
            final(self).well_formed(),
            final(self)@ == old(self)@.insert(from@, to@),
    {
        let n: usize = self.pairs.len();
        let mut i: usize = 0;
        while i < n
            invariant
                n == self.pairs.deep_view().len(),
                i <= n,
                self == old(self),
                self.well_formed(),
                forall|k: int| 0 <= k < i ==> (#[trigger] self.pairs.deep_view()[k]).0 != from@,
            decreases n - i,
        {
            if crate::text::string_eq_str(&self.pairs[i].0, from.as_str()) {
                let ghost oldpairs = self.pairs.deep_view();
                self.pairs.set(i, (from, to));
                proof {
                    let updated = self.pairs.deep_view();
                    assert(updated =~= oldpairs.update(i as int, (oldpairs[i as int].0, to@)));
                    assert(forall|a: int|
                        0 <= a < updated.len() ==> (#[trigger] updated[a]).0 == oldpairs[a].0);
                    Self::lemma_assoc_update(oldpairs, i as int, to@);
                }
                return ;
            }
            i = i + 1;
        }
        let ghost oldpairs = self.pairs.deep_view();
        self.pairs.push((from, to));
        proof {
            let updated = self.pairs.deep_view();
            assert(updated =~= oldpairs.push((from@, to@)));
            assert(updated.drop_last() =~= oldpairs);
            assert(forall|a: int| 0 <= a < oldpairs.len() ==> (#[trigger] updated[a]) == oldpairs[a]);
        }
    }

    /// Replacing the pair at `i` with one that keeps its key is, on
    /// the map, an insertion for that key.
    proof fn lemma_assoc_update(pairs: Seq<(Seq<char>, Seq<char>)>, i: int, value: Seq<char>)
        requires
            0 <= i < pairs.len(),
            forall|a: int, b: int|
                0 <= a < b < pairs.len() ==> (#[trigger] pairs[a]).0 != (#[trigger] pairs[b]).0,
        ensures
            assoc_map(pairs.update(i, (pairs[i].0, value))) == assoc_map(pairs).insert(
                pairs[i].0,
                value,
            ),
        decreases pairs.len(),
    {
        let updated = pairs.update(i, (pairs[i].0, value));
        if i == pairs.len() - 1 {
            assert(updated.drop_last() =~= pairs.drop_last());
            assert(assoc_map(updated) =~= assoc_map(pairs).insert(pairs[i].0, value));
        } else {
            let rest = pairs.drop_last();
            assert(forall|a: int, b: int|
                0 <= a < b < rest.len() ==> (#[trigger] rest[a]).0 != (#[trigger] rest[b]).0);
            Self::lemma_assoc_update(rest, i, value);
            assert(updated.drop_last() =~= rest.update(i, (rest[i].0, value)));
            assert(updated.last() == pairs.last());
            assert(pairs.last().0 != pairs[i].0);
            assert(assoc_map(updated) =~= assoc_map(pairs).insert(pairs[i].0, value));
        }
    }

    /// Look a variant up; `None` when the table does not map it.
    pub fn get(&self, key: &String) -> (r: Option<&String>)
        requires
            self.well_formed(),
        ensures
            match r {
                Some(v) => self@.contains_key(key@) && v@ == self@[key@],
                None => !self@.contains_key(key@),
            },
    {
        let n: usize = self.pairs.len();
        let mut i: usize = 0;
        while i < n
            invariant
                self.well_formed(),
                n == self.pairs.deep_view().len(),
                i <= n,
                forall|k: int| 0 <= k < i ==> (#[trigger] self.pairs.deep_view()[k]).0 != key@,
            decreases n - i,
        {
            if crate::text::string_eq_str(&self.pairs[i].0, key.as_str()) {
                proof {
                    lemma_assoc_map_get(self.pairs.deep_view(), i as int);
                }
                return Some(&self.pairs[i].1);
            }
            i = i + 1;
        }
        proof {
            lemma_assoc_map_domain(self.pairs.deep_view(), key@);
        }
        None
    }
}

} // verus!
