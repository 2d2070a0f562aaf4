//! An association table from 64-bit keys to values, viewed in
//! specifications as a `Map<u64, V>`. Entries keep their insertion
//! order; an insert with an existing key overwrites in place.
use vstd::prelude::*;

verus! {

/// The map that a sequence of key/value pairs denotes; later pairs win.
pub open spec fn map_of<V>(s: Seq<(u64, V)>) -> Map<u64, V>
    decreases s.len(),
{
    if s.len() == 0 {
        Map::empty()
    } else {
        map_of(s.drop_last()).insert(s.last().0, s.last().1)
    }
}

/// No key occurs twice in the sequence of pairs.
pub open spec fn keys_unique<V>(s: Seq<(u64, V)>) -> bool {
    forall|i: int, j: int| 0 <= i < j < s.len() ==> s[i].0 != s[j].0
}

pub proof fn lemma_map_of_contains<V>(s: Seq<(u64, V)>, k: u64)
    ensures
        map_of(s).contains_key(k) <==> exists|i: int| 0 <= i < s.len() && s[i].0 == k,
    decreases s.len(),
{
    if s.len() > 0 {
        lemma_map_of_contains(s.drop_last(), k);
        if s.last().0 == k {
            assert(s[s.len() - 1].0 == k);
        } else {
            if map_of(s).contains_key(k) {
                let i = choose|i: int| 0 <= i < s.drop_last().len() && s.drop_last()[i].0 == k;
                assert(s[i].0 == k);
            }
            if exists|i: int| 0 <= i < s.len() && s[i].0 == k {
                let i = choose|i: int| 0 <= i < s.len() && s[i].0 == k;
                assert(s.drop_last()[i].0 == k);
            }
        }
    }
}

pub proof fn lemma_map_of_value<V>(s: Seq<(u64, V)>, k: u64, i: int)
    requires
        keys_unique(s),
        0 <= i < s.len(),
        s[i].0 == k,
    ensures
        map_of(s).contains_key(k),
        map_of(s)[k] == s[i].1,
    decreases s.len(),
{
    if i == s.len() - 1 {
    } else {
        assert(s.last().0 != k);
        assert(s.drop_last()[i] == s[i]);
        lemma_map_of_value(s.drop_last(), k, i);
    }
}

pub proof fn lemma_map_of_update<V>(s: Seq<(u64, V)>, k: u64, v: V, i: int)
    requires
        keys_unique(s),
        0 <= i < s.len(),
        s[i].0 == k,
    ensures
        map_of(s.update(i, (k, v))) =~= map_of(s).insert(k, v),
        keys_unique(s.update(i, (k, v))),
    decreases s.len(),
{
    let s2 = s.update(i, (k, v));
    if i == s.len() - 1 {
        assert(s2.drop_last() =~= s.drop_last());
    } else {
        assert(s.last().0 != k);
        assert(s2.drop_last() =~= s.drop_last().update(i, (k, v)));
        lemma_map_of_update(s.drop_last(), k, v, i);
    }
}

pub proof fn lemma_map_of_push<V>(s: Seq<(u64, V)>, k: u64, v: V)
    requires
        keys_unique(s),
        forall|i: int| 0 <= i < s.len() ==> s[i].0 != k,
    ensures
        map_of(s.push((k, v))) =~= map_of(s).insert(k, v),
        keys_unique(s.push((k, v))),
{
    assert(s.push((k, v)).drop_last() =~= s);
}

/// An insertion-ordered table with 64-bit keys.
pub struct Table<V> {
    pairs: Vec<(u64, V)>,
}

impl<V> Table<V> {
    /// The table as a mathematical map.
    pub closed spec fn view(&self) -> Map<u64, V> {
        map_of(self.pairs@)
    }

    /// Internal invariant: keys are unique, so in-place overwrites
    /// denote map insertion.
    pub closed spec fn wf(&self) -> bool {
        keys_unique(self.pairs@)
    }

    pub fn new() -> (r: Table<V>)
        ensures
            r.wf(),
            r@ =~= Map::<u64, V>::empty(),
    {
        Table { pairs: Vec::new() }
    }

    /// Looks the key up; `Some` holds exactly the mapped value.
    pub fn get(&self, k: u64) -> (r: Option<&V>)
        requires
            self.wf(),
        ensures
            match r {
                Some(v) => self@.contains_key(k) && *v == self@[k],
                None => !self@.contains_key(k),
            },
    {
        let n = self.pairs.len();
        let mut i: usize = 0;
        while i < n
            invariant
                n == self.pairs@.len(),
                keys_unique(self.pairs@),
                forall|j: int| 0 <= j < i ==> self.pairs@[j].0 != k,
            decreases n - i,
        {
            if self.pairs[i].0 == k {
                proof {
                    lemma_map_of_value(self.pairs@, k, i as int);
                }
                return Some(&self.pairs[i].1);
            }
            i += 1;
        }
        proof {
            lemma_map_of_contains(self.pairs@, k);
        }
        None
    }

    /// Binds the key to the value, overwriting any previous binding.
    pub fn insert(&mut self, k: u64, v: V)
        requires
            old(self).wf(),
        ensures
            final(self).wf(),
            final(self)@ =~= old(self)@.insert(k, v),
    {
        let n = self.pairs.len();
        let mut i: usize = 0;
        while i < n
            invariant
                n == self.pairs@.len(),
                keys_unique(self.pairs@),
                self.pairs@ == old(self).pairs@,
                forall|j: int| 0 <= j < i ==> self.pairs@[j].0 != k,
            decreases n - i,
        {
            if self.pairs[i].0 == k {
                proof {
                    lemma_map_of_update(self.pairs@, k, v, i as int);
                }
                self.pairs[i] = (k, v);
                return;
            }
            i += 1;
        }
        proof {
            lemma_map_of_push(self.pairs@, k, v);
        }
        self.pairs.push((k, v));
    }
}

} // verus!
