//! An association table from byte-string keys (256-bit digests) to
//! values, viewed in specifications as a `Map<Seq<u8>, V>`. Entries
//! keep their insertion order; an insert with an existing key
//! overwrites in place.
use vstd::prelude::*;

verus! {

use vstd::std_specs::cmp::PartialEqSpec;

/// The map that a sequence of key/value pairs denotes; later pairs win.
pub open spec fn dmap_of<V>(s: Seq<(Vec<u8>, V)>) -> Map<Seq<u8>, V>
    decreases s.len(),
{
    if s.len() == 0 {
        Map::empty()
    } else {
        dmap_of(s.drop_last()).insert(s.last().0@, s.last().1)
    }
}

/// No key occurs twice in the sequence of pairs.
pub open spec fn dkeys_unique<V>(s: Seq<(Vec<u8>, V)>) -> bool {
    forall|i: int, j: int| 0 <= i < j < s.len() ==> s[i].0@ != s[j].0@
}

pub proof fn lemma_dmap_of_contains<V>(s: Seq<(Vec<u8>, V)>, k: Seq<u8>)
    ensures
        dmap_of(s).contains_key(k) <==> exists|i: int| 0 <= i < s.len() && s[i].0@ == k,
    decreases s.len(),
{
    if s.len() > 0 {
        lemma_dmap_of_contains(s.drop_last(), k);
        if s.last().0@ == k {
            assert(s[s.len() - 1].0@ == k);
        } else {
            if dmap_of(s).contains_key(k) {
                let i = choose|i: int| 0 <= i < s.drop_last().len() && s.drop_last()[i].0@ == k;
                assert(s[i].0@ == k);
            }
            if exists|i: int| 0 <= i < s.len() && s[i].0@ == k {
                let i = choose|i: int| 0 <= i < s.len() && s[i].0@ == k;
                assert(s.drop_last()[i].0@ == k);
            }
        }
    }
}

pub proof fn lemma_dmap_of_value<V>(s: Seq<(Vec<u8>, V)>, k: Seq<u8>, i: int)
    requires
        dkeys_unique(s),
        0 <= i < s.len(),
        s[i].0@ == k,
    ensures
        dmap_of(s).contains_key(k),
        dmap_of(s)[k] == s[i].1,
    decreases s.len(),
{
    if i == s.len() - 1 {
    } else {
        assert(s.last().0@ != k);
        assert(s.drop_last()[i] == s[i]);
        lemma_dmap_of_value(s.drop_last(), k, i);
    }
}

pub proof fn lemma_dmap_of_update<V>(s: Seq<(Vec<u8>, V)>, k: Vec<u8>, v: V, i: int)
    requires
        dkeys_unique(s),
        0 <= i < s.len(),
        s[i].0@ == k@,
    ensures
        dmap_of(s.update(i, (k, v))) =~= dmap_of(s).insert(k@, v),
        dkeys_unique(s.update(i, (k, v))),
    decreases s.len(),
{
    let s2 = s.update(i, (k, v));
    if i == s.len() - 1 {
        assert(s2.drop_last() =~= s.drop_last());
    } else {
        assert(s.last().0@ != k@);
        assert(s2.drop_last() =~= s.drop_last().update(i, (k, v)));
        lemma_dmap_of_update(s.drop_last(), k, v, i);
    }
}

pub proof fn lemma_dmap_of_push<V>(s: Seq<(Vec<u8>, V)>, k: Vec<u8>, v: V)
    requires
        dkeys_unique(s),
        forall|i: int| 0 <= i < s.len() ==> s[i].0@ != k@,
    ensures
        dmap_of(s.push((k, v))) =~= dmap_of(s).insert(k@, v),
        dkeys_unique(s.push((k, v))),
{
    assert(s.push((k, v)).drop_last() =~= s);
}

/// Compares two byte strings by content.
pub fn bytes_eq(a: &Vec<u8>, b: &Vec<u8>) -> (r: bool)
    ensures
        r <==> a@ == b@,
{
    let r = a == b;
    proof {
        if r {
            assert(a@ =~= b@);
        } else {
            if a@ == b@ {
                assert(a.eq_spec(b));
            }
        }
    }
    r
}

/// Copies a byte string; the copy has the same content.
pub fn clone_bytes(v: &Vec<u8>) -> (r: Vec<u8>)
    ensures
        r@ == v@,
{
    let r = v.clone();
    proof {
        assert(r@ =~= v@);
    }
    r
}

/// An insertion-ordered table with byte-string keys.
pub struct DigestTable<V> {
    pairs: Vec<(Vec<u8>, V)>,
}

impl<V> DigestTable<V> {
    /// The table as a mathematical map keyed by key content.
    pub closed spec fn view(&self) -> Map<Seq<u8>, V> {
        dmap_of(self.pairs@)
    }

    /// Internal invariant: key contents are unique, so in-place
    /// overwrites denote map insertion.
    pub closed spec fn wf(&self) -> bool {
        dkeys_unique(self.pairs@)
    }

    pub fn new() -> (r: DigestTable<V>)
        ensures
            r.wf(),
            r@ =~= Map::<Seq<u8>, V>::empty(),
    {
        DigestTable { pairs: Vec::new() }
    }

    /// Looks the key up; `Some` holds exactly the mapped value.
    pub fn get(&self, k: &Vec<u8>) -> (r: Option<&V>)
        requires
            self.wf(),
        ensures
            match r {
                Some(v) => self@.contains_key(k@) && *v == self@[k@],
                None => !self@.contains_key(k@),
            },
    {
        let n = self.pairs.len();
        let mut i: usize = 0;
        while i < n
            invariant
                n == self.pairs@.len(),
                dkeys_unique(self.pairs@),
                forall|j: int| 0 <= j < i ==> self.pairs@[j].0@ != k@,
            decreases n - i,
        {
            if bytes_eq(&self.pairs[i].0, k) {
                proof {
                    lemma_dmap_of_value(self.pairs@, k@, i as int);
                }
                return Some(&self.pairs[i].1);
            }
            i += 1;
        }
        proof {
            lemma_dmap_of_contains(self.pairs@, k@);
        }
        None
    }

    /// Binds the key to the value, overwriting any previous binding.
    pub fn insert(&mut self, k: Vec<u8>, v: V)
        requires
            old(self).wf(),
        ensures
            final(self).wf(),
            final(self)@ =~= old(self)@.insert(k@, v),
    {
        let n = self.pairs.len();
        let mut i: usize = 0;
        while i < n
            invariant
                n == self.pairs@.len(),
                dkeys_unique(self.pairs@),
                self.pairs@ == old(self).pairs@,
                forall|j: int| 0 <= j < i ==> self.pairs@[j].0@ != k@,
            decreases n - i,
        {
            if bytes_eq(&self.pairs[i].0, &k) {
                proof {
                    lemma_dmap_of_update(self.pairs@, k, v, i as int);
                }
                self.pairs[i] = (k, v);
                return;
            }
            i += 1;
        }
        proof {
            lemma_dmap_of_push(self.pairs@, k, v);
        }
        self.pairs.push((k, v));
    }
}

} // verus!
