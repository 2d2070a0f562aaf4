//! The computation cache: maps an input fingerprint to a time-bounded
//! cached result with hit counting. Entries persist until overwritten;
//! a stale entry is rejected at lookup, never purged eagerly.
use crate::dtable::clone_bytes;
use crate::dtable::DigestTable;
use vstd::prelude::*;

verus! {

/// One cached computation result.
#[derive(Clone, Debug)]
pub struct CacheEntry {
    /// The stored output payload.
    pub result: Vec<u8>,
    /// When the entry was stored.
    pub timestamp: u64,
    /// How long past `timestamp` the entry may be served.
    pub ttl: u64,
    /// How often the entry has been served, counting the store itself.
    pub hits: u64,
}

/// An entry is servable exactly while `now` lies before
/// `timestamp + ttl`.
pub open spec fn entry_live(e: CacheEntry, now: u64) -> bool {
    now < e.timestamp + e.ttl
}

/// Two entries hold the same cached data, hit counts aside.
pub open spec fn same_entry_data(a: CacheEntry, b: CacheEntry) -> bool {
    a.result@ == b.result@ && a.timestamp == b.timestamp && a.ttl == b.ttl
}

/// Maps input fingerprints to cached results.
pub struct ComputationCache {
    entries: DigestTable<CacheEntry>,
}

impl ComputationCache {
    /// The cache as a map from fingerprint content to entry.
    pub closed spec fn view(&self) -> Map<Seq<u8>, CacheEntry> {
        self.entries@
    }

    pub closed spec fn wf(&self) -> bool {
        self.entries.wf()
    }

    pub fn new() -> (r: ComputationCache)
        ensures
            r.wf(),
            r@ =~= Map::<Seq<u8>, CacheEntry>::empty(),
    {
        ComputationCache { entries: DigestTable::new() }
    }

    /// Serves the entry stored under the fingerprint if one exists and
    /// is unexpired, counting the hit; otherwise returns `None` and
    /// changes nothing. An expired entry is left in place.
    pub fn lookup(&mut self, fingerprint: &Vec<u8>, now: u64) -> (r: Option<CacheEntry>)
        requires
            old(self).wf(),
        ensures
            final(self).wf(),
            match r {
                Some(e) => {
                    &&& old(self)@.contains_key(fingerprint@)
                    &&& entry_live(old(self)@[fingerprint@], now)
                    &&& same_entry_data(e, old(self)@[fingerprint@])
                    &&& e.hits == (if old(self)@[fingerprint@].hits == u64::MAX {
                        u64::MAX
                    } else {
                        (old(self)@[fingerprint@].hits + 1) as u64
                    })
                    &&& final(self)@.dom() =~= old(self)@.dom()
                    &&& same_entry_data(final(self)@[fingerprint@], old(self)@[fingerprint@])
                    &&& final(self)@[fingerprint@].hits == e.hits
                    &&& forall|k: Seq<u8>|
                        old(self)@.contains_key(k) && k != fingerprint@
                            ==> final(self)@[k] == old(self)@[k]
                },
                None => {
                    &&& !(old(self)@.contains_key(fingerprint@)
                        && entry_live(old(self)@[fingerprint@], now))
                    &&& final(self)@ =~= old(self)@
                },
            },
    {
        let found = match self.entries.get(fingerprint) {
            Some(entry) => {
                // Compare in 128-bit space: `timestamp + ttl` may not
                // fit in a u64.
                if (now as u128) < entry.timestamp as u128 + entry.ttl as u128 {
                    Some((clone_bytes(&entry.result), entry.timestamp, entry.ttl, entry.hits))
                } else {
                    None
                }
            },
            None => None,
        };
        match found {
            Some((result, timestamp, ttl, hits)) => {
                let new_hits = hits.saturating_add(1);
                let served = CacheEntry { result: clone_bytes(&result), timestamp, ttl, hits: new_hits };
                let stored = CacheEntry { result, timestamp, ttl, hits: new_hits };
                self.entries.insert(clone_bytes(fingerprint), stored);
                Some(served)
            },
            None => None,
        }
    }

    /// Stores the output under the fingerprint, overwriting whatever
    /// was there, stamping the current time and resetting the hit
    /// counter to one.
    pub fn store(&mut self, fingerprint: Vec<u8>, output: Vec<u8>, ttl: u64, now: u64)
        requires
            old(self).wf(),
        ensures
            final(self).wf(),
            final(self)@.dom() =~= old(self)@.dom().insert(fingerprint@),
            final(self)@[fingerprint@].result@ == output@,
            final(self)@[fingerprint@].timestamp == now,
            final(self)@[fingerprint@].ttl == ttl,
            final(self)@[fingerprint@].hits == 1,
            forall|k: Seq<u8>|
                old(self)@.contains_key(k) && k != fingerprint@
                    ==> final(self)@[k] == old(self)@[k],
    {
        let entry = CacheEntry { result: output, timestamp: now, ttl, hits: 1 };
        self.entries.insert(fingerprint, entry);
    }
}

} // verus!
