//! The processor directory: known off-chain processors with their
//! capacity, reputation and activity flag, and the scoring algorithm
//! that picks the best active one.
use crate::BrokerError;
use vstd::prelude::*;

verus! {

/// A processor's reputation starts here and is reduced by disputes.
pub const STARTING_REPUTATION: u64 = 100;

/// A processor whose reputation falls below this floor is deactivated.
pub const REPUTATION_FLOOR: u64 = 50;

/// One registered off-chain processor.
#[derive(Clone, Copy, Debug, PartialEq, Eq, Structural)]
pub struct ProcessorInfo {
    /// The processor's identity.
    pub address: u64,
    /// Advertised compute capacity.
    pub compute_power: u64,
    /// Current reputation; penalized on valid disputes.
    pub reputation: u64,
    /// Lifetime count of completed submissions.
    pub total_processed: u64,
    /// Success-rate estimate, in percent.
    pub success_rate: u64,
    /// Only an active processor can be selected.
    pub is_active: bool,
}

/// The entry that `register` stores: full starting reputation and
/// success rate, nothing processed yet, active.
pub open spec fn fresh_processor(identity: u64, compute_power: u64) -> ProcessorInfo {
    ProcessorInfo {
        address: identity,
        compute_power,
        reputation: STARTING_REPUTATION,
        total_processed: 0,
        success_rate: STARTING_REPUTATION,
        is_active: true,
    }
}

/// The selection score: compute power weighs double, reputation and
/// success rate add linearly.
pub open spec fn score_of(p: ProcessorInfo) -> int {
    2 * p.compute_power + p.reputation + p.success_rate
}

/// The index of the processor that `select_best` picks from the first
/// `s.len()` entries: the first active entry with the highest score.
/// A later entry displaces an earlier one only with a strictly higher
/// score, so ties go to the earliest-registered processor.
pub open spec fn best_idx(s: Seq<ProcessorInfo>) -> Option<int>
    decreases s.len(),
{
    if s.len() == 0 {
        None
    } else {
        let l = s.len() - 1;
        let prefix = best_idx(s.drop_last());
        if !s[l].is_active {
            prefix
        } else {
            match prefix {
                None => Some(l),
                Some(b) => if score_of(s[l]) > score_of(s[b]) {
                    Some(l)
                } else {
                    Some(b)
                },
            }
        }
    }
}

/// What `best_idx` picks: an active entry whose score no other active
/// entry exceeds, and which no earlier active entry matches — the
/// deterministic first-maximum tie-break. `None` exactly when no entry
/// is active.
pub proof fn lemma_best_idx_is_first_max(s: Seq<ProcessorInfo>)
    ensures
        best_idx(s) is None <==> (forall|j: int| 0 <= j < s.len() ==> !s[j].is_active),
        best_idx(s) matches Some(b) ==> {
            &&& 0 <= b < s.len()
            &&& s[b].is_active
            &&& forall|j: int|
                0 <= j < s.len() && s[j].is_active ==> score_of(s[j]) <= score_of(s[b])
            &&& forall|j: int|
                0 <= j < b && s[j].is_active ==> score_of(s[j]) < score_of(s[b])
        },
    decreases s.len(),
{
    if s.len() > 0 {
        lemma_best_idx_is_first_max(s.drop_last());
        assert(forall|j: int| 0 <= j < s.len() - 1 ==> s.drop_last()[j] == s[j]);
    }
}

/// Law: a penalty reduces reputation without underflow and deactivates
/// the processor exactly when the reduced reputation lies strictly
/// below the floor — a processor left at exactly the floor stays
/// active, one point lower it does not.
pub proof fn lemma_penalty_deactivation_boundary(p: ProcessorInfo, amount: u64)
    ensures
        ProcessorDirectory::penalized(p, amount).reputation == (if p.reputation >= amount {
            p.reputation - amount
        } else {
            0int
        }),
        ProcessorDirectory::penalized(p, amount).is_active <==> (p.is_active
            && ProcessorDirectory::penalized(p, amount).reputation >= REPUTATION_FLOOR),
{
}

/// Tracks the known processors in registration order.
pub struct ProcessorDirectory {
    procs: Vec<ProcessorInfo>,
}

impl ProcessorDirectory {
    /// The directory as the sequence of entries in registration order.
    pub closed spec fn view(&self) -> Seq<ProcessorInfo> {
        self.procs@
    }

    /// Identities are unique, so an entry is addressed by its identity.
    pub closed spec fn wf(&self) -> bool {
        forall|i: int, j: int|
            0 <= i < j < self.procs@.len() ==> self.procs@[i].address != self.procs@[j].address
    }

    pub fn new() -> (r: ProcessorDirectory)
        ensures
            r.wf(),
            r@ =~= Seq::<ProcessorInfo>::empty(),
    {
        ProcessorDirectory { procs: Vec::new() }
    }

    /// Whether some entry carries the identity.
    pub open spec fn has_proc(s: Seq<ProcessorInfo>, identity: u64) -> bool {
        exists|i: int| 0 <= i < s.len() && s[i].address == identity
    }

    /// The position of the identity's entry; meaningful only while
    /// `has_proc` holds, and unique while identities are unique.
    pub open spec fn index_of(s: Seq<ProcessorInfo>, identity: u64) -> int {
        choose|i: int| 0 <= i < s.len() && s[i].address == identity
    }

    /// Creates or replaces the identity's entry with a fresh one.
    pub fn register(&mut self, identity: u64, compute_power: u64)
        requires
            old(self).wf(),
        ensures
            final(self).wf(),
            final(self)@ =~= (if Self::has_proc(old(self)@, identity) {
                old(self)@.update(
                    Self::index_of(old(self)@, identity),
                    fresh_processor(identity, compute_power),
                )
            } else {
                old(self)@.push(fresh_processor(identity, compute_power))
            }),
    {
        let entry = ProcessorInfo {
            address: identity,
            compute_power,
            reputation: STARTING_REPUTATION,
            total_processed: 0,
            success_rate: STARTING_REPUTATION,
            is_active: true,
        };
        let n = self.procs.len();
        let mut i: usize = 0;
        while i < n
            invariant
                n == self.procs@.len(),
                self.procs@ == old(self).procs@,
                old(self).wf(),
                entry == fresh_processor(identity, compute_power),
                forall|j: int| 0 <= j < i ==> self.procs@[j].address != identity,
            decreases n - i,
        {
            if self.procs[i].address == identity {
                proof {
                    assert(Self::has_proc(self.procs@, identity));
                    let ci = Self::index_of(self.procs@, identity);
                    assert(self.procs@[ci].address == identity);
                    assert(ci == i as int);
                }
                self.procs[i] = entry;
                return;
            }
            i += 1;
        }
        assert(!Self::has_proc(self.procs@, identity));
        self.procs.push(entry);
    }

    /// Picks the active processor with the highest score; ties go to
    /// the earliest-registered one. Fails with `NoProcessorsAvailable`
    /// exactly when no active processor exists.
    /// Whether some active processor exists, so that a delegation can
    /// be assigned.
    pub fn has_active_processor(&self) -> (r: bool)
        requires
            self.wf(),
        ensures
            r == (best_idx(self@) is Some),
    {
        match self.select_best() {
            Ok(_) => true,
            Err(_) => false,
        }
    }

    pub fn select_best(&self) -> (r: Result<u64, BrokerError>)
        requires
            self.wf(),
        ensures
            match best_idx(self@) {
                Some(b) => r == Ok::<u64, BrokerError>(self@[b].address),
                None => r == Err::<u64, BrokerError>(BrokerError::NoProcessorsAvailable),
            },
    {
        let n = self.procs.len();
        let mut best: Option<usize> = None;
        let mut i: usize = 0;
        while i < n
            invariant
                n == self.procs@.len(),
                match best {
                    Some(b) => b < i <= n && best_idx(self.procs@.take(i as int)) == Some(b as int),
                    None => i <= n && best_idx(self.procs@.take(i as int)) is None,
                },
            decreases n - i,
        {
            let p = &self.procs[i];
            proof {
                assert(self.procs@.take(i + 1).drop_last() =~= self.procs@.take(i as int));
                assert(self.procs@.take(i + 1).last() == self.procs@[i as int]);
            }
            if p.is_active {
                let new_score = score_u128(p);
                match best {
                    None => {
                        best = Some(i);
                    },
                    Some(b) => {
                        let old_score = score_u128(&self.procs[b]);
                        if new_score > old_score {
                            best = Some(i);
                        }
                    },
                }
            }
            i += 1;
        }
        proof {
            assert(self.procs@.take(n as int) =~= self.procs@);
        }
        match best {
            Some(b) => Ok(self.procs[b].address),
            None => Err(BrokerError::NoProcessorsAvailable),
        }
    }

    /// Looks the identity's entry up.
    pub fn get_processor(&self, identity: u64) -> (r: Option<&ProcessorInfo>)
        requires
            self.wf(),
        ensures
            match r {
                Some(p) => Self::has_proc(self@, identity) && *p == self@[Self::index_of(
                    self@,
                    identity,
                )],
                None => !Self::has_proc(self@, identity),
            },
    {
        let n = self.procs.len();
        let mut i: usize = 0;
        while i < n
            invariant
                n == self.procs@.len(),
                self.wf(),
                forall|j: int| 0 <= j < i ==> self.procs@[j].address != identity,
            decreases n - i,
        {
            if self.procs[i].address == identity {
                proof {
                    assert(Self::has_proc(self.procs@, identity));
                    let ci = Self::index_of(self.procs@, identity);
                    assert(self.procs@[ci].address == identity);
                    assert(ci == i as int);
                }
                return Some(&self.procs[i]);
            }
            i += 1;
        }
        assert(!Self::has_proc(self.procs@, identity));
        None
    }

    /// The entry after a penalty of `amount`: reputation is reduced
    /// without underflowing, and the processor is deactivated exactly
    /// when the reduced reputation falls below the floor.
    pub open spec fn penalized(p: ProcessorInfo, amount: u64) -> ProcessorInfo {
        let rep = if p.reputation >= amount {
            (p.reputation - amount) as u64
        } else {
            0u64
        };
        ProcessorInfo {
            reputation: rep,
            is_active: if rep < REPUTATION_FLOOR {
                false
            } else {
                p.is_active
            },
            ..p
        }
    }

    /// Applies a reputation penalty to the identity's entry; unknown
    /// identities are ignored.
    pub fn penalize(&mut self, identity: u64, amount: u64)
        requires
            old(self).wf(),
        ensures
            final(self).wf(),
            final(self)@ =~= (if Self::has_proc(old(self)@, identity) {
                old(self)@.update(
                    Self::index_of(old(self)@, identity),
                    Self::penalized(old(self)@[Self::index_of(old(self)@, identity)], amount),
                )
            } else {
                old(self)@
            }),
    {
        let n = self.procs.len();
        let mut i: usize = 0;
        while i < n
            invariant
                n == self.procs@.len(),
                self.procs@ == old(self).procs@,
                old(self).wf(),
                forall|j: int| 0 <= j < i ==> self.procs@[j].address != identity,
            decreases n - i,
        {
            if self.procs[i].address == identity {
                proof {
                    assert(Self::has_proc(self.procs@, identity));
                    let ci = Self::index_of(self.procs@, identity);
                    assert(self.procs@[ci].address == identity);
                    assert(ci == i as int);
                }
                let p = self.procs[i];
                let rep = p.reputation.saturating_sub(amount);
                let active = if rep < REPUTATION_FLOOR {
                    false
                } else {
                    p.is_active
                };
                self.procs[i] = ProcessorInfo { reputation: rep, is_active: active, ..p };
                return;
            }
            i += 1;
        }
        assert(!Self::has_proc(self.procs@, identity));
    }

    /// Counts one completed submission for the identity's entry;
    /// unknown identities are ignored.
    pub fn record_completion(&mut self, identity: u64)
        requires
            old(self).wf(),
        ensures
            final(self).wf(),
            final(self)@ =~= (if Self::has_proc(old(self)@, identity) {
                old(self)@.update(
                    Self::index_of(old(self)@, identity),
                    Self::completed(old(self)@[Self::index_of(old(self)@, identity)]),
                )
            } else {
                old(self)@
            }),
    {
        let n = self.procs.len();
        let mut i: usize = 0;
        while i < n
            invariant
                n == self.procs@.len(),
                self.procs@ == old(self).procs@,
                old(self).wf(),
                forall|j: int| 0 <= j < i ==> self.procs@[j].address != identity,
            decreases n - i,
        {
            if self.procs[i].address == identity {
                proof {
                    assert(Self::has_proc(self.procs@, identity));
                    let ci = Self::index_of(self.procs@, identity);
                    assert(self.procs@[ci].address == identity);
                    assert(ci == i as int);
                }
                let p = self.procs[i];
                self.procs[i] = ProcessorInfo {
                    total_processed: p.total_processed.saturating_add(1),
                    ..p
                };
                return;
            }
            i += 1;
        }
        assert(!Self::has_proc(self.procs@, identity));
    }

    /// The entry after one completed submission is counted.
    pub open spec fn completed(p: ProcessorInfo) -> ProcessorInfo {
        ProcessorInfo {
            total_processed: if p.total_processed == u64::MAX {
                u64::MAX
            } else {
                (p.total_processed + 1) as u64
            },
            ..p
        }
    }
}

/// The selection score, computed exactly in 128-bit space.
fn score_u128(p: &ProcessorInfo) -> (r: u128)
    ensures
        r == score_of(*p),
{
    2 * p.compute_power as u128 + p.reputation as u128 + p.success_rate as u128
}

} // verus!
