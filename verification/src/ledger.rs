//! The request ledger: the lifecycle of delegated compute requests,
//! from submission through completion to dispute, together with the
//! processor directory that submissions draw on.
use crate::directory::best_idx;
use crate::directory::ProcessorDirectory;
use crate::directory::ProcessorInfo;
use crate::dtable::clone_bytes;
use crate::dtable::DigestTable;
use crate::hashing;
use crate::BrokerError;
use vstd::prelude::*;

verus! {

/// How much reputation one valid dispute costs the bound processor.
pub const DISPUTE_PENALTY: u64 = 10;

/// Lifecycle states of a delegated compute request. `TimedOut` is
/// declared for completeness: expiry is enforced as a guard on
/// mutating operations, and no transition assigns this state.
#[derive(Clone, Copy, Debug, PartialEq, Eq, Structural)]
pub enum RequestStatus {
    Pending,
    Processing,
    Completed,
    Failed,
    TimedOut,
    Disputed,
}

/// What a processor hands back for a completed request.
#[derive(Clone, Debug)]
pub struct ComputeResult {
    pub output: Vec<u8>,
    pub confidence: u64,
    pub compute_time: u64,
    pub resources_used: u64,
}

/// One delegated compute request. Exactly one processor is bound at
/// submission time; selection is not renegotiated.
#[derive(Clone, Debug)]
pub struct ComputeRequest {
    /// The 256-bit id the request is stored under.
    pub request_id: Vec<u8>,
    /// The model the computation is for.
    pub model_id: u64,
    /// The input payload.
    pub input_data: Vec<u8>,
    /// The processor bound at submission.
    pub processor: u64,
    /// Who submitted the request and receives the callback.
    pub requester: u64,
    /// An optional payload echoed back with the callback.
    pub callback_data: Vec<u8>,
    /// Mutations guarded by expiry must happen strictly before this.
    pub deadline: u64,
    pub status: RequestStatus,
    /// The submitted result, once the request is completed.
    pub result: Option<ComputeResult>,
}

/// The two requests agree on everything but status and result.
pub open spec fn same_request_core(a: ComputeRequest, b: ComputeRequest) -> bool {
    &&& a.request_id@ == b.request_id@
    &&& a.model_id == b.model_id
    &&& a.input_data@ == b.input_data@
    &&& a.processor == b.processor
    &&& a.requester == b.requester
    &&& a.callback_data@ == b.callback_data@
    &&& a.deadline == b.deadline
}

/// The two optional results hold the same data.
pub open spec fn same_result(a: Option<ComputeResult>, b: Option<ComputeResult>) -> bool {
    match (a, b) {
        (Option::None, Option::None) => true,
        (Option::Some(x), Option::Some(y)) => {
            &&& x.output@ == y.output@
            &&& x.confidence == y.confidence
            &&& x.compute_time == y.compute_time
            &&& x.resources_used == y.resources_used
        },
        _ => false,
    }
}

/// Owns the delegated requests and the processor directory.
pub struct OffChainCompute {
    /// The identity that created this ledger.
    owner: u64,
    directory: ProcessorDirectory,
    requests: DigestTable<ComputeRequest>,
}

impl OffChainCompute {
    /// The registered processors, in registration order.
    pub closed spec fn processors(&self) -> Seq<ProcessorInfo> {
        self.directory@
    }

    /// The stored requests, keyed by request-id content.
    pub closed spec fn request_map(&self) -> Map<Seq<u8>, ComputeRequest> {
        self.requests@
    }

    /// The identity that created this ledger.
    pub closed spec fn owner_of(&self) -> u64 {
        self.owner
    }

    pub closed spec fn wf(&self) -> bool {
        self.directory.wf() && self.requests.wf()
    }

    pub fn new(owner: u64) -> (r: OffChainCompute)
        ensures
            r.wf(),
            r.owner_of() == owner,
            r.processors() =~= Seq::<ProcessorInfo>::empty(),
            r.request_map() =~= Map::<Seq<u8>, ComputeRequest>::empty(),
    {
        OffChainCompute {
            owner,
            directory: ProcessorDirectory::new(),
            requests: DigestTable::new(),
        }
    }

    /// Registers the caller as a processor with the advertised compute
    /// power, replacing any earlier entry: full starting reputation and
    /// success rate, active.
    pub fn register_processor(&mut self, caller: u64, compute_power: u64) -> (r: Result<
        bool,
        BrokerError,
    >)
        requires
            old(self).wf(),
        ensures
            final(self).wf(),
            r == Ok::<bool, BrokerError>(true),
            final(self).request_map() == old(self).request_map(),
            final(self).processors() =~= (if ProcessorDirectory::has_proc(
                old(self).processors(),
                caller,
            ) {
                old(self).processors().update(
                    ProcessorDirectory::index_of(old(self).processors(), caller),
                    crate::directory::fresh_processor(caller, compute_power),
                )
            } else {
                old(self).processors().push(
                    crate::directory::fresh_processor(caller, compute_power),
                )
            }),
    {
        self.directory.register(caller, compute_power);
        Ok(true)
    }

    /// Submits a compute request: picks the best active processor,
    /// derives a fresh id from the ledger height, the clock and the
    /// caller, and stores the request as `Pending`.
    ///
    /// Fails with `InvalidDeadline` when the deadline does not lie in
    /// the future, and with `NoProcessorsAvailable` when no active
    /// processor exists; nothing changes on failure.
    pub fn submit_compute_request(
        &mut self,
        input_data: Vec<u8>,
        model_id: u64,
        deadline: u64,
        caller: u64,
        now: u64,
        height: u64,
    ) -> (r: Result<Vec<u8>, BrokerError>)
        requires
            old(self).wf(),
        ensures
            final(self).wf(),
            final(self).processors() == old(self).processors(),
            deadline <= now ==> (r matches Err(e) && e == BrokerError::InvalidDeadline
                && final(self).request_map() == old(self).request_map()),
            deadline > now && best_idx(old(self).processors()) is None ==> (r matches Err(e)
                && e == BrokerError::NoProcessorsAvailable
                && final(self).request_map() == old(self).request_map()),
            deadline > now && best_idx(old(self).processors()) is Some ==> (r matches Ok(id) && {
                let b = best_idx(old(self).processors())->Some_0;
                let key = hashing::keccak_of(hashing::id_preimage(height, now, caller));
                &&& id@ == key
                &&& id@.len() == 32
                &&& final(self).request_map().dom() =~= old(self).request_map().dom().insert(key)
                &&& {
                    let req = final(self).request_map()[key];
                    &&& req.request_id@ == key
                    &&& req.model_id == model_id
                    &&& req.input_data@ == input_data@
                    &&& req.processor == old(self).processors()[b].address
                    &&& req.requester == caller
                    &&& req.callback_data@ == Seq::<u8>::empty()
                    &&& req.deadline == deadline
                    &&& req.status == RequestStatus::Pending
                    &&& req.result is None
                }
                &&& forall|k: Seq<u8>|
                    old(self).request_map().contains_key(k) && k != key ==> final(self).request_map()[k] == old(self).request_map()[k]
            }),
    {
        if deadline <= now {
            return Err(BrokerError::InvalidDeadline);
        }
        let processor = match self.directory.select_best() {
            Ok(p) => p,
            Err(e) => { return Err(e) },
        };
        let request_id = hashing::derive_id(height, now, caller);
        let request = ComputeRequest {
            request_id: clone_bytes(&request_id),
            model_id,
            input_data,
            processor,
            requester: caller,
            callback_data: Vec::new(),
            deadline,
            status: RequestStatus::Pending,
            result: None,
        };
        self.requests.insert(clone_bytes(&request_id), request);
        Ok(request_id)
    }

    /// Records the bound processor's result for a pending request and
    /// marks the request `Completed`, counting the completion on the
    /// processor's entry.
    ///
    /// Fails with `RequestNotFound` for an unknown id, `Forbidden` when
    /// the caller is not the bound processor, `InvalidState` when the
    /// request is not `Pending`, and `Expired` when the deadline has
    /// passed — in that order of precedence; nothing changes on
    /// failure, so an expired request stays `Pending`.
    pub fn submit_compute_result(
        &mut self,
        request_id: &Vec<u8>,
        output: Vec<u8>,
        confidence: u64,
        compute_time: u64,
        resources_used: u64,
        caller: u64,
        now: u64,
    ) -> (r: Result<bool, BrokerError>)
        requires
            old(self).wf(),
        ensures
            final(self).wf(),
            !old(self).request_map().contains_key(request_id@) ==> r == Err::<bool, BrokerError>(
                BrokerError::RequestNotFound,
            ) && Self::unchanged(old(self), final(self)),
            old(self).request_map().contains_key(request_id@) ==> {
                let req = old(self).request_map()[request_id@];
                &&& caller != req.processor ==> r == Err::<bool, BrokerError>(
                    BrokerError::Forbidden,
                ) && Self::unchanged(old(self), final(self))
                &&& caller == req.processor && req.status != RequestStatus::Pending ==> r == Err::<
                    bool,
                    BrokerError,
                >(BrokerError::InvalidState) && Self::unchanged(old(self), final(self))
                &&& caller == req.processor && req.status == RequestStatus::Pending && now
                    >= req.deadline ==> r == Err::<bool, BrokerError>(BrokerError::Expired)
                    && Self::unchanged(old(self), final(self))
                &&& caller == req.processor && req.status == RequestStatus::Pending && now
                    < req.deadline ==> r == Ok::<bool, BrokerError>(true) && {
                    let new_req = final(self).request_map()[request_id@];
                    &&& final(self).request_map().dom() =~= old(self).request_map().dom()
                    &&& same_request_core(new_req, req)
                    &&& new_req.status == RequestStatus::Completed
                    &&& new_req.result matches Some(res) && res.output@ == output@
                        && res.confidence == confidence && res.compute_time == compute_time
                        && res.resources_used == resources_used
                    &&& forall|k: Seq<u8>|
                        old(self).request_map().contains_key(k) && k != request_id@ ==> final(self).request_map()[k] == old(self).request_map()[k]
                    &&& final(self).processors() =~= (if ProcessorDirectory::has_proc(
                        old(self).processors(),
                        caller,
                    ) {
                        old(self).processors().update(
                            ProcessorDirectory::index_of(old(self).processors(), caller),
                            ProcessorDirectory::completed(
                                old(self).processors()[ProcessorDirectory::index_of(
                                    old(self).processors(),
                                    caller,
                                )],
                            ),
                        )
                    } else {
                        old(self).processors()
                    })
                }
            },
    {
        let new_req = match self.requests.get(request_id) {
            None => { return Err(BrokerError::RequestNotFound) },
            Some(req) => {
                if caller != req.processor {
                    return Err(BrokerError::Forbidden);
                }
                if !matches!(req.status, RequestStatus::Pending) {
                    return Err(BrokerError::InvalidState);
                }
                if now >= req.deadline {
                    return Err(BrokerError::Expired);
                }
                ComputeRequest {
                    request_id: clone_bytes(&req.request_id),
                    model_id: req.model_id,
                    input_data: clone_bytes(&req.input_data),
                    processor: req.processor,
                    requester: req.requester,
                    callback_data: clone_bytes(&req.callback_data),
                    deadline: req.deadline,
                    status: RequestStatus::Completed,
                    result: Some(
                        ComputeResult { output, confidence, compute_time, resources_used },
                    ),
                }
            },
        };
        self.requests.insert(clone_bytes(request_id), new_req);
        self.directory.record_completion(caller);
        Ok(true)
    }

    /// Disputes a completed request: marks it `Disputed` and penalizes
    /// the bound processor, deactivating it if its reputation falls
    /// below the floor. Returns the digest of the submitted evidence.
    ///
    /// Fails with `RequestNotFound` for an unknown id and with
    /// `InvalidState` when the request is not `Completed`; nothing
    /// changes on failure.
    pub fn dispute_result(&mut self, request_id: &Vec<u8>, evidence: &Vec<u8>) -> (r: Result<
        Vec<u8>,
        BrokerError,
    >)
        requires
            old(self).wf(),
        ensures
            final(self).wf(),
            !old(self).request_map().contains_key(request_id@) ==> r == Err::<Vec<u8>, BrokerError>(
                BrokerError::RequestNotFound,
            ) && Self::unchanged(old(self), final(self)),
            old(self).request_map().contains_key(request_id@) ==> {
                let req = old(self).request_map()[request_id@];
                &&& req.status != RequestStatus::Completed ==> r == Err::<Vec<u8>, BrokerError>(
                    BrokerError::InvalidState,
                ) && Self::unchanged(old(self), final(self))
                &&& req.status == RequestStatus::Completed ==> (r matches Ok(digest) && {
                    let new_req = final(self).request_map()[request_id@];
                    &&& digest@ == hashing::keccak_of(evidence@)
                    &&& final(self).request_map().dom() =~= old(self).request_map().dom()
                    &&& same_request_core(new_req, req)
                    &&& new_req.status == RequestStatus::Disputed
                    &&& same_result(new_req.result, req.result)
                    &&& forall|k: Seq<u8>|
                        old(self).request_map().contains_key(k) && k != request_id@ ==> final(self).request_map()[k] == old(self).request_map()[k]
                    &&& final(self).processors() =~= (if ProcessorDirectory::has_proc(
                        old(self).processors(),
                        req.processor,
                    ) {
                        old(self).processors().update(
                            ProcessorDirectory::index_of(old(self).processors(), req.processor),
                            ProcessorDirectory::penalized(
                                old(self).processors()[ProcessorDirectory::index_of(
                                    old(self).processors(),
                                    req.processor,
                                )],
                                DISPUTE_PENALTY,
                            ),
                        )
                    } else {
                        old(self).processors()
                    })
                })
            },
    {
        let (new_req, processor) = match self.requests.get(request_id) {
            None => { return Err(BrokerError::RequestNotFound) },
            Some(req) => {
                if !matches!(req.status, RequestStatus::Completed) {
                    return Err(BrokerError::InvalidState);
                }
                let cloned_result = match &req.result {
                    Some(res) => Some(
                        ComputeResult {
                            output: clone_bytes(&res.output),
                            confidence: res.confidence,
                            compute_time: res.compute_time,
                            resources_used: res.resources_used,
                        },
                    ),
                    None => None,
                };
                (
                    ComputeRequest {
                        request_id: clone_bytes(&req.request_id),
                        model_id: req.model_id,
                        input_data: clone_bytes(&req.input_data),
                        processor: req.processor,
                        requester: req.requester,
                        callback_data: clone_bytes(&req.callback_data),
                        deadline: req.deadline,
                        status: RequestStatus::Disputed,
                        result: cloned_result,
                    },
                    req.processor,
                )
            },
        };
        self.requests.insert(clone_bytes(request_id), new_req);
        self.directory.penalize(processor, DISPUTE_PENALTY);
        Ok(hashing::keccak256_bytes(evidence))
    }

    /// Whether some active processor exists, so that a delegation can
    /// be assigned.
    pub fn has_active_processor(&self) -> (r: bool)
        requires
            self.wf(),
        ensures
            r == (best_idx(self.processors()) is Some),
    {
        self.directory.has_active_processor()
    }

    /// Looks a registered processor's entry up by identity.
    pub fn get_processor(&self, identity: u64) -> (r: Option<&ProcessorInfo>)
        requires
            self.wf(),
        ensures
            match r {
                Some(p) => ProcessorDirectory::has_proc(self.processors(), identity) && *p
                    == self.processors()[ProcessorDirectory::index_of(self.processors(), identity)],
                None => !ProcessorDirectory::has_proc(self.processors(), identity),
            },
    {
        self.directory.get_processor(identity)
    }

    /// Looks a stored request up by id.
    pub fn get_request(&self, request_id: &Vec<u8>) -> (r: Option<&ComputeRequest>)
        requires
            self.wf(),
        ensures
            match r {
                Some(req) => self.request_map().contains_key(request_id@) && *req
                    == self.request_map()[request_id@],
                None => !self.request_map().contains_key(request_id@),
            },
    {
        self.requests.get(request_id)
    }

    /// Neither the processors nor the requests changed.
    pub open spec fn unchanged(a: &OffChainCompute, b: &OffChainCompute) -> bool {
        a.processors() == b.processors() && a.request_map() == b.request_map()
    }
}

} // verus!
