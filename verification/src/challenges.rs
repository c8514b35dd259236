//! The life of a challenge: how one is requested, and how what is
//! submitted for it decides whether it is confirmed.

use vstd::prelude::*;
use crate::dispatch::{panels, staff_jobs, Module, Staffing};
use crate::users::{known_user, user_place, users_with};
use crate::records::{AccountId, AttestorJob, Digest, Error, Event, PerformanceChallenge, Ranges, Report, StorageChallenge};
use crate::roles::Role;

verus! {

/// What a hoster submits for one chunk.
pub type Proof = Digest;

/// Whether every verdict of a batch is favourable. An empty batch is.
pub open spec fn all_true(verdicts: Seq<bool>) -> bool {
    forall|i: int| 0 <= i < verdicts.len() ==> verdicts[i]
}

/// Whether every report of a batch carries a latency. An empty batch does.
pub open spec fn all_measured(reports: Seq<Report>) -> bool {
    forall|i: int| 0 <= i < reports.len() ==> (#[trigger] reports[i]).latency is Some
}

/// The first chunk of each range.
pub open spec fn range_starts(ranges: Seq<(u64, u64)>) -> Seq<u64> {
    Seq::new(ranges.len(), |i: int| ranges[i].0)
}

/// Whether `proof` answers `challenge`. No proof is examined yet: each is
/// taken as valid.
pub open spec fn proof_is_valid(proof: Proof, challenge: StorageChallenge) -> bool {
    true
}

/// The event that ends a storage challenge, from the verdicts on the
/// proofs of a batch: confirmed only where every one is favourable.
pub open spec fn storage_outcome(challenge_id: u32, verdicts: Seq<bool>) -> Event {
    if all_true(verdicts) {
        Event::ProofOfStorageConfirmed(challenge_id)
    } else {
        Event::ProofOfStorageFailed(challenge_id)
    }
}

/// The event that ends a performance challenge, from the reports of a
/// batch: confirmed only where every one carries a latency.
pub open spec fn performance_outcome(attestation_id: u32, reports: Seq<Report>) -> Event {
    if all_measured(reports) {
        Event::AttestationReportConfirmed(attestation_id)
    } else {
        Event::AttestationReportFailed(attestation_id)
    }
}

/// Why a request for a storage challenge on an existing contract is
/// refused, if it is: the contract's plan is missing, or the caller is not
/// the plan's sponsor.
pub open spec fn storage_request_refusal(state: Module, signer: AccountId, contract_id: u32) -> Option<Error>
    recommends
        contract_id < state.contracts@.len(),
{
    let plan = state.contracts@[contract_id as int].plan;
    if plan >= state.plans@.len() {
        Some(Error::NotFound)
    } else if state.plans@[plan as int].sponsor != user_place(state.users@, signer) {
        Some(Error::Permission)
    } else {
        None
    }
}

/// The panels once a fresh challenge stands at `id`: in place of the one
/// that has this id, or behind the last one.
pub open spec fn panels_with_fresh(table: Seq<Option<Seq<u32>>>, id: u32) -> Seq<Option<Seq<u32>>> {
    if id < table.len() {
        table.update(id as int, None)
    } else {
        table.push(None)
    }
}

impl Module {
    /// The chunks to challenge: for now the first one of every range.
    pub fn random_from_ranges(ranges: &Ranges) -> (chunks: Vec<u64>)
        ensures
            chunks@ == range_starts(ranges@),
    {
        let mut chunks: Vec<u64> = Vec::new();
        let mut i: usize = 0;
        while i < ranges.len()
            invariant
                i <= ranges.len(),
                chunks@ == range_starts(ranges@).take(i as int),
            decreases ranges.len() - i,
        {
            chunks.push(ranges[i].0);
            proof {
                assert(range_starts(ranges@).take(i + 1) == range_starts(ranges@).take(
                    i as int,
                ).push(ranges@[i as int].0));
            }
            i += 1;
        }
        proof {
            assert(range_starts(ranges@).take(ranges.len() as int) == range_starts(ranges@));
        }
        chunks
    }

    /// Whether `proof` answers `challenge`. A stand-in: every proof passes.
    pub fn validate_proof(proof: &Proof, challenge: &StorageChallenge) -> (valid: bool)
        ensures
            valid == proof_is_valid(*proof, *challenge),
            valid,
    {
        true
    }

    /// Ends a storage challenge on the verdicts of a batch.
    pub fn resolve_storage_challenge(challenge_id: u32, verdicts: &Vec<bool>) -> (event: Event)
        ensures
            event == storage_outcome(challenge_id, verdicts@),
    {
        let mut success: bool = true;
        let mut i: usize = 0;
        while i < verdicts.len()
            invariant
                i <= verdicts.len(),
                success == all_true(verdicts@.take(i as int)),
            decreases verdicts.len() - i,
        {
            proof {
                let head = verdicts@.take(i as int);
                let next = verdicts@.take(i + 1);
                assert(forall|k: int| 0 <= k < i ==> head[k] == next[k]);
                if all_true(next) {
                    assert(next[i as int]);
                }
                if !all_true(head) {
                    let k = choose|k: int| 0 <= k < head.len() && !head[k];
                    assert(!next[k]);
                }
            }
            if verdicts[i] {
                success = success && true;
            } else {
                success = success && false;
            }
            i += 1;
        }
        proof {
            assert(verdicts@.take(verdicts.len() as int) == verdicts@);
        }
        if success {
            Event::ProofOfStorageConfirmed(challenge_id)
        } else {
            Event::ProofOfStorageFailed(challenge_id)
        }
    }

    /// Ends a performance challenge on the reports of a batch.
    pub fn resolve_performance_challenge(attestation_id: u32, reports: &Vec<Report>) -> (event:
        Event)
        ensures
            event == performance_outcome(attestation_id, reports@),
    {
        let mut success: bool = true;
        let mut i: usize = 0;
        while i < reports.len()
            invariant
                i <= reports.len(),
                success == all_measured(reports@.take(i as int)),
            decreases reports.len() - i,
        {
            proof {
                let head = reports@.take(i as int);
                let next = reports@.take(i + 1);
                assert(forall|k: int| 0 <= k < i ==> head[k] == next[k]);
                if all_measured(next) {
                    assert(next[i as int].latency is Some);
                }
                if !all_measured(head) {
                    let k = choose|k: int| 0 <= k < head.len() && !(head[k].latency is Some);
                    assert(next[k] == head[k]);
                }
            }
            match reports[i].latency {
                Some(_) => {
                    success = success && true;
                },
                _ => {
                    success = success && false;
                },
            }
            i += 1;
        }
        proof {
            assert(reports@.take(reports.len() as int) == reports@);
        }
        if success {
            Event::AttestationReportConfirmed(attestation_id)
        } else {
            Event::AttestationReportFailed(attestation_id)
        }
    }

    /// Takes the proofs that a hoster submits for a storage challenge. For
    /// a challenge that exists one event says whether it is confirmed; for
    /// one that does not, nothing happens.
    pub fn submit_storage_challenge(&self, signer: AccountId, challenge_id: u32, proofs: Vec<Proof>) -> (events:
        Vec<Event>)
        ensures
            events@ == if challenge_id < self.challenges@.len() {
                seq![
                    storage_outcome(
                        challenge_id,
                        Seq::new(
                            proofs@.len(),
                            |i: int| proof_is_valid(proofs@[i], self.challenges@[challenge_id as int]),
                        ),
                    ),
                ]
            } else {
                Seq::<Event>::empty()
            },
            challenge_id < self.challenges@.len() ==> events@ == seq![
                Event::ProofOfStorageConfirmed(challenge_id),
            ],
    {
        let mut events: Vec<Event> = Vec::new();
        if (challenge_id as usize) < self.challenges.len() {
            let challenge = &self.challenges[challenge_id as usize];
            let mut verdicts: Vec<bool> = Vec::new();
            let mut i: usize = 0;
            while i < proofs.len()
                invariant
                    i <= proofs.len(),
                    verdicts@ == Seq::new(i as nat, |k: int| proof_is_valid(proofs@[k], *challenge)),
                decreases proofs.len() - i,
            {
                verdicts.push(Self::validate_proof(&proofs[i], challenge));
                proof {
                    assert(verdicts@ =~= Seq::new(
                        (i + 1) as nat,
                        |k: int| proof_is_valid(proofs@[k], *challenge),
                    ));
                }
                i += 1;
            }
            events.push(Self::resolve_storage_challenge(challenge_id, &verdicts));
        }
        events
    }

    /// Takes the reports that attestors submit for a performance
    /// challenge. For a challenge that exists one event says whether it is
    /// confirmed; for one that does not, nothing happens.
    pub fn submit_performance_challenge(&self, signer: AccountId, attestation_id: u32, reports: Vec<Report>) -> (events:
        Vec<Event>)
        ensures
            events@ == if attestation_id < self.performance_challenges@.len() {
                seq![performance_outcome(attestation_id, reports@)]
            } else {
                Seq::<Event>::empty()
            },
    {
        let mut events: Vec<Event> = Vec::new();
        if (attestation_id as usize) < self.performance_challenges.len() {
            events.push(Self::resolve_performance_challenge(attestation_id, &reports));
        }
        events
    }

    /// Asks for a performance challenge on a contract, and dispatches. The
    /// challenge gets the id that the counter shows; the counter stays, so
    /// that a later request takes the place of this one.
    pub fn request_performance_challenge(&mut self, signer: AccountId, contract_id: u32) -> (events:
        Vec<Event>)
        requires
            old(self).wf(),
            old(self).job_queue@.len() < usize::MAX,
        ensures
            final(self).wf(),
            final(self).same_records(old(self)),
            final(self).roles.same_but(&old(self).roles, Role::IdleAttestor),
            ({
                let id = old(self).next_attestation_id;
                let job = AttestorJob::<u32, u32>::PerformanceChallenge(id);
                &&& final(self).job_queue@ == seq![job] + old(self).job_queue@
                &&& final(self).performance_challenges@.len() == panels_with_fresh(
                    panels(old(self).performance_challenges@),
                    id,
                ).len()
                &&& final(self).performance_challenges@[id as int].contract == contract_id
                &&& forall|i: int|
                    0 <= i < old(self).performance_challenges@.len() && i != id ==> (
                    #[trigger] final(self).performance_challenges@[i]).contract == old(
                        self,
                    ).performance_challenges@[i].contract
                &&& final(self).staffing(events@) == staff_jobs(
                    Staffing {
                        idle: old(self).roles.members(Role::IdleAttestor),
                        panels: panels_with_fresh(panels(old(self).performance_challenges@), id),
                        events: Seq::empty(),
                    },
                    seq![job] + old(self).job_queue@,
                    old(self).performance_attestor_count as nat,
                )
            }),
    {
        let attestation_id = self.next_attestation_id;
        let attestation = PerformanceChallenge::new(attestation_id, contract_id);
        let ghost table = self.performance_challenges@;
        if (attestation_id as usize) < self.performance_challenges.len() {
            self.performance_challenges.set(attestation_id as usize, attestation);
        } else {
            self.performance_challenges.push(attestation);
        }
        proof {
            assert(panels(self.performance_challenges@) =~= panels_with_fresh(
                panels(table),
                attestation_id,
            ));
        }
        let attestors: Vec<u32> = Vec::new();
        let jobs: Vec<AttestorJob<u32, u32>> = vec![AttestorJob::PerformanceChallenge(attestation_id)];
        let ghost staged = *self;
        let events = self.give_attestors_jobs(attestors.as_slice(), jobs.as_slice());
        proof {
            assert(jobs@ == seq![AttestorJob::<u32, u32>::PerformanceChallenge(attestation_id)]);
            assert(staged.performance_challenges@[attestation_id as int].contract == contract_id);
            assert(self.performance_challenges@[attestation_id as int].contract == contract_id);
            assert forall|i: int|
                0 <= i < table.len() && i != attestation_id implies (
            #[trigger] self.performance_challenges@[i]).contract == table[i].contract by {
                assert(staged.performance_challenges@[i].contract == table[i].contract);
            }
        }
        events
    }

    /// Records the caller, creates the challenge and queues it.
    fn open_storage_challenge(&mut self, signer: AccountId, contract_id: u32, hoster_id: u32) -> (events:
        Vec<Event>)
        requires
            old(self).wf(),
            old(self).job_queue@.len() < usize::MAX,
            contract_id < old(self).contracts@.len(),
            old(self).next_challenge_id < u32::MAX,
            !known_user(old(self).users@, signer) ==> old(self).next_user_id < u32::MAX,
        ensures
            final(self).wf(),
            final(self).users@ == users_with(old(self).users@, signer),
            final(self).next_user_id == final(self).users@.len(),
            final(self).same_hosting(old(self)),
            final(self).same_settings(old(self)),
            final(self).same_challenges_but_panels(old(self)),
            final(self).roles.same_but(&old(self).roles, Role::IdleAttestor),
            ({
                let id = old(self).next_challenge_id;
                let job = AttestorJob::<u32, u32>::StorageChallenge(id);
                let challenge = final(self).challenges@[id as int];
                &&& final(self).next_challenge_id == id + 1
                &&& final(self).challenges@.len() == id + 1
                &&& final(self).challenges@.take(id as int) == old(self).challenges@
                &&& challenge.id == id
                &&& challenge.contract == contract_id
                &&& challenge.hoster == hoster_id
                &&& challenge.chunks@ == range_starts(old(self).contracts@[contract_id as int].ranges@)
                &&& challenge.attestor is None
                &&& final(self).job_queue@ == seq![job] + old(self).job_queue@
                &&& final(self).staffing(events@) == staff_jobs(
                    old(self).staffing(Seq::empty()),
                    seq![job] + old(self).job_queue@,
                    old(self).performance_attestor_count as nat,
                )
            }),
    {
        let _ = self.load_user(signer);
        let random_chunks = Self::random_from_ranges(&self.contracts[contract_id as usize].ranges);
        let challenge_id = self.next_challenge_id;
        let challenge = StorageChallenge::new(challenge_id, contract_id, hoster_id, random_chunks);
        let ghost table = self.challenges@;
        self.challenges.push(challenge);
        proof {
            assert(self.challenges@.take(challenge_id as int) == table);
        }
        self.next_challenge_id = challenge_id + 1;
        let attestors: Vec<u32> = Vec::new();
        let jobs: Vec<AttestorJob<u32, u32>> = vec![AttestorJob::StorageChallenge(challenge_id)];
        let ghost staged = *self;
        let events = self.give_attestors_jobs(attestors.as_slice(), jobs.as_slice());
        proof {
            assert(jobs@ == seq![AttestorJob::<u32, u32>::StorageChallenge(challenge_id)]);
            assert(staged.staffing(Seq::empty()) == old(self).staffing(Seq::empty()));
        }
        events
    }

    /// Asks for a storage challenge of a hoster under a contract. Only the
    /// sponsor of the contract's plan may ask. The challenge names the
    /// first chunk of each of the contract's ranges and waits in the queue
    /// for an attestor. For a contract that does not exist nothing is
    /// asked; the caller is recorded as a user all the same.
    pub fn request_storage_challenge(&mut self, signer: AccountId, contract_id: u32, hoster_id: u32) -> (result:
        Result<Vec<Event>, Error>)
        requires
            old(self).wf(),
            old(self).job_queue@.len() < usize::MAX,
            contract_id < old(self).contracts@.len() && storage_request_refusal(
                *old(self),
                signer,
                contract_id,
            ) is None ==> old(self).next_challenge_id < u32::MAX,
            !(contract_id < old(self).contracts@.len() && storage_request_refusal(
                *old(self),
                signer,
                contract_id,
            ) is Some) && !known_user(old(self).users@, signer) ==> old(self).next_user_id
                < u32::MAX,
        ensures
            final(self).wf(),
            match result {
                Err(error) => {
                    &&& contract_id < old(self).contracts@.len()
                    &&& storage_request_refusal(*old(self), signer, contract_id) == Some(error)
                    &&& *final(self) == *old(self)
                },
                Ok(events) => {
                    &&& final(self).users@ == users_with(old(self).users@, signer)
                    &&& final(self).next_user_id == final(self).users@.len()
                    &&& final(self).same_hosting(old(self))
                    &&& final(self).same_settings(old(self))
                    &&& final(self).same_challenges_but_panels(old(self))
                    &&& final(self).roles.same_but(&old(self).roles, Role::IdleAttestor)
                    &&& if contract_id < old(self).contracts@.len() {
                        let id = old(self).next_challenge_id;
                        let job = AttestorJob::<u32, u32>::StorageChallenge(id);
                        let challenge = final(self).challenges@[id as int];
                        &&& storage_request_refusal(*old(self), signer, contract_id) is None
                        &&& final(self).next_challenge_id == id + 1
                        &&& final(self).challenges@.len() == id + 1
                        &&& final(self).challenges@.take(id as int) == old(self).challenges@
                        &&& challenge.id == id
                        &&& challenge.contract == contract_id
                        &&& challenge.hoster == hoster_id
                        &&& challenge.chunks@ == range_starts(
                            old(self).contracts@[contract_id as int].ranges@,
                        )
                        &&& challenge.attestor is None
                        &&& final(self).job_queue@ == seq![job] + old(self).job_queue@
                        &&& final(self).staffing(events@) == staff_jobs(
                            old(self).staffing(Seq::empty()),
                            seq![job] + old(self).job_queue@,
                            old(self).performance_attestor_count as nat,
                        )
                    } else {
                        &&& events@.len() == 0
                        &&& final(self).same_storage_challenges(old(self))
                        &&& final(self).job_queue == old(self).job_queue
                        &&& final(self).roles == old(self).roles
                        &&& final(self).performance_challenges == old(self).performance_challenges
                    }
                },
            },
    {
        let user_id: u32 = match self.find_user(signer) {
            Some(place) => place as u32,
            None => self.next_user_id,
        };
        if (contract_id as usize) < self.contracts.len() {
            let plan_id = self.contracts[contract_id as usize].plan;
            if plan_id as usize >= self.plans.len() {
                return Err(Error::NotFound);
            }
            let sponsor = self.plans[plan_id as usize].sponsor;
            if sponsor != user_id {
                return Err(Error::Permission);
            }
            Ok(self.open_storage_challenge(signer, contract_id, hoster_id))
        } else {
            let _ = self.load_user(signer);
            Ok(Vec::new())
        }
    }
}

} // verus!
