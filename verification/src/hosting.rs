//! Feeds, plans, and the start of hosting under a contract.

use vstd::prelude::*;
use crate::dispatch::{mark_idle, panels, staff_jobs, Module, Staffing};
use crate::users::{known_user, user_place, users_with};
use crate::records::{AccountId, AttestorJob, Contract, Digest, Error, Event, Feed, Moment, Plan, Signature, TreeHashPayload, TreeRoot};
use crate::roles::{position_of, with_member, Role};

verus! {

/// Whether a feed is published under `key`.
pub open spec fn known_feed(feeds: Seq<Feed>, key: Seq<u8>) -> bool {
    exists|i: int| 0 <= i < feeds.len() && (#[trigger] feeds[i]).publickey@ == key
}

/// Whether two digests hold the same bytes.
pub fn same_digest(first: &Digest, second: &Digest) -> (same: bool)
    ensures
        same == (first@ == second@),
{
    let mut i: usize = 0;
    while i < 32
        invariant
            i <= 32,
            forall|k: int| 0 <= k < i ==> first@[k] == second@[k],
        decreases 32 - i,
    {
        if first[i] != second[i] {
            assert(first@[i as int] != second@[i as int]);
            return false;
        }
        i += 1;
    }
    proof {
        assert(first@ =~= second@);
    }
    true
}

impl Module {
    /// Whether a feed is published under `key`.
    pub fn has_feed(&self, key: &Digest) -> (found: bool)
        ensures
            found == known_feed(self.feeds@, key@),
    {
        let mut i: usize = 0;
        while i < self.feeds.len()
            invariant
                i <= self.feeds.len(),
                forall|k: int| 0 <= k < i ==> (#[trigger] self.feeds@[k]).publickey@ != key@,
            decreases self.feeds.len() - i,
        {
            if same_digest(&self.feeds[i].publickey, key) {
                return true;
            }
            i += 1;
        }
        false
    }

    /// Publishes a feed under its key, with its signed root, for the
    /// caller. A key that has a feed already keeps it, and nothing is said.
    pub fn publish_feed(&mut self, signer: AccountId, merkle_root: (Digest, TreeHashPayload, Signature)) -> (events:
        Vec<Event>)
        requires
            old(self).wf(),
            !known_user(old(self).users@, signer) ==> old(self).next_user_id < u32::MAX,
            !known_feed(old(self).feeds@, merkle_root.0@) ==> old(self).next_feed_id < u32::MAX,
        ensures
            final(self).wf(),
            final(self).users@ == users_with(old(self).users@, signer),
            final(self).next_user_id == final(self).users@.len(),
            *final(self) == (Module {
                users: final(self).users,
                next_user_id: final(self).next_user_id,
                feeds: final(self).feeds,
                next_feed_id: final(self).next_feed_id,
                ..*old(self)
            }),
            known_feed(old(self).feeds@, merkle_root.0@) ==> final(self).same_feeds(old(self))
                && events@.len() == 0,
            !known_feed(old(self).feeds@, merkle_root.0@) ==> {
                &&& final(self).feeds@ == old(self).feeds@.push(
                    Feed {
                        id: old(self).next_feed_id,
                        publickey: merkle_root.0,
                        meta: TreeRoot {
                            signature: merkle_root.2,
                            hash_type: merkle_root.1.hash_type,
                            children: merkle_root.1.children,
                        },
                        publisher: user_place(old(self).users@, signer) as u32,
                    },
                )
                &&& final(self).next_feed_id == old(self).next_feed_id + 1
                &&& events@ == seq![Event::NewFeed(old(self).next_feed_id)]
            },
    {
        let user_id = self.load_user(signer);
        let mut events: Vec<Event> = Vec::new();
        if !self.has_feed(&merkle_root.0) {
            let next_feed_id = self.next_feed_id;
            let new_feed = Feed {
                id: next_feed_id,
                publickey: merkle_root.0,
                meta: TreeRoot {
                    signature: merkle_root.2,
                    hash_type: merkle_root.1.hash_type,
                    children: merkle_root.1.children,
                },
                publisher: user_id,
            };
            self.feeds.push(new_feed);
            self.next_feed_id = next_feed_id + 1;
            events.push(Event::NewFeed(next_feed_id));
        }
        events
    }

    /// Publishes a plan for the caller, who becomes its sponsor; the plan
    /// gets the next free id.
    pub fn publish_plan(&mut self, signer: AccountId, plan: Plan<u32, u32, Moment, u32>) -> (events:
        Vec<Event>)
        requires
            old(self).wf(),
            !known_user(old(self).users@, signer) ==> old(self).next_user_id < u32::MAX,
            old(self).next_plan_id < u32::MAX,
        ensures
            final(self).wf(),
            final(self).users@ == users_with(old(self).users@, signer),
            final(self).next_user_id == final(self).users@.len(),
            final(self).plans@ == old(self).plans@.push(
                Plan {
                    id: old(self).next_plan_id,
                    sponsor: user_place(old(self).users@, signer) as u32,
                    ..plan
                },
            ),
            final(self).next_plan_id == old(self).next_plan_id + 1,
            events@ == seq![Event::NewPlan(old(self).next_plan_id)],
            *final(self) == (Module {
                users: final(self).users,
                next_user_id: final(self).next_user_id,
                plans: final(self).plans,
                next_plan_id: final(self).next_plan_id,
                ..*old(self)
            }),
    {
        let user_id = self.load_user(signer);
        let next_plan_id = self.next_plan_id;
        let new_plan = Plan { id: next_plan_id, sponsor: user_id, ..plan };
        self.plans.push(new_plan);
        self.next_plan_id = next_plan_id + 1;
        let mut events: Vec<Event> = Vec::new();
        events.push(Event::NewPlan(next_plan_id));
        events
    }

    /// A hoster of a contract reports that it has started. Whoever is no
    /// hoster of the contract is refused. A hoster's first report makes it
    /// active; a later one, once as many are active as there are hosters,
    /// makes the contract's encoders idle again. Either way the contract's
    /// attestor is marked idle and jobs are dispatched. For a contract
    /// that does not exist nothing happens; the caller is recorded as a
    /// user all the same.
    pub fn hosting_starts(&mut self, signer: AccountId, contract_id: u32) -> (result: Result<
        Vec<Event>,
        Error,
    >)
        requires
            old(self).wf(),
            !known_user(old(self).users@, signer) && !(contract_id < old(self).contracts@.len()
                && !old(self).contracts@[contract_id as int].hosters@.contains(
                user_place(old(self).users@, signer) as u32,
            )) ==> old(self).next_user_id < u32::MAX,
        ensures
            final(self).wf(),
            match result {
                Err(error) => {
                    &&& error == Error::Permission
                    &&& contract_id < old(self).contracts@.len()
                    &&& !old(self).contracts@[contract_id as int].hosters@.contains(
                        user_place(old(self).users@, signer) as u32,
                    )
                    &&& *final(self) == *old(self)
                },
                Ok(events) => {
                    let id = user_place(old(self).users@, signer) as u32;
                    &&& final(self).users@ == users_with(old(self).users@, signer)
                    &&& final(self).next_user_id == final(self).users@.len()
                    &&& final(self).same_feeds(old(self))
                    &&& final(self).same_plans(old(self))
                    &&& final(self).same_storage_challenges(old(self))
                    &&& final(self).same_settings(old(self))
                    &&& final(self).same_challenges_but_panels(old(self))
                    &&& final(self).job_queue@ == old(self).job_queue@
                    &&& final(self).next_contract_id == old(self).next_contract_id
                    &&& final(self).roles.same_but_two(
                        &old(self).roles,
                        Role::IdleEncoder,
                        Role::IdleAttestor,
                    )
                    &&& if contract_id < old(self).contracts@.len() {
                        let before = old(self).contracts@[contract_id as int];
                        let after = final(self).contracts@[contract_id as int];
                        &&& before.hosters@.contains(id)
                        &&& final(self).contracts@ == old(self).contracts@.update(
                            contract_id as int,
                            after,
                        )
                        &&& after == (Contract { active: after.active, ..before })
                        &&& after.active@ == with_member(before.active@, id)
                        &&& final(self).roles.members(Role::IdleEncoder) == if before.active@.contains(
                            id,
                        ) && before.active@.len() == before.hosters@.len() {
                            mark_idle(old(self).roles.members(Role::IdleEncoder), before.encoders@)
                        } else {
                            old(self).roles.members(Role::IdleEncoder)
                        }
                        &&& events@.len() >= 1
                        &&& events@.last() == Event::HostingStarted(contract_id)
                        &&& final(self).staffing(events@.drop_last()) == staff_jobs(
                            Staffing {
                                idle: with_member(
                                    old(self).roles.members(Role::IdleAttestor),
                                    before.attestor,
                                ),
                                panels: panels(old(self).performance_challenges@),
                                events: Seq::empty(),
                            },
                            old(self).job_queue@,
                            old(self).performance_attestor_count as nat,
                        )
                    } else {
                        &&& events@.len() == 0
                        &&& final(self).contracts == old(self).contracts
                        &&& final(self).job_queue == old(self).job_queue
                        &&& final(self).roles == old(self).roles
                        &&& final(self).performance_challenges == old(self).performance_challenges
                    }
                },
            },
    {
        let user_id: u32 = match self.find_user(signer) {
            Some(place) => place as u32,
            None => self.next_user_id,
        };
        if (contract_id as usize) < self.contracts.len() {
            if position_of(&self.contracts[contract_id as usize].hosters, user_id).is_none() {
                return Err(Error::Permission);
            }
            Ok(self.start_hosting(signer, contract_id))
        } else {
            let _ = self.load_user(signer);
            Ok(Vec::new())
        }
    }

    /// Records the caller and its report under the contract, and dispatches.
    fn start_hosting(&mut self, signer: AccountId, contract_id: u32) -> (events: Vec<Event>)
        requires
            old(self).wf(),
            contract_id < old(self).contracts@.len(),
            !known_user(old(self).users@, signer) ==> old(self).next_user_id < u32::MAX,
        ensures
            final(self).wf(),
            final(self).users@ == users_with(old(self).users@, signer),
            final(self).next_user_id == final(self).users@.len(),
            final(self).same_feeds(old(self)),
            final(self).same_plans(old(self)),
            final(self).same_storage_challenges(old(self)),
            final(self).same_settings(old(self)),
            final(self).same_challenges_but_panels(old(self)),
            final(self).job_queue@ == old(self).job_queue@,
            final(self).next_contract_id == old(self).next_contract_id,
            final(self).roles.same_but_two(&old(self).roles, Role::IdleEncoder, Role::IdleAttestor),
            ({
                let id = user_place(old(self).users@, signer) as u32;
                let before = old(self).contracts@[contract_id as int];
                let after = final(self).contracts@[contract_id as int];
                &&& final(self).contracts@ == old(self).contracts@.update(contract_id as int, after)
                &&& after == (Contract { active: after.active, ..before })
                &&& after.active@ == with_member(before.active@, id)
                &&& final(self).roles.members(Role::IdleEncoder) == if before.active@.contains(id)
                    && before.active@.len() == before.hosters@.len() {
                    mark_idle(old(self).roles.members(Role::IdleEncoder), before.encoders@)
                } else {
                    old(self).roles.members(Role::IdleEncoder)
                }
                &&& events@.len() >= 1
                &&& events@.last() == Event::HostingStarted(contract_id)
                &&& final(self).staffing(events@.drop_last()) == staff_jobs(
                    Staffing {
                        idle: with_member(
                            old(self).roles.members(Role::IdleAttestor),
                            before.attestor,
                        ),
                        panels: panels(old(self).performance_challenges@),
                        events: Seq::empty(),
                    },
                    old(self).job_queue@,
                    old(self).performance_attestor_count as nat,
                )
            }),
    {
        let user_id = self.load_user(signer);
        let place = contract_id as usize;
        let ghost loaded = *self;
        if position_of(&self.contracts[place].active, user_id).is_none() {
            self.contracts[place].active.push(user_id);
        } else if self.contracts[place].active.len() == self.contracts[place].hosters.len() {
            let mut e: usize = 0;
            while e < self.contracts[place].encoders.len()
                invariant
                    e <= self.contracts[place as int].encoders.len(),
                    place < self.contracts.len(),
                    self.wf(),
                    self.roles.same_but(&loaded.roles, Role::IdleEncoder),
                    self.roles.members(Role::IdleEncoder) == mark_idle(
                        loaded.roles.members(Role::IdleEncoder),
                        self.contracts[place as int].encoders@.take(e as int),
                    ),
                    *self == (Module { roles: self.roles, ..loaded }),
                decreases self.contracts[place as int].encoders.len() - e,
            {
                let current_encoder = self.contracts[place].encoders[e];
                self.roles.set(Role::IdleEncoder, current_encoder, true);
                proof {
                    let encoders = self.contracts[place as int].encoders@;
                    assert(encoders.take(e + 1).drop_last() == encoders.take(e as int));
                }
                e += 1;
            }
            proof {
                let encoders = self.contracts[place as int].encoders@;
                assert(encoders.take(encoders.len() as int) == encoders);
            }
        }
        let attestors: Vec<u32> = vec![self.contracts[place].attestor];
        let jobs: Vec<AttestorJob<u32, u32>> = Vec::new();
        let queued = self.job_queue.len();
        proof {
            assert(jobs@.len() + self.job_queue@.len() == queued);
            assert(attestors@.drop_last() == Seq::<u32>::empty());
            assert(mark_idle(self.roles.members(Role::IdleAttestor), attestors@.drop_last())
                == self.roles.members(Role::IdleAttestor));
            assert(jobs@ + self.job_queue@ == self.job_queue@);
        }
        let mut events = self.give_attestors_jobs(attestors.as_slice(), jobs.as_slice());
        let ghost raised = events@;
        events.push(Event::HostingStarted(contract_id));
        proof {
            assert(events@.drop_last() == raised);
        }
        events
    }
}

} // verus!
