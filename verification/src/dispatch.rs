//! The state that all operations share, and the dispatcher that hands
//! queued audit jobs to idle attestors.

use vstd::prelude::*;
use crate::records::{AttestorJob, Contract, Event, Feed, Moment, PerformanceChallenge, Plan, StorageChallenge, User};
use crate::roles::{lemma_removed_at, with_member, Role, RoleRegistry};

verus! {

/// The whole state. A record's id is its place in its table.
pub struct Module {
    pub feeds: Vec<Feed>,
    pub users: Vec<User>,
    pub contracts: Vec<Contract>,
    pub challenges: Vec<StorageChallenge>,
    pub plans: Vec<Plan<u32, u32, Moment, u32>>,
    pub performance_challenges: Vec<PerformanceChallenge>,
    pub next_feed_id: u32,
    pub next_user_id: u32,
    pub next_contract_id: u32,
    pub next_challenge_id: u32,
    pub next_plan_id: u32,
    pub next_attestation_id: u32,
    pub nonce: u64,
    pub job_queue: Vec<AttestorJob<u32, u32>>,
    pub roles: RoleRegistry,
    /// A performance challenge is staffed once more idle attestors than
    /// this have been met.
    pub performance_attestor_count: u8,
}

/// The idle attestors, the panels of the performance challenges and the
/// events raised, at some point of a dispatch.
pub ghost struct Staffing {
    pub idle: Seq<u32>,
    pub panels: Seq<Option<Seq<u32>>>,
    pub events: Seq<Event>,
}

/// The panels of a table of performance challenges, by position.
pub open spec fn panels(table: Seq<PerformanceChallenge>) -> Seq<Option<Seq<u32>>> {
    Seq::new(table.len(), |i: int| table[i].panel())
}

/// `idle` after each of `attestors` was marked idle, in turn.
pub open spec fn mark_idle(idle: Seq<u32>, attestors: Seq<u32>) -> Seq<u32>
    decreases attestors.len(),
{
    if attestors.len() == 0 {
        idle
    } else {
        with_member(mark_idle(idle, attestors.drop_last()), attestors.last())
    }
}

/// What one job does to a dispatch. A performance challenge is staffed
/// when more than `threshold` attestors are idle: its panel is the first
/// `threshold + 1` of them, of whom only the last stops being idle, and an
/// event is raised, whether or not a record of that id exists. A storage
/// challenge is left waiting.
pub open spec fn staff_job(before: Staffing, job: AttestorJob<u32, u32>, threshold: nat) -> Staffing {
    match job {
        AttestorJob::PerformanceChallenge(id) => if before.idle.len() > threshold {
            Staffing {
                idle: before.idle.remove(threshold as int),
                panels: if id < before.panels.len() {
                    before.panels.update(id as int, Some(before.idle.take(threshold as int + 1)))
                } else {
                    before.panels
                },
                events: before.events.push(Event::NewPerformanceChallenge(id)),
            }
        } else {
            before
        },
        AttestorJob::StorageChallenge(_) => before,
    }
}

/// What the jobs of `queue` do to a dispatch, taken in order.
pub open spec fn staff_jobs(start: Staffing, queue: Seq<AttestorJob<u32, u32>>, threshold: nat) -> Staffing
    decreases queue.len(),
{
    if queue.len() == 0 {
        start
    } else {
        staff_job(staff_jobs(start, queue.drop_last(), threshold), queue.last(), threshold)
    }
}

/// Whether `job` asks for a performance challenge.
pub open spec fn is_performance_job(job: AttestorJob<u32, u32>) -> bool {
    job is PerformanceChallenge
}

/// The staffing threshold: a performance job is staffed only where more
/// than `threshold` attestors are idle. Its panel then holds
/// `threshold + 1` attestors, all of them idle before; exactly one of
/// them, the last, is idle no longer, and one event is raised. Where no
/// more than `threshold` are idle, nothing changes.
pub proof fn lemma_staffing_threshold(before: Staffing, id: u32, threshold: nat)
    requires
        before.idle.no_duplicates(),
    ensures
        ({
            let after = staff_job(before, AttestorJob::PerformanceChallenge(id), threshold);
            let panel = before.idle.take(threshold as int + 1);
            &&& before.idle.len() <= threshold ==> after == before
            &&& before.idle.len() > threshold ==> {
                &&& id < before.panels.len() ==> after.panels[id as int] == Some(panel)
                &&& after.panels.len() == before.panels.len()
                &&& forall|other: int|
                    0 <= other < before.panels.len() && other != id ==> after.panels[other]
                        == before.panels[other]
                &&& panel.len() == threshold + 1
                &&& after.idle.len() == before.idle.len() - 1
                &&& after.idle.no_duplicates()
                &&& forall|i: int|
                    0 <= i < panel.len() ==> (after.idle.contains(#[trigger] panel[i]) <==> i
                        != threshold)
                &&& forall|attestor: u32|
                    before.idle.contains(attestor) && attestor != panel[threshold as int]
                        ==> after.idle.contains(attestor)
                &&& after.events == before.events.push(Event::NewPerformanceChallenge(id))
            }
        }),
{
    if before.idle.len() > threshold {
        let after = staff_job(before, AttestorJob::PerformanceChallenge(id), threshold);
        let panel = before.idle.take(threshold as int + 1);
        lemma_removed_at(before.idle, threshold as int);
        assert forall|i: int| 0 <= i < panel.len() implies (after.idle.contains(
            #[trigger] panel[i],
        ) <==> i != threshold) by {
            assert(panel[i] == before.idle[i]);
            if i != threshold {
                assert(before.idle[i] != before.idle[threshold as int]);
                assert(before.idle.contains(before.idle[i]));
            }
        }
    }
}

/// While no more than `threshold` attestors are idle, a pass over any
/// queue staffs nothing.
pub proof fn lemma_too_few_idle(start: Staffing, queue: Seq<AttestorJob<u32, u32>>, threshold: nat)
    requires
        start.idle.len() <= threshold,
    ensures
        staff_jobs(start, queue, threshold) == start,
    decreases queue.len(),
{
    if queue.len() > 0 {
        lemma_too_few_idle(start, queue.drop_last(), threshold);
    }
}

/// A pass over a queue that holds no performance job staffs nothing.
pub proof fn lemma_no_performance_job(start: Staffing, queue: Seq<AttestorJob<u32, u32>>, threshold: nat)
    requires
        forall|i: int| 0 <= i < queue.len() ==> !is_performance_job(#[trigger] queue[i]),
    ensures
        staff_jobs(start, queue, threshold) == start,
    decreases queue.len(),
{
    if queue.len() > 0 {
        assert forall|i: int| 0 <= i < queue.drop_last().len() implies !is_performance_job(
            #[trigger] queue.drop_last()[i],
        ) by {
            assert(queue.drop_last()[i] == queue[i]);
        }
        lemma_no_performance_job(start, queue.drop_last(), threshold);
        assert(!is_performance_job(queue[queue.len() - 1]));
    }
}

impl Module {
    /// Every record's id is its place in its table, the counters from
    /// which ids are taken point behind their tables, and the registry
    /// lists nobody twice.
    pub open spec fn wf(&self) -> bool {
        &&& self.roles.wf()
        &&& self.next_user_id == self.users.len()
        &&& self.next_feed_id == self.feeds.len()
        &&& self.next_plan_id == self.plans.len()
        &&& self.next_challenge_id == self.challenges.len()
        &&& self.next_attestation_id <= self.performance_challenges.len()
        &&& forall|i: int| 0 <= i < self.users.len() ==> (#[trigger] self.users[i]).id == i
        &&& forall|i: int| 0 <= i < self.feeds.len() ==> (#[trigger] self.feeds[i]).id == i
        &&& forall|i: int| 0 <= i < self.plans.len() ==> (#[trigger] self.plans[i]).id == i
        &&& forall|i: int| 0 <= i < self.contracts.len() ==> (#[trigger] self.contracts[i]).id == i
        &&& forall|i: int|
            0 <= i < self.challenges.len() ==> (#[trigger] self.challenges[i]).id == i
        &&& forall|i: int|
            0 <= i < self.performance_challenges.len() ==> (
            #[trigger] self.performance_challenges[i]).id == i
    }

    /// Whether the two states hold the same users.
    pub open spec fn same_users(&self, other: &Module) -> bool {
        &&& self.users == other.users
        &&& self.next_user_id == other.next_user_id
    }

    /// Whether the two states hold the same feeds.
    pub open spec fn same_feeds(&self, other: &Module) -> bool {
        &&& self.feeds == other.feeds
        &&& self.next_feed_id == other.next_feed_id
    }

    /// Whether the two states hold the same plans.
    pub open spec fn same_plans(&self, other: &Module) -> bool {
        &&& self.plans == other.plans
        &&& self.next_plan_id == other.next_plan_id
    }

    /// Whether the two states hold the same contracts.
    pub open spec fn same_contracts(&self, other: &Module) -> bool {
        &&& self.contracts == other.contracts
        &&& self.next_contract_id == other.next_contract_id
    }

    /// Whether the two states hold the same feeds, plans and contracts.
    pub open spec fn same_hosting(&self, other: &Module) -> bool {
        &&& self.same_feeds(other)
        &&& self.same_plans(other)
        &&& self.same_contracts(other)
    }

    /// Whether the two states hold the same storage challenges.
    pub open spec fn same_storage_challenges(&self, other: &Module) -> bool {
        &&& self.challenges == other.challenges
        &&& self.next_challenge_id == other.next_challenge_id
    }

    /// Whether the two states agree on the nonce, on the staffing
    /// threshold and on the id that the next performance challenge gets.
    pub open spec fn same_settings(&self, other: &Module) -> bool {
        &&& self.nonce == other.nonce
        &&& self.performance_attestor_count == other.performance_attestor_count
        &&& self.next_attestation_id == other.next_attestation_id
    }

    /// Whether the two states agree on everything but the registry, the
    /// job queue and the performance challenges.
    pub open spec fn same_records(&self, other: &Module) -> bool {
        &&& self.same_users(other)
        &&& self.same_hosting(other)
        &&& self.same_storage_challenges(other)
        &&& self.same_settings(other)
    }

    /// Whether the performance challenges of the two states differ in
    /// their panels at most.
    pub open spec fn same_challenges_but_panels(&self, other: &Module) -> bool {
        &&& self.performance_challenges.len() == other.performance_challenges.len()
        &&& forall|i: int|
            0 <= i < self.performance_challenges.len() ==> {
                &&& (#[trigger] self.performance_challenges[i]).id
                    == other.performance_challenges[i].id
                &&& self.performance_challenges[i].contract
                    == other.performance_challenges[i].contract
            }
    }

    /// The dispatch as it stands in this state, with `events` raised so far.
    pub open spec fn staffing(&self, events: Seq<Event>) -> Staffing {
        Staffing {
            idle: self.roles.members(Role::IdleAttestor),
            panels: panels(self.performance_challenges@),
            events,
        }
    }

    /// An empty state with the given staffing threshold.
    pub fn new(performance_attestor_count: u8) -> (state: Module)
        ensures
            state.wf(),
            state.performance_attestor_count == performance_attestor_count,
            state.nonce == 0,
            state.next_contract_id == 0,
            state.next_attestation_id == 0,
            state.job_queue@.len() == 0,
            state.users@.len() == 0,
            state.feeds@.len() == 0,
            state.plans@.len() == 0,
            state.contracts@.len() == 0,
            state.challenges@.len() == 0,
            state.performance_challenges@.len() == 0,
            forall|role: Role| #[trigger] state.roles.members(role) == Seq::<u32>::empty(),
    {
        Module {
            feeds: Vec::new(),
            users: Vec::new(),
            contracts: Vec::new(),
            challenges: Vec::new(),
            plans: Vec::new(),
            performance_challenges: Vec::new(),
            next_feed_id: 0,
            next_user_id: 0,
            next_contract_id: 0,
            next_challenge_id: 0,
            next_plan_id: 0,
            next_attestation_id: 0,
            nonce: 0,
            job_queue: Vec::new(),
            roles: RoleRegistry::new(),
            performance_attestor_count,
        }
    }

    /// Scans the idle attestors for a panel: counts them one by one, and
    /// stops at the first whose count exceeds `threshold`. The panel is
    /// everyone met up to there.
    pub fn scan_for_panel(idle: &Vec<u32>, threshold: u8) -> (panel: Option<Vec<u32>>)
        ensures
            match panel {
                Some(attestors) => idle@.len() > threshold && attestors@ == idle@.take(
                    threshold + 1,
                ),
                None => idle@.len() <= threshold,
            },
    {
        let mut attestor_count: u32 = 0;
        let mut performance_attestors: Vec<u32> = Vec::new();
        let mut i: usize = 0;
        while i < idle.len()
            invariant
                i <= idle.len(),
                attestor_count == i,
                i <= threshold,
                performance_attestors@ == idle@.take(i as int),
            decreases idle.len() - i,
        {
            attestor_count += 1;
            performance_attestors.push(idle[i]);
            proof {
                assert(idle@.take(i + 1) == idle@.take(i as int).push(idle@[i as int]));
            }
            if attestor_count > threshold as u32 {
                return Some(performance_attestors);
            }
            i += 1;
        }
        None
    }

    /// Marks `attestors` idle, puts `jobs` in front of the queue, and goes
    /// through the queue once, staffing what can be staffed. The queue
    /// keeps every job, staffed or not. Returns the events raised.
    pub fn give_attestors_jobs(&mut self, attestors: &[u32], jobs: &[AttestorJob<u32, u32>]) -> (events:
        Vec<Event>)
        requires
            old(self).wf(),
            jobs@.len() + old(self).job_queue@.len() <= usize::MAX,
        ensures
            final(self).wf(),
            final(self).same_records(old(self)),
            final(self).same_challenges_but_panels(old(self)),
            final(self).roles.same_but(&old(self).roles, Role::IdleAttestor),
            final(self).job_queue@ == jobs@ + old(self).job_queue@,
            final(self).staffing(events@) == staff_jobs(
                Staffing {
                    idle: mark_idle(old(self).roles.members(Role::IdleAttestor), attestors@),
                    panels: panels(old(self).performance_challenges@),
                    events: Seq::empty(),
                },
                jobs@ + old(self).job_queue@,
                old(self).performance_attestor_count as nat,
            ),
    {
        let ghost before = *self;
        let mut a: usize = 0;
        while a < attestors.len()
            invariant
                a <= attestors.len(),
                self.wf(),
                self.same_records(&before),
                self.performance_challenges == before.performance_challenges,
                self.job_queue == before.job_queue,
                self.roles.same_but(&before.roles, Role::IdleAttestor),
                self.roles.members(Role::IdleAttestor) == mark_idle(
                    before.roles.members(Role::IdleAttestor),
                    attestors@.take(a as int),
                ),
            decreases attestors.len() - a,
        {
            self.roles.set(Role::IdleAttestor, attestors[a], true);
            proof {
                assert(attestors@.take(a + 1).drop_last() == attestors@.take(a as int));
            }
            a += 1;
        }
        proof {
            assert(attestors@.take(attestors.len() as int) == attestors@);
        }
        let mut queue: Vec<AttestorJob<u32, u32>> = Vec::new();
        let mut n: usize = 0;
        while n < jobs.len()
            invariant
                n <= jobs.len(),
                queue@ == jobs@.take(n as int),
            decreases jobs.len() - n,
        {
            queue.push(jobs[n]);
            proof {
                assert(jobs@.take(n + 1) == jobs@.take(n as int).push(jobs@[n as int]));
            }
            n += 1;
        }
        n = 0;
        while n < self.job_queue.len()
            invariant
                n <= self.job_queue.len(),
                jobs@.len() + self.job_queue@.len() <= usize::MAX,
                queue@ == jobs@ + self.job_queue@.take(n as int),
            decreases self.job_queue.len() - n,
        {
            queue.push(self.job_queue[n]);
            proof {
                assert(self.job_queue@.take(n + 1) == self.job_queue@.take(n as int).push(
                    self.job_queue@[n as int],
                ));
                assert(jobs@ + self.job_queue@.take(n + 1) == (jobs@ + self.job_queue@.take(
                    n as int,
                )).push(self.job_queue@[n as int]));
            }
            n += 1;
        }
        proof {
            assert(self.job_queue@.take(self.job_queue.len() as int) == self.job_queue@);
        }
        let ghost start = self.staffing(Seq::empty());
        let threshold = self.performance_attestor_count;
        let mut events: Vec<Event> = Vec::new();
        let mut j: usize = 0;
        while j < queue.len()
            invariant
                j <= queue.len(),
                self.wf(),
                self.same_records(&before),
                self.same_challenges_but_panels(&before),
                self.job_queue == before.job_queue,
                self.roles.same_but(&before.roles, Role::IdleAttestor),
                threshold == before.performance_attestor_count,
                self.staffing(events@) == staff_jobs(start, queue@.take(j as int), threshold as nat),
            decreases queue.len() - j,
        {
            let ghost reached = self.staffing(events@);
            proof {
                assert(queue@.take(j + 1).drop_last() == queue@.take(j as int));
            }
            match queue[j] {
                AttestorJob::PerformanceChallenge(challenge_id) => {
                    let idle = self.roles.iterate_present(Role::IdleAttestor);
                    match Self::scan_for_panel(&idle, threshold) {
                        Some(performance_attestors) => {
                            let last = performance_attestors[threshold as usize];
                            proof {
                                assert(self.roles.members(Role::IdleAttestor).no_duplicates());
                                assert(idle@[threshold as int] == last);
                                lemma_removed_at(idle@, threshold as int);
                                assert(idle@.contains(last));
                                assert(idle@[idle@.index_of(last)] == last);
                                assert(idle@.index_of(last) == threshold);
                            }
                            self.roles.set(Role::IdleAttestor, last, false);
                            if (challenge_id as usize) < self.performance_challenges.len() {
                                let contract =
                                    self.performance_challenges[challenge_id as usize].contract;
                                let ghost table = self.performance_challenges@;
                                self.performance_challenges.set(
                                    challenge_id as usize,
                                    PerformanceChallenge {
                                        id: challenge_id,
                                        attestors: Some(performance_attestors),
                                        contract,
                                    },
                                );
                                proof {
                                    assert(panels(self.performance_challenges@) =~= panels(
                                        table,
                                    ).update(challenge_id as int, Some(idle@.take(threshold + 1))));
                                }
                            }
                            events.push(Event::NewPerformanceChallenge(challenge_id));
                        },
                        None => {},
                    }
                },
                AttestorJob::StorageChallenge(_) => {},
            }
            proof {
                assert(self.staffing(events@) == staff_job(reached, queue@[j as int], threshold as nat));
            }
            j += 1;
        }
        proof {
            assert(queue@.take(queue.len() as int) == queue@);
        }
        self.job_queue = queue;
        events
    }
}

} // verus!
