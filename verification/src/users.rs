//! The operations on users: looking a participant up by its account, and
//! registering it for a service or taking the service back.

use vstd::prelude::*;
use crate::dispatch::{is_performance_job, lemma_no_performance_job, lemma_too_few_idle, mark_idle, panels, staff_jobs, Module, Staffing};
use crate::records::{AccountId, AttestorJob, Digest, Event, Form, Moment, User};
use crate::roles::{with_member, without_member, lemma_with_member, lemma_without_member, Role};

verus! {

/// A participant that offers no service.
pub open spec fn blank_user(id: u32, address: AccountId) -> User {
    User {
        id,
        address,
        attestor_key: None,
        encoder_key: None,
        hoster_key: None,
        attestor_form: None,
        encoder_form: None,
        hoster_form: None,
    }
}

/// Whether a user is recorded for `address`.
pub open spec fn known_user(users: Seq<User>, address: AccountId) -> bool {
    exists|i: int| 0 <= i < users.len() && (#[trigger] users[i]).address == address
}

/// Whether `place` is the first at which a user is recorded for `address`.
pub open spec fn is_user_place(users: Seq<User>, address: AccountId, place: int) -> bool {
    &&& 0 <= place < users.len()
    &&& users[place].address == address
    &&& forall|j: int| 0 <= j < place ==> (#[trigger] users[j]).address != address
}

/// The place of the user of `address`: where it is recorded, or, if it is
/// not, where it will be once it has been.
pub open spec fn user_place(users: Seq<User>, address: AccountId) -> int {
    if known_user(users, address) {
        choose|place: int| is_user_place(users, address, place)
    } else {
        users.len() as int
    }
}

/// The users once `address` has been looked up: a blank user is added for
/// an account that had none.
pub open spec fn users_with(users: Seq<User>, address: AccountId) -> Seq<User> {
    if known_user(users, address) {
        users
    } else {
        users.push(blank_user(users.len() as u32, address))
    }
}

/// The first place of an account is its place.
pub proof fn lemma_user_place(users: Seq<User>, address: AccountId, place: int)
    requires
        is_user_place(users, address, place),
    ensures
        known_user(users, address),
        user_place(users, address) == place,
{
    let chosen = choose|other: int| is_user_place(users, address, other);
    assert(is_user_place(users, address, chosen));
    if chosen < place {
        assert(users[chosen].address != address);
    }
    if place < chosen {
        assert(users[place].address != address);
    }
}

/// A participant that registers as an attestor is idle afterwards,
/// unless the dispatch that follows staffs a job: it staffs none where
/// the queue holds no performance job, or where, the participant
/// included, no more than `threshold` attestors are idle.
pub proof fn lemma_registered_attestor_is_idle(
    idle: Seq<u32>,
    id: u32,
    table: Seq<Option<Seq<u32>>>,
    queue: Seq<AttestorJob<u32, u32>>,
    threshold: nat,
)
    requires
        idle.no_duplicates(),
        with_member(idle, id).len() <= threshold || forall|i: int|
            0 <= i < queue.len() ==> !is_performance_job(#[trigger] queue[i]),
    ensures
        staff_jobs(
            Staffing { idle: with_member(idle, id), panels: table, events: Seq::empty() },
            queue,
            threshold,
        ).idle.contains(id),
{
    let start = Staffing { idle: with_member(idle, id), panels: table, events: Seq::empty() };
    lemma_with_member(idle, id);
    if with_member(idle, id).len() <= threshold {
        lemma_too_few_idle(start, queue, threshold);
    } else {
        lemma_no_performance_job(start, queue, threshold);
    }
}

impl Module {
    /// Where the user of `account_id` is recorded, if it is.
    pub fn find_user(&self, account_id: AccountId) -> (found: Option<usize>)
        ensures
            match found {
                Some(place) => is_user_place(self.users@, account_id, place as int)
                    && known_user(self.users@, account_id) && place == user_place(
                    self.users@,
                    account_id,
                ),
                None => !known_user(self.users@, account_id),
            },
    {
        let mut i: usize = 0;
        while i < self.users.len()
            invariant
                i <= self.users.len(),
                forall|j: int| 0 <= j < i ==> (#[trigger] self.users@[j]).address != account_id,
            decreases self.users.len() - i,
        {
            if self.users[i].address == account_id {
                proof {
                    lemma_user_place(self.users@, account_id, i as int);
                }
                return Some(i);
            }
            i += 1;
        }
        None
    }

    /// The id of the user of `account_id`. An account that has no user yet
    /// gets a blank one, under the next free id.
    pub fn load_user(&mut self, account_id: AccountId) -> (id: u32)
        requires
            old(self).wf(),
            !known_user(old(self).users@, account_id) ==> old(self).next_user_id < u32::MAX,
        ensures
            final(self).wf(),
            id == user_place(old(self).users@, account_id),
            id < final(self).users@.len(),
            final(self).users@ == users_with(old(self).users@, account_id),
            *final(self) == (Module {
                users: final(self).users,
                next_user_id: final(self).next_user_id,
                ..*old(self)
            }),
    {
        match self.find_user(account_id) {
            Some(place) => place as u32,
            None => {
                let user_id = self.next_user_id;
                let new_user = User::new(user_id, account_id);
                self.save_user(new_user);
                self.next_user_id = user_id + 1;
                user_id
            },
        }
    }

    /// Records `user` under its id: in place of the user that has this id,
    /// or behind the last one.
    pub fn save_user(&mut self, user: User)
        requires
            user.id <= old(self).users@.len(),
        ensures
            final(self).users@ == if user.id < old(self).users@.len() {
                old(self).users@.update(user.id as int, user)
            } else {
                old(self).users@.push(user)
            },
            *final(self) == (Module { users: final(self).users, ..*old(self) }),
    {
        if (user.id as usize) < self.users.len() {
            let place = user.id as usize;
            self.users.set(place, user);
        } else {
            self.users.push(user);
        }
    }

    /// Registers the caller as an encoder: records key and form, and makes
    /// it an encoder and an idle one.
    pub fn register_encoder(&mut self, signer: AccountId, encoder_key: Digest, form: Form<Moment>)
        requires
            old(self).wf(),
            !known_user(old(self).users@, signer) ==> old(self).next_user_id < u32::MAX,
        ensures
            final(self).wf(),
            ({
                let id = user_place(old(self).users@, signer);
                let loaded = users_with(old(self).users@, signer);
                &&& final(self).users@ == loaded.update(
                    id,
                    (User { encoder_key: Some(encoder_key), encoder_form: Some(form), ..loaded[id] }),
                )
                &&& final(self).roles.members(Role::Encoder) == with_member(
                    old(self).roles.members(Role::Encoder),
                    id as u32,
                )
                &&& final(self).roles.members(Role::IdleEncoder) == with_member(
                    old(self).roles.members(Role::IdleEncoder),
                    id as u32,
                )
                &&& final(self).roles.members(Role::Encoder).contains(id as u32)
                &&& final(self).roles.members(Role::IdleEncoder).contains(id as u32)
            }),
            final(self).roles.same_but_two(&old(self).roles, Role::Encoder, Role::IdleEncoder),
            *final(self) == (Module {
                users: final(self).users,
                next_user_id: final(self).next_user_id,
                roles: final(self).roles,
                ..*old(self)
            }),
    {
        let id = self.load_user(signer);
        self.users[id as usize].encoder_form = Some(form);
        self.users[id as usize].encoder_key = Some(encoder_key);
        proof {
            lemma_with_member(self.roles.members(Role::Encoder), id);
            lemma_with_member(self.roles.members(Role::IdleEncoder), id);
        }
        self.roles.set(Role::Encoder, id, true);
        self.roles.set(Role::IdleEncoder, id, true);
    }

    /// Registers the caller as a hoster: records key and form, and makes
    /// it a hoster and an idle one.
    pub fn register_hoster(&mut self, signer: AccountId, hoster_key: Digest, form: Form<Moment>)
        requires
            old(self).wf(),
            !known_user(old(self).users@, signer) ==> old(self).next_user_id < u32::MAX,
        ensures
            final(self).wf(),
            ({
                let id = user_place(old(self).users@, signer);
                let loaded = users_with(old(self).users@, signer);
                &&& final(self).users@ == loaded.update(
                    id,
                    (User { hoster_key: Some(hoster_key), hoster_form: Some(form), ..loaded[id] }),
                )
                &&& final(self).roles.members(Role::Hoster) == with_member(
                    old(self).roles.members(Role::Hoster),
                    id as u32,
                )
                &&& final(self).roles.members(Role::IdleHoster) == with_member(
                    old(self).roles.members(Role::IdleHoster),
                    id as u32,
                )
                &&& final(self).roles.members(Role::Hoster).contains(id as u32)
                &&& final(self).roles.members(Role::IdleHoster).contains(id as u32)
            }),
            final(self).roles.same_but_two(&old(self).roles, Role::Hoster, Role::IdleHoster),
            *final(self) == (Module {
                users: final(self).users,
                next_user_id: final(self).next_user_id,
                roles: final(self).roles,
                ..*old(self)
            }),
    {
        let id = self.load_user(signer);
        self.users[id as usize].hoster_form = Some(form);
        self.users[id as usize].hoster_key = Some(hoster_key);
        proof {
            lemma_with_member(self.roles.members(Role::Hoster), id);
            lemma_with_member(self.roles.members(Role::IdleHoster), id);
        }
        self.roles.set(Role::Hoster, id, true);
        self.roles.set(Role::IdleHoster, id, true);
    }

    /// Registers the caller as an attestor: records key and form, makes it
    /// an attestor, marks it idle and dispatches. The dispatch may take
    /// it, or another attestor, out of the idle ones again at once.
    pub fn register_attestor(&mut self, signer: AccountId, attestor_key: Digest, form: Form<Moment>) -> (events:
        Vec<Event>)
        requires
            old(self).wf(),
            !known_user(old(self).users@, signer) ==> old(self).next_user_id < u32::MAX,
        ensures
            final(self).wf(),
            ({
                let id = user_place(old(self).users@, signer);
                let loaded = users_with(old(self).users@, signer);
                &&& final(self).users@ == loaded.update(
                    id,
                    (User {
                        attestor_key: Some(attestor_key),
                        attestor_form: Some(form),
                        ..loaded[id]
                    }),
                )
                &&& final(self).roles.members(Role::Attestor) == with_member(
                    old(self).roles.members(Role::Attestor),
                    id as u32,
                )
                &&& final(self).roles.members(Role::Attestor).contains(id as u32)
                &&& final(self).staffing(events@) == staff_jobs(
                    Staffing {
                        idle: with_member(old(self).roles.members(Role::IdleAttestor), id as u32),
                        panels: panels(old(self).performance_challenges@),
                        events: Seq::empty(),
                    },
                    old(self).job_queue@,
                    old(self).performance_attestor_count as nat,
                )
                &&& (with_member(old(self).roles.members(Role::IdleAttestor), id as u32).len() <= old(
                    self,
                ).performance_attestor_count || forall|i: int|
                    0 <= i < old(self).job_queue@.len() ==> !is_performance_job(
                        #[trigger] old(self).job_queue@[i],
                    )) ==> final(self).roles.members(Role::IdleAttestor).contains(id as u32)
            }),
            final(self).roles.same_but_two(&old(self).roles, Role::Attestor, Role::IdleAttestor),
            final(self).same_challenges_but_panels(old(self)),
            final(self).job_queue@ == old(self).job_queue@,
            final(self).same_hosting(old(self)),
            final(self).same_storage_challenges(old(self)),
            final(self).same_settings(old(self)),
    {
        let id = self.load_user(signer);
        self.users[id as usize].attestor_form = Some(form);
        self.users[id as usize].attestor_key = Some(attestor_key);
        proof {
            lemma_with_member(self.roles.members(Role::Attestor), id);
        }
        self.roles.set(Role::Attestor, id, true);
        let attestors: Vec<u32> = vec![id];
        let jobs: Vec<AttestorJob<u32, u32>> = Vec::new();
        let queued = self.job_queue.len();
        proof {
            assert(jobs@.len() + self.job_queue@.len() == queued);
            assert(attestors@.drop_last() == Seq::<u32>::empty());
            assert(mark_idle(self.roles.members(Role::IdleAttestor), attestors@) == with_member(
                self.roles.members(Role::IdleAttestor),
                id,
            )) by {
                assert(mark_idle(self.roles.members(Role::IdleAttestor), attestors@.drop_last())
                    == self.roles.members(Role::IdleAttestor));
            }
            assert(jobs@ + self.job_queue@ == self.job_queue@);
            assert(old(self).roles.members(Role::IdleAttestor).no_duplicates());
            if with_member(old(self).roles.members(Role::IdleAttestor), id).len()
                <= self.performance_attestor_count || forall|i: int|
                0 <= i < self.job_queue@.len() ==> !is_performance_job(
                    #[trigger] self.job_queue@[i],
                ) {
                lemma_registered_attestor_is_idle(
                    old(self).roles.members(Role::IdleAttestor),
                    id,
                    panels(self.performance_challenges@),
                    self.job_queue@,
                    self.performance_attestor_count as nat,
                );
            }
        }
        self.give_attestors_jobs(attestors.as_slice(), jobs.as_slice())
    }

    /// Takes the encoder's service back from the caller: clears key and
    /// form, and the caller is no encoder and no idle one any more.
    pub fn unregister_encoder(&mut self, signer: AccountId)
        requires
            old(self).wf(),
            !known_user(old(self).users@, signer) ==> old(self).next_user_id < u32::MAX,
        ensures
            final(self).wf(),
            ({
                let id = user_place(old(self).users@, signer);
                let loaded = users_with(old(self).users@, signer);
                &&& final(self).users@ == loaded.update(
                    id,
                    (User { encoder_key: None, encoder_form: None, ..loaded[id] }),
                )
                &&& final(self).roles.members(Role::Encoder) == without_member(
                    old(self).roles.members(Role::Encoder),
                    id as u32,
                )
                &&& final(self).roles.members(Role::IdleEncoder) == without_member(
                    old(self).roles.members(Role::IdleEncoder),
                    id as u32,
                )
                &&& !final(self).roles.members(Role::Encoder).contains(id as u32)
                &&& !final(self).roles.members(Role::IdleEncoder).contains(id as u32)
            }),
            final(self).roles.same_but_two(&old(self).roles, Role::Encoder, Role::IdleEncoder),
            *final(self) == (Module {
                users: final(self).users,
                next_user_id: final(self).next_user_id,
                roles: final(self).roles,
                ..*old(self)
            }),
    {
        let id = self.load_user(signer);
        self.users[id as usize].encoder_form = None;
        self.users[id as usize].encoder_key = None;
        proof {
            lemma_without_member(self.roles.members(Role::Encoder), id);
            lemma_without_member(self.roles.members(Role::IdleEncoder), id);
        }
        self.roles.set(Role::Encoder, id, false);
        self.roles.set(Role::IdleEncoder, id, false);
    }

    /// Takes the hoster's service back from the caller: clears key and
    /// form, and the caller is no hoster and no idle one any more.
    pub fn unregister_hoster(&mut self, signer: AccountId)
        requires
            old(self).wf(),
            !known_user(old(self).users@, signer) ==> old(self).next_user_id < u32::MAX,
        ensures
            final(self).wf(),
            ({
                let id = user_place(old(self).users@, signer);
                let loaded = users_with(old(self).users@, signer);
                &&& final(self).users@ == loaded.update(
                    id,
                    (User { hoster_key: None, hoster_form: None, ..loaded[id] }),
                )
                &&& final(self).roles.members(Role::Hoster) == without_member(
                    old(self).roles.members(Role::Hoster),
                    id as u32,
                )
                &&& final(self).roles.members(Role::IdleHoster) == without_member(
                    old(self).roles.members(Role::IdleHoster),
                    id as u32,
                )
                &&& !final(self).roles.members(Role::Hoster).contains(id as u32)
                &&& !final(self).roles.members(Role::IdleHoster).contains(id as u32)
            }),
            final(self).roles.same_but_two(&old(self).roles, Role::Hoster, Role::IdleHoster),
            *final(self) == (Module {
                users: final(self).users,
                next_user_id: final(self).next_user_id,
                roles: final(self).roles,
                ..*old(self)
            }),
    {
        let id = self.load_user(signer);
        self.users[id as usize].hoster_form = None;
        self.users[id as usize].hoster_key = None;
        proof {
            lemma_without_member(self.roles.members(Role::Hoster), id);
            lemma_without_member(self.roles.members(Role::IdleHoster), id);
        }
        self.roles.set(Role::Hoster, id, false);
        self.roles.set(Role::IdleHoster, id, false);
    }

    /// Takes the attestor's service back from the caller: clears key and
    /// form, and the caller is no attestor and no idle one any more.
    pub fn unregister_attestor(&mut self, signer: AccountId)
        requires
            old(self).wf(),
            !known_user(old(self).users@, signer) ==> old(self).next_user_id < u32::MAX,
        ensures
            final(self).wf(),
            ({
                let id = user_place(old(self).users@, signer);
                let loaded = users_with(old(self).users@, signer);
                &&& final(self).users@ == loaded.update(
                    id,
                    (User { attestor_key: None, attestor_form: None, ..loaded[id] }),
                )
                &&& final(self).roles.members(Role::Attestor) == without_member(
                    old(self).roles.members(Role::Attestor),
                    id as u32,
                )
                &&& final(self).roles.members(Role::IdleAttestor) == without_member(
                    old(self).roles.members(Role::IdleAttestor),
                    id as u32,
                )
                &&& !final(self).roles.members(Role::Attestor).contains(id as u32)
                &&& !final(self).roles.members(Role::IdleAttestor).contains(id as u32)
            }),
            final(self).roles.same_but_two(&old(self).roles, Role::Attestor, Role::IdleAttestor),
            *final(self) == (Module {
                users: final(self).users,
                next_user_id: final(self).next_user_id,
                roles: final(self).roles,
                ..*old(self)
            }),
    {
        let id = self.load_user(signer);
        self.users[id as usize].attestor_form = None;
        self.users[id as usize].attestor_key = None;
        proof {
            lemma_without_member(self.roles.members(Role::Attestor), id);
            lemma_without_member(self.roles.members(Role::IdleAttestor), id);
        }
        self.roles.set(Role::Attestor, id, false);
        self.roles.set(Role::IdleAttestor, id, false);
    }
}

} // verus!
