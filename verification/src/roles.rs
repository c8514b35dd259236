//! The registry of roles: which participants hold which role, in the order
//! in which they came to hold it.

use vstd::prelude::*;

verus! {

/// What a participant can be registered as. Each service has a base role
/// and a role for those of it who are free to take work.
#[derive(Clone, Copy, Debug, PartialEq, Eq, Structural)]
pub enum Role {
    Encoder,
    IdleEncoder,
    Hoster,
    IdleHoster,
    Attestor,
    IdleAttestor,
}

/// `members` with `participant` added at the end, unless it is there already.
pub open spec fn with_member(members: Seq<u32>, participant: u32) -> Seq<u32> {
    if members.contains(participant) {
        members
    } else {
        members.push(participant)
    }
}

/// `members` without `participant`; the others keep their order.
pub open spec fn without_member(members: Seq<u32>, participant: u32) -> Seq<u32> {
    if members.contains(participant) {
        members.remove(members.index_of(participant))
    } else {
        members
    }
}

/// Adding a member keeps a list free of repetitions, and makes it a member.
pub proof fn lemma_with_member(members: Seq<u32>, participant: u32)
    requires
        members.no_duplicates(),
    ensures
        with_member(members, participant).no_duplicates(),
        with_member(members, participant).contains(participant),
        forall|other: u32|
            other != participant ==> (with_member(members, participant).contains(other)
                <==> members.contains(other)),
{
    let after = with_member(members, participant);
    if !members.contains(participant) {
        assert(after[members.len() as int] == participant);
        assert forall|other: u32| other != participant && after.contains(other) implies members.contains(
            other,
        ) by {
            let i = choose|i: int| 0 <= i < after.len() && after[i] == other;
            assert(members[i] == other);
        }
        assert forall|other: u32| members.contains(other) implies after.contains(other) by {
            let i = choose|i: int| 0 <= i < members.len() && members[i] == other;
            assert(after[i] == other);
        }
    }
}

/// Removing a member keeps a list free of repetitions, and leaves it out.
pub proof fn lemma_without_member(members: Seq<u32>, participant: u32)
    requires
        members.no_duplicates(),
    ensures
        without_member(members, participant).no_duplicates(),
        !without_member(members, participant).contains(participant),
        forall|other: u32|
            other != participant ==> (without_member(members, participant).contains(other)
                <==> members.contains(other)),
{
    let after = without_member(members, participant);
    if members.contains(participant) {
        let at = members.index_of(participant);
        lemma_removed_at(members, at);
    } else {
    }
}

/// Taking out the entry at `at` keeps a list free of repetitions, and
/// leaves exactly the value that stood there out.
pub proof fn lemma_removed_at(members: Seq<u32>, at: int)
    requires
        members.no_duplicates(),
        0 <= at < members.len(),
    ensures
        members.remove(at).no_duplicates(),
        !members.remove(at).contains(members[at]),
        forall|other: u32|
            other != members[at] ==> (members.remove(at).contains(other) <==> members.contains(
                other,
            )),
{
    let after = members.remove(at);
    assert forall|i: int, j: int| 0 <= i < after.len() && 0 <= j < after.len() && i != j implies after[i]
        != after[j] by {
        let si = if i < at { i } else { i + 1 };
        let sj = if j < at { j } else { j + 1 };
        assert(after[i] == members[si]);
        assert(after[j] == members[sj]);
    }
    if after.contains(members[at]) {
        let i = choose|i: int| 0 <= i < after.len() && after[i] == members[at];
        let si = if i < at { i } else { i + 1 };
        assert(after[i] == members[si]);
    }
    assert forall|other: u32| other != members[at] && members.contains(other) implies after.contains(
        other,
    ) by {
        let i = choose|i: int| 0 <= i < members.len() && members[i] == other;
        let ai = if i < at { i } else { i - 1 };
        assert(after[ai] == other);
    }
    assert forall|other: u32| after.contains(other) implies members.contains(other) by {
        let i = choose|i: int| 0 <= i < after.len() && after[i] == other;
        let si = if i < at { i } else { i + 1 };
        assert(members[si] == other);
    }
}

/// Where `participant` stands in `members`, if it does.
pub fn position_of(members: &Vec<u32>, participant: u32) -> (found: Option<usize>)
    ensures
        match found {
            Some(at) => at < members.len() && members@[at as int] == participant,
            None => !members@.contains(participant),
        },
{
    let mut i: usize = 0;
    while i < members.len()
        invariant
            i <= members.len(),
            forall|k: int| 0 <= k < i ==> members@[k] != participant,
        decreases members.len() - i,
    {
        if members[i] == participant {
            return Some(i);
        }
        i += 1;
    }
    None
}

fn insert_member(members: &mut Vec<u32>, participant: u32)
    requires
        old(members)@.no_duplicates(),
    ensures
        final(members)@ == with_member(old(members)@, participant),
        final(members)@.no_duplicates(),
{
    proof {
        lemma_with_member(members@, participant);
    }
    if position_of(members, participant).is_none() {
        members.push(participant);
    }
}

fn remove_member(members: &mut Vec<u32>, participant: u32)
    requires
        old(members)@.no_duplicates(),
    ensures
        final(members)@ == without_member(old(members)@, participant),
        final(members)@.no_duplicates(),
{
    proof {
        lemma_without_member(members@, participant);
    }
    match position_of(members, participant) {
        Some(at) => {
            proof {
                let chosen = members@.index_of(participant);
                assert(members@.contains(participant));
                assert(members@[chosen] == participant);
                assert(chosen == at);
            }
            members.remove(at);
        },
        None => (),
    }
}

/// For each role the participants that hold it, each once, in the order in
/// which they came to hold it. Nothing ties a role to its idle counterpart:
/// that is left to the callers.
pub struct RoleRegistry {
    encoders: Vec<u32>,
    idle_encoders: Vec<u32>,
    hosters: Vec<u32>,
    idle_hosters: Vec<u32>,
    attestors: Vec<u32>,
    idle_attestors: Vec<u32>,
}

impl RoleRegistry {
    /// The holders of `role`, in the order in which a scan meets them.
    pub closed spec fn members(&self, role: Role) -> Seq<u32> {
        match role {
            Role::Encoder => self.encoders@,
            Role::IdleEncoder => self.idle_encoders@,
            Role::Hoster => self.hosters@,
            Role::IdleHoster => self.idle_hosters@,
            Role::Attestor => self.attestors@,
            Role::IdleAttestor => self.idle_attestors@,
        }
    }

    /// No participant is listed twice under one role.
    pub open spec fn wf(&self) -> bool {
        forall|role: Role| #[trigger] self.members(role).no_duplicates()
    }

    /// Whether only the holders of `role` may differ between the two.
    pub open spec fn same_but(&self, other: &RoleRegistry, role: Role) -> bool {
        forall|any: Role| any != role ==> #[trigger] self.members(any) == other.members(any)
    }

    /// Whether only the holders of `first` and of `second` may differ
    /// between the two.
    pub open spec fn same_but_two(&self, other: &RoleRegistry, first: Role, second: Role) -> bool {
        forall|any: Role|
            any != first && any != second ==> #[trigger] self.members(any) == other.members(any)
    }

    /// A registry in which nobody holds any role.
    pub fn new() -> (registry: RoleRegistry)
        ensures
            registry.wf(),
            forall|role: Role| #[trigger] registry.members(role) == Seq::<u32>::empty(),
    {
        RoleRegistry {
            encoders: Vec::new(),
            idle_encoders: Vec::new(),
            hosters: Vec::new(),
            idle_hosters: Vec::new(),
            attestors: Vec::new(),
            idle_attestors: Vec::new(),
        }
    }

    /// Makes `participant` a holder of `role`, or takes the role from it.
    pub fn set(&mut self, role: Role, participant: u32, present: bool)
        requires
            old(self).wf(),
        ensures
            final(self).wf(),
            final(self).same_but(old(self), role),
            final(self).members(role) == if present {
                with_member(old(self).members(role), participant)
            } else {
                without_member(old(self).members(role), participant)
            },
    {
        proof {
            assert(forall|any: Role| #[trigger] self.members(any).no_duplicates());
            assert(self.members(Role::Encoder).no_duplicates());
            assert(self.members(Role::IdleEncoder).no_duplicates());
            assert(self.members(Role::Hoster).no_duplicates());
            assert(self.members(Role::IdleHoster).no_duplicates());
            assert(self.members(Role::Attestor).no_duplicates());
            assert(self.members(Role::IdleAttestor).no_duplicates());
        }
        if present {
            match role {
                Role::Encoder => insert_member(&mut self.encoders, participant),
                Role::IdleEncoder => insert_member(&mut self.idle_encoders, participant),
                Role::Hoster => insert_member(&mut self.hosters, participant),
                Role::IdleHoster => insert_member(&mut self.idle_hosters, participant),
                Role::Attestor => insert_member(&mut self.attestors, participant),
                Role::IdleAttestor => insert_member(&mut self.idle_attestors, participant),
            }
        } else {
            match role {
                Role::Encoder => remove_member(&mut self.encoders, participant),
                Role::IdleEncoder => remove_member(&mut self.idle_encoders, participant),
                Role::Hoster => remove_member(&mut self.hosters, participant),
                Role::IdleHoster => remove_member(&mut self.idle_hosters, participant),
                Role::Attestor => remove_member(&mut self.attestors, participant),
                Role::IdleAttestor => remove_member(&mut self.idle_attestors, participant),
            }
        }
    }

    /// Whether `participant` holds `role`; who was never entered does not.
    pub fn is_present(&self, role: Role, participant: u32) -> (present: bool)
        ensures
            present == self.members(role).contains(participant),
    {
        let members = self.list(role);
        position_of(members, participant).is_some()
    }

    /// The holders of `role`, in scan order.
    pub fn iterate_present(&self, role: Role) -> (members: Vec<u32>)
        ensures
            members@ == self.members(role),
    {
        let list = self.list(role);
        let mut members: Vec<u32> = Vec::new();
        let mut i: usize = 0;
        while i < list.len()
            invariant
                i <= list.len(),
                members@ == list@.take(i as int),
            decreases list.len() - i,
        {
            members.push(list[i]);
            proof {
                assert(list@.take(i + 1) == list@.take(i as int).push(list@[i as int]));
            }
            i += 1;
        }
        proof {
            assert(list@.take(list.len() as int) == list@);
        }
        members
    }

    fn list(&self, role: Role) -> (list: &Vec<u32>)
        ensures
            list@ == self.members(role),
    {
        match role {
            Role::Encoder => &self.encoders,
            Role::IdleEncoder => &self.idle_encoders,
            Role::Hoster => &self.hosters,
            Role::IdleHoster => &self.idle_hosters,
            Role::Attestor => &self.attestors,
            Role::IdleAttestor => &self.idle_attestors,
        }
    }
}

} // verus!
