use datdot::dispatch::Module;
use datdot::hosting::same_digest;
use datdot::records::{
    Config, Contract, Error, Event, ParentHashInRoot, Performance, Plan, PlanUntil,
    TreeHashPayload,
};
use datdot::roles::Role;

fn payload() -> TreeHashPayload {
    TreeHashPayload {
        hash_type: 2,
        children: vec![ParentHashInRoot { hash: [9u8; 32], hash_number: 3, total_length: 40 }],
    }
}

fn plan_of(feeds: Vec<u32>) -> Plan<u32, u32, u64, u32> {
    Plan {
        id: 0,
        feeds,
        from: 5,
        until: PlanUntil { time: None, budget: Some(1), traffic: None, price: None },
        importance: 3,
        config: Config {
            performance: Performance { availability: 50, bandwidth: (10, 50), latency: (5, 50) },
            regions: vec![(vec![b'e', b'u'], Performance {
                availability: 60,
                bandwidth: (20, 60),
                latency: (6, 60),
            })],
        },
        schedules: Vec::new(),
        sponsor: 0,
        unhosted_feeds: Vec::new(),
    }
}

/// Accounts 100, 101 and 102 are users 0, 1 and 2; users 0 and 1 host contract 0.
fn state_with_hosters() -> Module {
    let mut state = Module::new(5);
    assert_eq!(state.load_user(100), 0);
    assert_eq!(state.load_user(101), 1);
    assert_eq!(state.load_user(102), 2);
    state.contracts.push(Contract {
        id: 0,
        plan: 0,
        ranges: vec![(0, 9)],
        encoders: vec![7, 8],
        hosters: vec![0, 1],
        active: Vec::new(),
        attestor: 9,
    });
    state
}

#[test]
fn same_digest_compares_every_byte() {
    let mut other = [3u8; 32];
    assert!(same_digest(&[3u8; 32], &other));
    other[31] = 4;
    assert!(!same_digest(&[3u8; 32], &other));
}

#[test]
fn publish_feed_registers_a_key_once() {
    let mut state = Module::new(2);
    let events = state.publish_feed(100, ([1u8; 32], payload(), [5u8; 64]));
    assert_eq!(events, vec![Event::NewFeed(0)]);
    assert_eq!(state.feeds.len(), 1);
    assert_eq!(state.next_feed_id, 1);
    assert_eq!(state.feeds[0].id, 0);
    assert_eq!(state.feeds[0].publickey, [1u8; 32]);
    assert_eq!(state.feeds[0].publisher, 0);
    assert_eq!(state.feeds[0].meta.signature, [5u8; 64]);
    assert_eq!(state.feeds[0].meta.hash_type, 2);
    assert_eq!(state.feeds[0].meta.children.len(), 1);
    assert_eq!(state.feeds[0].meta.children[0].hash_number, 3);
    assert!(state.has_feed(&[1u8; 32]));
    assert!(!state.has_feed(&[2u8; 32]));

    let again = state.publish_feed(101, ([1u8; 32], payload(), [6u8; 64]));
    assert!(again.is_empty());
    assert_eq!(state.feeds.len(), 1);
    assert_eq!(state.feeds[0].meta.signature, [5u8; 64]);
    assert_eq!(state.users.len(), 2);

    let other = state.publish_feed(101, ([2u8; 32], payload(), [6u8; 64]));
    assert_eq!(other, vec![Event::NewFeed(1)]);
    assert_eq!(state.feeds[1].publisher, 1);
}

#[test]
fn publish_plan_names_the_caller_as_sponsor() {
    let mut state = Module::new(2);
    assert_eq!(state.load_user(100), 0);
    let mut plan = plan_of(vec![4, 5]);
    plan.id = 99;
    plan.sponsor = 99;
    let events = state.publish_plan(200, plan);
    assert_eq!(events, vec![Event::NewPlan(0)]);
    assert_eq!(state.plans[0].id, 0);
    assert_eq!(state.plans[0].sponsor, 1);
    assert_eq!(state.plans[0].feeds, vec![4u32, 5]);
    assert_eq!(state.plans[0].importance, 3);
    assert_eq!(state.next_plan_id, 1);
    let events = state.publish_plan(100, plan_of(Vec::new()));
    assert_eq!(events, vec![Event::NewPlan(1)]);
    assert_eq!(state.plans[1].sponsor, 0);
}

#[test]
fn hosting_starts_is_for_the_hosters_of_the_contract() {
    let mut state = state_with_hosters();
    assert_eq!(state.hosting_starts(102, 0), Err(Error::Permission));
    assert_eq!(state.hosting_starts(555, 0), Err(Error::Permission));
    assert_eq!(state.users.len(), 3);
    assert!(state.contracts[0].active.is_empty());
    assert!(!state.roles.is_present(Role::IdleAttestor, 9));
}

#[test]
fn a_first_report_makes_the_hoster_active() {
    let mut state = state_with_hosters();
    assert_eq!(state.hosting_starts(100, 0), Ok(vec![Event::HostingStarted(0)]));
    assert_eq!(state.contracts[0].active, vec![0u32]);
    assert_eq!(state.contracts[0].hosters, vec![0u32, 1]);
    assert!(state.roles.is_present(Role::IdleAttestor, 9));
    assert!(!state.roles.is_present(Role::IdleEncoder, 7));

    assert_eq!(state.hosting_starts(100, 0), Ok(vec![Event::HostingStarted(0)]));
    assert_eq!(state.contracts[0].active, vec![0u32]);
    assert!(!state.roles.is_present(Role::IdleEncoder, 7));
}

#[test]
fn a_report_after_all_are_active_frees_the_encoders() {
    let mut state = state_with_hosters();
    assert!(state.hosting_starts(100, 0).is_ok());
    assert!(state.hosting_starts(101, 0).is_ok());
    assert_eq!(state.contracts[0].active, vec![0u32, 1]);
    assert!(state.roles.iterate_present(Role::IdleEncoder).is_empty());
    assert_eq!(state.hosting_starts(101, 0), Ok(vec![Event::HostingStarted(0)]));
    assert_eq!(state.roles.iterate_present(Role::IdleEncoder), vec![7u32, 8]);
    assert_eq!(state.contracts[0].active, vec![0u32, 1]);
}

#[test]
fn hosting_starts_dispatches_before_it_reports() {
    let mut state = state_with_hosters();
    state.performance_attestor_count = 0;
    assert!(state.request_performance_challenge(100, 0).is_empty());
    assert_eq!(
        state.hosting_starts(100, 0),
        Ok(vec![Event::NewPerformanceChallenge(0), Event::HostingStarted(0)])
    );
    assert_eq!(state.performance_challenges[0].attestors, Some(vec![9u32]));
    assert!(!state.roles.is_present(Role::IdleAttestor, 9));
}

#[test]
fn hosting_starts_passes_over_a_missing_contract() {
    let mut state = state_with_hosters();
    assert_eq!(state.hosting_starts(777, 3), Ok(Vec::new()));
    assert_eq!(state.users.len(), 4);
    assert!(state.roles.iterate_present(Role::IdleAttestor).is_empty());
}
