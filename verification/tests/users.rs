use datdot::dispatch::Module;
use datdot::records::{AttestorJob, Config, Event, Form, Performance, User};
use datdot::roles::Role;

fn sample_form(storage: u64) -> Form<u64> {
    Form {
        storage,
        idle_storage: storage / 2,
        from: 10,
        until: 20,
        schedules: Vec::new(),
        config: Config {
            performance: Performance { availability: 99, bandwidth: (1000, 90), latency: (50, 80) },
            regions: Vec::new(),
        },
    }
}

#[test]
fn load_user_gives_each_account_one_id() {
    let mut state = Module::new(2);
    assert_eq!(state.load_user(500), 0);
    assert_eq!(state.load_user(600), 1);
    assert_eq!(state.load_user(500), 0);
    assert_eq!(state.users.len(), 2);
    assert_eq!(state.next_user_id, 2);
    assert_eq!(state.users[1].id, 1);
    assert_eq!(state.users[1].address, 600);
    assert!(state.users[1].attestor_key.is_none());
    assert!(state.users[1].encoder_form.is_none());
    assert_eq!(state.find_user(600), Some(1));
    assert_eq!(state.find_user(700), None);
}

#[test]
fn save_user_replaces_or_appends() {
    let mut state = Module::new(2);
    state.save_user(User::new(0, 11));
    state.save_user(User::new(1, 22));
    state.save_user(User::new(0, 33));
    assert_eq!(state.users.len(), 2);
    assert_eq!(state.users[0].address, 33);
    assert_eq!(state.users[1].address, 22);
}

#[test]
fn register_attestor_sets_both_roles() {
    let mut state = Module::new(2);
    let events = state.register_attestor(500, [7u8; 32], sample_form(64));
    assert!(events.is_empty());
    assert!(state.roles.is_present(Role::Attestor, 0));
    assert!(state.roles.is_present(Role::IdleAttestor, 0));
    assert!(!state.roles.is_present(Role::Encoder, 0));
    assert_eq!(state.users[0].attestor_key, Some([7u8; 32]));
    assert_eq!(state.users[0].attestor_form.as_ref().map(|form| form.storage), Some(64));
    assert!(state.users[0].hoster_key.is_none());
}

#[test]
fn unregister_attestor_clears_both_roles() {
    let mut state = Module::new(2);
    let _ = state.register_attestor(500, [7u8; 32], sample_form(64));
    let _ = state.register_attestor(600, [8u8; 32], sample_form(64));
    state.unregister_attestor(500);
    assert!(!state.roles.is_present(Role::Attestor, 0));
    assert!(!state.roles.is_present(Role::IdleAttestor, 0));
    assert!(state.roles.is_present(Role::Attestor, 1));
    assert!(state.roles.is_present(Role::IdleAttestor, 1));
    assert!(state.users[0].attestor_key.is_none());
    assert!(state.users[0].attestor_form.is_none());
    assert_eq!(state.users[1].attestor_key, Some([8u8; 32]));
}

#[test]
fn a_registering_attestor_can_be_taken_at_once() {
    let mut state = Module::new(0);
    let none = state.request_performance_challenge(900, 3);
    assert!(none.is_empty());
    let events = state.register_attestor(500, [7u8; 32], sample_form(64));
    assert_eq!(events, vec![Event::NewPerformanceChallenge(0)]);
    assert!(state.roles.is_present(Role::Attestor, 0));
    assert!(!state.roles.is_present(Role::IdleAttestor, 0));
    assert_eq!(state.performance_challenges[0].attestors, Some(vec![0u32]));
}

#[test]
fn register_and_unregister_encoder() {
    let mut state = Module::new(2);
    state.register_encoder(500, [1u8; 32], sample_form(8));
    assert!(state.roles.is_present(Role::Encoder, 0));
    assert!(state.roles.is_present(Role::IdleEncoder, 0));
    assert_eq!(state.users[0].encoder_key, Some([1u8; 32]));
    assert_eq!(state.users[0].encoder_form.as_ref().map(|form| form.idle_storage), Some(4));
    state.unregister_encoder(500);
    assert!(!state.roles.is_present(Role::Encoder, 0));
    assert!(!state.roles.is_present(Role::IdleEncoder, 0));
    assert!(state.users[0].encoder_key.is_none());
    assert!(state.users[0].encoder_form.is_none());
}

#[test]
fn register_and_unregister_hoster() {
    let mut state = Module::new(2);
    state.register_hoster(500, [2u8; 32], sample_form(8));
    assert!(state.roles.is_present(Role::Hoster, 0));
    assert!(state.roles.is_present(Role::IdleHoster, 0));
    assert_eq!(state.users[0].hoster_key, Some([2u8; 32]));
    state.unregister_hoster(500);
    assert!(!state.roles.is_present(Role::Hoster, 0));
    assert!(!state.roles.is_present(Role::IdleHoster, 0));
    assert!(state.users[0].hoster_key.is_none());
    assert!(state.users[0].hoster_form.is_none());
}

#[test]
fn unregistering_an_unknown_account_records_it() {
    let mut state = Module::new(2);
    state.unregister_hoster(42);
    assert_eq!(state.users.len(), 1);
    assert_eq!(state.users[0].address, 42);
    assert!(!state.roles.is_present(Role::Hoster, 0));
}

#[test]
fn end_to_end_with_a_count_of_three() {
    let mut state = Module::new(3);
    assert_eq!(state.load_user(1000), 0);
    assert!(state.register_attestor(1001, [1u8; 32], sample_form(1)).is_empty());
    assert!(state.register_attestor(1002, [2u8; 32], sample_form(1)).is_empty());
    assert!(state.register_attestor(1003, [3u8; 32], sample_form(1)).is_empty());
    assert_eq!(state.roles.iterate_present(Role::IdleAttestor), vec![1u32, 2, 3]);

    let events = state.request_performance_challenge(1000, 0);
    assert!(events.is_empty());
    assert_eq!(state.performance_challenges.len(), 1);
    assert_eq!(state.performance_challenges[0].attestors, None);
    assert_eq!(state.job_queue, vec![AttestorJob::PerformanceChallenge(0)]);

    let events = state.register_attestor(1004, [4u8; 32], sample_form(1));
    assert_eq!(events, vec![Event::NewPerformanceChallenge(0)]);
    assert_eq!(state.performance_challenges[0].attestors, Some(vec![1u32, 2, 3, 4]));
    assert_eq!(state.roles.iterate_present(Role::IdleAttestor), vec![1u32, 2, 3]);
    assert_eq!(state.roles.iterate_present(Role::Attestor), vec![1u32, 2, 3, 4]);
}

#[test]
fn end_to_end_with_a_count_of_two() {
    let mut state = Module::new(2);
    assert_eq!(state.load_user(1000), 0);
    assert!(state.register_attestor(1001, [1u8; 32], sample_form(1)).is_empty());
    assert!(state.register_attestor(1002, [2u8; 32], sample_form(1)).is_empty());
    let events = state.request_performance_challenge(1000, 0);
    assert!(events.is_empty());
    assert_eq!(state.performance_challenges[0].attestors, None);

    let events = state.register_attestor(1003, [3u8; 32], sample_form(1));
    assert_eq!(events, vec![Event::NewPerformanceChallenge(0)]);
    assert_eq!(state.performance_challenges[0].attestors, Some(vec![1u32, 2, 3]));
    assert_eq!(state.roles.iterate_present(Role::IdleAttestor), vec![1u32, 2]);
}
