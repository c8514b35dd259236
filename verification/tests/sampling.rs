use datdot::dispatch::Module;
use datdot::roles::Role;
use datdot::sampler::{
    derive_seed, index_for_word, item_for_word, seed_from_encoded, SeededRng, Trait,
};
use rand_chacha::rand_core::{RngCore, SeedableRng};
use rand_chacha::ChaChaRng;

/// A runtime whose randomness is the influence, cut or padded to 32 bytes.
struct EchoRuntime;

impl Trait for EchoRuntime {
    fn random(influence: &[u8]) -> [u8; 32] {
        seed_from_encoded(&influence.to_vec())
    }
}

fn counting_bytes() -> [u8; 32] {
    let mut bytes = [0u8; 32];
    let mut i: usize = 0;
    while i < 32 {
        bytes[i] = 100 + i as u8;
        i += 1;
    }
    bytes
}

#[test]
fn seed_is_the_nonce_then_the_randomness() {
    let seed = derive_seed(0x0102_0304_0506_0708, &counting_bytes());
    let mut expected = [0u8; 32];
    expected[..8].copy_from_slice(&[8, 7, 6, 5, 4, 3, 2, 1]);
    let mut i: usize = 8;
    while i < 32 {
        expected[i] = 100 + (i - 8) as u8;
        i += 1;
    }
    assert_eq!(seed, expected);
}

#[test]
fn seed_of_nonce_zero_and_no_randomness_is_zero() {
    assert_eq!(derive_seed(0, &[0u8; 32]), [0u8; 32]);
}

#[test]
fn short_encoding_is_padded_with_zeroes() {
    let seed = seed_from_encoded(&vec![1u8, 2, 3]);
    let mut expected = [0u8; 32];
    expected[0] = 1;
    expected[1] = 2;
    expected[2] = 3;
    assert_eq!(seed, expected);
    assert_eq!(seed_from_encoded(&Vec::new()), [0u8; 32]);
}

#[test]
fn long_encoding_is_cut_at_the_seed_width() {
    let mut encoded: Vec<u8> = Vec::new();
    let mut i: u8 = 0;
    while i < 40 {
        encoded.push(i + 1);
        i += 1;
    }
    let seed = seed_from_encoded(&encoded);
    let mut k: usize = 0;
    while k < 32 {
        assert_eq!(seed[k], k as u8 + 1);
        k += 1;
    }
}

#[test]
fn stream_of_the_zero_seed_starts_as_published() {
    let mut rng = SeededRng::from_seed([0u8; 32]);
    assert_eq!(rng.next_u32(), 0xade0b876);
    assert_eq!(rng.next_u32(), 0x903df1a0);
    assert_eq!(rng.next_u32(), 0xe56a5d40);
    assert_eq!(rng.position, 3);
}

#[test]
fn stream_agrees_with_a_generator_that_runs_on() {
    let seed = counting_bytes();
    let mut reference = ChaChaRng::from_seed(seed);
    let mut rng = SeededRng::from_seed(seed);
    let mut i: u32 = 0;
    while i < 300 {
        assert_eq!(rng.next_u32(), reference.next_u32());
        i += 1;
    }
}

#[test]
fn index_for_word_is_the_remainder() {
    assert_eq!(index_for_word(10, 3), 2);
    assert_eq!(index_for_word(10, 0), 0);
    assert_eq!(index_for_word(u32::MAX, 9), 5);
    assert_eq!(index_for_word(7, 7), 7);
}

#[test]
fn item_for_word_on_no_items_is_none() {
    let none: Vec<u32> = Vec::new();
    assert_eq!(item_for_word(5, none.as_slice()), None);
    let some: Vec<u32> = vec![10, 20, 30];
    assert_eq!(item_for_word(5, some.as_slice()), Some(&30));
    assert_eq!(item_for_word(3, some.as_slice()), Some(&10));
}

#[test]
fn pick_item_takes_no_word_on_no_items() {
    let mut rng = SeededRng::from_seed([0u8; 32]);
    let none: Vec<u32> = Vec::new();
    assert_eq!(Module::pick_item(&mut rng, none.as_slice()), None);
    assert_eq!(rng.position, 0);
    let some: Vec<u32> = vec![0, 1, 2, 3, 4, 5, 6, 7, 8, 9];
    assert_eq!(Module::pick_item(&mut rng, some.as_slice()), Some(&4));
    assert_eq!(rng.position, 1);
    assert_eq!(Module::pick_usize(&mut rng, 9), 6);
    assert_eq!(rng.position, 2);
}

#[test]
fn unique_nonce_hands_out_and_moves_on() {
    let mut state = Module::new(2);
    assert_eq!(state.unique_nonce(), 0);
    assert_eq!(state.unique_nonce(), 1);
    assert_eq!(state.nonce, 2);
}

#[test]
fn few_members_are_returned_as_they_stand() {
    let mut state = Module::new(2);
    state.nonce = 41;
    let members: Vec<u32> = vec![9, 8, 7];
    assert_eq!(state.sample_with(&counting_bytes(), members.clone(), 3), members);
    assert_eq!(state.nonce, 42);
    assert_eq!(state.sample_with(&counting_bytes(), members.clone(), 10), members);
    assert_eq!(state.nonce, 43);
    let none: Vec<u32> = Vec::new();
    assert_eq!(state.sample_with(&counting_bytes(), none.clone(), 0), none);
    assert_eq!(state.nonce, 44);
}

#[test]
fn sample_with_the_zero_seed() {
    let mut state = Module::new(2);
    let members: Vec<u32> = vec![0, 1, 2, 3, 4, 5, 6, 7, 8, 9];
    let selected = state.sample_with(&[0u8; 32], members, 4);
    assert_eq!(selected, vec![4u32, 6, 2, 1]);
    assert_eq!(state.nonce, 1);
}

#[test]
fn sample_draws_from_the_whole_list_each_time() {
    let mut state = Module::new(2);
    state.nonce = 7;
    let randomness = counting_bytes();
    let mut members: Vec<u64> = Vec::new();
    let mut m: u64 = 0;
    while m < 500 {
        members.push(1000 + m);
        m += 1;
    }
    let selected = state.sample_with(&randomness, members.clone(), 200);
    assert_eq!(state.nonce, 8);
    assert_eq!(selected.len(), 200);
    let mut reference = ChaChaRng::from_seed(derive_seed(7, &randomness));
    let mut i: usize = 0;
    while i < 200 {
        let at = (reference.next_u32() % 500) as usize;
        assert_eq!(selected[i], members[at]);
        i += 1;
    }
    let mut repeated = false;
    let mut a: usize = 0;
    while a < 200 {
        let mut b: usize = a + 1;
        while b < 200 {
            if selected[a] == selected[b] {
                repeated = true;
            }
            b += 1;
        }
        a += 1;
    }
    assert!(repeated);
}

#[test]
fn same_nonce_and_inputs_give_the_same_sample() {
    let members: Vec<u32> = vec![5, 6, 7, 8, 9, 10, 11];
    let randomness = counting_bytes();
    let mut first = Module::new(2);
    first.nonce = 1234;
    let mut second = Module::new(9);
    second.nonce = 1234;
    let one = first.sample_with(&randomness, members.clone(), 5);
    let two = second.sample_with(&randomness, members.clone(), 5);
    assert_eq!(one, two);
    assert_eq!(first.nonce, 1235);
    assert_eq!(second.nonce, 1235);
    let three = first.sample_with(&randomness, members.clone(), 5);
    assert_ne!(one, three);
}

#[test]
fn sample_of_a_role_draws_from_its_holders() {
    let mut state = Module::new(2);
    let mut id: u32 = 0;
    while id < 10 {
        state.roles.set(Role::IdleHoster, id, true);
        id += 1;
    }
    let selected = state.sample_role_with(&[0u8; 32], &Role::IdleHoster, 4);
    assert_eq!(selected, vec![4u32, 6, 2, 1]);
    assert_eq!(state.nonce, 1);
    let all = state.sample_role_with(&[0u8; 32], &Role::IdleHoster, 10);
    assert_eq!(all, vec![0u32, 1, 2, 3, 4, 5, 6, 7, 8, 9]);
    assert_eq!(state.nonce, 2);
    let none = state.sample_role_with(&[0u8; 32], &Role::Encoder, 3);
    assert!(none.is_empty());
    assert_eq!(state.nonce, 3);
}

#[test]
fn the_runtime_s_randomness_decides_the_sample() {
    let members: Vec<u32> = vec![5, 6, 7, 8, 9, 10, 11];
    let influence = counting_bytes();
    let mut through_runtime = Module::new(2);
    through_runtime.nonce = 99;
    let mut given = Module::new(2);
    given.nonce = 99;
    let one =
        through_runtime.get_random_of_vec::<EchoRuntime, u32>(&influence, members.clone(), 5);
    let two = given.sample_with(&influence, members.clone(), 5);
    assert_eq!(one, two);
    assert_eq!(one.len(), 5);
    assert_eq!(through_runtime.nonce, 100);

    let zero = [0u8; 4];
    let mut zeroed = Module::new(2);
    let ten: Vec<u32> = vec![0, 1, 2, 3, 4, 5, 6, 7, 8, 9];
    assert_eq!(zeroed.get_random_of_vec::<EchoRuntime, u32>(&zero, ten, 3), vec![4u32, 6, 2]);
}

#[test]
fn few_members_come_back_without_the_runtime() {
    let members: Vec<u32> = vec![3, 1, 2];
    let mut state = Module::new(2);
    let all = state.get_random_of_vec::<EchoRuntime, u32>(&[1, 2, 3], members.clone(), 3);
    assert_eq!(all, members);
    assert_eq!(state.nonce, 1);
}

#[test]
fn sample_of_a_role_through_the_runtime() {
    let mut state = Module::new(2);
    let mut id: u32 = 0;
    while id < 10 {
        state.roles.set(Role::Attestor, id, true);
        id += 1;
    }
    let selected = state.get_random_of_role::<EchoRuntime>(&[0u8; 8], &Role::Attestor, 4);
    assert_eq!(selected, vec![4u32, 6, 2, 1]);
    let all = state.get_random_of_role::<EchoRuntime>(&[0u8; 8], &Role::Attestor, 10);
    assert_eq!(all, vec![0u32, 1, 2, 3, 4, 5, 6, 7, 8, 9]);
    assert_eq!(state.nonce, 2);
}
