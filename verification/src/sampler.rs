//! Seeded sampling: a choice of members that every replica repeats
//! exactly, given the nonce and the randomness it was made with.

use vstd::prelude::*;
use rand_chacha::rand_core::RngCore;
use rand_chacha::rand_core::SeedableRng;
use rand_chacha::ChaChaRng;
use crate::dispatch::Module;
use crate::records::Digest;
use crate::roles::Role;

verus! {

/// The 32-bit word at `position` of the ChaCha20 stream that `seed` keys,
/// counted from the start of stream 0.
pub uninterp spec fn chacha_word(seed: Seq<u8>, position: nat) -> u32;

/// Byte `i` of `value`, the lowest first.
pub open spec fn le_byte(value: u64, i: int) -> u8 {
    ((value >> ((8 * i) as u64)) & 0xff) as u8
}

/// The eight bytes of `value`, the lowest first.
pub open spec fn le_bytes(value: u64) -> Seq<u8> {
    Seq::new(8, |i: int| le_byte(value, i))
}

/// The pair of nonce and randomness as it is encoded: the nonce's bytes,
/// then the randomness as it stands.
pub open spec fn encoded_input(nonce: u64, randomness: Seq<u8>) -> Seq<u8> {
    le_bytes(nonce) + randomness
}

/// The first 32 bytes of `encoded`, with zeroes where it ends before that.
pub open spec fn padded_seed(encoded: Seq<u8>) -> Seq<u8> {
    Seq::new(32, |i: int| if i < encoded.len() { encoded[i] } else { 0u8 })
}

/// The seed for a draw made at `nonce` with `randomness`.
pub open spec fn seed_of(nonce: u64, randomness: Seq<u8>) -> Seq<u8> {
    padded_seed(encoded_input(nonce, randomness))
}

/// `count` draws from `members`: draw `i` takes the member at the stream's
/// word `i` modulo the number of members. A member can be drawn twice.
pub open spec fn drawn<Item>(seed: Seq<u8>, members: Seq<Item>, count: nat) -> Seq<Item> {
    Seq::new(
        count,
        |i: int| members[(chacha_word(seed, i as nat) as int) % (members.len() as int)],
    )
}

/// The sample: all members where there are no more than `count`, else
/// `count` draws from them.
pub open spec fn sample<Item>(nonce: u64, randomness: Seq<u8>, members: Seq<Item>, count: nat) -> Seq<Item> {
    if members.len() <= count {
        members
    } else {
        drawn(seed_of(nonce, randomness), members, count)
    }
}

/// What the library asks of the runtime that it is built into.
pub trait Trait {
    /// The runtime's randomness for `influence`, a value that nobody
    /// could tell when `influence` was fixed. Nothing is taken for granted
    /// of it here.
    fn random(influence: &[u8]) -> Digest;
}

/// A place in the ChaCha20 stream of a seed.
pub struct SeededRng {
    pub seed: Digest,
    pub position: u64,
}

/// Encodes the pair with `parity_scale_codec::Encode::encode`. Claimed of
/// it: a `u64` is written as its eight bytes, lowest first; a byte array
/// as its bytes, without a length; a pair as its parts, one after the other.
#[verifier::external_body]
fn encode_pair(nonce: u64, randomness: &Digest) -> (encoded: Vec<u8>)
    ensures
        encoded@ == encoded_input(nonce, randomness@),
{
    parity_scale_codec::Encode::encode(&(nonce, *randomness))
}

/// Keys a `rand_chacha::ChaChaRng` with `seed` (`from_seed`), moves it to
/// `position` (`set_word_pos`) and takes one word (`next_u32`). Claimed of
/// it: the word depends on the seed and the position alone, and is the
/// one that `position` calls of `next_u32` on a fresh generator would be
/// followed by.
#[verifier::external_body]
fn chacha_word_at(seed: &Digest, position: u64) -> (word: u32)
    ensures
        word == chacha_word(seed@, position as nat),
{
    let mut rng = ChaChaRng::from_seed(*seed);
    rng.set_word_pos(u128::from(position));
    rng.next_u32()
}

/// Cuts or pads an encoding to the 32 bytes of a seed.
pub fn seed_from_encoded(encoded: &Vec<u8>) -> (seed: Digest)
    ensures
        seed@ == padded_seed(encoded@),
{
    let mut seed: Digest = [0u8;32];
    let mut i: usize = 0;
    while i < 32 && i < encoded.len()
        invariant
            i <= 32,
            i <= encoded.len(),
            forall|k: int| 0 <= k < i ==> seed@[k] == encoded@[k],
            forall|k: int| i <= k < 32 ==> seed@[k] == 0u8,
        decreases 32 - i,
    {
        seed[i] = encoded[i];
        i += 1;
    }
    proof {
        assert(seed@ =~= padded_seed(encoded@));
    }
    seed
}

/// The seed for a draw made at `nonce` with `randomness`.
pub fn derive_seed(nonce: u64, randomness: &Digest) -> (seed: Digest)
    ensures
        seed@ == seed_of(nonce, randomness@),
{
    let encoded = encode_pair(nonce, randomness);
    seed_from_encoded(&encoded)
}

/// The index in `0..=max` that a word of the stream stands for.
pub fn index_for_word(word: u32, max: usize) -> (index: usize)
    requires
        max < u32::MAX,
    ensures
        index == word as int % (max + 1),
        index <= max,
{
    (word % (max as u32 + 1)) as usize
}

/// The item that a word of the stream stands for; none where there is no item.
pub fn item_for_word<E>(word: u32, items: &[E]) -> (item: Option<&E>)
    requires
        items@.len() <= u32::MAX,
    ensures
        items@.len() == 0 ==> item is None,
        items@.len() > 0 ==> item == Some(&items@[word as int % items@.len() as int]),
{
    if items.len() == 0 {
        None
    } else {
        Some(&items[index_for_word(word, items.len() - 1)])
    }
}

impl SeededRng {
    /// The start of the stream of `seed`.
    pub fn from_seed(seed: Digest) -> (rng: SeededRng)
        ensures
            rng.seed == seed,
            rng.position == 0,
    {
        SeededRng { seed, position: 0 }
    }

    /// The next word of the stream.
    pub fn next_u32(&mut self) -> (word: u32)
        requires
            old(self).position < u64::MAX,
        ensures
            word == chacha_word(old(self).seed@, old(self).position as nat),
            final(self).seed == old(self).seed,
            final(self).position == old(self).position + 1,
    {
        let word = chacha_word_at(&self.seed, self.position);
        self.position = self.position + 1;
        word
    }
}

impl Module {
    /// An index in `0..=max`, from the next word of the stream.
    pub fn pick_usize(rng: &mut SeededRng, max: usize) -> (index: usize)
        requires
            old(rng).position < u64::MAX,
            max < u32::MAX,
        ensures
            index == chacha_word(old(rng).seed@, old(rng).position as nat) as int % (max + 1),
            final(rng).seed == old(rng).seed,
            final(rng).position == old(rng).position + 1,
    {
        index_for_word(rng.next_u32(), max)
    }

    /// An item of `items`, from the next word of the stream; none, and no
    /// word taken, where there is no item.
    pub fn pick_item<'a, E>(rng: &mut SeededRng, items: &'a [E]) -> (item: Option<&'a E>)
        requires
            old(rng).position < u64::MAX,
            items@.len() <= u32::MAX,
        ensures
            final(rng).seed == old(rng).seed,
            items@.len() == 0 ==> item is None && final(rng).position == old(rng).position,
            items@.len() > 0 ==> item == Some(
                &items@[chacha_word(old(rng).seed@, old(rng).position as nat) as int
                    % items@.len() as int],
            ) && final(rng).position == old(rng).position + 1,
    {
        if items.len() == 0 {
            None
        } else {
            Some(&items[Self::pick_usize(rng, items.len() - 1)])
        }
    }

    /// Hands out the nonce and moves it on by one.
    pub fn unique_nonce(&mut self) -> (nonce: u64)
        requires
            old(self).nonce < u64::MAX,
        ensures
            nonce == old(self).nonce,
            *final(self) == (Module { nonce: (old(self).nonce + 1) as u64, ..*old(self) }),
    {
        let nonce: u64 = self.nonce;
        self.nonce = nonce + 1;
        nonce
    }

    /// A sample of `count` of `members`, made with `randomness`. With no
    /// more than `count` members they are all returned, as they stand.
    /// The nonce moves on in either case.
    pub fn sample_with<Item: Copy>(&mut self, randomness: &Digest, members: Vec<Item>, count: u32) -> (selected:
        Vec<Item>)
        requires
            old(self).nonce < u64::MAX,
            members@.len() <= u32::MAX,
        ensures
            selected@ == sample(old(self).nonce, randomness@, members@, count as nat),
            members@.len() <= count ==> selected == members,
            *final(self) == (Module { nonce: (old(self).nonce + 1) as u64, ..*old(self) }),
    {
        let nonce: u64 = self.unique_nonce();
        if members.len() <= count as usize {
            members
        } else {
            let mut random_select: Vec<Item> = Vec::new();
            let seed = derive_seed(nonce, randomness);
            let mut rng = SeededRng::from_seed(seed);
            let mut i: u32 = 0;
            while i < count
                invariant
                    i <= count,
                    0 < members@.len() <= u32::MAX,
                    rng.seed == seed,
                    rng.position == i,
                    random_select@ == drawn(seed@, members@, i as nat),
                decreases count - i,
            {
                match Self::pick_item(&mut rng, members.as_slice()) {
                    Some(item) => {
                        random_select.push(*item);
                        proof {
                            assert(random_select@ =~= drawn(seed@, members@, (i + 1) as nat));
                        }
                    },
                    None => {},
                }
                i += 1;
            }
            random_select
        }
    }

    /// A sample of `count` of `members`, made with the randomness that the
    /// runtime gives for `influence`. With no more than `count` members
    /// they are all returned, as they stand, and the runtime is not asked.
    /// Otherwise the sample is the one that `sample_with` makes of what
    /// the runtime gave, whatever that is. The nonce moves on in either
    /// case.
    pub fn get_random_of_vec<T: Trait, Item: Copy>(&mut self, influence: &[u8], members: Vec<Item>, count: u32) -> (selected:
        Vec<Item>)
        requires
            old(self).nonce < u64::MAX,
            members@.len() <= u32::MAX,
        ensures
            members@.len() <= count ==> selected == members,
            members@.len() > count ==> exists|randomness: Seq<u8>|
                randomness.len() == 32 && selected@ == #[trigger] sample(
                    old(self).nonce,
                    randomness,
                    members@,
                    count as nat,
                ),
            selected@.len() == if members@.len() <= count {
                members@.len()
            } else {
                count as nat
            },
            forall|i: int| 0 <= i < selected@.len() ==> members@.contains(#[trigger] selected@[i]),
            *final(self) == (Module { nonce: (old(self).nonce + 1) as u64, ..*old(self) }),
    {
        if members.len() <= count as usize {
            let _ = self.unique_nonce();
            proof {
                assert forall|i: int| 0 <= i < members@.len() implies members@.contains(
                    #[trigger] members@[i],
                ) by {}
            }
            members
        } else {
            let randomness = T::random(influence);
            proof {
                lemma_sample_of_members(self.nonce, randomness@, members@, count as nat);
            }
            self.sample_with(&randomness, members, count)
        }
    }

    /// A sample of `count` of the holders of `role`, made with
    /// `randomness`; see `sample_with`.
    pub fn sample_role_with(&mut self, randomness: &Digest, role: &Role, count: u32) -> (selected:
        Vec<u32>)
        requires
            old(self).nonce < u64::MAX,
            old(self).roles.members(*role).len() <= u32::MAX,
        ensures
            selected@ == sample(
                old(self).nonce,
                randomness@,
                old(self).roles.members(*role),
                count as nat,
            ),
            *final(self) == (Module { nonce: (old(self).nonce + 1) as u64, ..*old(self) }),
    {
        let members: Vec<u32> = self.roles.iterate_present(*role);
        self.sample_with(randomness, members, count)
    }

    /// A sample of `count` of the holders of `role`, made with the
    /// randomness that the runtime gives for `influence`; see
    /// `get_random_of_vec`.
    pub fn get_random_of_role<T: Trait>(&mut self, influence: &[u8], role: &Role, count: u32) -> (selected:
        Vec<u32>)
        requires
            old(self).nonce < u64::MAX,
            old(self).roles.members(*role).len() <= u32::MAX,
        ensures
            old(self).roles.members(*role).len() <= count ==> selected@ == old(self).roles.members(
                *role,
            ),
            old(self).roles.members(*role).len() > count ==> exists|randomness: Seq<u8>|
                randomness.len() == 32 && selected@ == #[trigger] sample(
                    old(self).nonce,
                    randomness,
                    old(self).roles.members(*role),
                    count as nat,
                ),
            selected@.len() == if old(self).roles.members(*role).len() <= count {
                old(self).roles.members(*role).len()
            } else {
                count as nat
            },
            forall|i: int|
                0 <= i < selected@.len() ==> old(self).roles.members(*role).contains(
                    #[trigger] selected@[i],
                ),
            *final(self) == (Module { nonce: (old(self).nonce + 1) as u64, ..*old(self) }),
    {
        let members: Vec<u32> = self.roles.iterate_present(*role);
        self.get_random_of_vec::<T, u32>(influence, members, count)
    }
}

/// Two samples made at the same nonce with the same randomness, of the
/// same members and the same count, are the same.
pub proof fn lemma_sample_repeats<Item>(
    first_nonce: u64,
    second_nonce: u64,
    first_randomness: Seq<u8>,
    second_randomness: Seq<u8>,
    first_members: Seq<Item>,
    second_members: Seq<Item>,
    count: nat,
)
    requires
        first_nonce == second_nonce,
        first_randomness == second_randomness,
        first_members == second_members,
    ensures
        sample(first_nonce, first_randomness, first_members, count) == sample(
            second_nonce,
            second_randomness,
            second_members,
            count,
        ),
{
}

/// A sample has `count` items, or all the members where those are fewer,
/// and each of its items is one of the members.
pub proof fn lemma_sample_of_members<Item>(nonce: u64, randomness: Seq<u8>, members: Seq<Item>, count: nat)
    ensures
        sample(nonce, randomness, members, count).len() == if members.len() <= count {
            members.len()
        } else {
            count
        },
        forall|i: int|
            0 <= i < sample(nonce, randomness, members, count).len() ==> members.contains(
                #[trigger] sample(nonce, randomness, members, count)[i],
            ),
{
    let chosen = sample(nonce, randomness, members, count);
    assert forall|i: int| 0 <= i < chosen.len() implies members.contains(#[trigger] chosen[i]) by {
        if members.len() <= count {
            assert(members[i] == chosen[i]);
        } else {
            let at = (chacha_word(seed_of(nonce, randomness), i as nat) as int) % (
            members.len() as int);
            assert(members[at] == chosen[i]);
        }
    }
}

} // verus!
