//! The records that the network keeps: feeds and their tree roots, plans,
//! contracts, the forms that participants file, challenges and audit jobs.

use vstd::prelude::*;

verus! {

/// A 256-bit digest or key.
pub type Digest = [u8; 32];

/// A 512-bit signature.
pub type Signature = [u8; 64];

/// An account of the surrounding ledger.
pub type AccountId = u64;

/// A point in time, or a span of it.
pub type Moment = u64;

/// Chunk ranges of a feed, each with its first and last chunk.
pub type Ranges = Vec<(u64, u64)>;

/// A region of the world, by name.
pub type Region = Vec<u8>;

/// A parent hash as it stands in a feed's signed root.
#[derive(Clone, Debug)]
pub struct ParentHashInRoot {
    pub hash: Digest,
    pub hash_number: u64,
    pub total_length: u64,
}

/// The signed root of a feed's tree.
#[derive(Clone, Debug)]
pub struct TreeRoot {
    pub signature: Signature,
    pub hash_type: u8,
    pub children: Vec<ParentHashInRoot>,
}

/// What the signature of a tree root is made over.
#[derive(Clone, Debug)]
pub struct TreeHashPayload {
    pub hash_type: u8,
    pub children: Vec<ParentHashInRoot>,
}

/// The limits at which a plan ends; each may be left open.
#[derive(Clone, Debug)]
pub struct PlanUntil<Time> {
    pub time: Option<Time>,
    pub budget: Option<u64>,
    pub traffic: Option<u64>,
    pub price: Option<u64>,
}

/// A share of service quality, in hundredths, with the measure it refers to.
#[derive(Clone, Copy, Debug)]
pub struct Performance {
    pub availability: u8,
    pub bandwidth: (u64, u8),
    pub latency: (u16, u8),
}

/// The service quality asked for, overall and by region.
#[derive(Clone, Debug)]
pub struct Config {
    pub performance: Performance,
    pub regions: Vec<(Region, Performance)>,
}

/// When, how long and how often a service is wanted or offered.
#[derive(Clone, Debug)]
pub struct Schedule<Time> {
    pub duration: Time,
    pub delay: Time,
    pub interval: Time,
    pub repeat: u32,
    pub config: Config,
}

/// What a participant files to offer a service.
#[derive(Clone, Debug)]
pub struct Form<Time> {
    pub storage: u64,
    pub idle_storage: u64,
    pub from: Time,
    pub until: Time,
    pub schedules: Vec<Schedule<Time>>,
    pub config: Config,
}

/// A sponsor's plan to have feeds hosted.
#[derive(Clone, Debug)]
pub struct Plan<PlanId, FeedId, Time, UserId> {
    pub id: PlanId,
    pub feeds: Vec<FeedId>,
    pub from: Time,
    pub until: PlanUntil<Time>,
    pub importance: u8,
    pub config: Config,
    pub schedules: Vec<Schedule<Time>>,
    pub sponsor: UserId,
    pub unhosted_feeds: Vec<FeedId>,
}

/// What one attestor reports of one location.
#[derive(Clone, Copy, Debug)]
pub struct Report {
    pub location: u8,
    pub latency: Option<u8>,
}

/// An audit that waits for attestors.
#[derive(Clone, Copy, Debug, PartialEq, Eq)]
pub enum AttestorJob<ChallengeId, PerformanceChallengeId> {
    StorageChallenge(ChallengeId),
    PerformanceChallenge(PerformanceChallengeId),
}

/// A participant, with the keys and forms of the services it offers.
#[derive(Clone, Debug)]
pub struct User {
    pub id: u32,
    pub address: AccountId,
    pub attestor_key: Option<Digest>,
    pub encoder_key: Option<Digest>,
    pub hoster_key: Option<Digest>,
    pub attestor_form: Option<Form<Moment>>,
    pub encoder_form: Option<Form<Moment>>,
    pub hoster_form: Option<Form<Moment>>,
}

/// A published feed.
#[derive(Clone, Debug)]
pub struct Feed {
    pub id: u32,
    pub publickey: Digest,
    pub meta: TreeRoot,
    pub publisher: u32,
}

/// A contract under a plan: who encodes, who hosts which chunks, who attests.
#[derive(Clone, Debug)]
pub struct Contract {
    pub id: u32,
    pub plan: u32,
    pub ranges: Ranges,
    pub encoders: Vec<u32>,
    pub hosters: Vec<u32>,
    pub active: Vec<u32>,
    pub attestor: u32,
}

/// A hoster asked to prove that it holds the chunks named.
#[derive(Clone, Debug)]
pub struct StorageChallenge {
    pub id: u32,
    pub contract: u32,
    pub hoster: u32,
    pub chunks: Vec<u64>,
    pub attestor: Option<u32>,
}

/// A panel of attestors asked to measure how a contract is served.
#[derive(Clone, Debug)]
pub struct PerformanceChallenge {
    pub id: u32,
    pub attestors: Option<Vec<u32>>,
    pub contract: u32,
}

/// What an operation lets the outside world know.
#[derive(Clone, Copy, Debug, PartialEq, Eq, Structural)]
pub enum Event {
    NewFeed(u32),
    NewPlan(u32),
    NewContract(u32),
    HostingStarted(u32),
    NewStorageChallenge(u32),
    ProofOfStorageConfirmed(u32),
    ProofOfStorageFailed(u32),
    NewPerformanceChallenge(u32),
    AttestationReportConfirmed(u32),
    AttestationReportFailed(u32),
}

/// Why an operation was refused before it changed anything.
#[derive(Clone, Copy, Debug, PartialEq, Eq, Structural)]
pub enum Error {
    /// The caller lacks the standing that the operation asks for.
    Permission,
    /// A record that the operation refers to does not exist.
    NotFound,
}

impl User {
    /// A participant that offers no service yet.
    pub fn new(id: u32, address: AccountId) -> (user: User)
        ensures
            user.id == id,
            user.address == address,
            user.attestor_key is None,
            user.encoder_key is None,
            user.hoster_key is None,
            user.attestor_form is None,
            user.encoder_form is None,
            user.hoster_form is None,
    {
        User {
            id,
            address,
            attestor_key: None,
            encoder_key: None,
            hoster_key: None,
            attestor_form: None,
            encoder_form: None,
            hoster_form: None,
        }
    }
}

impl StorageChallenge {
    /// A challenge to which no attestor is assigned yet.
    pub fn new(id: u32, contract: u32, hoster: u32, chunks: Vec<u64>) -> (challenge:
        StorageChallenge)
        ensures
            challenge.id == id,
            challenge.contract == contract,
            challenge.hoster == hoster,
            challenge.chunks == chunks,
            challenge.attestor is None,
    {
        StorageChallenge { id, contract, hoster, chunks, attestor: None }
    }
}

impl PerformanceChallenge {
    /// A challenge that has no panel yet.
    pub fn new(id: u32, contract: u32) -> (challenge: PerformanceChallenge)
        ensures
            challenge.id == id,
            challenge.contract == contract,
            challenge.attestors is None,
    {
        PerformanceChallenge { id, attestors: None, contract }
    }

    /// The panel, as a sequence.
    pub open spec fn panel(&self) -> Option<Seq<u32>> {
        match self.attestors {
            Some(attestors) => Some(attestors@),
            None => None,
        }
    }
}

} // verus!
