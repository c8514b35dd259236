//! Audit scheduling for a content-hosting network: index arithmetic on an
//! append-only hash tree, a registry of roles, seeded sampling, and the
//! dispatch of audit jobs to idle attestors.

pub mod challenges;
pub mod dispatch;
pub mod hosting;
pub mod records;
pub mod roles;
pub mod sampler;
pub mod tree;
pub mod users;
