//! Request-policy core of an agent platform API: capability grants,
//! role checks, trigger and memory request rules, compliance audit
//! evaluation and the digests that seal replay packages.
pub mod text;
pub mod error;
pub mod json;
pub mod roles;
pub mod capability;
pub mod digest;
pub mod triggers;
pub mod ids;
pub mod headers;
pub mod compliance;
pub mod limits;
pub mod alerts;
pub mod settings;
pub mod quota;
pub mod context;
pub mod clock;
pub mod memory;
pub mod heartbeat;
pub mod payments;
pub mod grouping;
pub mod ops;
pub mod replay;
pub mod runs;
