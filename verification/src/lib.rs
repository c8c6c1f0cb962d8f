//! A small broadcast-chat core: anonymous identities derived from connection
//! fingerprints, per-identity rate limiting, bounded message validation, a
//! fan-out hub with a drop-oldest policy for lagging subscribers, and the
//! per-connection session logic that ties them together.

pub mod fingerprinter;
pub mod hub;
pub mod message;
pub mod rate_limit;
pub mod session;
pub mod state;
pub mod strmap;
pub mod user;
