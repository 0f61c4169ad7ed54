//! Verified core of a competition-platform backend: credential hashing,
//! signed time-limited session tokens, the authorization gate in front of
//! protected routes, identity resolution for local and external logins,
//! and the team-membership state machine with its consistency invariants.

pub mod email;
pub mod errors;
pub mod gate;
pub mod ids;
pub mod password;
pub mod resolver;
pub mod store;
pub mod teams;
pub mod token;
