//! An identity, role, and consent-permission registry for a two-party
//! (patient/doctor) access-control scheme.
//!
//! A subject registers identity attributes bound to a unique identity key,
//! holds exactly one role per identity key (with at most two distinct-role
//! accounts per key), and other actors may request, grant, or revoke "view"
//! permissions over a subject's data. The service in [`service`] orchestrates
//! five stores: an identity store, a user directory, a role registry, a
//! permission graph, and a request queue.

pub mod types;
pub mod errors;
pub mod assoc;
pub mod roles;
pub mod directory;
pub mod identity;
pub mod permissions;
pub mod requests;
pub mod service;
