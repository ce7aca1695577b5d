//! Verified core of a command-line client for a federated chat protocol:
//! a durable session store with unique-per-account records, room-catalog
//! ordering and identifier resolution, paginated history accumulation, and
//! projection of fetched timelines into JSON and plain-text export documents.
//!
//! Network transport, cryptography and file I/O live outside this crate; the
//! functions here state and prove the rules those collaborators must follow.

pub mod text;
pub mod session;
pub mod user;
pub mod rooms;
pub mod resolve;
pub mod events;
pub mod export;
pub mod fetch;
