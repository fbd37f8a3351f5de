//! Core logic for submitting product actions to a distributed ledger:
//! the domain data model, the canonical payload codec, the deterministic
//! address scheme, transaction and batch construction, and the ledger-side
//! validation and state application for one transaction.

pub mod address;
pub mod batch;
pub mod codec;
pub mod crypto;
pub mod errors;
pub mod model;
pub mod transaction;
pub mod validation;
pub mod yaml;
