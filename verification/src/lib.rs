//! A transcoding cache-and-dispatch core: fingerprints, an artifact store,
//! and a coordinator that lets at most one producer run per fingerprint.

pub mod bytes;
pub mod canonical;
pub mod connection;
pub mod coordinator;
pub mod coordinator_lemmas;
pub mod coordinator_model;
pub mod endpoint;
pub mod error;
pub mod feed;
pub mod fingerprint;
pub mod hash;
pub mod hex;
pub mod laws;
pub mod ordering;
pub mod provider;
pub mod record;
pub mod scan;
pub mod store;
pub mod store_model;
pub mod target;
