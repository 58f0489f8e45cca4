//! Transactional resource cache of a Move virtual machine: mediates every
//! read and write of on-chain account state (typed resources and published
//! modules) during one transaction, and condenses the observed reads and
//! writes into a minimal state diff plus an ordered event log.

pub mod assoc;
pub mod data_cache;
pub mod effects;
pub mod errors;
pub mod ids;
pub mod laws;
pub mod loader;
pub mod resolver;
pub mod values;
