//! Core of a supplier-spend import service: parsing and normalization of a
//! delimited upload, per-day aggregation, and the transactional persistence
//! protocol that records an import together with its rows, metrics, report
//! and audit trail as one atomic unit.

pub mod aggregate;
pub mod amount;
pub mod date;
pub mod hash;
pub mod laws;
pub mod store;
pub mod normalize;
pub mod pipeline;
pub mod textparse;
