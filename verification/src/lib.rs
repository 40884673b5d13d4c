//! Persistence and access-control core of a medical-records registry.
//!
//! The registry stores versioned medical records and enforces two independent
//! ownership graphs: patients, who own records through a hashed identity key,
//! and providers, who issue records under an internal identifier decoupled
//! from their authentication identity.  All persistent data lives in a
//! bounded arena whose allocations can fail; every mutating operation takes
//! the arena explicitly and reports exhaustion instead of assuming success.

pub mod alist;
pub mod arena;
pub mod emr;
pub mod encryption;
pub mod laws;
pub mod patient;
pub mod providers;
pub mod types;
