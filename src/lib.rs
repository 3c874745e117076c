//! Acquisition of one reading from an Aranet4 CO2 sensor: payload decoding,
//! the discovery and connection state machine, the staleness policy that
//! decides whether a new reading is stored, and the reductions over stored
//! rows (most recent row, aggregate, CSV lines).

pub mod clock;
pub mod csv;
pub mod models;
pub mod names;
pub mod policy;
pub mod protocol;
pub mod session;
pub mod store;
pub mod text;
