//! The engine: what its operations are about, and how they are carried out.
pub mod laws;
pub mod logging;
pub mod open;
pub mod open_laws;
pub mod outcome_laws;
pub mod outcomes;
pub mod plans;
pub mod selection;
pub mod upsert;
