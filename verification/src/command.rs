//! The commands of the database, their results, and how they are carried out.
pub mod dispatch;
pub mod dispatch_laws;
pub mod flat;
pub mod input_laws;
pub mod model;
pub mod requests;
pub mod result_expectations;
pub mod results;
