//! The catalog: which databases, schemas, drawers and tenants there are.
pub mod archive_laws;
pub mod backup;
pub mod count_laws;
pub mod databases;
pub mod diagnostics;
pub mod discovery;
pub mod discovery_laws;
pub mod drawers;
pub mod folder;
pub mod hex;
pub mod inventory;
pub mod laws;
pub mod listing_laws;
pub mod place_laws;
pub mod registry;
pub mod restored;
pub mod restored_laws;
pub mod validation;
