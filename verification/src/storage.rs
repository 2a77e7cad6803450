//! How records stand on disk: values, lengths and frames.
pub mod frames;
pub mod json_text;
pub mod laws;
pub mod native_value;
pub mod types;
pub mod varint;
