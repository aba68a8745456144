//! Parsing and ingestion logic for astronomical catalogs loaded into MongoDB.
pub mod text;
pub mod number;
pub mod fields;
pub mod ascii;
pub mod types;
pub mod processor;
pub mod ingest;
pub mod ps1;
