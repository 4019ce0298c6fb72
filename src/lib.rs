//! Normalisation and aggregation of monthly crime-incidence records.
//!
//! Records arrive as rows of Windows-1252 byte fields.  They are decoded,
//! bound to a fixed schema by header name, coded against three growing
//! taxonomies, and pivoted into a sparse incidence log keyed by category
//! code, calendar month and municipality.
pub mod aggregate;
pub mod coder;
pub mod decode;
pub mod laws;
pub mod record;
pub mod text;

pub use text::only_positives;
