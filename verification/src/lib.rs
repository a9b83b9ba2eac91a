//! Detection of sensitive data in text, with checksum validation,
//! span deduplication and risk scoring.
//!
//! The crate is organised as four engines:
//! - `validators` and `checksum`: pure per-entity-type format and
//!   checksum checks (Luhn, IBAN mod-97, CUSIP, ...);
//! - `matcher`: a compiled multi-pattern matcher that locates candidate
//!   entities in a byte haystack;
//! - `spans`: overlap detection and deduplication of candidate spans;
//! - `scoring`: aggregation of surviving detections into a bounded
//!   risk score and tier.

pub mod checksum;
pub mod file_filter;
pub mod matcher;
pub mod scoring;
pub mod spans;
pub mod textops;
pub mod validators;
