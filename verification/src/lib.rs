//! Cross-compilation compatibility analysis for Rust projects: a database of
//! target triples, rule-based risk scoring of a manifest's dependencies per
//! target, CI target suggestions and compatibility-matrix reports.

pub mod text;
pub mod target_db;
pub mod compat;
pub mod cross_build;
pub mod report;
pub mod text_table;
pub mod json;
pub mod suggest;
