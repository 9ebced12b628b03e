//! Tolerant ingestion of a corpus of hand-authored JSON documents.
//!
//! The crate resolves a sparse source configuration into a fully-determined
//! file-discovery plan, walks a directory tree into per-file decode policies,
//! decodes raw bytes into a structural value tree (normalizing character
//! encoding and byte-order marks, optionally tolerating trailing commas),
//! and offers coercion primitives that let a rigid target schema accept
//! several physical JSON shapes of one logical value.

pub mod coerce;
pub mod config;
pub mod data;
pub mod files;
pub mod json;
pub mod reader;
