//! Core library for managing Architecture Decision Records (ADRs).
//!
//! The library parses, creates, links, lints and exports decision records.
//! It supports the adr-tools compatible markdown format and the next-gen
//! format with YAML frontmatter.

pub mod builtin;
pub mod config;
pub mod doctor;
pub mod error;
pub mod export;
pub mod globs;
pub mod jinja;
pub mod lint;
pub mod markdown;
pub mod parse;
pub mod paths;
pub mod patterns;
pub mod report_order;
pub mod repository;
pub mod template;
pub mod text;
pub mod types;
