//! Scaffolding and configuration management for game training workspaces.
//!
//! The crate builds the fixed directory layout of a workspace, holds the
//! configuration record for a workspace, and serializes that record to a
//! small line-based text format with a verified round trip: parsing a
//! serialized record gives the record back, field for field.

pub mod cli;
pub mod codec;
pub mod config;
pub mod editor;
pub mod num;
pub mod text;
pub mod workspace;
