//! Compiles versioned PostgreSQL schema artifacts (migrations, functions,
//! triggers and views) into one idempotent, re-runnable script, and splits a
//! schema dump into such artifacts.

pub mod text;
pub mod hash;
pub mod artifact;
pub mod script;
pub mod seed;
pub mod fake;
pub mod dump;
pub mod extract;
pub mod ledger;
pub mod order;
pub mod laws;
pub mod numbers;
pub mod create;
pub mod commands;
pub mod report;
