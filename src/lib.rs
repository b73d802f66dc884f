//! Decision-and-persistence core of an AI-assisted code-review pipeline.

pub mod adapters;
pub mod config;
pub mod github;
pub mod ledger;
pub mod models;
pub mod orchestrator;
pub mod rules;
pub mod suppressions;
pub mod text;

pub use config::Config;
pub use ledger::{JsonLedger, RepoStats};
pub use orchestrator::{Orchestrator, generate_summary};
pub use rules::RulesEngine;
pub use suppressions::{Suppression, Suppressions};
