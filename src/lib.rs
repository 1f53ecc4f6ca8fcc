//! Data-quality and disclosure-risk checks over tabular survey data.
//!
//! A format reader hands the library a stream of events (file metadata,
//! variable declarations, values and value labels). The library keeps a
//! frequency table of the values seen, runs the configured checks at each
//! stage, and produces a report of pass and fail counts per check.
//!
//! - `config`: the settings, and their validation.
//! - `model`: variables, raw values and missingness.
//! - `frequency`: the frequency table and the value-label sets.
//! - `report`: check identifiers, statuses, locators and the report.
//! - `variable_checks`, `value_checks`, `post_checks`, `dictionary`: the
//!   checks of each phase.
//! - `context`: the ingestion of the event stream.
//! - `engine`: the whole run.
//! - `text`, `pattern`: text predicates and regular expressions.
pub mod config;
pub mod context;
pub mod dictionary;
pub mod engine;
pub mod frequency;
pub mod model;
pub mod pattern;
pub mod post_checks;
pub mod report;
pub mod text;
pub mod value_checks;
pub mod variable_checks;
