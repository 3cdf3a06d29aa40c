//! Graph normalization and synthesis engine.
#![verifier::loop_isolation(false)]
pub mod strutil;
pub mod numeric;
pub mod error;
pub mod types;
pub mod merge;
pub mod hyper;
pub mod threat_report;
pub mod graphml;
pub mod dispatch;
pub mod keys;
