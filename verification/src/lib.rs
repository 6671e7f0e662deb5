//! The verified core of `rigcoder-bench`.

pub mod cli;
pub mod digest;
pub mod docker;
pub mod double;
pub mod evaluation;
pub mod evolve;
pub mod execution;
pub mod improvement;
pub mod iteration;
pub mod json;
pub mod ledger;
pub mod lines;
pub mod metadata;
pub mod observe;
pub mod one_run;
pub mod order;
pub mod place;
pub mod prompt_proposal;
pub mod report;
pub mod script;
pub mod slices;
pub mod stats;
pub mod table;
pub mod task;
pub mod text;
pub mod trial;
pub mod trial_relay;
pub mod ui;
