//! Word-frequency counting with machine-checked contracts.
//!
//! The crate holds every decision a word counter makes: how the command
//! line is read (`args`), how a text is cut into tokens (`tokens`), how a
//! token becomes a word (`normalize`), which words a filter keeps
//! (`filter`), how the kept words are tallied (`tally`, `counts`, `stats`),
//! how the result is rendered (`report`) and how a run ends (`error`,
//! `run`). Reading the input file and ending the process are left to the
//! caller. What is taken on trust from the standard library stands in
//! `trusted`.

pub mod trusted;
pub mod text;
pub mod number;
pub mod error;
pub mod args;
pub mod tokens;
pub mod normalize;
pub mod filter;
pub mod tally;
pub mod counts;
pub mod stats;
pub mod report;
pub mod run;
