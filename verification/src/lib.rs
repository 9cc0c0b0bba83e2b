//! Core logic of a small HDL workbench: a line-based classifier that discovers
//! declared design units and flags probable testbenches, an in-memory registry
//! of open documents, an orchestrator that schedules the fixed three-stage
//! simulation pipeline (analyze, elaborate, run), and an aggregator that
//! renders the captured stage output as one transcript.

pub mod classifier;
pub mod pipeline;
pub mod registry;
pub mod report;
pub mod scan;
