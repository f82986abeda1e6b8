//! Evidence-backed changelog generation: git history parsing, evidence
//! correlation and report rendering, with their contracts proved by Verus.

pub mod cli;
pub mod error;
pub mod evidence;
pub mod git;
pub mod numbers;
pub mod order;
pub mod report;
pub mod text;
