//! Enhances agentic AI guides with model-generated workflows, gotchas, key
//! commands and error solutions: the verified core of the command-line tool.
use vstd::prelude::*;

pub mod text;
pub mod security;
pub mod prompt;
pub mod enhancer;
pub mod vertex;
pub mod exit;
