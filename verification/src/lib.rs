//! Verified core of the ClawPal assistant: configuration JSON editing, prompt
//! construction, error guidance and the command queue.
use vstd::prelude::*;

pub mod agent_fallback;
pub mod cli_runner;
pub mod doctor;
pub mod doctor_commands;
pub mod install;
pub mod json;
pub mod prompt_templates;
pub mod runtime;
pub mod session;
pub mod text;

verus! {

} // verus!
