//! The verified core of a recursive self-improvement simulator: its JSON
//! codec, its command and MCP front ends, the stopping decisions of its loops,
//! candidate expressions, and the concepts it learns from documents.
use vstd::prelude::*;

pub mod text;
pub mod json;
pub mod json_text;
pub mod json_parse;
pub mod json_laws;
pub mod json_compact;
pub mod llm;
pub mod criticality;
pub mod loop_ctrl;
pub mod mcp;
pub mod api;
pub mod synthesis;
pub mod knowledge;
pub mod hw_probe;

verus! {

} // verus!
