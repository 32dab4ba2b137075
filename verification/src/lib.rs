//! Verified decision logic of an agent's tool handlers and request builders.
use vstd::prelude::*;

pub mod chat_request;
pub mod claude_cache;
pub mod claude_content;
pub mod claude_history;
pub mod claude_provider;
pub mod claude_request;
pub mod claude_tool_input;
pub mod claude_tools;
pub mod context_fragments;
pub mod context_window;
pub mod errors;
pub mod file_ops;
pub mod file_receipts;
pub mod file_tool_plan;
pub mod file_tools;
pub mod follow_up;
pub mod ranges;
pub mod mutation_locks;
pub mod patch_runtime;
pub mod read_render;
pub mod reasoning_replay;
pub mod receipt_laws;
pub mod search;
pub mod shell_exec;
pub mod shell_file_changes;
pub mod text;
pub mod text_codec;
pub mod text_editor;
pub mod token_budget;
pub mod tool_hooks;
pub mod unified_exec;
pub mod user_shell;
pub mod web_search;

verus! {

/// Default first line for a bounded file read.
pub fn default_offset() -> (r: usize)
    ensures
        r == 1,
{
    1
}

} // verus!
