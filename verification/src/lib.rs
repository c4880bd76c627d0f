//! Verified core of the `mash` agent: text handling, task files, tool
//! output shaping, LLM wire formats and the agent loop decisions.
pub mod agent;
pub mod cli;
pub mod anthropic;
pub mod daemon;
pub mod edit;
pub mod json;
pub mod llm;
pub mod mcp;
pub mod openai;
pub mod protocol;
pub mod shell;
pub mod tasks;
pub mod text;
pub mod tool_defs;
pub mod tools;
pub mod truncate;
pub mod tui;
