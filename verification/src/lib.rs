use vstd::prelude::*;

pub mod text;
pub mod glob;
pub mod command_exec;
pub mod context;
pub mod search;
pub mod search_json;
pub mod sse;
pub mod api_types;
pub mod formatter;
pub mod file_edit;
pub mod file_reader;
pub mod file_writer;
pub mod xdiff;
pub mod pathutils;
pub mod ignore_rules;
pub mod list_files;
pub mod search_files;
pub mod json;
pub mod openai;
pub mod mcp;
pub mod tools;
pub mod prompt;
pub mod agent;
pub mod ipc;
pub mod mcp_transport;
pub mod history_cell;
pub mod chat;
pub mod app_state;
pub mod status_bar;
pub mod layout;
pub mod markdown;
pub mod highlight;
pub mod panels;

verus! {
} // verus!
