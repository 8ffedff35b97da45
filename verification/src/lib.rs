pub mod text;
pub mod bytes;
pub mod ordered;
pub mod paths;
pub mod project_root_markers;
pub mod json;
pub mod toml_tree;
pub mod context_pack;
pub mod guardrails;
pub mod progress;
pub mod ace_notes;
pub mod limited_text;
pub mod relevant_files;
pub mod retriever;
pub mod preview;
pub mod ace_loop;
pub mod instructions;
pub mod schemas;
pub mod requests;
pub mod endpoint;
pub mod model_response;
pub mod views;
pub mod providers;
pub mod context_engine;
pub mod name_map;
pub mod conversation;
pub mod plugins;
pub mod mcp_inventory;
pub mod feedback;
pub mod app_requests;
pub mod session;
