//! A knowledge store for command-line agents, with its rules verified.
pub mod adjudicate;
pub mod answer_laws;
pub mod call_laws;
pub mod catalog;
pub mod clap_catalog;
pub mod classify;
pub mod cli;
pub mod context;
pub mod context_laws;
pub mod dates;
pub mod dialogue;
pub mod dialogue_presence;
pub mod edit;
pub mod edit_laws;
pub mod embed;
pub mod forward;
pub mod forward_laws;
pub mod glob;
pub mod glob_laws;
pub mod history;
pub mod index_laws;
pub mod invoke;
pub mod json;
pub mod judge_laws;
pub mod kernel;
pub mod kx;
pub mod kx_laws;
pub mod kx_query;
pub mod listing_laws;
pub mod mcp;
pub mod metrics;
pub mod metrics_laws;
pub mod migrate;
pub mod order_laws;
pub mod plan;
pub mod plan_laws;
pub mod printing_laws;
pub mod query;
pub mod ranking;
pub mod recall;
pub mod recall_laws;
pub mod record_laws;
pub mod render;
pub mod render_laws;
pub mod resolve;
pub mod rows;
pub mod schema;
pub mod search;
pub mod search_laws;
pub mod server;
pub mod service_laws;
pub mod settings;
pub mod sort;
pub mod sql;
pub mod stats;
pub mod store;
pub mod store_laws;
pub mod supersede;
pub mod tasks;
pub mod text;
pub mod text_laws;
pub mod tokens;
pub mod tool_laws;
