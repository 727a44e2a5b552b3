//! Verified core of `ocs`, a viewer for OpenCode session data: the data model,
//! the tag and note sidecar store, the text and markdown renderers, the
//! terminal markdown renderer, the pager state machine, the SQL the commands
//! run, and the aggregation of token usage and cost.

pub mod text;
pub mod split;
pub mod cmd;
pub mod db;
pub mod stats;
pub mod render_list;
pub mod render_msg;
pub mod render_report;
pub mod render_usage;
pub mod run;
pub mod manage;
pub mod models;
pub mod keyed;
pub mod sorted;
pub mod meta;
pub mod ansi;
pub mod timefmt;
pub mod pager;
pub mod md_events;
pub mod styling;
pub mod md_table;
pub mod md_render;
