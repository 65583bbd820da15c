//! Verified core of the Knowledge Builder: the rules by which documents dropped
//! into an Obsidian vault are queued, handed to an agent, audited and reported.

pub mod backup;
pub mod boundary_laws;
pub mod client;
pub mod code_stash;
pub mod commands;
pub mod config;
pub mod daemon;
pub mod display;
pub mod display_laws;
pub mod doctor;
pub mod doctor_laws;
pub mod document_laws;
pub mod driver;
pub mod edits;
pub mod env_map;
pub mod event_kind;
pub mod extractor;
pub mod globs;
pub mod indexer;
pub mod json;
pub mod json_object;
pub mod link_laws;
pub mod link_sweeper;
pub mod lock;
pub mod message_laws;
pub mod metrics;
pub mod migrations;
pub mod note_laws;
pub mod number;
pub mod obsidian;
pub mod ops;
pub mod order_laws;
pub mod path_laws;
pub mod path_map;
pub mod paths;
pub mod pattern;
pub mod pi_resolver;
pub mod plan;
pub mod plan_laws;
pub mod prompt;
pub mod prune;
pub mod relink_edits;
pub mod relink_laws;
pub mod report_laws;
pub mod run_laws;
pub mod secrets;
pub mod settings_laws;
pub mod setup_laws;
pub mod show;
pub mod span_fields;
pub mod state;
pub mod storage;
pub mod stream_laws;
pub mod tail;
pub mod target;
pub mod text;
pub mod text_laws;
pub mod types;
pub mod undo_laws;
pub mod upkeep_laws;
pub mod vault_laws;
