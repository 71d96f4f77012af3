//! Decides how past Codex sessions become visible again under the provider that is configured now:
//! which records of which files and databases differ, what they should say, what is backed up
//! before a change, and what is reported in the end. Reading and writing is left to the caller.

pub mod app_server;
pub mod backups;
pub mod catalog;
pub mod catalog_table;
pub mod files;
pub mod first_line;
pub mod global_state;
pub mod json;
pub mod order;
pub mod os_path;
pub mod paths;
pub mod provider;
pub mod repair;
pub mod report;
pub mod rollouts;
pub mod session_index;
pub mod sql_expr;
pub mod sql_table;
pub mod sqlite;
pub mod text;
pub mod thread_source;
pub mod thread_table;
pub mod threads;
pub mod timestamps;
