//! A live, typed graph of a Unix host: processes, files and users, the
//! agent-side rules that decide what is observed, and the viewer-side
//! state engine that keeps the graph, its indices and its timeline.

pub mod collections;
pub mod config;
pub mod explain;
pub mod housekeeping;
pub mod inspect;
pub mod labels;
pub mod layout;
pub mod model;
pub mod path_policy;
pub mod procfs_text;
pub mod protocol;
pub mod reach;
pub mod server;
pub mod settings;
pub mod snapshot;
pub mod state;
pub mod text;
pub mod timeline;
pub mod tree;
pub mod viewer_config;
pub mod watch_fs;
pub mod watch_proc;
pub mod wire;
