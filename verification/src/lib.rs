//! The core of a projection daemon: it watches registered projects, takes
//! snapshots of their task graphs, and serves them to clients over a socket;
//! and the graph, layout and selection logic that such a client needs.

pub mod config;
pub mod daemon;
pub mod document_laws;
pub mod envelope;
pub mod files;
pub mod framing;
pub mod graph_laws;
pub mod graph_store;
pub mod json;
pub mod layout;
pub mod lifecycle;
pub mod limits;
pub mod message_laws;
pub mod ordered;
pub mod parse;
pub mod path;
pub mod path_laws;
pub mod project;
pub mod project_json;
pub mod protocol;
pub mod registry;
pub mod registry_laws;
pub mod run_laws;
pub mod server;
pub mod settings_laws;
pub mod snapshot;
pub mod sorted;
pub mod state;
pub mod state_laws;
pub mod stream_laws;
pub mod text;
pub mod text_laws;
pub mod time;
pub mod topology;
pub mod topology_laws;
pub mod tracking;
pub mod viewport;
pub mod views;
pub mod wire;
