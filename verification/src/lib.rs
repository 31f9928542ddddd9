//! The logic of a PostgreSQL desktop client, stated in contracts and proved.

pub mod actor;
pub mod assets;
pub mod catalog;
pub mod config;
pub mod describe;
pub mod dup;
pub mod edit;
pub mod error;
pub mod export;
pub mod export_laws;
pub mod ids;
pub mod introspect;
pub mod lexing;
pub mod line_laws;
pub mod listing_laws;
pub mod lsp;
pub mod query;
pub mod readback;
pub mod script_laws;
pub mod server_laws;
pub mod service_laws;
pub mod settings;
pub mod sql;
pub mod statement_laws;
pub mod text;
pub mod tls;
pub mod tree;
pub mod tree_laws;
pub mod types;
pub mod workspace;
