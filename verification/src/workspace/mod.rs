//! The state of the main window and everything that changes it. What has to be done
//! outside (queries, files, widgets) is put into an outbox, in order.

pub mod action;
pub mod conn;
pub mod conn_laws;
pub mod edit;
pub mod edit_laws;
pub mod export;
pub mod flow_laws;
pub mod laws;
pub mod loading_laws;
pub mod palette;
pub mod query;
pub mod query_laws;
pub mod result_laws;
pub mod schema;
pub mod schema_laws;
pub mod staging;
pub mod state;
pub mod tab;
pub mod tabs;
pub mod view;
pub mod window_laws;
