//! Plugin trust metadata, the host's key/value storage model, and the
//! terminal front end's page and navigation logic, with their contracts.

pub mod database;
pub mod hdk_metadata;
pub mod host_view;
pub mod keyed;
pub mod metadata;
pub mod page;
pub mod text;
pub mod tui;
