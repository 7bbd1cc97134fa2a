//! A file system whose directories are computed from a relational store of
//! items, relationships between them, and filters over them.
//!
//! `db` holds the value types and the SQL that condition lists compile to,
//! `schema` the tables, upgrade path and statements, `store` what is computed
//! from the rows read back, `client` the path-resolution engine and the
//! control channel's handle table, `api` the channel's messages, and `views`
//! what browsing the mount is proved to show.
pub mod api;
pub mod client;
pub mod db;
pub mod schema;
pub mod store;
pub mod text;
pub mod views;
