pub mod api;
pub mod config;
pub mod delete;
pub mod error;
pub mod intbytes;
pub mod b32;
pub mod keys;
pub mod onion;
pub mod query;
pub mod store;
pub mod message;
pub mod migrations;
pub mod wire;
