//! Verified core of the observation tools server: parsing of Rust debug
//! output, group trees, pagination and key encodings.

pub mod text;
pub mod json;
pub mod debug_parser;
pub mod ids;
pub mod model;
pub mod storage;
pub mod walk;
pub mod proto;
pub mod keys;
pub mod lookup;
pub mod tree_bfs;
pub mod payload;
pub mod api;
pub mod pages;
pub mod responses;
pub mod ui_tree;
pub mod auth;
pub mod csrf;
pub mod server_api;
pub mod backends;
pub mod upload;
pub mod accounts;
pub mod filters;
