//! A client library for the Tophub hot-list API.
pub mod text;
pub mod json;
pub mod dump;
pub mod api;
pub mod cli;
pub mod fetch;
