//! The logic of an MCP gateway: one endpoint for clients that stands before many upstream servers.
//!
//! Every function says in its contract what it returns and what it changes, and is proved to do so.
//! Reading files, sending requests and telling the time is left to the program around the library,
//! which hands their outcomes over as plain values.
pub mod auth;
pub mod config;
pub mod downstream;
pub mod health;
pub mod http;
pub mod json;
pub mod life;
pub mod manager;
pub mod message;
pub mod metrics;
pub mod normalize;
pub mod page;
pub mod post;
pub mod reload;
pub mod rpc;
pub mod sse;
pub mod state;
pub mod table;
pub mod text;
pub mod tools;
pub mod upstream;
