//! Reference library of the SemanticWeft protocol: semantic units, their
//! validation, the in-memory unit graph, rendering, signing, agent addressing,
//! the node API types, and the node's storage and request-decision logic.

pub mod address;
pub mod api;
pub mod auth;
pub mod cli;
pub mod config;
pub mod directory;
pub mod embed;
pub mod external;
pub mod federation;
pub mod fanout;
pub mod graph;
pub mod identity;
pub mod keyed;
pub mod node;
pub mod rate_limit;
pub mod render;
pub mod session;
pub mod signing;
pub mod storage;
pub mod text;
pub mod types;
pub mod validation;
