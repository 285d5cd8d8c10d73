pub mod config;
pub mod context;
pub mod corpus;
pub mod engine;
pub mod laws;
pub mod error;
pub mod executor;
pub mod registry;
pub mod runtime;
pub mod server;
pub mod status;
pub mod steps;
pub mod store;
pub mod text;
