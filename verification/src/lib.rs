//! Decisions of a daemon that balances Codex requests over several accounts.
pub mod accounts;
pub mod admin;
pub mod affinity;
pub mod auth_file;
pub mod backfill;
pub mod capture;
pub mod cli;
pub mod config;
pub mod crypto;
pub mod days;
pub mod double;
pub mod encoding;
pub mod error;
pub mod figures;
pub mod hashing;
pub mod history;
pub mod ids;
pub mod json;
pub mod keys;
pub mod labels;
pub mod lease;
pub mod ledger;
pub mod models;
pub mod pricing;
pub mod proxy;
pub mod refresh;
pub mod route_actions;
pub mod route_binding;
pub mod route_commands;
pub mod route_laws;
pub mod route_listing;
pub mod route_lookup;
pub mod routes;
pub mod routing;
pub mod scheduler;
pub mod session_laws;
pub mod session_registry;
pub mod sessions;
pub mod settings;
pub mod status;
pub mod table;
pub mod text;
pub mod time;
pub mod upstream;
pub mod usage;
pub mod waybar;
pub mod websocket;
