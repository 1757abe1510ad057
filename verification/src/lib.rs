pub mod agents;
pub mod bindings;
pub mod catalog;
pub mod codes;
pub mod commands;
pub mod config;
pub mod conversation;
pub mod effects;
pub mod events;
pub mod frames;
pub mod hook;
pub mod interactions;
pub mod inventory;
pub mod ipc;
pub mod json;
pub mod laws;
pub mod mcp;
pub mod messages;
pub mod migration;
pub mod outcomes;
pub mod paths;
pub mod protocol;
pub mod qq;
pub mod records;
pub mod replies;
pub mod security;
pub mod settings;
pub mod soundness;
pub mod status;
pub mod store;
pub mod tables;
pub mod targets;
pub mod text;
pub mod upkeep;
pub mod urls;
pub mod wizard;
