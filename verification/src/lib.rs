//! Touch Bar composition, layout, plugin discovery and broker messages.
pub mod broker;
pub mod catalog;
pub mod cli;
pub mod client;
pub mod component;
pub mod control;
pub mod demo;
pub mod github;
pub mod kit;
pub mod layout;
pub mod model;
pub mod scan;
pub mod source;
pub mod text;
pub mod wire;
