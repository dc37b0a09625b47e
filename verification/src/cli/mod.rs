//! What the commands of `touchbarctl` mean, apart from carrying them out.
pub mod args;
pub mod cargo;
pub mod change;
pub mod command;
pub mod naming;
pub mod hardware;
pub mod session;
pub mod plan;
pub mod report;
pub mod matrix;
pub mod consent;
pub mod target;
pub mod listing;
pub mod scaffold;
