//! Translates a declarative browser configuration into registry policy entries, and plans
//! the store operations that apply, inspect and remove exactly the entries this tool owns.

pub mod config;
pub mod dump;
pub mod policy;
pub mod registry;
pub mod text;
