//! Dynamic generic plugins: a host loads plugin implementations from dynamic
//! libraries, keeps them in a directory keyed by plugin identifier, and
//! releases each library when the last plugin it produced is unloaded,
//! unless a plugin of it is still in a caller's hands.

pub mod config;
pub mod directory;
pub mod error;
pub mod library;
pub mod manager;
pub mod names;
pub mod plugin;
pub mod search;
pub mod sound;
