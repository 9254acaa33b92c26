//! The rack's data: plugins, their stored form, and the manager that owns
//! them.

pub mod manager;
pub mod plugin;
pub mod rack;
pub mod stored;
