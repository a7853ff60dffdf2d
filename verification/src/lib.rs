//! A minimal plugin host: plugin objects built from dynamically loaded
//! libraries, kept alive no longer than the libraries that back them.

pub mod journal;
pub mod laws;
pub mod manager;
pub mod plugin;
pub mod plugin1;
