//! The decisions behind the user interface. Drawing, and what the zoom is, is left to the caller.

pub mod atlas;
pub mod browser;
pub mod config;
pub mod panes;
pub mod state;
