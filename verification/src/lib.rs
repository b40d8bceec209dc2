//! Core logic of a dock for wlroots-based Wayland compositors: the model of
//! running windows and pinned launchers, the desktop-entry store, and the
//! decisions the dock's user interface takes.

pub mod text;
pub mod desktop;
pub mod toplevel;
pub mod model;
pub mod config;
pub mod layout;
pub mod icon;
pub mod paths;
pub mod trash;
pub mod devices;
pub mod behaviour;
