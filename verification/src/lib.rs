//! Shared-monitor virtual desktops for Hyprland: the desk model, the
//! client/daemon wire protocol, the compositor command vocabulary and the
//! daemon's decision logic, each specified and proved.

pub mod text;
pub mod model;
pub mod error;
pub mod protocol;
pub mod hypr;
pub mod memory;
pub mod daemon;
pub mod waybar;
pub mod cli;
