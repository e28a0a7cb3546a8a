//! Tracks long-running terminal commands for a menu-bar indicator.
pub mod daemon;
pub mod events;
pub mod icon;
pub mod json;
pub mod text;
pub mod whitelist;
