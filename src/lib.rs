//! A status-bar summary of a tiling window manager: monitors, desktops and
//! windows, each group of windows drawn as an icon chosen by configured rules,
//! with markup for colors, focus and urgency.
pub mod bspc;
pub mod colors;
pub mod config;
pub mod formatter;
pub mod render;
pub mod settings;
pub mod sync;
