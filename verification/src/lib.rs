//! Verified core of a compact system-monitor panel applet: value formatting,
//! sensor-text parsing, interface selection, GPU aggregation and the applet's
//! state machine. Reading the system and drawing widgets happen around it.

pub mod text;
pub mod format;
pub mod network;
pub mod config;
pub mod applet;
pub mod panel;
pub mod popup;
pub mod gpu;
pub mod snapshot;
