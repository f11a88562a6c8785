//! Output/surface lifecycle manager and menu state machine for a Wayland
//! status-bar shell.
//!
//! The library tracks which physical displays exist, keeps one bar surface
//! and one menu surface per display per configured bar, reconciles them with
//! a hot-reloadable configuration, and coordinates a single globally
//! exclusive popup menu across all displays.  Every action that must reach
//! the compositor is returned to the caller as a batch of [`requests::Request`]
//! values; the host binding executes them asynchronously.

use vstd::prelude::*;

pub mod config;
pub mod controller;
pub mod menu;
pub mod outputs;
pub mod system_info;
pub mod requests;
pub mod text;

verus! {

/// Base height of a bar in logical units, before the style adjustment and
/// the scale factor are applied.
pub const HEIGHT: u64 = 34;

} // verus!
