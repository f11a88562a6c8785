//! Configuration values consumed by the lifecycle core.
//!
//! The shell receives an already-parsed configuration from the host process;
//! the core treats it as an opaque immutable input per call.  Only the parts
//! that drive surface lifecycle decisions are modelled here: the list of bar
//! configurations, the display-name filter, the global scale factor and the
//! escape-key flag.

use vstd::prelude::*;

verus! {

/// Which edge of the display a bar occupies.
#[derive(Clone, Copy, Debug, PartialEq, Eq, Structural)]
pub enum Position {
    Top,
    Bottom,
}

/// Visual style of a bar.  Solid and Gradient bars give 8 logical units of
/// their base height back to the compositor; Islands bars reserve the full
/// base height for padding instead.
#[derive(Clone, Copy, Debug, PartialEq, Eq, Structural)]
pub enum AppearanceStyle {
    Solid,
    Gradient,
    Islands,
}

/// One configured bar: the parts of a bar configuration that drive surface
/// geometry.  List order defines the index correspondence used when syncing
/// existing surface pairs against a reloaded configuration.
#[derive(Clone, Copy, Debug, PartialEq, Eq, Structural)]
pub struct BarConfig {
    pub position: Position,
    pub style: AppearanceStyle,
}

/// The display-name filter: which outputs the bars should appear on.
///
/// `Targets` holds name fragments; a display belongs to the configuration
/// when its name contains any of the fragments.  `Active` means "follow the
/// currently active output" and never matches an explicit attach event.
#[derive(Debug, Clone)]
pub enum Outputs {
    All,
    Active,
    Targets(Vec<String>),
}

/// The configuration snapshot the application controller keeps between
/// events.
#[derive(Debug)]
pub struct GeneralConfig {
    pub bar_configs: Vec<BarConfig>,
    pub outputs: Outputs,
    /// Global scale factor in hundredths: 100 means a scale of one.
    pub scale_factor: u32,
    /// Whether the escape key closes menus (and therefore whether closing
    /// the last menu must revoke keyboard interactivity).
    pub enable_esc_key: bool,
}

} // verus!
