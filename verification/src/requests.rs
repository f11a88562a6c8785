//! Compositor requests as plain values.
//!
//! Nothing in the lifecycle core blocks: every action that must reach the
//! compositor is described by a [`Request`] and returned to the caller in a
//! batch.  The host binding executes the batch asynchronously, in issuance
//! order, with no completion callback consumed by this core.

use vstd::prelude::*;

verus! {

use crate::config::AppearanceStyle;
use crate::config::Position;
use crate::HEIGHT;

/// Keyboard interactivity a bar surface can be asked for.
#[derive(Clone, Copy, Debug, PartialEq, Eq, Structural)]
pub enum KeyboardMode {
    Disabled,
    OnDemand,
    Exclusive,
}

/// The display a creation request is aimed at: a known output handle, or
/// whatever output is currently active.
#[derive(Clone, Copy, Debug, PartialEq, Eq, Structural)]
pub enum OutputTarget {
    ActiveOutput,
    Output(u64),
}

/// One fire-and-forget request to the host compositor binding, tagged with
/// the identity of the surface it concerns.
#[derive(Clone, Copy, Debug, PartialEq, Eq, Structural)]
pub enum Request {
    /// Create the always-visible bar surface: anchored to the left and
    /// right edges plus the configured top/bottom edge, exclusive zone
    /// equal to its height, no initial keyboard interactivity.
    CreateBar { id: u64, target: OutputTarget, position: Position, height: u32 },
    /// Create the initially invisible menu host surface: anchored to all
    /// four edges, zero exclusive zone, no initial keyboard interactivity.
    CreateMenu { id: u64, target: OutputTarget },
    /// Destroy a surface.
    Destroy { id: u64 },
    /// Resize a bar surface and update its exclusive zone to the new
    /// height, after a style or scale-factor change.
    Resize { id: u64, height: u32 },
    /// Show or hide the menu host surface of a surface pair.
    SetMenuVisible { id: u64, visible: bool },
    /// Grant or revoke keyboard interactivity on a bar surface.
    SetKeyboard { id: u64, mode: KeyboardMode },
}

pub open spec fn is_create(r: Request) -> bool {
    r is CreateBar || r is CreateMenu
}

pub open spec fn is_destroy(r: Request) -> bool {
    r is Destroy
}

pub open spec fn is_keyboard(r: Request) -> bool {
    r is SetKeyboard
}

/// No request in `s` creates or destroys a surface.
pub open spec fn no_creates_or_destroys(s: Seq<Request>) -> bool {
    forall|k: int| 0 <= k < s.len() ==> !is_create(#[trigger] s[k]) && !is_destroy(s[k])
}

/// No request in `s` touches keyboard interactivity.
pub open spec fn no_keyboard_requests(s: Seq<Request>) -> bool {
    forall|k: int| 0 <= k < s.len() ==> !is_keyboard(#[trigger] s[k])
}

/// How much of the base height a style gives back to the compositor:
/// Solid and Gradient bars are 8 logical units shorter than the base
/// height, Islands bars keep the full base height for padding.
pub open spec fn style_adjustment(style: AppearanceStyle) -> int {
    match style {
        AppearanceStyle::Solid => 8,
        AppearanceStyle::Gradient => 8,
        AppearanceStyle::Islands => 0,
    }
}

/// Bar height in physical units: (base height - style adjustment) scaled by
/// the scale factor, which is given in hundredths.
pub open spec fn spec_bar_height(style: AppearanceStyle, scale_factor: u32) -> int {
    (HEIGHT - style_adjustment(style)) * scale_factor / 100
}

/// Computes the height of a bar surface from its style and the scale
/// factor.
pub fn bar_height(style: AppearanceStyle, scale_factor: u32) -> (h: u32)
    ensures
        h == spec_bar_height(style, scale_factor),
{
    let adjustment: u64 = match style {
        AppearanceStyle::Solid => 8,
        AppearanceStyle::Gradient => 8,
        AppearanceStyle::Islands => 0,
    };
    let base: u64 = HEIGHT - adjustment;
    assert(base * (scale_factor as u64) <= 34 * 0xffff_ffffu64) by (nonlinear_arith)
        requires
            base <= 34,
            scale_factor <= 0xffff_ffffu32,
    ;
    let h: u64 = base * (scale_factor as u64) / 100;
    h as u32
}

} // verus!
