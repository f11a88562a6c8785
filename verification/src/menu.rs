//! Per-surface-pair menu state.
//!
//! Each surface pair owns zero or one open popup menu, recorded as an
//! optional (menu kind, anchor button) slot.  The registry in
//! [`crate::outputs`] enforces the global rule that at most one pair in the
//! whole registry has a non-empty slot; this module only knows about a
//! single slot and the visibility requests its transitions produce.

use vstd::prelude::*;

verus! {

use crate::requests::Request;
use crate::text::string_bytes;

/// The closed set of popup menu kinds.  A tray menu is identified by the
/// name of the tray service it belongs to.
#[derive(Debug)]
pub enum MenuType {
    Updates,
    Tray(String),
    Settings,
    MediaPlayer,
    SystemInfo,
}

/// Two menu kinds are the same: same variant, and for tray menus the same
/// service name.
pub open spec fn mt_eq(a: MenuType, b: MenuType) -> bool {
    match (a, b) {
        (MenuType::Updates, MenuType::Updates) => true,
        (MenuType::Tray(x), MenuType::Tray(y)) => string_bytes(x) == string_bytes(y),
        (MenuType::Settings, MenuType::Settings) => true,
        (MenuType::MediaPlayer, MenuType::MediaPlayer) => true,
        (MenuType::SystemInfo, MenuType::SystemInfo) => true,
        _ => false,
    }
}

impl MenuType {
    /// Reports whether `self` and `other` are the same menu kind.
    pub fn same(&self, other: &MenuType) -> (r: bool)
        ensures
            r == mt_eq(*self, *other),
    {
        match (self, other) {
            (MenuType::Updates, MenuType::Updates) => true,
            (MenuType::Tray(x), MenuType::Tray(y)) => crate::text::str_eq(
                x.as_str(),
                y.as_str(),
            ),
            (MenuType::Settings, MenuType::Settings) => true,
            (MenuType::MediaPlayer, MenuType::MediaPlayer) => true,
            (MenuType::SystemInfo, MenuType::SystemInfo) => true,
            _ => false,
        }
    }
}

impl Clone for MenuType {
    fn clone(&self) -> (r: Self)
        ensures
            mt_eq(r, *self),
    {
        match self {
            MenuType::Updates => MenuType::Updates,
            MenuType::Tray(name) => MenuType::Tray(name.clone()),
            MenuType::Settings => MenuType::Settings,
            MenuType::MediaPlayer => MenuType::MediaPlayer,
            MenuType::SystemInfo => MenuType::SystemInfo,
        }
    }
}

/// Reference to the bar button a menu is anchored to, in logical
/// coordinates.
#[derive(Clone, Copy, Debug, PartialEq, Eq, Structural)]
pub struct ButtonUIRef {
    pub x: i32,
    pub y: i32,
}

/// The contents of an open menu slot.
pub type MenuSlot = Option<(MenuType, ButtonUIRef)>;

/// Two menu slots hold the same state.
pub open spec fn slot_eq(a: MenuSlot, b: MenuSlot) -> bool {
    match (a, b) {
        (Option::None, Option::None) => true,
        (Option::Some((ka, aa)), Option::Some((kb, ab))) => mt_eq(ka, kb) && aa == ab,
        _ => false,
    }
}

/// The slot after a toggle: closing when the same kind is already open,
/// opening (and replacing any other kind) otherwise.
pub open spec fn spec_toggle_slot(slot: MenuSlot, kind: MenuType, anchor: ButtonUIRef) -> MenuSlot {
    match slot {
        Option::Some((k, _)) => if mt_eq(k, kind) {
            Option::None
        } else {
            Option::Some((kind, anchor))
        },
        Option::None => Option::Some((kind, anchor)),
    }
}

/// The menu state of one surface pair: the identity of the menu host
/// surface and the currently open menu, if any.
#[derive(Debug)]
pub struct Menu {
    pub id: u64,
    pub menu_info: MenuSlot,
}

impl Clone for Menu {
    fn clone(&self) -> (r: Self)
        ensures
            r.id == self.id,
            slot_eq(r.menu_info, self.menu_info),
    {
        Menu {
            id: self.id,
            menu_info: match &self.menu_info {
                Option::Some((kind, anchor)) => Option::Some((kind.clone(), *anchor)),
                Option::None => Option::None,
            },
        }
    }
}

impl Menu {
    /// A closed menu hosted on the surface with identity `id`.
    pub fn new(id: u64) -> (m: Menu)
        ensures
            m.id == id,
            m.menu_info is None,
    {
        Menu { id, menu_info: Option::None }
    }

    /// Toggles the slot: closes it when `menu_type` is already open,
    /// otherwise opens `menu_type` at `anchor`.  Appends the visibility
    /// request for the menu host surface.
    pub fn toggle(&mut self, menu_type: MenuType, anchor: ButtonUIRef, requests: &mut Vec<Request>)
        ensures
            final(self).id == old(self).id,
            slot_eq(final(self).menu_info, spec_toggle_slot(old(self).menu_info, menu_type, anchor)),
            final(requests)@ == old(requests)@.push(
                (Request::SetMenuVisible {
                    id: old(self).id,
                    visible: final(self).menu_info is Some,
                }),
            ),
    {
        let opened: bool;
        match &self.menu_info {
            Option::Some((kind, _)) => {
                if kind.same(&menu_type) {
                    self.menu_info = Option::None;
                    opened = false;
                } else {
                    self.menu_info = Option::Some((menu_type, anchor));
                    opened = true;
                }
            },
            Option::None => {
                self.menu_info = Option::Some((menu_type, anchor));
                opened = true;
            },
        }
        requests.push(Request::SetMenuVisible { id: self.id, visible: opened });
    }

    /// Closes the slot.  A visibility request is appended only when the
    /// menu was actually open.
    pub fn close(&mut self, requests: &mut Vec<Request>)
        ensures
            final(self).id == old(self).id,
            final(self).menu_info is None,
            final(requests)@ == if old(self).menu_info is Some {
                old(requests)@.push(
                    (Request::SetMenuVisible { id: old(self).id, visible: false }),
                )
            } else {
                old(requests)@
            },
    {
        if self.menu_info.is_some() {
            self.menu_info = Option::None;
            requests.push(Request::SetMenuVisible { id: self.id, visible: false });
        }
    }

    /// Closes the slot only when a menu of kind `menu_type` is open, so a
    /// stale close request cannot dismiss a menu of a different kind.
    pub fn close_if(&mut self, menu_type: &MenuType, requests: &mut Vec<Request>)
        ensures
            final(self).id == old(self).id,
            ({
                let matched = old(self).menu_info matches Some((k, _)) && mt_eq(k, *menu_type);
                &&& final(self).menu_info == if matched {
                    None::<(MenuType, ButtonUIRef)>
                } else {
                    old(self).menu_info
                }
                &&& final(requests)@ == if matched {
                    old(requests)@.push(
                        (Request::SetMenuVisible { id: old(self).id, visible: false }),
                    )
                } else {
                    old(requests)@
                }
            }),
    {
        let matched = match &self.menu_info {
            Option::Some((kind, _)) => kind.same(menu_type),
            Option::None => false,
        };
        if matched {
            self.menu_info = Option::None;
            requests.push(Request::SetMenuVisible { id: self.id, visible: false });
        }
    }
}

} // verus!

verus! {

/// Slot sameness is transitive.
pub proof fn lemma_slot_eq_trans(x: MenuSlot, y: MenuSlot, z: MenuSlot)
    requires
        slot_eq(x, y),
        slot_eq(y, z),
    ensures
        slot_eq(x, z),
{
}

/// Toggling with either of two equal menu kinds produces the same slot.
pub proof fn lemma_toggle_respects_mt_eq(slot: MenuSlot, a: MenuType, b: MenuType, anchor: ButtonUIRef)
    requires
        mt_eq(a, b),
    ensures
        slot_eq(spec_toggle_slot(slot, a, anchor), spec_toggle_slot(slot, b, anchor)),
        spec_toggle_slot(slot, a, anchor) is Some == spec_toggle_slot(slot, b, anchor) is Some,
{
}

} // verus!

verus! {

/// Toggle law: toggling a menu kind on a pair whose slot is closed opens
/// it, and toggling the same kind again closes it.  Combined with the
/// registry contract for `toggle_menu` — whose trailing keyboard request
/// is a grant exactly when the toggled slot ends up open and a revocation
/// when it ends up closed — two toggles of one kind return the pair to
/// `Closed` and, when keyboard interactivity was requested, end in a
/// keyboard-release request for the owning bar surface.
pub proof fn lemma_toggle_same_kind_twice(
    mid: MenuSlot,
    kind: MenuType,
    kind2: MenuType,
    anchor: ButtonUIRef,
    anchor2: ButtonUIRef,
)
    requires
        mt_eq(kind2, kind),
        slot_eq(mid, spec_toggle_slot(Option::<(MenuType, ButtonUIRef)>::None, kind, anchor)),
    ensures
        mid is Some,
        spec_toggle_slot(mid, kind2, anchor2) is None,
{
}

} // verus!
