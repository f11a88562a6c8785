//! The application controller: the top-level dispatcher that routes
//! compositor events, user input and configuration changes into the
//! output registry and menu operations.
//!
//! The host event loop owns the I/O: it receives compositor events and
//! module callbacks, feeds them in as [`Message`] values, and executes the
//! request batch that comes back.

use vstd::prelude::*;

verus! {

use crate::config::GeneralConfig;
use crate::config;
use crate::menu::MenuType;
use crate::menu::ButtonUIRef;
use crate::outputs::Outputs;
use crate::outputs::attach_destroy_requests;
use crate::outputs::creation_requests;
use crate::outputs::entry_close_if_all;
use crate::outputs::entry_close_if_target;
use crate::outputs::entry_close_target;
use crate::outputs::entry_closed_all;
use crate::outputs::entry_reconciled;
use crate::outputs::entry_toggled;
use crate::outputs::pair_owns;
use crate::outputs::spec_name_matches;
use crate::outputs::state_unchanged;
use crate::menu::spec_toggle_slot;
use crate::requests::KeyboardMode;
use crate::requests::OutputTarget;
use crate::requests::Request;
use crate::requests::no_creates_or_destroys;
use crate::requests::no_keyboard_requests;
use crate::text::string_bytes;
use crate::text::str_eq;

/// A display attach or detach notification from the compositor, reduced
/// to the display name and the handle key the host assigned to the
/// output.
#[derive(Debug)]
pub enum OutputEvent {
    Attached(String, u64),
    Detached(u64),
}

/// What a module asked the shell to do after handling one of its own
/// messages.
#[derive(Debug)]
pub enum ModuleAction {
    Nothing,
    CloseMenu(u64),
    CloseMenuIf(u64, MenuType),
    CloseAllIf(MenuType),
    RequestKeyboard(u64),
    ReleaseKeyboard(u64),
}

/// The events the lifecycle core reacts to.
#[derive(Debug)]
pub enum Message {
    Nothing,
    ConfigChanged(GeneralConfig),
    ToggleMenu(MenuType, u64, ButtonUIRef),
    CloseMenu(u64),
    OutputEvent(OutputEvent),
    CloseAllMenus,
    Module(ModuleAction),
}

/// The two display-name filters are the same filter.
pub open spec fn filter_eq(a: config::Outputs, b: config::Outputs) -> bool {
    match (a, b) {
        (config::Outputs::All, config::Outputs::All) => true,
        (config::Outputs::Active, config::Outputs::Active) => true,
        (config::Outputs::Targets(x), config::Outputs::Targets(y)) => x@.len() == y@.len()
            && forall|i: int|
            0 <= i < x@.len() ==> string_bytes(#[trigger] x@[i]) == string_bytes(y@[i]),
        _ => false,
    }
}

/// The parts of the configuration that drive surface lifecycle are the
/// same: bar list, filter and scale factor.  The escape-key flag is not
/// part of this, because changing it alone requires no reconciliation.
pub open spec fn sync_relevant_eq(a: GeneralConfig, b: GeneralConfig) -> bool {
    &&& a.bar_configs@ == b.bar_configs@
    &&& filter_eq(a.outputs, b.outputs)
    &&& a.scale_factor == b.scale_factor
}

/// Decides whether a configuration change requires a reconciliation
/// pass.
fn sync_relevant_differs(a: &GeneralConfig, b: &GeneralConfig) -> (r: bool)
    ensures
        r == !sync_relevant_eq(*a, *b),
{
    if a.scale_factor != b.scale_factor {
        return true;
    }
    let na = a.bar_configs.len();
    if na != b.bar_configs.len() {
        assert(a.bar_configs@ != b.bar_configs@) by {
            assert(a.bar_configs@.len() != b.bar_configs@.len());
        }
        return true;
    }
    let mut i: usize = 0;
    while i < na
        invariant
            na == a.bar_configs@.len() == b.bar_configs@.len(),
            0 <= i <= na,
            forall|k: int| 0 <= k < i ==> a.bar_configs@[k] == b.bar_configs@[k],
        decreases na - i,
    {
        if !(a.bar_configs[i] == b.bar_configs[i]) {
            assert(a.bar_configs@ != b.bar_configs@);
            return true;
        }
        i += 1;
    }
    assert(a.bar_configs@ =~= b.bar_configs@);
    match (&a.outputs, &b.outputs) {
        (config::Outputs::All, config::Outputs::All) => false,
        (config::Outputs::Active, config::Outputs::Active) => false,
        (config::Outputs::Targets(x), config::Outputs::Targets(y)) => {
            let nt = x.len();
            if nt != y.len() {
                return true;
            }
            let mut t: usize = 0;
            while t < nt
                invariant
                    a.outputs == config::Outputs::Targets(*x),
                    b.outputs == config::Outputs::Targets(*y),
                    nt == x@.len() == y@.len(),
                    0 <= t <= nt,
                    forall|k: int|
                        0 <= k < t ==> string_bytes(#[trigger] x@[k]) == string_bytes(y@[k]),
                decreases nt - t,
            {
                if !str_eq(x[t].as_str(), y[t].as_str()) {
                    assert(string_bytes(x@[t as int]) != string_bytes(y@[t as int]));
                    assert(!filter_eq(a.outputs, b.outputs));
                    return true;
                }
                assert(string_bytes(x@[t as int]) == string_bytes(y@[t as int]));
                t += 1;
            }
            assert(filter_eq(a.outputs, b.outputs));
            false
        },
        _ => true,
    }
}

/// The shell core: the configuration snapshot and the output registry.
pub struct App {
    pub general_config: GeneralConfig,
    pub outputs: Outputs,
}

impl App {
    /// Builds the core at startup: the registry begins with the synthetic
    /// fallback entry so the bars show up before any display event
    /// arrives.
    pub fn new(config: GeneralConfig) -> (r: (App, Vec<Request>))
        requires
            config.bar_configs@.len() > 0,
            2 * config.bar_configs@.len() <= u64::MAX,
        ensures
            r.0.outputs.wf(),
            !r.0.outputs.any_open(),
            r.0.outputs.sized_ok(config.bar_configs@.len() as int),
            r.0.general_config == config,
            r.0.outputs.n_entries() == 1,
            r.0.outputs.entry(0).wl_output is None,
            r.0.outputs.entry(0).name@ == "Fallback"@,
            r.0.outputs.pairs_current(0, config.bar_configs@, config.scale_factor),
            r.0.outputs.next_id == 2 * config.bar_configs@.len(),
            r.1@ == creation_requests(
                config.bar_configs@,
                0,
                OutputTarget::ActiveOutput,
                config.scale_factor,
            ),
    {
        let (outputs, requests) = Outputs::new(&config.bar_configs, config.scale_factor);
        (App { general_config: config, outputs }, requests)
    }

    /// Routes one event into the registry and menu operations, returning
    /// the compositor requests it produced.  Well-formedness of the
    /// registry and the single-open-menu rule survive every event.
    pub fn update(&mut self, message: Message) -> (requests: Vec<Request>)
        requires
            old(self).outputs.wf(),
            old(self).general_config.bar_configs@.len() > 0,
            old(self).outputs.next_id + 2 * old(self).general_config.bar_configs@.len() * (old(
                self,
            ).outputs.entries@.len() + 1) <= u64::MAX,
            message matches Message::ConfigChanged(c) ==> c.bar_configs@.len() > 0 && old(
                self,
            ).outputs.next_id + 2 * c.bar_configs@.len() * (old(self).outputs.entries@.len() + 1)
                <= u64::MAX,
        ensures
            final(self).outputs.wf(),
            old(self).outputs.menu_exclusive() ==> final(self).outputs.menu_exclusive(),
            final(self).general_config.bar_configs@.len() > 0,
            !(message is ConfigChanged) ==> final(self).general_config == old(self).general_config,
            message is Nothing ==> final(self).outputs == old(self).outputs && requests@.len()
                == 0,
            message is CloseAllMenus ==> !final(self).outputs.any_open(),
            message is CloseAllMenus ==> {
                &&& no_creates_or_destroys(requests@)
                &&& (!old(self).outputs.any_open() ==> final(self).outputs == old(self).outputs
                    && requests@.len() == 0)
                &&& (old(self).outputs.any_open() ==> (forall|i: int|
                    old(self).outputs.valid_entry(i) ==> entry_closed_all(
                        old(self).outputs.entry(i),
                        #[trigger] final(self).outputs.entry(i),
                    )) && (!old(self).general_config.enable_esc_key ==> no_keyboard_requests(
                    requests@,
                )))
            },
            message matches Message::ConfigChanged(c) ==> {
                &&& final(self).general_config == c
                &&& no_keyboard_requests(requests@)
                &&& final(self).outputs.entries@.len() <= old(self).outputs.entries@.len() + 1
                &&& final(self).outputs.next_id <= old(self).outputs.next_id + 2
                    * c.bar_configs@.len() * (old(self).outputs.entries@.len() + 1)
                &&& (sync_relevant_eq(old(self).general_config, c) ==> final(self).outputs == old(
                    self,
                ).outputs && requests@.len() == 0)
                &&& (!sync_relevant_eq(old(self).general_config, c) ==> {
                    &&& final(self).outputs.synced(c.bar_configs@, c.outputs, c.scale_factor)
                    &&& final(self).outputs.sized_ok(c.bar_configs@.len() as int)
                    &&& (old(self).outputs.synced(c.bar_configs@, c.outputs, c.scale_factor)
                        ==> state_unchanged(old(self).outputs, final(self).outputs)
                        && requests@.len() == 0)
                    &&& (old(self).outputs.membership_stable(c.bar_configs@, c.outputs) ==> {
                        &&& forall|k: int|
                            0 <= k < requests@.len() ==> (#[trigger] requests@[k]) is Resize
                        &&& requests@.len() == crate::outputs::total_changed(
                            old(self).outputs.entries@,
                            c.bar_configs@,
                            c.scale_factor,
                            old(self).outputs.n_entries(),
                        )
                        &&& forall|i: int, j: int|
                            old(self).outputs.valid_info(i, j) && crate::outputs::pair_changed(
                                #[trigger] old(self).outputs.info(i, j),
                                c.bar_configs@[j],
                                c.scale_factor,
                            ) ==> exists|k: int|
                                0 <= k < requests@.len() && requests@[k] == (Request::Resize {
                                    id: old(self).outputs.info(i, j).id,
                                    height: crate::requests::spec_bar_height(
                                        c.bar_configs@[j].style,
                                        c.scale_factor,
                                    ) as u32,
                                })
                    })
                    &&& forall|i: int|
                        old(self).outputs.valid_entry(i) && (#[trigger] old(self).outputs.entry(
                            i,
                        )).wl_output is Some ==> exists|i2: int|
                            final(self).outputs.valid_entry(i2) && entry_reconciled(
                                old(self).outputs.entry(i),
                                #[trigger] final(self).outputs.entry(i2),
                                c.bar_configs@,
                                c.outputs,
                                c.scale_factor,
                            )
                })
            },
            message matches Message::ToggleMenu(mt, id, anchor) ==> {
                &&& final(self).outputs.menu_exclusive()
                &&& forall|i: int|
                    old(self).outputs.valid_entry(i) ==> entry_toggled(
                        old(self).outputs.entry(i),
                        #[trigger] final(self).outputs.entry(i),
                        id,
                        mt,
                        anchor,
                    )
                &&& no_creates_or_destroys(requests@)
                &&& ({
                    let has_target = exists|i: int, j: int|
                        old(self).outputs.valid_info(i, j) && pair_owns(
                            #[trigger] old(self).outputs.info(i, j),
                            id,
                        );
                    let kb = old(self).general_config.enable_esc_key;
                    &&& (!(kb && has_target) ==> no_keyboard_requests(requests@))
                    &&& (kb && has_target ==> requests@.len() > 0 && no_keyboard_requests(
                        requests@.drop_last(),
                    ) && forall|i: int, j: int|
                        old(self).outputs.valid_info(i, j) && pair_owns(
                            #[trigger] old(self).outputs.info(i, j),
                            id,
                        ) ==> requests@.last() == (Request::SetKeyboard {
                            id: old(self).outputs.info(i, j).id,
                            mode: if spec_toggle_slot(
                                old(self).outputs.info(i, j).menu.menu_info,
                                mt,
                                anchor,
                            ) is Some {
                                KeyboardMode::OnDemand
                            } else {
                                KeyboardMode::Disabled
                            },
                        }))
                })
            },
            message matches Message::CloseMenu(id) ==> {
                &&& forall|i: int|
                    old(self).outputs.valid_entry(i) ==> entry_close_target(
                        old(self).outputs.entry(i),
                        #[trigger] final(self).outputs.entry(i),
                        id,
                    )
                &&& no_creates_or_destroys(requests@)
                &&& ({
                    let has_target = exists|i: int, j: int|
                        old(self).outputs.valid_info(i, j) && pair_owns(
                            #[trigger] old(self).outputs.info(i, j),
                            id,
                        );
                    let revoke = old(self).general_config.enable_esc_key && has_target && !final(self).outputs.any_open();
                    &&& (!revoke ==> no_keyboard_requests(requests@))
                    &&& (revoke ==> requests@.len() > 0 && no_keyboard_requests(
                        requests@.drop_last(),
                    ) && forall|i: int, j: int|
                        old(self).outputs.valid_info(i, j) && pair_owns(
                            #[trigger] old(self).outputs.info(i, j),
                            id,
                        ) ==> requests@.last() == (Request::SetKeyboard {
                            id: old(self).outputs.info(i, j).id,
                            mode: KeyboardMode::Disabled,
                        }))
                })
            },
            message matches Message::OutputEvent(OutputEvent::Attached(name, h)) ==> {
                &&& no_keyboard_requests(requests@)
                &&& final(self).outputs.next_id <= old(self).outputs.next_id + 2 * old(
                    self,
                ).general_config.bar_configs@.len()
                &&& final(self).outputs.entries@.len() <= old(self).outputs.entries@.len() + 1
                &&& (spec_name_matches(string_bytes(name), old(self).general_config.outputs)
                    ==> {
                    &&& !final(self).outputs.has_fallback()
                    &&& exists|i: int|
                        final(self).outputs.valid_entry(i) && final(self).outputs.entry_named(
                            i,
                            string_bytes(name),
                        ) && (#[trigger] final(self).outputs.entry(i)).wl_output == Some(h)
                            && final(self).outputs.pairs_current(
                            i,
                            old(self).general_config.bar_configs@,
                            old(self).general_config.scale_factor,
                        )
                    &&& requests@ == attach_destroy_requests(
                        old(self).outputs,
                        string_bytes(name),
                    ) + creation_requests(
                        old(self).general_config.bar_configs@,
                        old(self).outputs.next_id as int,
                        OutputTarget::Output(h),
                        old(self).general_config.scale_factor,
                    )
                })
                &&& (!spec_name_matches(string_bytes(name), old(self).general_config.outputs)
                    ==> {
                    &&& final(self).outputs.entries@.len() == old(self).outputs.entries@.len()
                        + 1
                    &&& forall|i: int|
                        0 <= i < old(self).outputs.entries@.len() ==> final(self).outputs.entries@[i] == old(self).outputs.entries@[i]
                    &&& final(self).outputs.entry(old(self).outputs.n_entries()).name@ == name@
                    &&& final(self).outputs.entry(old(self).outputs.n_entries()).infos@.len()
                        == 0
                    &&& final(self).outputs.entry(old(self).outputs.n_entries()).wl_output
                        == Some(h)
                    &&& requests@.len() == 0
                })
            },
            message matches Message::OutputEvent(OutputEvent::Detached(h)) ==> {
                &&& no_keyboard_requests(requests@)
                &&& final(self).outputs.next_id <= old(self).outputs.next_id + 2 * old(
                    self,
                ).general_config.bar_configs@.len()
                &&& final(self).outputs.entries@.len() <= old(self).outputs.entries@.len() + 1
                &&& ((forall|i: int|
                    old(self).outputs.valid_entry(i) ==> (#[trigger] old(self).outputs.entry(
                        i,
                    )).wl_output != Some(h)) ==> final(self).outputs == old(self).outputs
                    && requests@.len() == 0)
                &&& ((exists|i: int|
                    old(self).outputs.valid_entry(i) && (#[trigger] old(self).outputs.entry(
                        i,
                    )).wl_output == Some(h)) ==> exists|i: int|
                    {
                        &&& old(self).outputs.valid_entry(i)
                        &&& (#[trigger] old(self).outputs.entry(i)).wl_output == Some(h)
                        &&& final(self).outputs.valid_entry(i)
                        &&& final(self).outputs.entry(i).name == old(self).outputs.entry(i).name
                        &&& final(self).outputs.entry(i).wl_output == Some(h)
                        &&& final(self).outputs.n_infos(i) == 0
                        &&& requests@.len() >= 2 * old(self).outputs.n_infos(i)
                        &&& forall|j: int|
                            0 <= j < old(self).outputs.n_infos(i) ==> requests@[2 * j] == (
                            Request::Destroy {
                                id: (#[trigger] old(self).outputs.info(i, j)).id,
                            }) && requests@[2 * j + 1] == (Request::Destroy {
                                id: old(self).outputs.info(i, j).menu.id,
                            })
                    })
            },
            message matches Message::Module(ModuleAction::CloseMenu(id)) ==> (forall|i: int|
                old(self).outputs.valid_entry(i) ==> entry_close_target(
                    old(self).outputs.entry(i),
                    #[trigger] final(self).outputs.entry(i),
                    id,
                )) && no_creates_or_destroys(requests@),
            message matches Message::Module(ModuleAction::CloseMenuIf(id, mt)) ==> (forall|
                i: int,
            |
                old(self).outputs.valid_entry(i) ==> entry_close_if_target(
                    old(self).outputs.entry(i),
                    #[trigger] final(self).outputs.entry(i),
                    id,
                    mt,
                )) && no_creates_or_destroys(requests@),
            message matches Message::Module(ModuleAction::CloseAllIf(mt)) ==> (forall|i: int|
                old(self).outputs.valid_entry(i) ==> entry_close_if_all(
                    old(self).outputs.entry(i),
                    #[trigger] final(self).outputs.entry(i),
                    mt,
                )) && no_creates_or_destroys(requests@),
            message matches Message::Module(ModuleAction::Nothing) ==> final(self).outputs == old(
                self,
            ).outputs && requests@.len() == 0,
            message matches Message::Module(ModuleAction::RequestKeyboard(id)) ==> final(self).outputs == old(self).outputs && ({
                let has_target = exists|i: int, j: int|
                    old(self).outputs.valid_info(i, j) && pair_owns(
                        #[trigger] old(self).outputs.info(i, j),
                        id,
                    );
                &&& (!has_target ==> requests@.len() == 0)
                &&& (has_target ==> requests@.len() == 1 && forall|i: int, j: int|
                    old(self).outputs.valid_info(i, j) && pair_owns(
                        #[trigger] old(self).outputs.info(i, j),
                        id,
                    ) ==> requests@[0] == (Request::SetKeyboard {
                        id: old(self).outputs.info(i, j).id,
                        mode: KeyboardMode::Exclusive,
                    }))
            }),
            message matches Message::Module(ModuleAction::ReleaseKeyboard(id)) ==> final(self).outputs == old(self).outputs && ({
                let has_target = exists|i: int, j: int|
                    old(self).outputs.valid_info(i, j) && pair_owns(
                        #[trigger] old(self).outputs.info(i, j),
                        id,
                    );
                &&& (!has_target ==> requests@.len() == 0)
                &&& (has_target ==> requests@.len() == 1 && forall|i: int, j: int|
                    old(self).outputs.valid_info(i, j) && pair_owns(
                        #[trigger] old(self).outputs.info(i, j),
                        id,
                    ) ==> requests@[0] == (Request::SetKeyboard {
                        id: old(self).outputs.info(i, j).id,
                        mode: KeyboardMode::Disabled,
                    }))
            }),
            !(message is ConfigChanged) && !(message is OutputEvent) ==> final(self).outputs.next_id == old(self).outputs.next_id && final(self).outputs.entries@.len()
                == old(self).outputs.entries@.len(),
    {
        match message {
            Message::Nothing => Vec::new(),
            Message::ConfigChanged(config) => {
                let requests = if sync_relevant_differs(&self.general_config, &config) {
                    self.outputs.sync(&config.bar_configs, &config.outputs, config.scale_factor)
                } else {
                    Vec::new()
                };
                self.general_config = config;
                requests
            },
            Message::ToggleMenu(menu_type, id, button_ui_ref) => self.outputs.toggle_menu(
                id,
                menu_type,
                button_ui_ref,
                self.general_config.enable_esc_key,
            ),
            Message::CloseMenu(id) => self.outputs.close_menu(
                id,
                self.general_config.enable_esc_key,
            ),
            Message::OutputEvent(event) => {
                proof {
                    assert(self.outputs.next_id + 2 * self.general_config.bar_configs@.len()
                        <= u64::MAX) by (nonlinear_arith)
                        requires
                            self.outputs.next_id + 2 * self.general_config.bar_configs@.len() * (
                            self.outputs.entries@.len() + 1) <= u64::MAX,
                            self.general_config.bar_configs@.len() >= 0,
                            self.outputs.entries@.len() >= 0,
                    ;
                }
                match event {
                OutputEvent::Attached(name, wl_output) => self.outputs.add(
                    &self.general_config.bar_configs,
                    &self.general_config.outputs,
                    name.as_str(),
                    wl_output,
                    self.general_config.scale_factor,
                ),
                OutputEvent::Detached(wl_output) => self.outputs.remove(
                    &self.general_config.bar_configs,
                    wl_output,
                    self.general_config.scale_factor,
                ),
                }
            },
            Message::CloseAllMenus => {
                if self.outputs.menu_is_open() {
                    let r = self.outputs.close_all_menus(self.general_config.enable_esc_key);
                    proof {
                        assert(!self.outputs.any_open());
                    }
                    r
                } else {
                    Vec::new()
                }
            },
            Message::Module(action) => match action {
                ModuleAction::Nothing => Vec::new(),
                ModuleAction::CloseMenu(id) => self.outputs.close_menu(
                    id,
                    self.general_config.enable_esc_key,
                ),
                ModuleAction::CloseMenuIf(id, menu_type) => self.outputs.close_menu_if(
                    id,
                    menu_type,
                    self.general_config.enable_esc_key,
                ),
                ModuleAction::CloseAllIf(menu_type) => self.outputs.close_all_menu_if(
                    menu_type,
                    self.general_config.enable_esc_key,
                ),
                ModuleAction::RequestKeyboard(id) => self.outputs.request_keyboard(id),
                ModuleAction::ReleaseKeyboard(id) => self.outputs.release_keyboard(id),
            },
        }
    }
}

} // verus!
