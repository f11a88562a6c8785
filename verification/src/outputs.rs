//! The output registry: the central map from display identity to its
//! surface pairs.
//!
//! Each registry entry pairs a display name with the ordered list of
//! bar+menu surface pairs currently alive for it and, when known, the
//! handle of the live display.  An entry without a handle is the synthetic
//! fallback entry that keeps the shell visible while no real display
//! matches the configured filter.
//!
//! Display handles and surface identities are plain integers here: the
//! host binding owns the real compositor objects and translates between
//! them and these keys.  Surface identities are allocated from a counter
//! owned by the registry, bar surfaces at even numbers and each menu host
//! surface right above its bar, which is what makes every identity in a
//! well-formed registry unique.

use vstd::prelude::*;

verus! {

use crate::config;
use crate::config::BarConfig;
use crate::menu::Menu;
use crate::menu::MenuType;
use crate::menu::ButtonUIRef;
use crate::menu::MenuSlot;
use crate::menu::mt_eq;
use crate::menu::slot_eq;
use crate::menu::spec_toggle_slot;
use crate::requests::Request;
use crate::requests::KeyboardMode;
use crate::requests::OutputTarget;
use crate::requests::spec_bar_height;
use crate::requests::no_creates_or_destroys;
use crate::requests::no_keyboard_requests;
use crate::requests::bar_height;
use crate::text::str_bytes;
use crate::text::string_bytes;
use crate::text::contains_seq;
use crate::text::str_contains;
use vstd::string::StringExecFns;

/// One bar+menu surface pair: the bar surface identity, the bar
/// configuration it was built for, its menu state and the scale factor it
/// was sized with.
#[derive(Debug)]
pub struct ShellInfo {
    pub id: u64,
    pub config: BarConfig,
    pub menu: Menu,
    pub scale_factor: u32,
}

impl Clone for ShellInfo {
    fn clone(&self) -> (r: Self)
        ensures
            si_eq(r, *self),
    {
        ShellInfo {
            id: self.id,
            config: self.config,
            menu: self.menu.clone(),
            scale_factor: self.scale_factor,
        }
    }
}

/// Two surface pairs hold the same state.
pub open spec fn si_eq(a: ShellInfo, b: ShellInfo) -> bool {
    &&& a.id == b.id
    &&& a.config == b.config
    &&& a.scale_factor == b.scale_factor
    &&& a.menu.id == b.menu.id
    &&& slot_eq(a.menu.menu_info, b.menu.menu_info)
}

/// One registry entry: a display name, the surface pairs currently alive
/// for it, and the display handle when the display is attached.
#[derive(Debug)]
pub struct OutputEntry {
    pub name: String,
    pub infos: Vec<ShellInfo>,
    pub wl_output: Option<u64>,
}

/// The output registry.
#[derive(Debug)]
pub struct Outputs {
    pub entries: Vec<OutputEntry>,
    pub next_id: u64,
}

/// The result of resolving a surface identity: the bar surface of a pair,
/// or its menu host surface together with the open menu, if any.
pub enum HasOutput {
    Main(ShellInfo),
    Menu(MenuSlot),
}

/// The creation target for surfaces of an entry with display handle `wl`.
pub open spec fn target_of(wl: Option<u64>) -> OutputTarget {
    match wl {
        Option::Some(h) => OutputTarget::Output(h),
        Option::None => OutputTarget::ActiveOutput,
    }
}

/// A surface pair freshly created for `cfg` with bar surface `id`: menu
/// host right above the bar surface, menu closed.
pub open spec fn fresh_info(si: ShellInfo, id: int, cfg: BarConfig, scale: u32) -> bool {
    &&& si.id == id
    &&& si.menu.id == id + 1
    &&& si.config == cfg
    &&& si.scale_factor == scale
    &&& si.menu.menu_info is None
}

/// Membership of a display name in the configured filter: `All` admits
/// every name, `Active` never matches an explicit attach event, and
/// `Targets` admits a name containing any of the configured fragments.
pub open spec fn spec_name_matches(name: Seq<u8>, outputs: config::Outputs) -> bool {
    match outputs {
        config::Outputs::All => true,
        config::Outputs::Active => false,
        config::Outputs::Targets(ts) => exists|t: int|
            0 <= t < ts@.len() && contains_seq(name, string_bytes(#[trigger] ts@[t])),
    }
}

/// Decides whether a display name belongs to the configured filter.
pub fn name_in_config(name: &str, outputs: &config::Outputs) -> (r: bool)
    ensures
        r == spec_name_matches(str_bytes(name), *outputs),
{
    match outputs {
        config::Outputs::All => true,
        config::Outputs::Active => false,
        config::Outputs::Targets(ts) => {
            let n = ts.len();
            let mut t: usize = 0;
            while t < n
                invariant
                    *outputs == config::Outputs::Targets(*ts),
                    n == ts@.len(),
                    0 <= t <= n,
                    forall|t2: int|
                        0 <= t2 < t ==> !contains_seq(str_bytes(name), string_bytes(
                            #[trigger] ts@[t2],
                        )),
                decreases n - t,
            {
                let target = ts[t].as_str();
                if str_contains(name, target) {
                    proof {
                        let o = *outputs;
                        assert(o is Targets);
                        assert(o->0 == *ts);
                        assert(str_bytes(target) == string_bytes(ts@[t as int]));
                        assert(0 <= t < (o->0)@.len());
                        assert(contains_seq(str_bytes(name), string_bytes((o->0)@[t as int])));
                        assert(spec_name_matches(str_bytes(name), o));
                    }
                    return true;
                }
                assert(str_bytes(target) == string_bytes(ts@[t as int]));
                t += 1;
            }
            false
        },
    }
}

impl Outputs {
    pub open spec fn n_entries(self) -> int {
        self.entries@.len() as int
    }

    pub open spec fn entry(self, i: int) -> OutputEntry {
        self.entries@[i]
    }

    pub open spec fn valid_entry(self, i: int) -> bool {
        0 <= i < self.n_entries()
    }

    pub open spec fn n_infos(self, i: int) -> int {
        self.entry(i).infos@.len() as int
    }

    pub open spec fn info(self, i: int, j: int) -> ShellInfo {
        self.entry(i).infos@[j]
    }

    pub open spec fn valid_info(self, i: int, j: int) -> bool {
        self.valid_entry(i) && 0 <= j < self.n_infos(i)
    }

    /// The pair (i, j) has an open menu.
    pub open spec fn is_open(self, i: int, j: int) -> bool {
        self.info(i, j).menu.menu_info is Some
    }

    /// Some pair in the registry has an open menu.
    pub open spec fn any_open(self) -> bool {
        exists|i: int, j: int| self.valid_info(i, j) && #[trigger] self.is_open(i, j)
    }

    /// At most one pair across the whole registry has an open menu.
    pub open spec fn menu_exclusive(self) -> bool {
        forall|i1: int, j1: int, i2: int, j2: int|
            self.valid_info(i1, j1) && self.valid_info(i2, j2) && #[trigger] self.is_open(i1, j1)
                && #[trigger] self.is_open(i2, j2) ==> i1 == i2 && j1 == j2
    }

    /// Surface identity bookkeeping: every menu host sits right above its
    /// bar surface, bar identities are even and below the allocation
    /// counter, and no two pairs share a bar identity.
    pub open spec fn ids_ok(self) -> bool {
        &&& self.next_id % 2 == 0
        &&& forall|i: int, j: int|
            self.valid_info(i, j) ==> (#[trigger] self.info(i, j)).menu.id == self.info(i, j).id + 1
                && self.info(i, j).id % 2 == 0 && self.info(i, j).id + 1 < self.next_id
        &&& forall|i1: int, j1: int, i2: int, j2: int|
            self.valid_info(i1, j1) && self.valid_info(i2, j2) && !(i1 == i2 && j1 == j2) ==> (
            #[trigger] self.info(i1, j1)).id != (#[trigger] self.info(i2, j2)).id
    }

    /// A fallback entry (an entry without a display handle) exists.
    pub open spec fn has_fallback(self) -> bool {
        exists|i: int| self.valid_entry(i) && (#[trigger] self.entry(i)).wl_output is None
    }

    /// Some entry with a live display handle has surface pairs.
    pub open spec fn any_real_nonempty(self) -> bool {
        exists|i: int|
            self.valid_entry(i) && (#[trigger] self.entry(i)).wl_output is Some && self.n_infos(i)
                > 0
    }

    /// The fallback discipline: at most one fallback entry, never empty,
    /// and present exactly while no attached display has surfaces.
    pub open spec fn fallback_ok(self) -> bool {
        &&& forall|i1: int, i2: int|
            self.valid_entry(i1) && self.valid_entry(i2) && (#[trigger] self.entry(
                i1,
            )).wl_output is None && (#[trigger] self.entry(i2)).wl_output is None ==> i1 == i2
        &&& forall|i: int|
            self.valid_entry(i) && (#[trigger] self.entry(i)).wl_output is None ==> self.n_infos(i)
                > 0
        &&& self.has_fallback() <==> !self.any_real_nonempty()
    }

    /// Well-formedness: identity bookkeeping plus the fallback discipline.
    /// Constructors establish it and every operation preserves it.
    pub open spec fn wf(self) -> bool {
        self.ids_ok() && self.fallback_ok()
    }

    /// Every entry that has surfaces has exactly `n` of them, one per
    /// configured bar.
    pub open spec fn sized_ok(self, n: int) -> bool {
        forall|i: int|
            self.valid_entry(i) && #[trigger] self.n_infos(i) > 0 ==> self.n_infos(i) == n
    }

    /// The entry at `i` is recorded under the name with UTF-8 bytes `nb`.
    pub open spec fn entry_named(self, i: int, nb: Seq<u8>) -> bool {
        string_bytes(self.entry(i).name) == nb
    }

    /// The entry at `i` matches the configured filter.
    pub open spec fn matched_entry(self, i: int, filter: config::Outputs) -> bool {
        spec_name_matches(string_bytes(self.entry(i).name), filter)
    }

    /// The pairs of entry `i` correspond one to one, in order, to the
    /// given bar configurations at the given scale factor.
    pub open spec fn pairs_current(self, i: int, configs: Seq<BarConfig>, scale: u32) -> bool {
        &&& self.n_infos(i) == configs.len()
        &&& forall|j: int|
            0 <= j < configs.len() ==> (#[trigger] self.info(i, j)).config == configs[j]
                && self.info(i, j).scale_factor == scale
    }

    /// The registry is fully reconciled with the given configuration: every
    /// attached matched display has surfaces, no attached unmatched display
    /// has any, and all existing pairs are built for the current bar
    /// configurations and scale factor.
    pub open spec fn synced(self, configs: Seq<BarConfig>, filter: config::Outputs, scale: u32) -> bool {
        &&& forall|i: int|
            self.valid_entry(i) && self.matched_entry(i, filter) && (#[trigger] self.entry(
                i,
            )).wl_output is Some ==> self.n_infos(i) > 0
        &&& forall|i: int|
            self.valid_entry(i) && !self.matched_entry(i, filter) && (#[trigger] self.entry(
                i,
            )).wl_output is Some ==> self.n_infos(i) == 0
        &&& forall|i: int|
            self.valid_entry(i) && #[trigger] self.n_infos(i) > 0 ==> self.pairs_current(
                i,
                configs,
                scale,
            )
    }

    /// No membership change is needed: reconciling with this configuration
    /// will neither create nor destroy any surface, only update existing
    /// ones in place.
    pub open spec fn membership_stable(self, configs: Seq<BarConfig>, filter: config::Outputs) -> bool {
        &&& forall|i: int|
            self.valid_entry(i) && (#[trigger] self.entry(i)).wl_output is Some ==> (
            self.matched_entry(i, filter) <==> self.n_infos(i) > 0)
        &&& forall|i: int|
            self.valid_entry(i) && #[trigger] self.n_infos(i) > 0 ==> self.n_infos(i)
                == configs.len()
    }

    /// `other` has the same entries, pairs, identities, configurations and
    /// scale factors as `self`; only menu slots may differ.
    pub open spec fn same_layout(self, other: Outputs) -> bool {
        &&& other.next_id == self.next_id
        &&& other.n_entries() == self.n_entries()
        &&& forall|i: int|
            self.valid_entry(i) ==> (#[trigger] other.entry(i)).name == self.entry(i).name
                && other.entry(i).wl_output == self.entry(i).wl_output && other.n_infos(i)
                == self.n_infos(i)
        &&& forall|i: int, j: int|
            self.valid_info(i, j) ==> (#[trigger] other.info(i, j)).id == self.info(i, j).id
                && other.info(i, j).menu.id == self.info(i, j).menu.id && other.info(i, j).config
                == self.info(i, j).config && other.info(i, j).scale_factor == self.info(
                i,
                j,
            ).scale_factor
    }
}

/// The destroy batch for a list of surface pairs: one destroy request
/// for the bar and one for the menu host of each pair, in pair order.
pub open spec fn destroy_requests(infos: Seq<ShellInfo>) -> Seq<Request>
    decreases infos.len(),
{
    if infos.len() == 0 {
        Seq::empty()
    } else {
        destroy_requests(infos.drop_last()) + seq![
            Request::Destroy { id: infos.last().id },
            Request::Destroy { id: infos.last().menu.id },
        ]
    }
}

/// The creation batch for a list of bar configurations: a bar surface and
/// a menu host surface per configuration, with identities allocated in
/// order from `first_id`.
pub open spec fn creation_requests(
    configs: Seq<BarConfig>,
    first_id: int,
    target: OutputTarget,
    scale: u32,
) -> Seq<Request>
    decreases configs.len(),
{
    if configs.len() == 0 {
        Seq::empty()
    } else {
        creation_requests(configs.drop_last(), first_id, target, scale) + seq![
            Request::CreateBar {
                id: (first_id + 2 * (configs.len() - 1)) as u64,
                target,
                position: configs.last().position,
                height: spec_bar_height(configs.last().style, scale) as u32,
            },
            Request::CreateMenu { id: (first_id + 2 * (configs.len() - 1) + 1) as u64, target },
        ]
    }
}

/// A request sequence whose entries follow the destroy-batch pattern is
/// that batch.
proof fn lemma_destroys_from_indices(s: Seq<Request>, infos: Seq<ShellInfo>)
    requires
        s.len() == 2 * infos.len(),
        forall|j: int|
            0 <= j < infos.len() ==> s[2 * j] == (Request::Destroy {
                id: (#[trigger] infos[j]).id,
            }) && s[2 * j + 1] == (Request::Destroy { id: infos[j].menu.id }),
    ensures
        s == destroy_requests(infos),
    decreases infos.len(),
{
    if infos.len() == 0 {
        assert(s =~= destroy_requests(infos));
    } else {
        let s0 = s.subrange(0, s.len() - 2);
        lemma_destroys_from_indices(s0, infos.drop_last());
        assert(s =~= destroy_requests(infos.drop_last()) + seq![
            Request::Destroy { id: infos.last().id },
            Request::Destroy { id: infos.last().menu.id },
        ]);
    }
}

/// A request sequence whose entries follow the creation-batch pattern is
/// that batch.
proof fn lemma_creations_from_indices(
    s: Seq<Request>,
    configs: Seq<BarConfig>,
    first_id: int,
    target: OutputTarget,
    scale: u32,
)
    requires
        s.len() == 2 * configs.len(),
        forall|j: int|
            0 <= j < configs.len() ==> s[2 * j] == (Request::CreateBar {
                id: (first_id + 2 * j) as u64,
                target,
                position: (#[trigger] configs[j]).position,
                height: spec_bar_height(configs[j].style, scale) as u32,
            }) && s[2 * j + 1] == (Request::CreateMenu { id: (first_id + 2 * j + 1) as u64, target }),
    ensures
        s == creation_requests(configs, first_id, target, scale),
    decreases configs.len(),
{
    if configs.len() == 0 {
        assert(s =~= creation_requests(configs, first_id, target, scale));
    } else {
        let s0 = s.subrange(0, s.len() - 2);
        lemma_creations_from_indices(s0, configs.drop_last(), first_id, target, scale);
        assert(s =~= creation_requests(configs.drop_last(), first_id, target, scale) + seq![
            Request::CreateBar {
                id: (first_id + 2 * (configs.len() - 1)) as u64,
                target,
                position: configs.last().position,
                height: spec_bar_height(configs.last().style, scale) as u32,
            },
            Request::CreateMenu { id: (first_id + 2 * (configs.len() - 1) + 1) as u64, target },
        ]);
    }
}

/// Appends a destroy request for both surfaces of every pair in `infos`,
/// bar first, in pair order.
fn destroy_pairs(infos: &Vec<ShellInfo>, requests: &mut Vec<Request>)
    ensures
        final(requests)@ == old(requests)@ + destroy_requests(infos@),
        final(requests)@.len() == old(requests)@.len() + 2 * infos@.len(),
        forall|k: int|
            0 <= k < old(requests)@.len() ==> final(requests)@[k] == old(requests)@[k],
        forall|k: int|
            old(requests)@.len() <= k < final(requests)@.len()
                ==> (#[trigger] final(requests)@[k]) is Destroy,
        forall|j: int|
            0 <= j < infos@.len() ==> {
                &&& final(requests)@[old(requests)@.len() + 2 * j] == (Request::Destroy {
                    id: (#[trigger] infos@[j]).id,
                })
                &&& final(requests)@[old(requests)@.len() + 2 * j + 1] == (Request::Destroy {
                    id: infos@[j].menu.id,
                })
            },
{
    let n = infos.len();
    let mut j: usize = 0;
    while j < n
        invariant
            n == infos@.len(),
            0 <= j <= n,
            requests@.len() == old(requests)@.len() + 2 * j,
            forall|k: int| 0 <= k < old(requests)@.len() ==> requests@[k] == old(requests)@[k],
            forall|k: int|
                old(requests)@.len() <= k < requests@.len()
                    ==> (#[trigger] requests@[k]) is Destroy,
            forall|j2: int|
                0 <= j2 < j ==> {
                    &&& requests@[old(requests)@.len() + 2 * j2] == (Request::Destroy {
                        id: (#[trigger] infos@[j2]).id,
                    })
                    &&& requests@[old(requests)@.len() + 2 * j2 + 1] == (Request::Destroy {
                        id: infos@[j2].menu.id,
                    })
                },
        decreases n - j,
    {
        requests.push(Request::Destroy { id: infos[j].id });
        requests.push(Request::Destroy { id: infos[j].menu.id });
        j += 1;
    }
    proof {
        let tail = requests@.subrange(old(requests)@.len() as int, requests@.len() as int);
        lemma_destroys_from_indices(tail, infos@);
        assert(requests@ =~= old(requests)@ + tail);
    }
}

/// Allocates one surface pair per bar configuration and appends the
/// creation requests for them, bar before menu host, in configuration
/// order.
fn create_output_layers(
    next_id: &mut u64,
    wl_output: Option<u64>,
    bar_configs: &Vec<BarConfig>,
    scale_factor: u32,
    requests: &mut Vec<Request>,
) -> (infos: Vec<ShellInfo>)
    requires
        *old(next_id) % 2 == 0,
        *old(next_id) + 2 * bar_configs@.len() <= u64::MAX,
    ensures
        *final(next_id) == *old(next_id) + 2 * bar_configs@.len(),
        *final(next_id) % 2 == 0,
        final(requests)@ == old(requests)@ + creation_requests(
            bar_configs@,
            *old(next_id) as int,
            target_of(wl_output),
            scale_factor,
        ),
        infos@.len() == bar_configs@.len(),
        forall|j: int|
            0 <= j < bar_configs@.len() ==> fresh_info(
                #[trigger] infos@[j],
                *old(next_id) + 2 * j,
                bar_configs@[j],
                scale_factor,
            ),
        final(requests)@.len() == old(requests)@.len() + 2 * bar_configs@.len(),
        forall|k: int|
            0 <= k < old(requests)@.len() ==> final(requests)@[k] == old(requests)@[k],
        forall|k: int|
            old(requests)@.len() <= k < final(requests)@.len()
                ==> ((#[trigger] final(requests)@[k]) is CreateBar
                || final(requests)@[k] is CreateMenu),
        forall|j: int|
            0 <= j < bar_configs@.len() ==> {
                &&& final(requests)@[old(requests)@.len() + 2 * j] == (Request::CreateBar {
                    id: (*old(next_id) + 2 * j) as u64,
                    target: target_of(wl_output),
                    position: (#[trigger] bar_configs@[j]).position,
                    height: spec_bar_height(bar_configs@[j].style, scale_factor) as u32,
                })
                &&& final(requests)@[old(requests)@.len() + 2 * j + 1] == (Request::CreateMenu {
                    id: (*old(next_id) + 2 * j + 1) as u64,
                    target: target_of(wl_output),
                })
            },
{
    let target = match wl_output {
        Option::Some(h) => OutputTarget::Output(h),
        Option::None => OutputTarget::ActiveOutput,
    };
    let n = bar_configs.len();
    let mut infos: Vec<ShellInfo> = Vec::new();
    let mut i: usize = 0;
    while i < n
        invariant
            n == bar_configs@.len(),
            0 <= i <= n,
            target == target_of(wl_output),
            *old(next_id) % 2 == 0,
            *old(next_id) + 2 * n <= u64::MAX,
            *next_id == *old(next_id) + 2 * i,
            infos@.len() == i,
            forall|j: int|
                0 <= j < i ==> fresh_info(
                    #[trigger] infos@[j],
                    *old(next_id) + 2 * j,
                    bar_configs@[j],
                    scale_factor,
                ),
            requests@.len() == old(requests)@.len() + 2 * i,
            forall|k: int| 0 <= k < old(requests)@.len() ==> requests@[k] == old(requests)@[k],
            forall|k: int|
                old(requests)@.len() <= k < requests@.len() ==> ((#[trigger] requests@[k]) is CreateBar
                    || requests@[k] is CreateMenu),
            forall|j: int|
                0 <= j < i ==> {
                    &&& requests@[old(requests)@.len() + 2 * j] == (Request::CreateBar {
                        id: (*old(next_id) + 2 * j) as u64,
                        target: target_of(wl_output),
                        position: (#[trigger] bar_configs@[j]).position,
                        height: spec_bar_height(bar_configs@[j].style, scale_factor) as u32,
                    })
                    &&& requests@[old(requests)@.len() + 2 * j + 1] == (Request::CreateMenu {
                        id: (*old(next_id) + 2 * j + 1) as u64,
                        target: target_of(wl_output),
                    })
                },
        decreases n - i,
    {
        let cfg = bar_configs[i];
        let id = *next_id;
        let menu_id = id + 1;
        let height = bar_height(cfg.style, scale_factor);
        requests.push(Request::CreateBar { id, target, position: cfg.position, height });
        requests.push(Request::CreateMenu { id: menu_id, target });
        infos.push(ShellInfo { id, config: cfg, menu: Menu::new(menu_id), scale_factor });
        *next_id = id + 2;
        i += 1;
    }
    proof {
        let tail = requests@.subrange(old(requests)@.len() as int, requests@.len() as int);
        lemma_creations_from_indices(
            tail,
            bar_configs@,
            *old(next_id) as int,
            target_of(wl_output),
            scale_factor,
        );
        assert(requests@ =~= old(requests)@ + tail);
    }
    infos
}

impl Outputs {
    /// A fresh registry: one synthetic fallback entry carrying one surface
    /// pair per configured bar, aimed at the currently active output, plus
    /// the requests that create those surfaces.
    pub fn new(bar_configs: &Vec<BarConfig>, scale_factor: u32) -> (r: (Outputs, Vec<Request>))
        requires
            bar_configs@.len() > 0,
            2 * bar_configs@.len() <= u64::MAX,
        ensures
            r.0.wf(),
            !r.0.any_open(),
            r.0.sized_ok(bar_configs@.len() as int),
            r.0.n_entries() == 1,
            r.0.entry(0).wl_output is None,
            r.0.entry(0).name@ == "Fallback"@,
            r.0.next_id == 2 * bar_configs@.len(),
            r.0.pairs_current(0, bar_configs@, scale_factor),
            r.1@ == creation_requests(
                bar_configs@,
                0,
                OutputTarget::ActiveOutput,
                scale_factor,
            ),
            r.1@.len() == 2 * bar_configs@.len(),
            forall|j: int|
                0 <= j < bar_configs@.len() ==> {
                    &&& r.1@[2 * j] == (Request::CreateBar {
                        id: (2 * j) as u64,
                        target: OutputTarget::ActiveOutput,
                        position: (#[trigger] bar_configs@[j]).position,
                        height: spec_bar_height(bar_configs@[j].style, scale_factor) as u32,
                    })
                    &&& r.1@[2 * j + 1] == (Request::CreateMenu {
                        id: (2 * j + 1) as u64,
                        target: OutputTarget::ActiveOutput,
                    })
                },
    {
        let mut requests: Vec<Request> = Vec::new();
        let mut next: u64 = 0;
        let infos = create_output_layers(&mut next, None, bar_configs, scale_factor, &mut requests);
        let mut entries: Vec<OutputEntry> = Vec::new();
        entries.push(
            OutputEntry {
                name: fallback_name(),
                infos,
                wl_output: Option::None,
            },
        );
        let outputs = Outputs { entries, next_id: next };
        (outputs, requests)
    }

    /// Reports whether any menu is currently open anywhere in the
    /// registry.
    pub fn menu_is_open(&self) -> (r: bool)
        ensures
            r == self.any_open(),
    {
        let n = self.entries.len();
        let mut i: usize = 0;
        while i < n
            invariant
                n == self.entries@.len(),
                0 <= i <= n,
                forall|i2: int, j2: int|
                    0 <= i2 < i && 0 <= j2 < self.n_infos(i2) ==> !#[trigger] self.is_open(i2, j2),
            decreases n - i,
        {
            let m = self.entries[i].infos.len();
            let mut j: usize = 0;
            while j < m
                invariant
                    n == self.entries@.len(),
                    0 <= i < n,
                    m == self.n_infos(i as int),
                    0 <= j <= m,
                    forall|i2: int, j2: int|
                        0 <= i2 < i && 0 <= j2 < self.n_infos(i2) ==> !#[trigger] self.is_open(
                            i2,
                            j2,
                        ),
                    forall|j2: int| 0 <= j2 < j ==> !#[trigger] self.is_open(i as int, j2),
                decreases m - j,
            {
                if self.entries[i].infos[j].menu.menu_info.is_some() {
                    assert(self.is_open(i as int, j as int));
                    return true;
                }
                j += 1;
            }
            i += 1;
        }
        false
    }
}

/// The name under which the synthetic fallback entry is recorded.
fn fallback_name() -> (s: String)
    ensures
        s@ == "Fallback"@,
{
    String::from_str("Fallback")
}

} // verus!

verus! {

/// `b` holds exactly the same entries as `a`, entry by entry.
pub open spec fn state_unchanged(a: Outputs, b: Outputs) -> bool {
    &&& b.next_id == a.next_id
    &&& b.entries@.len() == a.entries@.len()
    &&& forall|i: int| 0 <= i < a.entries@.len() ==> #[trigger] b.entries@[i] == a.entries@[i]
}

/// The pair `si` owns the surface identity `id`, as bar or as menu host.
pub open spec fn pair_owns(si: ShellInfo, id: u64) -> bool {
    si.id == id || si.menu.id == id
}

/// `a` and `b` are the same pair apart from their menu slots.
pub open spec fn pair_layout_eq(a: ShellInfo, b: ShellInfo) -> bool {
    &&& a.id == b.id
    &&& a.menu.id == b.menu.id
    &&& a.config == b.config
    &&& a.scale_factor == b.scale_factor
}

/// `post` is `pre` after a toggle aimed at surface `id`: the owning pair's
/// slot is toggled, every other slot is closed, nothing else changes.
pub open spec fn entry_toggled(
    pre: OutputEntry,
    post: OutputEntry,
    id: u64,
    kind: MenuType,
    anchor: ButtonUIRef,
) -> bool {
    &&& post.name == pre.name
    &&& post.wl_output == pre.wl_output
    &&& post.infos@.len() == pre.infos@.len()
    &&& forall|j: int|
        0 <= j < pre.infos@.len() ==> pair_layout_eq(pre.infos@[j], #[trigger] post.infos@[j])
    &&& forall|j: int|
        0 <= j < pre.infos@.len() ==> if pair_owns(#[trigger] pre.infos@[j], id) {
            slot_eq(
                post.infos@[j].menu.menu_info,
                spec_toggle_slot(pre.infos@[j].menu.menu_info, kind, anchor),
            )
        } else {
            post.infos@[j].menu.menu_info is None
        }
}

/// `post` is `pre` after closing the slot of the pair owning `id`; other
/// pairs are untouched.
pub open spec fn entry_close_target(pre: OutputEntry, post: OutputEntry, id: u64) -> bool {
    &&& post.name == pre.name
    &&& post.wl_output == pre.wl_output
    &&& post.infos@.len() == pre.infos@.len()
    &&& forall|j: int|
        0 <= j < pre.infos@.len() ==> pair_layout_eq(pre.infos@[j], #[trigger] post.infos@[j])
    &&& forall|j: int|
        0 <= j < pre.infos@.len() ==> if pair_owns(#[trigger] pre.infos@[j], id) {
            post.infos@[j].menu.menu_info is None
        } else {
            post.infos@[j].menu.menu_info == pre.infos@[j].menu.menu_info
        }
}

/// `post` is `pre` after closing the slot of the pair owning `id` only if
/// a menu of kind `kind` was open there.
pub open spec fn entry_close_if_target(
    pre: OutputEntry,
    post: OutputEntry,
    id: u64,
    kind: MenuType,
) -> bool {
    &&& post.name == pre.name
    &&& post.wl_output == pre.wl_output
    &&& post.infos@.len() == pre.infos@.len()
    &&& forall|j: int|
        0 <= j < pre.infos@.len() ==> pair_layout_eq(pre.infos@[j], #[trigger] post.infos@[j])
    &&& forall|j: int|
        0 <= j < pre.infos@.len() ==> if pair_owns(#[trigger] pre.infos@[j], id) && (
        pre.infos@[j].menu.menu_info matches Some((k, _)) && mt_eq(k, kind)) {
            post.infos@[j].menu.menu_info is None
        } else {
            post.infos@[j].menu.menu_info == pre.infos@[j].menu.menu_info
        }
}

/// `post` is `pre` after closing every slot holding a menu of kind `kind`.
pub open spec fn entry_close_if_all(pre: OutputEntry, post: OutputEntry, kind: MenuType) -> bool {
    &&& post.name == pre.name
    &&& post.wl_output == pre.wl_output
    &&& post.infos@.len() == pre.infos@.len()
    &&& forall|j: int|
        0 <= j < pre.infos@.len() ==> pair_layout_eq(pre.infos@[j], #[trigger] post.infos@[j])
    &&& forall|j: int|
        0 <= j < pre.infos@.len() ==> if (#[trigger] pre.infos@[j]).menu.menu_info matches Some(
            (k, _),
        ) && mt_eq(k, kind) {
            post.infos@[j].menu.menu_info is None
        } else {
            post.infos@[j].menu.menu_info == pre.infos@[j].menu.menu_info
        }
}

/// `post` is `pre` with every slot closed.
pub open spec fn entry_closed_all(pre: OutputEntry, post: OutputEntry) -> bool {
    &&& post.name == pre.name
    &&& post.wl_output == pre.wl_output
    &&& post.infos@.len() == pre.infos@.len()
    &&& forall|j: int|
        0 <= j < pre.infos@.len() ==> pair_layout_eq(pre.infos@[j], #[trigger] post.infos@[j])
    &&& forall|j: int| 0 <= j < pre.infos@.len() ==> (#[trigger] post.infos@[j]).menu.menu_info is None
}

/// `post` extends `pre` and every appended request only changes menu
/// visibility: no creation, no destruction, no keyboard change.
pub open spec fn visibility_tail(pre: Seq<Request>, post: Seq<Request>) -> bool {
    &&& post.len() >= pre.len()
    &&& forall|k: int| 0 <= k < pre.len() ==> post[k] == pre[k]
    &&& forall|k: int|
        pre.len() <= k < post.len() ==> (#[trigger] post[k]) is SetMenuVisible
}

/// In a registry with sound identity bookkeeping, a surface identity is
/// owned by at most one pair.
pub proof fn lemma_owner_unique(o: Outputs, id: u64, i1: int, j1: int, i2: int, j2: int)
    requires
        o.ids_ok(),
        o.valid_info(i1, j1),
        o.valid_info(i2, j2),
        pair_owns(o.info(i1, j1), id),
        pair_owns(o.info(i2, j2), id),
    ensures
        i1 == i2 && j1 == j2,
{
    if !(i1 == i2 && j1 == j2) {
        let a = o.info(i1, j1);
        let b = o.info(i2, j2);
        assert(a.id != b.id);
        assert(a.menu.id == a.id + 1 && a.id % 2 == 0);
        assert(b.menu.id == b.id + 1 && b.id % 2 == 0);
        assert(false);
    }
}

impl Outputs {
    /// Transplants well-formedness across an operation that only changes
    /// menu slots.
    pub proof fn lemma_layout_preserves_wf(self, post: Outputs)
        requires
            self.wf(),
            self.same_layout(post),
        ensures
            post.wf(),
    {
        assert forall|i: int, j: int| post.valid_info(i, j) implies (#[trigger] post.info(
            i,
            j,
        )).menu.id == post.info(i, j).id + 1 && post.info(i, j).id % 2 == 0 && post.info(i, j).id
            + 1 < post.next_id by {
            assert(self.valid_info(i, j));
            assert(self.info(i, j).menu.id == self.info(i, j).id + 1 && self.info(i, j).id % 2
                == 0 && self.info(i, j).id + 1 < self.next_id);
        }
        assert forall|i1: int, j1: int, i2: int, j2: int|
            post.valid_info(i1, j1) && post.valid_info(i2, j2) && !(i1 == i2 && j1
                == j2) implies (#[trigger] post.info(i1, j1)).id != (#[trigger] post.info(
            i2,
            j2,
        )).id by {
            assert(self.valid_info(i1, j1) && self.valid_info(i2, j2));
            assert(self.info(i1, j1).id != self.info(i2, j2).id);
        }
        assert(post.has_fallback() == self.has_fallback()) by {
            if self.has_fallback() {
                let i = choose|i: int|
                    self.valid_entry(i) && (#[trigger] self.entry(i)).wl_output is None;
                assert(post.entry(i).wl_output is None);
            }
            if post.has_fallback() {
                let i = choose|i: int|
                    post.valid_entry(i) && (#[trigger] post.entry(i)).wl_output is None;
                assert(self.entry(i).wl_output is None);
                assert(self.has_fallback());
            }
        }
        assert(post.any_real_nonempty() == self.any_real_nonempty()) by {
            if self.any_real_nonempty() {
                let i = choose|i: int|
                    self.valid_entry(i) && (#[trigger] self.entry(i)).wl_output is Some
                        && self.n_infos(i) > 0;
                assert(post.entry(i).wl_output is Some && post.n_infos(i) > 0);
            }
            if post.any_real_nonempty() {
                let i = choose|i: int|
                    post.valid_entry(i) && (#[trigger] post.entry(i)).wl_output is Some
                        && post.n_infos(i) > 0;
                assert(self.entry(i).wl_output is Some && self.n_infos(i) > 0);
                assert(self.any_real_nonempty());
            }
        }
        assert forall|i1: int, i2: int|
            post.valid_entry(i1) && post.valid_entry(i2) && (#[trigger] post.entry(
                i1,
            )).wl_output is None && (#[trigger] post.entry(i2)).wl_output is None implies i1
            == i2 by {
            assert(self.entry(i1).wl_output is None && self.entry(i2).wl_output is None);
        }
        assert forall|i: int|
            post.valid_entry(i) && (#[trigger] post.entry(i)).wl_output is None implies
            post.n_infos(i) > 0 by {
            assert(self.entry(i).wl_output is None);
            assert(self.n_infos(i) > 0);
        }
    }
}

} // verus!

verus! {

/// Toggles the slot of the pair owning `id` inside one entry and closes
/// every other slot of the entry.  Returns the bar surface identity of the
/// owning pair when it lives here.
fn toggle_in_entry(
    e: &mut OutputEntry,
    id: u64,
    menu_type: &MenuType,
    anchor: ButtonUIRef,
    requests: &mut Vec<Request>,
) -> (found: Option<u64>)
    ensures
        entry_toggled(*old(e), *final(e), id, *menu_type, anchor),
        visibility_tail(old(requests)@, final(requests)@),
        match found {
            Option::Some(b) => exists|j: int|
                0 <= j < old(e).infos@.len() && pair_owns(#[trigger] old(e).infos@[j], id) && old(
                    e,
                ).infos@[j].id == b,
            Option::None => forall|j: int|
                0 <= j < old(e).infos@.len() ==> !pair_owns(#[trigger] old(e).infos@[j], id),
        },
{
    let mut found: Option<u64> = Option::None;
    let m = e.infos.len();
    let mut j: usize = 0;
    while j < m
        invariant
            m == e.infos@.len() == old(e).infos@.len(),
            0 <= j <= m,
            e.name == old(e).name,
            e.wl_output == old(e).wl_output,
            forall|j2: int|
                0 <= j2 < m ==> pair_layout_eq(old(e).infos@[j2], #[trigger] e.infos@[j2]),
            forall|j2: int|
                j <= j2 < m ==> (#[trigger] e.infos@[j2]).menu.menu_info == old(
                    e,
                ).infos@[j2].menu.menu_info,
            forall|j2: int|
                0 <= j2 < j ==> if pair_owns(#[trigger] old(e).infos@[j2], id) {
                    slot_eq(
                        e.infos@[j2].menu.menu_info,
                        spec_toggle_slot(old(e).infos@[j2].menu.menu_info, *menu_type, anchor),
                    )
                } else {
                    e.infos@[j2].menu.menu_info is None
                },
            visibility_tail(old(requests)@, requests@),
            match found {
                Option::Some(b) => exists|j2: int|
                    0 <= j2 < j && pair_owns(#[trigger] old(e).infos@[j2], id) && old(
                        e,
                    ).infos@[j2].id == b,
                Option::None => forall|j2: int|
                    0 <= j2 < j ==> !pair_owns(#[trigger] old(e).infos@[j2], id),
            },
        decreases m - j,
    {
        let is_target = e.infos[j].id == id || e.infos[j].menu.id == id;
        if is_target {
            found = Option::Some(e.infos[j].id);
            let kind = menu_type.clone();
            let ghost kind_used = kind;
            let ghost pre_slot = e.infos@[j as int].menu.menu_info;
            e.infos[j].menu.toggle(kind, anchor, requests);
            proof {
                crate::menu::lemma_toggle_respects_mt_eq(pre_slot, kind_used, *menu_type, anchor);
                crate::menu::lemma_slot_eq_trans(
                    e.infos@[j as int].menu.menu_info,
                    spec_toggle_slot(pre_slot, kind_used, anchor),
                    spec_toggle_slot(pre_slot, *menu_type, anchor),
                );
            }
        } else {
            e.infos[j].menu.close(requests);
        }
        j += 1;
    }
    found
}

impl Outputs {
    /// Toggles the menu of kind `menu_type` on the pair owning surface
    /// `id`, closing every other menu in the registry first, and issues
    /// the keyboard-interactivity request for the owning bar surface when
    /// asked to.
    ///
    /// Afterwards at most one menu is open in the whole registry,
    /// whatever was open before.
    pub fn toggle_menu(
        &mut self,
        id: u64,
        menu_type: MenuType,
        button_ui_ref: ButtonUIRef,
        request_keyboard: bool,
    ) -> (requests: Vec<Request>)
        requires
            old(self).wf(),
        ensures
            final(self).wf(),
            old(self).same_layout(*final(self)),
            final(self).menu_exclusive(),
            forall|i: int|
                old(self).valid_entry(i) ==> entry_toggled(
                    old(self).entry(i),
                    #[trigger] final(self).entry(i),
                    id,
                    menu_type,
                    button_ui_ref,
                ),
            ({
                let has_target = exists|i: int, j: int|
                    old(self).valid_info(i, j) && pair_owns(#[trigger] old(self).info(i, j), id);
                &&& (!(request_keyboard && has_target) ==> no_keyboard_requests(requests@))
                &&& (request_keyboard && has_target ==> requests@.len() > 0
                    && no_keyboard_requests(requests@.drop_last()) && forall|i: int, j: int|
                    old(self).valid_info(i, j) && pair_owns(#[trigger] old(self).info(i, j), id)
                        ==> requests@.last() == (Request::SetKeyboard {
                        id: old(self).info(i, j).id,
                        mode: if spec_toggle_slot(
                            old(self).info(i, j).menu.menu_info,
                            menu_type,
                            button_ui_ref,
                        ) is Some {
                            KeyboardMode::OnDemand
                        } else {
                            KeyboardMode::Disabled
                        },
                    }))
            }),
            no_creates_or_destroys(requests@),
    {
        let mut requests: Vec<Request> = Vec::new();
        let mut target_id: Option<u64> = Option::None;
        let n = self.entries.len();
        let mut i: usize = 0;
        while i < n
            invariant
                n == self.entries@.len() == old(self).entries@.len(),
                0 <= i <= n,
                old(self).wf(),
                self.next_id == old(self).next_id,
                forall|i2: int| i <= i2 < n ==> self.entries@[i2] == old(self).entries@[i2],
                forall|i2: int|
                    0 <= i2 < i ==> entry_toggled(
                        old(self).entry(i2),
                        #[trigger] self.entry(i2),
                        id,
                        menu_type,
                        button_ui_ref,
                    ),
                visibility_tail(Seq::<Request>::empty(), requests@),
                match target_id {
                    Option::Some(b) => exists|i2: int, j2: int|
                        0 <= i2 < i && 0 <= j2 < old(self).n_infos(i2) && pair_owns(
                            #[trigger] old(self).info(i2, j2),
                            id,
                        ) && old(self).info(i2, j2).id == b,
                    Option::None => forall|i2: int, j2: int|
                        0 <= i2 < i && 0 <= j2 < old(self).n_infos(i2) ==> !pair_owns(
                            #[trigger] old(self).info(i2, j2),
                            id,
                        ),
                },
            decreases n - i,
        {
            let ghost pre_iter = *self;
            let f = toggle_in_entry(
                &mut self.entries[i],
                id,
                &menu_type,
                button_ui_ref,
                &mut requests,
            );
            if f.is_some() {
                target_id = f;
            }
            proof {
                let ii = i as int;
                assert forall|i2: int| 0 <= i2 < ii implies #[trigger] self.entry(i2)
                    == pre_iter.entry(i2) by {}
                assert forall|i2: int|
                    0 <= i2 < ii implies entry_toggled(
                        old(self).entry(i2),
                        #[trigger] self.entry(i2),
                        id,
                        menu_type,
                        button_ui_ref,
                    ) by {
                    assert(entry_toggled(
                        old(self).entry(i2),
                        pre_iter.entry(i2),
                        id,
                        menu_type,
                        button_ui_ref,
                    ));
                }
                assert(entry_toggled(
                    old(self).entry(ii),
                    self.entry(ii),
                    id,
                    menu_type,
                    button_ui_ref,
                ));
                if f is Some {
                    let b = f->0;
                    let jt = choose|j: int|
                        0 <= j < old(self).entries@[ii].infos@.len() && pair_owns(
                            #[trigger] old(self).entries@[ii].infos@[j],
                            id,
                        ) && old(self).entries@[ii].infos@[j].id == b;
                    assert(0 <= jt < old(self).n_infos(ii) && pair_owns(
                        old(self).info(ii, jt),
                        id,
                    ) && old(self).info(ii, jt).id == b);
                } else {
                    assert forall|j2: int|
                        0 <= j2 < old(self).n_infos(ii) implies !pair_owns(
                            #[trigger] old(self).info(ii, j2),
                            id,
                        ) by {
                        assert(!pair_owns(old(self).entries@[ii].infos@[j2], id));
                    }
                }
            }
            i += 1;
        }
        proof {
            assert forall|i2: int| old(self).valid_entry(i2) implies (#[trigger] self.entry(
                i2,
            )).name == old(self).entry(i2).name && self.entry(i2).wl_output == old(self).entry(
                i2,
            ).wl_output && self.n_infos(i2) == old(self).n_infos(i2) by {
                assert(entry_toggled(
                    old(self).entry(i2),
                    self.entry(i2),
                    id,
                    menu_type,
                    button_ui_ref,
                ));
            }
            assert forall|i2: int, j2: int| old(self).valid_info(i2, j2) implies (
            #[trigger] self.info(i2, j2)).id == old(self).info(i2, j2).id && self.info(
                i2,
                j2,
            ).menu.id == old(self).info(i2, j2).menu.id && self.info(i2, j2).config == old(
                self,
            ).info(i2, j2).config && self.info(i2, j2).scale_factor == old(self).info(
                i2,
                j2,
            ).scale_factor by {
                assert(entry_toggled(
                    old(self).entry(i2),
                    self.entry(i2),
                    id,
                    menu_type,
                    button_ui_ref,
                ));
                assert(pair_layout_eq(
                    old(self).entry(i2).infos@[j2],
                    self.entry(i2).infos@[j2],
                ));
            }
            assert(old(self).same_layout(*self));
            old(self).lemma_layout_preserves_wf(*self);
            assert forall|i1: int, j1: int, i2: int, j2: int|
                self.valid_info(i1, j1) && self.valid_info(i2, j2) && #[trigger] self.is_open(
                    i1,
                    j1,
                ) && #[trigger] self.is_open(i2, j2) implies i1 == i2 && j1 == j2 by {
                assert(entry_toggled(
                    old(self).entry(i1),
                    self.entry(i1),
                    id,
                    menu_type,
                    button_ui_ref,
                ));
                assert(entry_toggled(
                    old(self).entry(i2),
                    self.entry(i2),
                    id,
                    menu_type,
                    button_ui_ref,
                ));
                assert(pair_owns(old(self).info(i1, j1), id));
                assert(pair_owns(old(self).info(i2, j2), id));
                lemma_owner_unique(*old(self), id, i1, j1, i2, j2);
            }
        }
        let open_now = self.menu_is_open();
        if request_keyboard {
            match target_id {
                Option::Some(tid) => {
                    proof {
                        let (it, jt): (int, int) = choose|it: int, jt: int|
                            0 <= it < n && 0 <= jt < old(self).n_infos(it) && pair_owns(
                                #[trigger] old(self).info(it, jt),
                                id,
                            ) && old(self).info(it, jt).id == tid;
                        assert(entry_toggled(
                            old(self).entry(it),
                            self.entry(it),
                            id,
                            menu_type,
                            button_ui_ref,
                        ));
                        let pre_slot = old(self).info(it, jt).menu.menu_info;
                        assert(slot_eq(
                            self.info(it, jt).menu.menu_info,
                            spec_toggle_slot(pre_slot, menu_type, button_ui_ref),
                        ));
                        if spec_toggle_slot(pre_slot, menu_type, button_ui_ref) is Some {
                            assert(self.is_open(it, jt));
                            assert(self.any_open());
                        } else {
                            assert forall|i2: int, j2: int|
                                self.valid_info(i2, j2) implies !self.is_open(i2, j2) by {
                                assert(entry_toggled(
                                    old(self).entry(i2),
                                    self.entry(i2),
                                    id,
                                    menu_type,
                                    button_ui_ref,
                                ));
                                if pair_owns(old(self).info(i2, j2), id) {
                                    lemma_owner_unique(*old(self), id, i2, j2, it, jt);
                                }
                            }
                            assert(!self.any_open());
                        }
                        assert forall|i2: int, j2: int|
                            old(self).valid_info(i2, j2) && pair_owns(
                                #[trigger] old(self).info(i2, j2),
                                id,
                            ) implies i2 == it && j2 == jt by {
                            lemma_owner_unique(*old(self), id, i2, j2, it, jt);
                        }
                    }
                    let ghost pre_push = requests@;
                    if open_now {
                        requests.push(
                            Request::SetKeyboard { id: tid, mode: KeyboardMode::OnDemand },
                        );
                    } else {
                        requests.push(
                            Request::SetKeyboard { id: tid, mode: KeyboardMode::Disabled },
                        );
                    }
                    proof {
                        assert(requests@.drop_last() =~= pre_push);
                    }
                },
                Option::None => {},
            }
        }
        requests
    }
}

} // verus!

verus! {

/// `a` and `b` are the same entry apart from menu slots.
pub open spec fn entry_layout_eq(a: OutputEntry, b: OutputEntry) -> bool {
    &&& b.name == a.name
    &&& b.wl_output == a.wl_output
    &&& b.infos@.len() == a.infos@.len()
    &&& forall|j: int|
        0 <= j < a.infos@.len() ==> pair_layout_eq(a.infos@[j], #[trigger] b.infos@[j])
}

impl Outputs {
    /// Entry-wise layout equality gives registry-wide layout equality.
    pub proof fn lemma_entries_layout(self, post: Outputs)
        requires
            post.n_entries() == self.n_entries(),
            post.next_id == self.next_id,
            forall|i: int|
                self.valid_entry(i) ==> entry_layout_eq(self.entry(i), #[trigger] post.entry(i)),
        ensures
            self.same_layout(post),
    {
        assert forall|i: int, j: int| self.valid_info(i, j) implies (#[trigger] post.info(
            i,
            j,
        )).id == self.info(i, j).id && post.info(i, j).menu.id == self.info(i, j).menu.id
            && post.info(i, j).config == self.info(i, j).config && post.info(i, j).scale_factor
            == self.info(i, j).scale_factor by {
            assert(entry_layout_eq(self.entry(i), post.entry(i)));
            assert(pair_layout_eq(self.entry(i).infos@[j], post.entry(i).infos@[j]));
        }
    }

    /// An operation that never opens a menu preserves menu exclusivity.
    pub proof fn lemma_no_new_opens_preserves_exclusive(self, post: Outputs)
        requires
            self.menu_exclusive(),
            post.n_entries() == self.n_entries(),
            forall|i: int|
                self.valid_entry(i) ==> (#[trigger] post.entry(i)).infos@.len() == self.entry(
                    i,
                ).infos@.len(),
            forall|i: int, j: int|
                self.valid_info(i, j) && #[trigger] post.is_open(i, j) ==> self.is_open(i, j),
        ensures
            post.menu_exclusive(),
    {
    }
}

/// Closes the slot of the pair owning `id` inside one entry, leaving
/// every other pair alone.  Returns the bar surface identity of the
/// owning pair when it lives here.
fn close_in_entry(e: &mut OutputEntry, id: u64, requests: &mut Vec<Request>) -> (found: Option<
    u64,
>)
    ensures
        entry_close_target(*old(e), *final(e), id),
        visibility_tail(old(requests)@, final(requests)@),
        match found {
            Option::Some(b) => exists|j: int|
                0 <= j < old(e).infos@.len() && pair_owns(#[trigger] old(e).infos@[j], id) && old(
                    e,
                ).infos@[j].id == b,
            Option::None => forall|j: int|
                0 <= j < old(e).infos@.len() ==> !pair_owns(#[trigger] old(e).infos@[j], id),
        },
{
    let mut found: Option<u64> = Option::None;
    let m = e.infos.len();
    let mut j: usize = 0;
    while j < m
        invariant
            m == e.infos@.len() == old(e).infos@.len(),
            0 <= j <= m,
            e.name == old(e).name,
            e.wl_output == old(e).wl_output,
            forall|j2: int|
                0 <= j2 < m ==> pair_layout_eq(old(e).infos@[j2], #[trigger] e.infos@[j2]),
            forall|j2: int|
                j <= j2 < m ==> (#[trigger] e.infos@[j2]).menu.menu_info == old(
                    e,
                ).infos@[j2].menu.menu_info,
            forall|j2: int|
                0 <= j2 < j ==> if pair_owns(#[trigger] old(e).infos@[j2], id) {
                    e.infos@[j2].menu.menu_info is None
                } else {
                    e.infos@[j2].menu.menu_info == old(e).infos@[j2].menu.menu_info
                },
            visibility_tail(old(requests)@, requests@),
            match found {
                Option::Some(b) => exists|j2: int|
                    0 <= j2 < j && pair_owns(#[trigger] old(e).infos@[j2], id) && old(
                        e,
                    ).infos@[j2].id == b,
                Option::None => forall|j2: int|
                    0 <= j2 < j ==> !pair_owns(#[trigger] old(e).infos@[j2], id),
            },
        decreases m - j,
    {
        let is_target = e.infos[j].id == id || e.infos[j].menu.id == id;
        if is_target {
            found = Option::Some(e.infos[j].id);
            e.infos[j].menu.close(requests);
        }
        j += 1;
    }
    found
}

/// Closes the slot of the pair owning `id` inside one entry only when a
/// menu of kind `menu_type` is open there.
fn close_if_in_entry(
    e: &mut OutputEntry,
    id: u64,
    menu_type: &MenuType,
    requests: &mut Vec<Request>,
) -> (found: Option<u64>)
    ensures
        entry_close_if_target(*old(e), *final(e), id, *menu_type),
        visibility_tail(old(requests)@, final(requests)@),
        match found {
            Option::Some(b) => exists|j: int|
                0 <= j < old(e).infos@.len() && pair_owns(#[trigger] old(e).infos@[j], id) && old(
                    e,
                ).infos@[j].id == b,
            Option::None => forall|j: int|
                0 <= j < old(e).infos@.len() ==> !pair_owns(#[trigger] old(e).infos@[j], id),
        },
{
    let mut found: Option<u64> = Option::None;
    let m = e.infos.len();
    let mut j: usize = 0;
    while j < m
        invariant
            m == e.infos@.len() == old(e).infos@.len(),
            0 <= j <= m,
            e.name == old(e).name,
            e.wl_output == old(e).wl_output,
            forall|j2: int|
                0 <= j2 < m ==> pair_layout_eq(old(e).infos@[j2], #[trigger] e.infos@[j2]),
            forall|j2: int|
                j <= j2 < m ==> (#[trigger] e.infos@[j2]).menu.menu_info == old(
                    e,
                ).infos@[j2].menu.menu_info,
            forall|j2: int|
                0 <= j2 < j ==> if pair_owns(#[trigger] old(e).infos@[j2], id) && (old(
                    e,
                ).infos@[j2].menu.menu_info matches Some((k, _)) && mt_eq(k, *menu_type)) {
                    e.infos@[j2].menu.menu_info is None
                } else {
                    e.infos@[j2].menu.menu_info == old(e).infos@[j2].menu.menu_info
                },
            visibility_tail(old(requests)@, requests@),
            match found {
                Option::Some(b) => exists|j2: int|
                    0 <= j2 < j && pair_owns(#[trigger] old(e).infos@[j2], id) && old(
                        e,
                    ).infos@[j2].id == b,
                Option::None => forall|j2: int|
                    0 <= j2 < j ==> !pair_owns(#[trigger] old(e).infos@[j2], id),
            },
        decreases m - j,
    {
        let is_target = e.infos[j].id == id || e.infos[j].menu.id == id;
        if is_target {
            found = Option::Some(e.infos[j].id);
            e.infos[j].menu.close_if(menu_type, requests);
        }
        j += 1;
    }
    found
}

/// Closes every slot of the entry holding a menu of kind `menu_type`.
fn close_if_all_in_entry(e: &mut OutputEntry, menu_type: &MenuType, requests: &mut Vec<Request>)
    ensures
        entry_close_if_all(*old(e), *final(e), *menu_type),
        visibility_tail(old(requests)@, final(requests)@),
{
    let m = e.infos.len();
    let mut j: usize = 0;
    while j < m
        invariant
            m == e.infos@.len() == old(e).infos@.len(),
            0 <= j <= m,
            e.name == old(e).name,
            e.wl_output == old(e).wl_output,
            forall|j2: int|
                0 <= j2 < m ==> pair_layout_eq(old(e).infos@[j2], #[trigger] e.infos@[j2]),
            forall|j2: int|
                j <= j2 < m ==> (#[trigger] e.infos@[j2]).menu.menu_info == old(
                    e,
                ).infos@[j2].menu.menu_info,
            forall|j2: int|
                0 <= j2 < j ==> if (#[trigger] old(e).infos@[j2]).menu.menu_info matches Some(
                    (k, _),
                ) && mt_eq(k, *menu_type) {
                    e.infos@[j2].menu.menu_info is None
                } else {
                    e.infos@[j2].menu.menu_info == old(e).infos@[j2].menu.menu_info
                },
            visibility_tail(old(requests)@, requests@),
        decreases m - j,
    {
        e.infos[j].menu.close_if(menu_type, requests);
        j += 1;
    }
}

/// Closes every slot of the entry.
fn close_all_in_entry(e: &mut OutputEntry, requests: &mut Vec<Request>)
    ensures
        entry_closed_all(*old(e), *final(e)),
        visibility_tail(old(requests)@, final(requests)@),
{
    let m = e.infos.len();
    let mut j: usize = 0;
    while j < m
        invariant
            m == e.infos@.len() == old(e).infos@.len(),
            0 <= j <= m,
            e.name == old(e).name,
            e.wl_output == old(e).wl_output,
            forall|j2: int|
                0 <= j2 < m ==> pair_layout_eq(old(e).infos@[j2], #[trigger] e.infos@[j2]),
            forall|j2: int|
                j <= j2 < m ==> (#[trigger] e.infos@[j2]).menu.menu_info == old(
                    e,
                ).infos@[j2].menu.menu_info,
            forall|j2: int| 0 <= j2 < j ==> (#[trigger] e.infos@[j2]).menu.menu_info is None,
            visibility_tail(old(requests)@, requests@),
        decreases m - j,
    {
        e.infos[j].menu.close(requests);
        j += 1;
    }
}

} // verus!

verus! {

impl Outputs {
    /// Appends a keyboard-revoke request for the bar surface of every pair
    /// in the registry.
    fn push_revoke_all(&self, requests: &mut Vec<Request>)
        ensures
            final(requests)@.len() >= old(requests)@.len(),
            forall|k: int|
                0 <= k < old(requests)@.len() ==> final(requests)@[k] == old(requests)@[k],
            forall|k: int|
                old(requests)@.len() <= k < final(requests)@.len()
                    ==> (#[trigger] final(requests)@[k]) is SetKeyboard,
            forall|i: int, j: int|
                self.valid_info(i, j) ==> exists|k: int|
                    0 <= k < final(requests)@.len() && final(requests)@[k] == (Request::SetKeyboard {
                        id: (#[trigger] self.info(i, j)).id,
                        mode: KeyboardMode::Disabled,
                    }),
    {
        let n = self.entries.len();
        let mut i: usize = 0;
        while i < n
            invariant
                n == self.entries@.len(),
                0 <= i <= n,
                requests@.len() >= old(requests)@.len(),
                forall|k: int|
                    0 <= k < old(requests)@.len() ==> requests@[k] == old(requests)@[k],
                forall|k: int|
                    old(requests)@.len() <= k < requests@.len() ==> (#[trigger] requests@[k]) is SetKeyboard,
                forall|i2: int, j2: int|
                    0 <= i2 < i && 0 <= j2 < self.n_infos(i2) ==> exists|k: int|
                        0 <= k < requests@.len() && requests@[k] == (Request::SetKeyboard {
                            id: (#[trigger] self.info(i2, j2)).id,
                            mode: KeyboardMode::Disabled,
                        }),
            decreases n - i,
        {
            let m = self.entries[i].infos.len();
            let mut j: usize = 0;
            while j < m
                invariant
                    n == self.entries@.len(),
                    0 <= i < n,
                    m == self.n_infos(i as int),
                    0 <= j <= m,
                    requests@.len() >= old(requests)@.len(),
                    forall|k: int|
                        0 <= k < old(requests)@.len() ==> requests@[k] == old(requests)@[k],
                    forall|k: int|
                        old(requests)@.len() <= k < requests@.len() ==> (
                        #[trigger] requests@[k]) is SetKeyboard,
                    forall|i2: int, j2: int|
                        0 <= i2 < i && 0 <= j2 < self.n_infos(i2) ==> exists|k: int|
                            0 <= k < requests@.len() && requests@[k] == (Request::SetKeyboard {
                                id: (#[trigger] self.info(i2, j2)).id,
                                mode: KeyboardMode::Disabled,
                            }),
                    forall|j2: int|
                        0 <= j2 < j ==> exists|k: int|
                            0 <= k < requests@.len() && requests@[k] == (Request::SetKeyboard {
                                id: (#[trigger] self.info(i as int, j2)).id,
                                mode: KeyboardMode::Disabled,
                            }),
                decreases m - j,
            {
                let ghost pre_push = requests@;
                requests.push(
                    Request::SetKeyboard {
                        id: self.entries[i].infos[j].id,
                        mode: KeyboardMode::Disabled,
                    },
                );
                proof {
                    assert forall|i2: int, j2: int|
                        0 <= i2 < i && 0 <= j2 < self.n_infos(i2) implies exists|k: int|
                            0 <= k < requests@.len() && requests@[k] == (Request::SetKeyboard {
                                id: (#[trigger] self.info(i2, j2)).id,
                                mode: KeyboardMode::Disabled,
                            }) by {
                        let k0 = choose|k: int|
                            0 <= k < pre_push.len() && pre_push[k] == (Request::SetKeyboard {
                                id: self.info(i2, j2).id,
                                mode: KeyboardMode::Disabled,
                            });
                        assert(requests@[k0] == pre_push[k0]);
                    }
                    assert forall|j2: int|
                        0 <= j2 < j + 1 implies exists|k: int|
                            0 <= k < requests@.len() && requests@[k] == (Request::SetKeyboard {
                                id: (#[trigger] self.info(i as int, j2)).id,
                                mode: KeyboardMode::Disabled,
                            }) by {
                        if j2 == j {
                            assert(requests@[requests@.len() - 1] == (Request::SetKeyboard {
                                id: self.info(i as int, j2).id,
                                mode: KeyboardMode::Disabled,
                            }));
                        } else {
                            let k0 = choose|k: int|
                                0 <= k < pre_push.len() && pre_push[k] == (Request::SetKeyboard {
                                    id: self.info(i as int, j2).id,
                                    mode: KeyboardMode::Disabled,
                                });
                            assert(requests@[k0] == pre_push[k0]);
                        }
                    }
                }
                j += 1;
            }
            i += 1;
        }
    }

    /// Finds the bar surface identity of the pair owning `id`.
    fn find_bar_id(&self, id: u64) -> (r: Option<u64>)
        ensures
            match r {
                Option::Some(b) => exists|i: int, j: int|
                    self.valid_info(i, j) && pair_owns(#[trigger] self.info(i, j), id)
                        && self.info(i, j).id == b,
                Option::None => forall|i: int, j: int|
                    self.valid_info(i, j) ==> !pair_owns(#[trigger] self.info(i, j), id),
            },
    {
        let n = self.entries.len();
        let mut i: usize = 0;
        while i < n
            invariant
                n == self.entries@.len(),
                0 <= i <= n,
                forall|i2: int, j2: int|
                    0 <= i2 < i && 0 <= j2 < self.n_infos(i2) ==> !pair_owns(
                        #[trigger] self.info(i2, j2),
                        id,
                    ),
            decreases n - i,
        {
            let m = self.entries[i].infos.len();
            let mut j: usize = 0;
            while j < m
                invariant
                    n == self.entries@.len(),
                    0 <= i < n,
                    m == self.n_infos(i as int),
                    0 <= j <= m,
                    forall|i2: int, j2: int|
                        0 <= i2 < i && 0 <= j2 < self.n_infos(i2) ==> !pair_owns(
                            #[trigger] self.info(i2, j2),
                            id,
                        ),
                    forall|j2: int|
                        0 <= j2 < j ==> !pair_owns(#[trigger] self.info(i as int, j2), id),
                decreases m - j,
            {
                if self.entries[i].infos[j].id == id || self.entries[i].infos[j].menu.id == id {
                    assert(self.valid_info(i as int, j as int) && pair_owns(
                        self.info(i as int, j as int),
                        id,
                    ));
                    return Some(self.entries[i].infos[j].id);
                }
                j += 1;
            }
            i += 1;
        }
        None
    }

    /// Issues an exclusive keyboard-interactivity grant for the bar
    /// surface of the pair owning `id`, for a menu that needs full
    /// keyboard input.
    pub fn request_keyboard(&self, id: u64) -> (requests: Vec<Request>)
        requires
            self.wf(),
        ensures
            ({
                let has_target = exists|i: int, j: int|
                    self.valid_info(i, j) && pair_owns(#[trigger] self.info(i, j), id);
                &&& (!has_target ==> requests@.len() == 0)
                &&& (has_target ==> requests@.len() == 1 && forall|i: int, j: int|
                    self.valid_info(i, j) && pair_owns(#[trigger] self.info(i, j), id)
                        ==> requests@[0] == (Request::SetKeyboard {
                        id: self.info(i, j).id,
                        mode: KeyboardMode::Exclusive,
                    }))
            }),
    {
        let mut requests: Vec<Request> = Vec::new();
        match self.find_bar_id(id) {
            Option::Some(tid) => {
                proof {
                    let (it, jt): (int, int) = choose|it: int, jt: int|
                        self.valid_info(it, jt) && pair_owns(#[trigger] self.info(it, jt), id)
                            && self.info(it, jt).id == tid;
                    assert forall|i: int, j: int|
                        self.valid_info(i, j) && pair_owns(
                            #[trigger] self.info(i, j),
                            id,
                        ) implies i == it && j == jt by {
                        lemma_owner_unique(*self, id, i, j, it, jt);
                    }
                }
                requests.push(Request::SetKeyboard { id: tid, mode: KeyboardMode::Exclusive });
            },
            Option::None => {},
        }
        requests
    }

    /// Issues a keyboard-interactivity revoke for the bar surface of the
    /// pair owning `id`.
    pub fn release_keyboard(&self, id: u64) -> (requests: Vec<Request>)
        requires
            self.wf(),
        ensures
            ({
                let has_target = exists|i: int, j: int|
                    self.valid_info(i, j) && pair_owns(#[trigger] self.info(i, j), id);
                &&& (!has_target ==> requests@.len() == 0)
                &&& (has_target ==> requests@.len() == 1 && forall|i: int, j: int|
                    self.valid_info(i, j) && pair_owns(#[trigger] self.info(i, j), id)
                        ==> requests@[0] == (Request::SetKeyboard {
                        id: self.info(i, j).id,
                        mode: KeyboardMode::Disabled,
                    }))
            }),
    {
        let mut requests: Vec<Request> = Vec::new();
        match self.find_bar_id(id) {
            Option::Some(tid) => {
                proof {
                    let (it, jt): (int, int) = choose|it: int, jt: int|
                        self.valid_info(it, jt) && pair_owns(#[trigger] self.info(it, jt), id)
                            && self.info(it, jt).id == tid;
                    assert forall|i: int, j: int|
                        self.valid_info(i, j) && pair_owns(
                            #[trigger] self.info(i, j),
                            id,
                        ) implies i == it && j == jt by {
                        lemma_owner_unique(*self, id, i, j, it, jt);
                    }
                }
                requests.push(Request::SetKeyboard { id: tid, mode: KeyboardMode::Disabled });
            },
            Option::None => {},
        }
        requests
    }
}

} // verus!

verus! {

impl Outputs {
    /// Unconditionally closes the menu of the pair owning surface `id`.
    /// When escape-key handling is enabled and no menu remains open, also
    /// revokes keyboard interactivity on the owning bar surface.
    pub fn close_menu(&mut self, id: u64, esc_button_enabled: bool) -> (requests: Vec<Request>)
        requires
            old(self).wf(),
        ensures
            final(self).wf(),
            old(self).same_layout(*final(self)),
            old(self).menu_exclusive() ==> final(self).menu_exclusive(),
            forall|i: int|
                old(self).valid_entry(i) ==> entry_close_target(
                    old(self).entry(i),
                    #[trigger] final(self).entry(i),
                    id,
                ),
            no_creates_or_destroys(requests@),
            ({
                let has_target = exists|i: int, j: int|
                    old(self).valid_info(i, j) && pair_owns(#[trigger] old(self).info(i, j), id);
                let revoke = esc_button_enabled && has_target && !final(self).any_open();
                &&& (!revoke ==> no_keyboard_requests(requests@))
                &&& (revoke ==> requests@.len() > 0 && no_keyboard_requests(requests@.drop_last())
                    && forall|i: int, j: int|
                    old(self).valid_info(i, j) && pair_owns(#[trigger] old(self).info(i, j), id)
                        ==> requests@.last() == (Request::SetKeyboard {
                        id: old(self).info(i, j).id,
                        mode: KeyboardMode::Disabled,
                    }))
            }),
    {
        let mut requests: Vec<Request> = Vec::new();
        let mut target_id: Option<u64> = Option::None;
        let n = self.entries.len();
        let mut i: usize = 0;
        while i < n
            invariant
                n == self.entries@.len() == old(self).entries@.len(),
                0 <= i <= n,
                old(self).wf(),
                self.next_id == old(self).next_id,
                forall|i2: int| i <= i2 < n ==> self.entries@[i2] == old(self).entries@[i2],
                forall|i2: int|
                    0 <= i2 < i ==> entry_close_target(
                        old(self).entry(i2),
                        #[trigger] self.entry(i2),
                        id,
                    ),
                visibility_tail(Seq::<Request>::empty(), requests@),
                match target_id {
                    Option::Some(b) => exists|i2: int, j2: int|
                        0 <= i2 < i && 0 <= j2 < old(self).n_infos(i2) && pair_owns(
                            #[trigger] old(self).info(i2, j2),
                            id,
                        ) && old(self).info(i2, j2).id == b,
                    Option::None => forall|i2: int, j2: int|
                        0 <= i2 < i && 0 <= j2 < old(self).n_infos(i2) ==> !pair_owns(
                            #[trigger] old(self).info(i2, j2),
                            id,
                        ),
                },
            decreases n - i,
        {
            let ghost pre_iter = *self;
            let f = close_in_entry(&mut self.entries[i], id, &mut requests);
            if f.is_some() {
                target_id = f;
            }
            proof {
                let ii = i as int;
                assert forall|i2: int| 0 <= i2 < ii implies #[trigger] self.entry(i2)
                    == pre_iter.entry(i2) by {}
                assert forall|i2: int|
                    0 <= i2 < ii implies entry_close_target(
                        old(self).entry(i2),
                        #[trigger] self.entry(i2),
                        id,
                    ) by {
                    assert(entry_close_target(old(self).entry(i2), pre_iter.entry(i2), id));
                }
                assert(entry_close_target(old(self).entry(ii), self.entry(ii), id));
                if f is Some {
                    let b = f->0;
                    let jt = choose|j: int|
                        0 <= j < old(self).entries@[ii].infos@.len() && pair_owns(
                            #[trigger] old(self).entries@[ii].infos@[j],
                            id,
                        ) && old(self).entries@[ii].infos@[j].id == b;
                    assert(0 <= jt < old(self).n_infos(ii) && pair_owns(
                        old(self).info(ii, jt),
                        id,
                    ) && old(self).info(ii, jt).id == b);
                } else {
                    assert forall|j2: int|
                        0 <= j2 < old(self).n_infos(ii) implies !pair_owns(
                            #[trigger] old(self).info(ii, j2),
                            id,
                        ) by {
                        assert(!pair_owns(old(self).entries@[ii].infos@[j2], id));
                    }
                }
            }
            i += 1;
        }
        proof {
            assert forall|i2: int|
                old(self).valid_entry(i2) implies entry_layout_eq(
                    old(self).entry(i2),
                    #[trigger] self.entry(i2),
                ) by {
                assert(entry_close_target(old(self).entry(i2), self.entry(i2), id));
            }
            old(self).lemma_entries_layout(*self);
            old(self).lemma_layout_preserves_wf(*self);
            if old(self).menu_exclusive() {
                assert forall|i2: int, j2: int|
                    old(self).valid_info(i2, j2) && #[trigger] self.is_open(i2, j2) implies old(
                        self,
                    ).is_open(i2, j2) by {
                    assert(entry_close_target(old(self).entry(i2), self.entry(i2), id));
                }
                old(self).lemma_no_new_opens_preserves_exclusive(*self);
            }
        }
        let open_now = self.menu_is_open();
        if esc_button_enabled && !open_now {
            match target_id {
                Option::Some(tid) => {
                    proof {
                        let (it, jt): (int, int) = choose|it: int, jt: int|
                            0 <= it < n && 0 <= jt < old(self).n_infos(it) && pair_owns(
                                #[trigger] old(self).info(it, jt),
                                id,
                            ) && old(self).info(it, jt).id == tid;
                        assert forall|i2: int, j2: int|
                            old(self).valid_info(i2, j2) && pair_owns(
                                #[trigger] old(self).info(i2, j2),
                                id,
                            ) implies i2 == it && j2 == jt by {
                            lemma_owner_unique(*old(self), id, i2, j2, it, jt);
                        }
                    }
                    let ghost pre_push = requests@;
                    requests.push(Request::SetKeyboard { id: tid, mode: KeyboardMode::Disabled });
                    proof {
                        assert(requests@.drop_last() =~= pre_push);
                    }
                },
                Option::None => {},
            }
        }
        requests
    }

    /// Closes the menu of the pair owning surface `id` only when a menu of
    /// kind `menu_type` is open there, so a stale close request cannot
    /// dismiss a menu of a different kind.
    pub fn close_menu_if(
        &mut self,
        id: u64,
        menu_type: MenuType,
        esc_button_enabled: bool,
    ) -> (requests: Vec<Request>)
        requires
            old(self).wf(),
        ensures
            final(self).wf(),
            old(self).same_layout(*final(self)),
            old(self).menu_exclusive() ==> final(self).menu_exclusive(),
            forall|i: int|
                old(self).valid_entry(i) ==> entry_close_if_target(
                    old(self).entry(i),
                    #[trigger] final(self).entry(i),
                    id,
                    menu_type,
                ),
            no_creates_or_destroys(requests@),
            ({
                let has_target = exists|i: int, j: int|
                    old(self).valid_info(i, j) && pair_owns(#[trigger] old(self).info(i, j), id);
                let revoke = esc_button_enabled && has_target && !final(self).any_open();
                &&& (!revoke ==> no_keyboard_requests(requests@))
                &&& (revoke ==> requests@.len() > 0 && no_keyboard_requests(requests@.drop_last())
                    && forall|i: int, j: int|
                    old(self).valid_info(i, j) && pair_owns(#[trigger] old(self).info(i, j), id)
                        ==> requests@.last() == (Request::SetKeyboard {
                        id: old(self).info(i, j).id,
                        mode: KeyboardMode::Disabled,
                    }))
            }),
    {
        let mut requests: Vec<Request> = Vec::new();
        let mut target_id: Option<u64> = Option::None;
        let n = self.entries.len();
        let mut i: usize = 0;
        while i < n
            invariant
                n == self.entries@.len() == old(self).entries@.len(),
                0 <= i <= n,
                old(self).wf(),
                self.next_id == old(self).next_id,
                forall|i2: int| i <= i2 < n ==> self.entries@[i2] == old(self).entries@[i2],
                forall|i2: int|
                    0 <= i2 < i ==> entry_close_if_target(
                        old(self).entry(i2),
                        #[trigger] self.entry(i2),
                        id,
                        menu_type,
                    ),
                visibility_tail(Seq::<Request>::empty(), requests@),
                match target_id {
                    Option::Some(b) => exists|i2: int, j2: int|
                        0 <= i2 < i && 0 <= j2 < old(self).n_infos(i2) && pair_owns(
                            #[trigger] old(self).info(i2, j2),
                            id,
                        ) && old(self).info(i2, j2).id == b,
                    Option::None => forall|i2: int, j2: int|
                        0 <= i2 < i && 0 <= j2 < old(self).n_infos(i2) ==> !pair_owns(
                            #[trigger] old(self).info(i2, j2),
                            id,
                        ),
                },
            decreases n - i,
        {
            let ghost pre_iter = *self;
            let f = close_if_in_entry(&mut self.entries[i], id, &menu_type, &mut requests);
            if f.is_some() {
                target_id = f;
            }
            proof {
                let ii = i as int;
                assert forall|i2: int| 0 <= i2 < ii implies #[trigger] self.entry(i2)
                    == pre_iter.entry(i2) by {}
                assert forall|i2: int|
                    0 <= i2 < ii implies entry_close_if_target(
                        old(self).entry(i2),
                        #[trigger] self.entry(i2),
                        id,
                        menu_type,
                    ) by {
                    assert(entry_close_if_target(
                        old(self).entry(i2),
                        pre_iter.entry(i2),
                        id,
                        menu_type,
                    ));
                }
                assert(entry_close_if_target(old(self).entry(ii), self.entry(ii), id, menu_type));
                if f is Some {
                    let b = f->0;
                    let jt = choose|j: int|
                        0 <= j < old(self).entries@[ii].infos@.len() && pair_owns(
                            #[trigger] old(self).entries@[ii].infos@[j],
                            id,
                        ) && old(self).entries@[ii].infos@[j].id == b;
                    assert(0 <= jt < old(self).n_infos(ii) && pair_owns(
                        old(self).info(ii, jt),
                        id,
                    ) && old(self).info(ii, jt).id == b);
                } else {
                    assert forall|j2: int|
                        0 <= j2 < old(self).n_infos(ii) implies !pair_owns(
                            #[trigger] old(self).info(ii, j2),
                            id,
                        ) by {
                        assert(!pair_owns(old(self).entries@[ii].infos@[j2], id));
                    }
                }
            }
            i += 1;
        }
        proof {
            assert forall|i2: int|
                old(self).valid_entry(i2) implies entry_layout_eq(
                    old(self).entry(i2),
                    #[trigger] self.entry(i2),
                ) by {
                assert(entry_close_if_target(old(self).entry(i2), self.entry(i2), id, menu_type));
            }
            old(self).lemma_entries_layout(*self);
            old(self).lemma_layout_preserves_wf(*self);
            if old(self).menu_exclusive() {
                assert forall|i2: int, j2: int|
                    old(self).valid_info(i2, j2) && #[trigger] self.is_open(i2, j2) implies old(
                        self,
                    ).is_open(i2, j2) by {
                    assert(entry_close_if_target(
                        old(self).entry(i2),
                        self.entry(i2),
                        id,
                        menu_type,
                    ));
                }
                old(self).lemma_no_new_opens_preserves_exclusive(*self);
            }
        }
        let open_now = self.menu_is_open();
        if esc_button_enabled && !open_now {
            match target_id {
                Option::Some(tid) => {
                    proof {
                        let (it, jt): (int, int) = choose|it: int, jt: int|
                            0 <= it < n && 0 <= jt < old(self).n_infos(it) && pair_owns(
                                #[trigger] old(self).info(it, jt),
                                id,
                            ) && old(self).info(it, jt).id == tid;
                        assert forall|i2: int, j2: int|
                            old(self).valid_info(i2, j2) && pair_owns(
                                #[trigger] old(self).info(i2, j2),
                                id,
                            ) implies i2 == it && j2 == jt by {
                            lemma_owner_unique(*old(self), id, i2, j2, it, jt);
                        }
                    }
                    let ghost pre_push = requests@;
                    requests.push(Request::SetKeyboard { id: tid, mode: KeyboardMode::Disabled });
                    proof {
                        assert(requests@.drop_last() =~= pre_push);
                    }
                },
                Option::None => {},
            }
        }
        requests
    }
}

} // verus!

verus! {

impl Outputs {
    /// Closes every open menu of kind `menu_type` across the registry,
    /// used for global dismissal of a particular menu.  When escape-key
    /// handling is enabled and no menu remains open, revokes keyboard
    /// interactivity on every bar surface.
    pub fn close_all_menu_if(
        &mut self,
        menu_type: MenuType,
        esc_button_enabled: bool,
    ) -> (requests: Vec<Request>)
        requires
            old(self).wf(),
        ensures
            final(self).wf(),
            old(self).same_layout(*final(self)),
            old(self).menu_exclusive() ==> final(self).menu_exclusive(),
            forall|i: int|
                old(self).valid_entry(i) ==> entry_close_if_all(
                    old(self).entry(i),
                    #[trigger] final(self).entry(i),
                    menu_type,
                ),
            no_creates_or_destroys(requests@),
            !(esc_button_enabled && !final(self).any_open()) ==> no_keyboard_requests(requests@),
            esc_button_enabled && !final(self).any_open() ==> forall|i: int, j: int|
                old(self).valid_info(i, j) ==> exists|k: int|
                    0 <= k < requests@.len() && requests@[k] == (Request::SetKeyboard {
                        id: (#[trigger] old(self).info(i, j)).id,
                        mode: KeyboardMode::Disabled,
                    }),
    {
        let mut requests: Vec<Request> = Vec::new();
        let n = self.entries.len();
        let mut i: usize = 0;
        while i < n
            invariant
                n == self.entries@.len() == old(self).entries@.len(),
                0 <= i <= n,
                old(self).wf(),
                self.next_id == old(self).next_id,
                forall|i2: int| i <= i2 < n ==> self.entries@[i2] == old(self).entries@[i2],
                forall|i2: int|
                    0 <= i2 < i ==> entry_close_if_all(
                        old(self).entry(i2),
                        #[trigger] self.entry(i2),
                        menu_type,
                    ),
                visibility_tail(Seq::<Request>::empty(), requests@),
            decreases n - i,
        {
            let ghost pre_iter = *self;
            close_if_all_in_entry(&mut self.entries[i], &menu_type, &mut requests);
            proof {
                let ii = i as int;
                assert forall|i2: int| 0 <= i2 < ii implies #[trigger] self.entry(i2)
                    == pre_iter.entry(i2) by {}
                assert forall|i2: int|
                    0 <= i2 < ii implies entry_close_if_all(
                        old(self).entry(i2),
                        #[trigger] self.entry(i2),
                        menu_type,
                    ) by {
                    assert(entry_close_if_all(old(self).entry(i2), pre_iter.entry(i2), menu_type));
                }
                assert(entry_close_if_all(old(self).entry(ii), self.entry(ii), menu_type));
            }
            i += 1;
        }
        proof {
            assert forall|i2: int|
                old(self).valid_entry(i2) implies entry_layout_eq(
                    old(self).entry(i2),
                    #[trigger] self.entry(i2),
                ) by {
                assert(entry_close_if_all(old(self).entry(i2), self.entry(i2), menu_type));
            }
            old(self).lemma_entries_layout(*self);
            old(self).lemma_layout_preserves_wf(*self);
            if old(self).menu_exclusive() {
                assert forall|i2: int, j2: int|
                    old(self).valid_info(i2, j2) && #[trigger] self.is_open(i2, j2) implies old(
                        self,
                    ).is_open(i2, j2) by {
                    assert(entry_close_if_all(old(self).entry(i2), self.entry(i2), menu_type));
                }
                old(self).lemma_no_new_opens_preserves_exclusive(*self);
            }
        }
        let open_now = self.menu_is_open();
        if esc_button_enabled && !open_now {
            self.push_revoke_all(&mut requests);
            proof {
                assert forall|i2: int, j2: int|
                    old(self).valid_info(i2, j2) implies exists|k: int|
                        0 <= k < requests@.len() && requests@[k] == (Request::SetKeyboard {
                            id: (#[trigger] old(self).info(i2, j2)).id,
                            mode: KeyboardMode::Disabled,
                        }) by {
                    assert(old(self).info(i2, j2).id == self.info(i2, j2).id);
                    let k0 = choose|k: int|
                        0 <= k < requests@.len() && requests@[k] == (Request::SetKeyboard {
                            id: self.info(i2, j2).id,
                            mode: KeyboardMode::Disabled,
                        });
                    assert(requests@[k0] == (Request::SetKeyboard {
                        id: old(self).info(i2, j2).id,
                        mode: KeyboardMode::Disabled,
                    }));
                }
            }
        }
        requests
    }

    /// Closes every open menu across the registry, used for global
    /// dismissal (escape key, click outside, cross-module actions).  When
    /// escape-key handling is enabled, revokes keyboard interactivity on
    /// every bar surface.
    pub fn close_all_menus(&mut self, esc_button_enabled: bool) -> (requests: Vec<Request>)
        requires
            old(self).wf(),
        ensures
            final(self).wf(),
            old(self).same_layout(*final(self)),
            final(self).menu_exclusive(),
            !final(self).any_open(),
            forall|i: int|
                old(self).valid_entry(i) ==> entry_closed_all(
                    old(self).entry(i),
                    #[trigger] final(self).entry(i),
                ),
            no_creates_or_destroys(requests@),
            !esc_button_enabled ==> no_keyboard_requests(requests@),
            esc_button_enabled ==> forall|i: int, j: int|
                old(self).valid_info(i, j) ==> exists|k: int|
                    0 <= k < requests@.len() && requests@[k] == (Request::SetKeyboard {
                        id: (#[trigger] old(self).info(i, j)).id,
                        mode: KeyboardMode::Disabled,
                    }),
    {
        let mut requests: Vec<Request> = Vec::new();
        let n = self.entries.len();
        let mut i: usize = 0;
        while i < n
            invariant
                n == self.entries@.len() == old(self).entries@.len(),
                0 <= i <= n,
                old(self).wf(),
                self.next_id == old(self).next_id,
                forall|i2: int| i <= i2 < n ==> self.entries@[i2] == old(self).entries@[i2],
                forall|i2: int|
                    0 <= i2 < i ==> entry_closed_all(
                        old(self).entry(i2),
                        #[trigger] self.entry(i2),
                    ),
                visibility_tail(Seq::<Request>::empty(), requests@),
            decreases n - i,
        {
            let ghost pre_iter = *self;
            close_all_in_entry(&mut self.entries[i], &mut requests);
            proof {
                let ii = i as int;
                assert forall|i2: int| 0 <= i2 < ii implies #[trigger] self.entry(i2)
                    == pre_iter.entry(i2) by {}
                assert forall|i2: int|
                    0 <= i2 < ii implies entry_closed_all(
                        old(self).entry(i2),
                        #[trigger] self.entry(i2),
                    ) by {
                    assert(entry_closed_all(old(self).entry(i2), pre_iter.entry(i2)));
                }
                assert(entry_closed_all(old(self).entry(ii), self.entry(ii)));
            }
            i += 1;
        }
        proof {
            assert forall|i2: int|
                old(self).valid_entry(i2) implies entry_layout_eq(
                    old(self).entry(i2),
                    #[trigger] self.entry(i2),
                ) by {
                assert(entry_closed_all(old(self).entry(i2), self.entry(i2)));
            }
            old(self).lemma_entries_layout(*self);
            old(self).lemma_layout_preserves_wf(*self);
            assert forall|i2: int, j2: int| self.valid_info(i2, j2) implies !self.is_open(
                i2,
                j2,
            ) by {
                assert(entry_closed_all(old(self).entry(i2), self.entry(i2)));
            }
            assert(!self.any_open());
        }
        if esc_button_enabled {
            self.push_revoke_all(&mut requests);
            proof {
                assert forall|i2: int, j2: int|
                    old(self).valid_info(i2, j2) implies exists|k: int|
                        0 <= k < requests@.len() && requests@[k] == (Request::SetKeyboard {
                            id: (#[trigger] old(self).info(i2, j2)).id,
                            mode: KeyboardMode::Disabled,
                        }) by {
                    assert(old(self).info(i2, j2).id == self.info(i2, j2).id);
                    let k0 = choose|k: int|
                        0 <= k < requests@.len() && requests@[k] == (Request::SetKeyboard {
                            id: self.info(i2, j2).id,
                            mode: KeyboardMode::Disabled,
                        });
                    assert(requests@[k0] == (Request::SetKeyboard {
                        id: old(self).info(i2, j2).id,
                        mode: KeyboardMode::Disabled,
                    }));
                }
            }
        }
        requests
    }
}

} // verus!

verus! {

impl Outputs {
    /// Resolves a surface identity to its role: the bar surface of a pair
    /// (with that pair's state) or the menu host surface of a pair (with
    /// the open menu, if any).
    pub fn has(&self, id: u64) -> (r: Option<HasOutput>)
        ensures
            match r {
                Option::None => forall|i: int, j: int|
                    self.valid_info(i, j) ==> !pair_owns(#[trigger] self.info(i, j), id),
                Option::Some(HasOutput::Main(si)) => exists|i: int, j: int|
                    self.valid_info(i, j) && (#[trigger] self.info(i, j)).id == id && si_eq(
                        si,
                        self.info(i, j),
                    ),
                Option::Some(HasOutput::Menu(mi)) => exists|i: int, j: int|
                    self.valid_info(i, j) && (#[trigger] self.info(i, j)).menu.id == id && slot_eq(
                        mi,
                        self.info(i, j).menu.menu_info,
                    ),
            },
    {
        let n = self.entries.len();
        let mut i: usize = 0;
        while i < n
            invariant
                n == self.entries@.len(),
                0 <= i <= n,
                forall|i2: int, j2: int|
                    0 <= i2 < i && 0 <= j2 < self.n_infos(i2) ==> !pair_owns(
                        #[trigger] self.info(i2, j2),
                        id,
                    ),
            decreases n - i,
        {
            let m = self.entries[i].infos.len();
            let mut j: usize = 0;
            while j < m
                invariant
                    n == self.entries@.len(),
                    0 <= i < n,
                    m == self.n_infos(i as int),
                    0 <= j <= m,
                    forall|i2: int, j2: int|
                        0 <= i2 < i && 0 <= j2 < self.n_infos(i2) ==> !pair_owns(
                            #[trigger] self.info(i2, j2),
                            id,
                        ),
                    forall|j2: int|
                        0 <= j2 < j ==> !pair_owns(#[trigger] self.info(i as int, j2), id),
                decreases m - j,
            {
                if self.entries[i].infos[j].id == id {
                    let si = self.entries[i].infos[j].clone();
                    assert(self.valid_info(i as int, j as int) && self.info(
                        i as int,
                        j as int,
                    ).id == id);
                    return Some(HasOutput::Main(si));
                }
                if self.entries[i].infos[j].menu.id == id {
                    let mi = match &self.entries[i].infos[j].menu.menu_info {
                        Option::Some((kind, anchor)) => Option::Some((kind.clone(), *anchor)),
                        Option::None => Option::None,
                    };
                    assert(self.valid_info(i as int, j as int) && self.info(
                        i as int,
                        j as int,
                    ).menu.id == id);
                    return Some(HasOutput::Menu(mi));
                }
                j += 1;
            }
            i += 1;
        }
        None
    }

    /// The display name owning the bar surface `id`.
    pub fn get_monitor_name(&self, id: u64) -> (r: Option<&str>)
        ensures
            match r {
                Option::Some(nm) => exists|i: int, j: int|
                    self.valid_info(i, j) && (#[trigger] self.info(i, j)).id == id && nm@
                        == self.entry(i).name@,
                Option::None => forall|i: int, j: int|
                    self.valid_info(i, j) ==> (#[trigger] self.info(i, j)).id != id,
            },
    {
        let n = self.entries.len();
        let mut i: usize = 0;
        while i < n
            invariant
                n == self.entries@.len(),
                0 <= i <= n,
                forall|i2: int, j2: int|
                    0 <= i2 < i && 0 <= j2 < self.n_infos(i2) ==> (#[trigger] self.info(
                        i2,
                        j2,
                    )).id != id,
            decreases n - i,
        {
            let m = self.entries[i].infos.len();
            let mut j: usize = 0;
            while j < m
                invariant
                    n == self.entries@.len(),
                    0 <= i < n,
                    m == self.n_infos(i as int),
                    0 <= j <= m,
                    forall|i2: int, j2: int|
                        0 <= i2 < i && 0 <= j2 < self.n_infos(i2) ==> (#[trigger] self.info(
                            i2,
                            j2,
                        )).id != id,
                    forall|j2: int|
                        0 <= j2 < j ==> (#[trigger] self.info(i as int, j2)).id != id,
                decreases m - j,
            {
                if self.entries[i].infos[j].id == id {
                    assert(self.valid_info(i as int, j as int) && self.info(
                        i as int,
                        j as int,
                    ).id == id);
                    return Some(self.entries[i].name.as_str());
                }
                j += 1;
            }
            i += 1;
        }
        None
    }

    /// Reports whether some entry that currently has surfaces is recorded
    /// under a name containing `name`.
    pub fn has_name(&self, name: &str) -> (r: bool)
        ensures
            r == exists|i: int|
                self.valid_entry(i) && self.n_infos(i) > 0 && contains_seq(
                    string_bytes((#[trigger] self.entry(i)).name),
                    str_bytes(name),
                ),
    {
        let n = self.entries.len();
        let mut i: usize = 0;
        while i < n
            invariant
                n == self.entries@.len(),
                0 <= i <= n,
                forall|i2: int|
                    0 <= i2 < i ==> !(self.n_infos(i2) > 0 && contains_seq(
                        string_bytes((#[trigger] self.entry(i2)).name),
                        str_bytes(name),
                    )),
            decreases n - i,
        {
            if !self.entries[i].infos.is_empty() && str_contains(self.entries[i].name.as_str(), name) {
                assert(self.valid_entry(i as int) && self.n_infos(i as int) > 0 && contains_seq(
                    string_bytes(self.entry(i as int).name),
                    str_bytes(name),
                ));
                return true;
            }
            assert(!(self.n_infos(i as int) > 0 && contains_seq(
                string_bytes(self.entry(i as int).name),
                str_bytes(name),
            )));
            i += 1;
        }
        false
    }

    /// The bar configuration of the pair owning surface `id`.
    pub fn get_bar_config(&self, id: u64) -> (r: Option<BarConfig>)
        ensures
            match r {
                Option::Some(c) => exists|i: int, j: int|
                    self.valid_info(i, j) && pair_owns(#[trigger] self.info(i, j), id) && c
                        == self.info(i, j).config,
                Option::None => forall|i: int, j: int|
                    self.valid_info(i, j) ==> !pair_owns(#[trigger] self.info(i, j), id),
            },
    {
        let n = self.entries.len();
        let mut i: usize = 0;
        while i < n
            invariant
                n == self.entries@.len(),
                0 <= i <= n,
                forall|i2: int, j2: int|
                    0 <= i2 < i && 0 <= j2 < self.n_infos(i2) ==> !pair_owns(
                        #[trigger] self.info(i2, j2),
                        id,
                    ),
            decreases n - i,
        {
            let m = self.entries[i].infos.len();
            let mut j: usize = 0;
            while j < m
                invariant
                    n == self.entries@.len(),
                    0 <= i < n,
                    m == self.n_infos(i as int),
                    0 <= j <= m,
                    forall|i2: int, j2: int|
                        0 <= i2 < i && 0 <= j2 < self.n_infos(i2) ==> !pair_owns(
                            #[trigger] self.info(i2, j2),
                            id,
                        ),
                    forall|j2: int|
                        0 <= j2 < j ==> !pair_owns(#[trigger] self.info(i as int, j2), id),
                decreases m - j,
            {
                if self.entries[i].infos[j].id == id || self.entries[i].infos[j].menu.id == id {
                    assert(self.valid_info(i as int, j as int) && pair_owns(
                        self.info(i as int, j as int),
                        id,
                    ));
                    return Some(self.entries[i].infos[j].config);
                }
                j += 1;
            }
            i += 1;
        }
        None
    }
}

} // verus!

verus! {

/// Index of the first entry at or after `i` recorded without a display
/// handle.
pub open spec fn first_fallback_from(o: Outputs, i: int) -> Option<int>
    decreases o.n_entries() - i,
{
    if i < 0 || i >= o.n_entries() {
        Option::None
    } else if o.entry(i).wl_output is None {
        Option::Some(i)
    } else {
        first_fallback_from(o, i + 1)
    }
}

/// Index of the synthetic fallback entry, if one exists.
pub open spec fn spec_fallback_index(o: Outputs) -> Option<int> {
    first_fallback_from(o, 0)
}

/// Index of the first entry at or after `i` recorded under the name with
/// UTF-8 bytes `nb`.
pub open spec fn first_named_from(o: Outputs, nb: Seq<u8>, i: int) -> Option<int>
    decreases o.n_entries() - i,
{
    if i < 0 || i >= o.n_entries() {
        Option::None
    } else if o.entry_named(i, nb) {
        Option::Some(i)
    } else {
        first_named_from(o, nb, i + 1)
    }
}

/// Index of the entry a matched attach under this name replaces, if one
/// exists.
pub open spec fn spec_named_index(o: Outputs, nb: Seq<u8>) -> Option<int> {
    first_named_from(o, nb, 0)
}

/// The destroy batch a matched attach under the name with bytes `nb`
/// issues: the pairs of the entry it replaces, then the pairs of the
/// synthetic fallback entry (when that is a different entry).
pub open spec fn attach_destroy_requests(o: Outputs, nb: Seq<u8>) -> Seq<Request> {
    (match spec_named_index(o, nb) {
        Option::Some(i) => destroy_requests(o.entry(i).infos@),
        Option::None => Seq::empty(),
    }) + (match spec_fallback_index(o) {
        Option::Some(f) => if spec_named_index(o, nb) == Some(f) {
            Seq::empty()
        } else {
            destroy_requests(o.entry(f).infos@)
        },
        Option::None => Seq::empty(),
    })
}

impl Outputs {
    /// First entry recorded without a display handle, if any.
    fn find_fallback(&self) -> (r: Option<usize>)
        ensures
            match r {
                Option::Some(fi) => fi < self.entries@.len() && self.entry(
                    fi as int,
                ).wl_output is None && spec_fallback_index(*self) == Some(fi as int),
                Option::None => spec_fallback_index(*self) is None && forall|i: int|
                    self.valid_entry(i) ==> (#[trigger] self.entry(i)).wl_output is Some,
            },
    {
        let n = self.entries.len();
        let mut i: usize = 0;
        while i < n
            invariant
                n == self.entries@.len(),
                0 <= i <= n,
                spec_fallback_index(*self) == first_fallback_from(*self, i as int),
                forall|i2: int| 0 <= i2 < i ==> (#[trigger] self.entry(i2)).wl_output is Some,
            decreases n - i,
        {
            if self.entries[i].wl_output.is_none() {
                return Some(i);
            }
            i += 1;
        }
        None
    }

    /// First entry recorded under exactly this display name, if any.
    fn find_named(&self, name: &str) -> (r: Option<usize>)
        ensures
            match r {
                Option::Some(idx) => idx < self.entries@.len() && string_bytes(
                    self.entry(idx as int).name,
                ) == str_bytes(name) && spec_named_index(*self, str_bytes(name)) == Some(
                    idx as int,
                ),
                Option::None => spec_named_index(*self, str_bytes(name)) is None && forall|i: int|
                    self.valid_entry(i) ==> string_bytes((#[trigger] self.entry(i)).name)
                        != str_bytes(name),
            },
    {
        let n = self.entries.len();
        let mut i: usize = 0;
        while i < n
            invariant
                n == self.entries@.len(),
                0 <= i <= n,
                spec_named_index(*self, str_bytes(name)) == first_named_from(
                    *self,
                    str_bytes(name),
                    i as int,
                ),
                forall|i2: int|
                    0 <= i2 < i ==> string_bytes((#[trigger] self.entry(i2)).name) != str_bytes(
                        name,
                    ),
            decreases n - i,
        {
            if crate::text::str_eq(self.entries[i].name.as_str(), name) {
                return Some(i);
            }
            i += 1;
        }
        None
    }

    /// Handles a display attach event.  A display whose name matches the
    /// filter gets fresh surface pairs (replacing any prior entry under
    /// the same name, and retiring the synthetic fallback entry); an
    /// unmatched display is recorded with no surfaces so the name-to-handle
    /// association is kept for later reconciliation.
    #[verifier::rlimit(100)]
    #[verifier::spinoff_prover]
    pub fn add(
        &mut self,
        bar_configs: &Vec<BarConfig>,
        request_outputs: &config::Outputs,
        name: &str,
        wl_output: u64,
        scale_factor: u32,
    ) -> (requests: Vec<Request>)
        requires
            old(self).wf(),
            bar_configs@.len() > 0,
            old(self).next_id + 2 * bar_configs@.len() <= u64::MAX,
        ensures
            final(self).wf(),
            old(self).menu_exclusive() ==> final(self).menu_exclusive(),
            old(self).sized_ok(bar_configs@.len() as int) ==> final(self).sized_ok(
                bar_configs@.len() as int,
            ),
            no_keyboard_requests(requests@),
            spec_name_matches(str_bytes(name), *request_outputs) ==> {
                &&& !final(self).has_fallback()
                &&& exists|i: int|
                    final(self).valid_entry(i) && final(self).entry_named(i, str_bytes(name)) && (
                    #[trigger] final(self).entry(i)).wl_output == Some(wl_output) && final(self).pairs_current(i, bar_configs@, scale_factor) && (forall|j: int|
                        0 <= j < bar_configs@.len() ==> !final(self).is_open(i, j))
                &&& forall|i: int|
                    old(self).valid_entry(i) && (#[trigger] old(self).entry(i)).wl_output is Some
                        && string_bytes(old(self).entry(i).name) != str_bytes(name) ==> exists|
                        i2: int,
                    |
                        final(self).valid_entry(i2) && #[trigger] final(self).entry(i2) == old(
                            self,
                        ).entry(i)
                &&& requests@.len() >= 2 * bar_configs@.len()
                &&& forall|k: int|
                    0 <= k < requests@.len() - 2 * bar_configs@.len() ==> (
                    #[trigger] requests@[k]) is Destroy
                &&& forall|j: int|
                    0 <= j < bar_configs@.len() ==> {
                        &&& requests@[requests@.len() - 2 * bar_configs@.len() + 2 * j] == (
                        Request::CreateBar {
                            id: (old(self).next_id + 2 * j) as u64,
                            target: OutputTarget::Output(wl_output),
                            position: (#[trigger] bar_configs@[j]).position,
                            height: spec_bar_height(bar_configs@[j].style, scale_factor) as u32,
                        })
                        &&& requests@[requests@.len() - 2 * bar_configs@.len() + 2 * j + 1] == (
                        Request::CreateMenu {
                            id: (old(self).next_id + 2 * j + 1) as u64,
                            target: OutputTarget::Output(wl_output),
                        })
                    }
                &&& requests@ == attach_destroy_requests(*old(self), str_bytes(name))
                    + creation_requests(
                    bar_configs@,
                    old(self).next_id as int,
                    OutputTarget::Output(wl_output),
                    scale_factor,
                )
                &&& final(self).next_id == old(self).next_id + 2 * bar_configs@.len()
                &&& final(self).entries@.len() == old(self).entries@.len() + (
                match spec_named_index(*old(self), str_bytes(name)) {
                    Option::Some(_) => 0int,
                    Option::None => 1int,
                }) - (match spec_fallback_index(*old(self)) {
                    Option::Some(f) => if spec_named_index(*old(self), str_bytes(name)) == Some(
                        f,
                    ) {
                        0int
                    } else {
                        1int
                    },
                    Option::None => 0int,
                })
                &&& forall|i2: int|
                    #![trigger final(self).entry(i2)]
                    final(self).valid_entry(i2) ==> (final(self).entry_named(i2, str_bytes(name))
                        && final(self).entry(i2).wl_output == Some(wl_output) && final(self).pairs_current(i2, bar_configs@, scale_factor)) || (exists|i0: int|
                        old(self).valid_entry(i0) && final(self).entry(i2) == old(self).entry(i0)
                            && spec_named_index(*old(self), str_bytes(name)) != Some(i0)
                            && spec_fallback_index(*old(self)) != Some(i0))
            },
            !spec_name_matches(str_bytes(name), *request_outputs) ==> {
                &&& final(self).entries@.len() == old(self).entries@.len() + 1
                &&& forall|i: int|
                    0 <= i < old(self).entries@.len() ==> final(self).entries@[i] == old(
                        self,
                    ).entries@[i]
                &&& final(self).entry(old(self).n_entries()).name@ == name@
                &&& final(self).entry(old(self).n_entries()).infos@.len() == 0
                &&& final(self).entry(old(self).n_entries()).wl_output == Some(wl_output)
                &&& final(self).next_id == old(self).next_id
                &&& requests@.len() == 0
            },
    {
        let mut requests: Vec<Request> = Vec::new();
        if !name_in_config(name, request_outputs) {
            self.entries.push(
                OutputEntry { name: name.to_owned(), infos: Vec::new(), wl_output: Some(wl_output) },
            );
            proof {
                assert forall|i: int|
                    self.valid_entry(i) && (#[trigger] self.entry(i)).wl_output is None implies
                    self.n_infos(i) > 0 && old(self).valid_entry(i) && old(self).entry(
                        i,
                    ).wl_output is None by {}
                assert(self.has_fallback() == old(self).has_fallback()) by {
                    if old(self).has_fallback() {
                        let i = choose|i: int|
                            old(self).valid_entry(i) && (#[trigger] old(self).entry(
                                i,
                            )).wl_output is None;
                        assert(self.entry(i).wl_output is None);
                        assert(self.has_fallback());
                    }
                }
                assert(self.any_real_nonempty() == old(self).any_real_nonempty()) by {
                    if old(self).any_real_nonempty() {
                        let i = choose|i: int|
                            old(self).valid_entry(i) && (#[trigger] old(self).entry(
                                i,
                            )).wl_output is Some && old(self).n_infos(i) > 0;
                        assert(self.entry(i).wl_output is Some && self.n_infos(i) > 0);
                        assert(self.any_real_nonempty());
                    }
                    if self.any_real_nonempty() {
                        let i = choose|i: int|
                            self.valid_entry(i) && (#[trigger] self.entry(i)).wl_output is Some
                                && self.n_infos(i) > 0;
                        assert(i < old(self).n_entries());
                        assert(old(self).any_real_nonempty());
                    }
                }
                assert forall|i: int, j: int| self.valid_info(i, j) implies old(self).valid_info(
                    i,
                    j,
                ) && self.info(i, j) == old(self).info(i, j) by {}
                if old(self).menu_exclusive() {
                    assert forall|i1: int, j1: int, i2: int, j2: int|
                        self.valid_info(i1, j1) && self.valid_info(i2, j2)
                            && #[trigger] self.is_open(i1, j1) && #[trigger] self.is_open(
                            i2,
                            j2,
                        ) implies i1 == i2 && j1 == j2 by {
                        assert(old(self).is_open(i1, j1) && old(self).is_open(i2, j2));
                    }
                }
                if old(self).sized_ok(bar_configs@.len() as int) {
                    assert forall|i: int|
                        self.valid_entry(i) && #[trigger] self.n_infos(i) > 0 implies self.n_infos(
                            i,
                        ) == bar_configs@.len() as int by {
                        assert(old(self).valid_entry(i) && old(self).n_infos(i) == self.n_infos(i));
                    }
                }
            }
            return requests;
        }
        let fb = self.find_fallback();
        let named = self.find_named(name);
        let ghost s0 = *self;
        match named {
            Option::Some(idx) => {
                destroy_pairs(&self.entries[idx].infos, &mut requests);
                assert(forall|k: int| 0 <= k < requests@.len() ==> (#[trigger] requests@[k]) is Destroy);
            },
            Option::None => {},
        }
        match fb {
            Option::Some(fi) => {
                let fallback_is_named = match named {
                    Option::Some(idx) => idx == fi,
                    Option::None => false,
                };
                if !fallback_is_named {
                    destroy_pairs(&self.entries[fi].infos, &mut requests);
                    assert(forall|k: int|
                        0 <= k < requests@.len() ==> (#[trigger] requests@[k]) is Destroy);
                }
            },
            Option::None => {},
        }
        let ghost n_destroys = requests@.len();
        assert(forall|k: int| 0 <= k < n_destroys ==> (#[trigger] requests@[k]) is Destroy);
        proof {
            assert(requests@ =~= attach_destroy_requests(*old(self), str_bytes(name)));
        }
        let infos = create_output_layers(
            &mut self.next_id,
            Some(wl_output),
            bar_configs,
            scale_factor,
            &mut requests,
        );
        let new_index: usize;
        match named {
            Option::Some(idx) => {
                self.entries[idx].infos = infos;
                self.entries[idx].wl_output = Some(wl_output);
                new_index = idx;
            },
            Option::None => {
                new_index = self.entries.len();
                self.entries.push(
                    OutputEntry { name: name.to_owned(), infos, wl_output: Some(wl_output) },
                );
            },
        }
        let ghost s1 = *self;
        let mut kept_index: usize = new_index;
        match fb {
            Option::Some(fi) => {
                let fallback_is_named = match named {
                    Option::Some(idx) => idx == fi,
                    Option::None => false,
                };
                if !fallback_is_named {
                    self.entries.swap_remove(fi);
                    if new_index == self.entries.len() {
                        // the freshly pushed entry was moved into the hole
                        kept_index = fi;
                    }
                }
            },
            Option::None => {},
        }
        proof {
            let n = bar_configs@.len() as int;
            lemma_add_matched(
                *old(self),
                s1,
                *self,
                new_index as int,
                kept_index as int,
                match fb {
                    Option::Some(fi) => Some(fi as int),
                    Option::None => None,
                },
                match named {
                    Option::Some(idx) => Some(idx as int),
                    Option::None => None,
                },
                str_bytes(name),
                bar_configs@,
                scale_factor,
                wl_output,
            );
            assert(requests@.len() == n_destroys + 2 * n);
            assert forall|k: int|
                0 <= k < requests@.len() implies !((#[trigger] requests@[k]) is SetKeyboard) && (k
                < n_destroys ==> requests@[k] is Destroy) by {}
            assert(requests@ =~= attach_destroy_requests(*old(self), str_bytes(name))
                + creation_requests(
                bar_configs@,
                old(self).next_id as int,
                OutputTarget::Output(wl_output),
                scale_factor,
            ));
            assert forall|i2: int|
                #![trigger self.entry(i2)]
                self.valid_entry(i2) implies (self.entry_named(i2, str_bytes(name)) && self.entry(
                i2,
            ).wl_output == Some(wl_output) && self.pairs_current(i2, bar_configs@, scale_factor))
                || (exists|i0: int|
                old(self).valid_entry(i0) && self.entry(i2) == old(self).entry(i0)
                    && spec_named_index(*old(self), str_bytes(name)) != Some(i0)
                    && spec_fallback_index(*old(self)) != Some(i0)) by {
                if i2 == kept_index {
                } else {
                }
            }
        }
        requests
    }
}

} // verus!

verus! {

/// The well-formedness argument for a matched attach: `pre` is the
/// registry before the event, `s1` the intermediate state in which the
/// entry at `ni` has been given fresh surface pairs, and `post` the final
/// state after the fallback entry (if one existed elsewhere) has been
/// retired; `ki` is where the refreshed entry ended up.
#[verifier::rlimit(100)]
#[verifier::spinoff_prover]
proof fn lemma_add_matched(
    pre: Outputs,
    s1: Outputs,
    post: Outputs,
    ni: int,
    ki: int,
    fb: Option<int>,
    named: Option<int>,
    nb: Seq<u8>,
    configs: Seq<BarConfig>,
    scale: u32,
    wl: u64,
)
    requires
        pre.wf(),
        configs.len() > 0,
        pre.next_id + 2 * configs.len() <= u64::MAX,
        match named {
            Option::Some(idx) => 0 <= idx < pre.n_entries() && string_bytes(pre.entry(idx).name)
                == nb,
            Option::None => forall|i: int|
                pre.valid_entry(i) ==> string_bytes((#[trigger] pre.entry(i)).name) != nb,
        },
        match fb {
            Option::Some(fi) => 0 <= fi < pre.n_entries() && pre.entry(fi).wl_output is None,
            Option::None => forall|i: int|
                pre.valid_entry(i) ==> (#[trigger] pre.entry(i)).wl_output is Some,
        },
        s1.next_id == pre.next_id + 2 * configs.len(),
        s1.next_id % 2 == 0,
        ni == match named {
            Option::Some(idx) => idx,
            Option::None => pre.n_entries(),
        },
        s1.entries@.len() == match named {
            Option::Some(_) => pre.n_entries(),
            Option::None => pre.n_entries() + 1,
        },
        forall|i: int|
            0 <= i < s1.entries@.len() && i != ni ==> #[trigger] s1.entry(i) == pre.entry(i),
        string_bytes(s1.entry(ni).name) == nb,
        s1.entry(ni).wl_output == Some(wl),
        s1.entry(ni).infos@.len() == configs.len(),
        forall|j: int|
            0 <= j < configs.len() ==> fresh_info(
                #[trigger] s1.entry(ni).infos@[j],
                pre.next_id + 2 * j,
                configs[j],
                scale,
            ),
        ({
            let removed = match fb {
                Option::Some(fi) => named != Some(fi),
                Option::None => false,
            };
            if removed {
                let fi = fb->0;
                &&& post.entries@.len() == s1.entries@.len() - 1
                &&& forall|i: int|
                    0 <= i < post.entries@.len() ==> #[trigger] post.entry(i) == (if i == fi {
                        s1.entry(s1.entries@.len() - 1)
                    } else {
                        s1.entry(i)
                    })
                &&& ki == (if ni == s1.entries@.len() - 1 {
                    fi
                } else {
                    ni
                })
            } else {
                post == s1 && ki == ni
            }
        }),
        post.next_id == s1.next_id,
    ensures
        post.wf(),
        pre.menu_exclusive() ==> post.menu_exclusive(),
        pre.sized_ok(configs.len() as int) ==> post.sized_ok(configs.len() as int),
        !post.has_fallback(),
        post.valid_entry(ki),
        post.entry_named(ki, nb),
        post.entry(ki).wl_output == Some(wl),
        post.pairs_current(ki, configs, scale),
        forall|j: int| 0 <= j < configs.len() ==> !post.is_open(ki, j),
        forall|i: int|
            pre.valid_entry(i) && (#[trigger] pre.entry(i)).wl_output is Some && string_bytes(
                pre.entry(i).name,
            ) != nb ==> exists|i2: int|
                post.valid_entry(i2) && #[trigger] post.entry(i2) == pre.entry(i),
        post.entries@.len() == pre.entries@.len() + (match named {
            Option::Some(_) => 0int,
            Option::None => 1int,
        }) - (match fb {
            Option::Some(f) => if named == Some(f) {
                0int
            } else {
                1int
            },
            Option::None => 0int,
        }),
        forall|i2: int|
            #![trigger post.entry(i2)]
            post.valid_entry(i2) ==> i2 == ki || (exists|i0: int|
                pre.valid_entry(i0) && post.entry(i2) == pre.entry(i0) && named != Some(i0) && fb
                    != Some(i0)),
{
    let n = configs.len() as int;
    let l1 = s1.entries@.len() as int;
    let removed = match fb {
        Option::Some(fi) => named != Some(fi),
        Option::None => false,
    };
    assert(post.valid_entry(ki) && post.entry(ki) == s1.entry(ni));
    // every final entry other than ki is an untouched old entry that is
    // neither the replaced one nor the fallback
    assert forall|i2: int|
        post.valid_entry(i2) && i2 != ki implies exists|i0: int|
            pre.valid_entry(i0) && #[trigger] post.entry(i2) == pre.entry(i0) && named != Some(i0)
                && fb != Some(i0) by {
        if removed {
            let fi = fb->0;
            if i2 == fi && ni != l1 - 1 {
                assert(post.entry(i2) == pre.entry(l1 - 1));
            } else {
                assert(post.entry(i2) == pre.entry(i2));
            }
        } else {
            assert(post.entry(i2) == pre.entry(i2));
        }
    }
    // identity bookkeeping
    assert forall|i2: int, j2: int| post.valid_info(i2, j2) implies (#[trigger] post.info(
        i2,
        j2,
    )).menu.id == post.info(i2, j2).id + 1 && post.info(i2, j2).id % 2 == 0 && post.info(
        i2,
        j2,
    ).id + 1 < post.next_id by {
        if i2 == ki {
            assert(fresh_info(s1.entry(ni).infos@[j2], pre.next_id + 2 * j2, configs[j2], scale));
        } else {
            let i0 = choose|i0: int|
                pre.valid_entry(i0) && #[trigger] post.entry(i2) == pre.entry(i0);
            assert(pre.info(i0, j2).menu.id == pre.info(i0, j2).id + 1);
        }
    }
    assert forall|i1: int, j1: int, i2: int, j2: int|
        post.valid_info(i1, j1) && post.valid_info(i2, j2) && !(i1 == i2 && j1 == j2) implies (
    #[trigger] post.info(i1, j1)).id != (#[trigger] post.info(i2, j2)).id by {
        if i1 == ki {
            assert(fresh_info(s1.entry(ni).infos@[j1], pre.next_id + 2 * j1, configs[j1], scale));
        } else {
            let i0 = choose|i0: int|
                pre.valid_entry(i0) && #[trigger] post.entry(i1) == pre.entry(i0);
            assert(pre.info(i0, j1).id + 1 < pre.next_id);
        }
        if i2 == ki {
            assert(fresh_info(s1.entry(ni).infos@[j2], pre.next_id + 2 * j2, configs[j2], scale));
        } else {
            let i0 = choose|i0: int|
                pre.valid_entry(i0) && #[trigger] post.entry(i2) == pre.entry(i0);
            assert(pre.info(i0, j2).id + 1 < pre.next_id);
        }
        if i1 != ki && i2 != ki {
            if removed {
                let fi = fb->0;
                let o1: int = if i1 == fi && ni != l1 - 1 {
                    l1 - 1
                } else {
                    i1
                };
                let o2: int = if i2 == fi && ni != l1 - 1 {
                    l1 - 1
                } else {
                    i2
                };
                assert(post.entry(i1) == pre.entry(o1) && post.entry(i2) == pre.entry(o2));
                assert(o1 != o2);
                assert(pre.info(o1, j1).id != pre.info(o2, j2).id);
            } else {
                assert(post.entry(i1) == pre.entry(i1) && post.entry(i2) == pre.entry(i2));
                assert(pre.info(i1, j1).id != pre.info(i2, j2).id);
            }
        }
    }
    // no fallback remains
    assert forall|i2: int| post.valid_entry(i2) implies (#[trigger] post.entry(
        i2,
    )).wl_output is Some by {
        if i2 != ki {
            let i0 = choose|i0: int|
                pre.valid_entry(i0) && #[trigger] post.entry(i2) == pre.entry(i0) && named != Some(
                    i0,
                ) && fb != Some(i0);
            match fb {
                Option::Some(fi) => {
                    assert(i0 != fi);
                },
                Option::None => {
                    assert(pre.entry(i0).wl_output is Some);
                },
            }
        }
    }
    assert(!post.has_fallback());
    assert(post.n_infos(ki) == n);
    assert(post.any_real_nonempty());
    // exclusivity carries over: fresh pairs are closed
    if pre.menu_exclusive() {
        assert forall|i1: int, j1: int, i2: int, j2: int|
            post.valid_info(i1, j1) && post.valid_info(i2, j2) && #[trigger] post.is_open(i1, j1)
                && #[trigger] post.is_open(i2, j2) implies i1 == i2 && j1 == j2 by {
            if i1 == ki {
                assert(fresh_info(
                    s1.entry(ni).infos@[j1],
                    pre.next_id + 2 * j1,
                    configs[j1],
                    scale,
                ));
                assert(false);
            } else if i2 == ki {
                assert(fresh_info(
                    s1.entry(ni).infos@[j2],
                    pre.next_id + 2 * j2,
                    configs[j2],
                    scale,
                ));
                assert(false);
            } else {
                if removed {
                    let fi = fb->0;
                    let o1: int = if i1 == fi && ni != l1 - 1 {
                        l1 - 1
                    } else {
                        i1
                    };
                    let o2: int = if i2 == fi && ni != l1 - 1 {
                        l1 - 1
                    } else {
                        i2
                    };
                    assert(post.entry(i1) == pre.entry(o1) && post.entry(i2) == pre.entry(o2));
                    assert(pre.is_open(o1, j1) && pre.is_open(o2, j2));
                    assert(o1 == o2 && j1 == j2);
                } else {
                    assert(post.entry(i1) == pre.entry(i1) && post.entry(i2) == pre.entry(i2));
                    assert(pre.is_open(i1, j1) && pre.is_open(i2, j2));
                }
            }
        }
    }
    // sizing carries over
    if pre.sized_ok(n) {
        assert forall|i2: int|
            post.valid_entry(i2) && #[trigger] post.n_infos(i2) > 0 implies post.n_infos(i2)
                == n by {
            if i2 != ki {
                let i0 = choose|i0: int|
                    pre.valid_entry(i0) && #[trigger] post.entry(i2) == pre.entry(i0);
                assert(pre.n_infos(i0) == post.n_infos(i2));
            }
        }
    }
    // the refreshed entry has the advertised shape
    assert(post.pairs_current(ki, configs, scale)) by {
        assert forall|j: int| 0 <= j < n implies (#[trigger] post.info(ki, j)).config == configs[j]
            && post.info(ki, j).scale_factor == scale by {
            assert(fresh_info(s1.entry(ni).infos@[j], pre.next_id + 2 * j, configs[j], scale));
        }
    }
    assert forall|j: int| 0 <= j < n implies !post.is_open(ki, j) by {
        assert(fresh_info(s1.entry(ni).infos@[j], pre.next_id + 2 * j, configs[j], scale));
    }
    // untouched real entries survive
    assert forall|i0: int|
        pre.valid_entry(i0) && (#[trigger] pre.entry(i0)).wl_output is Some && string_bytes(
            pre.entry(i0).name,
        ) != nb implies exists|i2: int|
            post.valid_entry(i2) && #[trigger] post.entry(i2) == pre.entry(i0) by {
        match named {
            Option::Some(idx) => {
                assert(i0 != idx);
            },
            Option::None => {},
        }
        match fb {
            Option::Some(fi) => {
                assert(i0 != fi);
            },
            Option::None => {},
        }
        if removed {
            let fi = fb->0;
            if i0 == l1 - 1 && ni != l1 - 1 {
                assert(post.entry(fi) == pre.entry(i0));
            } else {
                assert(post.entry(i0) == pre.entry(i0));
            }
        } else {
            assert(post.entry(i0) == pre.entry(i0));
        }
    }
}

} // verus!

verus! {

impl Outputs {
    /// First entry recorded with this display handle, if any.
    fn find_by_handle(&self, wl_output: u64) -> (r: Option<usize>)
        ensures
            match r {
                Option::Some(i) => i < self.entries@.len() && self.entry(i as int).wl_output
                    == Some(wl_output),
                Option::None => forall|i: int|
                    self.valid_entry(i) ==> (#[trigger] self.entry(i)).wl_output != Some(
                        wl_output,
                    ),
            },
    {
        let n = self.entries.len();
        let mut i: usize = 0;
        while i < n
            invariant
                n == self.entries@.len(),
                0 <= i <= n,
                forall|i2: int|
                    0 <= i2 < i ==> (#[trigger] self.entry(i2)).wl_output != Some(wl_output),
            decreases n - i,
        {
            let hit = match &self.entries[i].wl_output {
                Option::Some(h) => *h == wl_output,
                Option::None => false,
            };
            if hit {
                return Some(i);
            }
            i += 1;
        }
        None
    }

    /// Reports whether any entry currently has surface pairs.
    fn any_nonempty(&self) -> (r: bool)
        ensures
            r == exists|i: int| self.valid_entry(i) && #[trigger] self.n_infos(i) > 0,
    {
        let n = self.entries.len();
        let mut i: usize = 0;
        while i < n
            invariant
                n == self.entries@.len(),
                0 <= i <= n,
                forall|i2: int| 0 <= i2 < i ==> #[trigger] self.n_infos(i2) <= 0,
            decreases n - i,
        {
            if !self.entries[i].infos.is_empty() {
                assert(self.n_infos(i as int) > 0);
                return true;
            }
            i += 1;
        }
        false
    }

    /// Handles a display detach event: destroys the surface pairs of the
    /// entry owning the handle but keeps the entry (and so the
    /// name-to-handle association).  When this leaves the whole registry
    /// without surfaces, a synthetic fallback entry is created so the
    /// shell stays visible.
    #[verifier::rlimit(100)]
    #[verifier::spinoff_prover]
    pub fn remove(
        &mut self,
        bar_configs: &Vec<BarConfig>,
        wl_output: u64,
        scale_factor: u32,
    ) -> (requests: Vec<Request>)
        requires
            old(self).wf(),
            bar_configs@.len() > 0,
            old(self).next_id + 2 * bar_configs@.len() <= u64::MAX,
        ensures
            final(self).wf(),
            old(self).menu_exclusive() ==> final(self).menu_exclusive(),
            old(self).sized_ok(bar_configs@.len() as int) ==> final(self).sized_ok(
                bar_configs@.len() as int,
            ),
            no_keyboard_requests(requests@),
            (forall|i: int|
                old(self).valid_entry(i) ==> (#[trigger] old(self).entry(i)).wl_output != Some(
                    wl_output,
                )) ==> (*final(self) == *old(self) && requests@.len() == 0),
            (exists|i: int|
                old(self).valid_entry(i) && (#[trigger] old(self).entry(i)).wl_output == Some(
                    wl_output,
                )) ==> exists|i: int|
                {
                    &&& old(self).valid_entry(i)
                    &&& (#[trigger] old(self).entry(i)).wl_output == Some(wl_output)
                    &&& final(self).valid_entry(i)
                    &&& final(self).entry(i).name == old(self).entry(i).name
                    &&& final(self).entry(i).wl_output == Some(wl_output)
                    &&& final(self).n_infos(i) == 0
                    &&& forall|i2: int|
                        old(self).valid_entry(i2) && i2 != i ==> #[trigger] final(self).entries@[i2] == old(self).entries@[i2]
                    &&& forall|j: int|
                        0 <= j < old(self).n_infos(i) ==> requests@[2 * j] == (Request::Destroy {
                            id: (#[trigger] old(self).info(i, j)).id,
                        }) && requests@[2 * j + 1] == (Request::Destroy {
                            id: old(self).info(i, j).menu.id,
                        })
                    &&& if exists|i2: int|
                        old(self).valid_entry(i2) && i2 != i && #[trigger] old(self).n_infos(i2)
                            > 0 {
                        &&& final(self).n_entries() == old(self).n_entries()
                        &&& final(self).next_id == old(self).next_id
                        &&& requests@.len() == 2 * old(self).n_infos(i)
                        &&& requests@ == destroy_requests(old(self).entry(i).infos@)
                    } else {
                        &&& final(self).n_entries() == old(self).n_entries() + 1
                        &&& final(self).next_id == old(self).next_id + 2 * bar_configs@.len()
                        &&& final(self).entry(old(self).n_entries()).wl_output is None
                        &&& final(self).entry(old(self).n_entries()).name@ == "Fallback"@
                        &&& final(self).pairs_current(
                            old(self).n_entries(),
                            bar_configs@,
                            scale_factor,
                        )
                        &&& forall|j: int|
                            0 <= j < bar_configs@.len() ==> !final(self).is_open(
                                old(self).n_entries(),
                                j,
                            )
                        &&& requests@.len() == 2 * old(self).n_infos(i) + 2 * bar_configs@.len()
                        &&& requests@ == destroy_requests(old(self).entry(i).infos@)
                            + creation_requests(
                            bar_configs@,
                            old(self).next_id as int,
                            OutputTarget::ActiveOutput,
                            scale_factor,
                        )
                    }
                },
    {
        let mut requests: Vec<Request> = Vec::new();
        let found = self.find_by_handle(wl_output);
        match found {
            Option::None => {
                return requests;
            },
            Option::Some(idx) => {
                destroy_pairs(&self.entries[idx].infos, &mut requests);
                self.entries[idx].infos = Vec::new();
                let ghost s1 = *self;
                let ghost ii = idx as int;
                let any = self.any_nonempty();
                if !any {
                    let infos = create_output_layers(
                        &mut self.next_id,
                        None,
                        bar_configs,
                        scale_factor,
                        &mut requests,
                    );
                    self.entries.push(
                        OutputEntry { name: fallback_name(), infos, wl_output: Option::None },
                    );
                }
                proof {
                    let pre = *old(self);
                    let n = bar_configs@.len() as int;
                    let l0 = pre.n_entries();
                    // relate the final state to the old one
                    assert(forall|i2: int|
                        0 <= i2 < l0 && i2 != ii ==> #[trigger] self.entries@[i2]
                            == pre.entries@[i2]);
                    assert(self.entry(ii).name == pre.entry(ii).name);
                    assert(self.entry(ii).wl_output == Some(wl_output));
                    assert(self.n_infos(ii) == 0);
                    // identity bookkeeping
                    assert forall|i2: int, j2: int| self.valid_info(i2, j2) implies (
                    #[trigger] self.info(i2, j2)).menu.id == self.info(i2, j2).id + 1 && self.info(
                        i2,
                        j2,
                    ).id % 2 == 0 && self.info(i2, j2).id + 1 < self.next_id by {
                        if i2 < l0 {
                            assert(self.entry(i2) == pre.entry(i2));
                            assert(pre.info(i2, j2).menu.id == pre.info(i2, j2).id + 1);
                        } else {
                            assert(fresh_info(
                                self.entry(i2).infos@[j2],
                                pre.next_id + 2 * j2,
                                bar_configs@[j2],
                                scale_factor,
                            ));
                        }
                    }
                    assert forall|i1: int, j1: int, i2: int, j2: int|
                        self.valid_info(i1, j1) && self.valid_info(i2, j2) && !(i1 == i2 && j1
                            == j2) implies (#[trigger] self.info(i1, j1)).id != (
                    #[trigger] self.info(i2, j2)).id by {
                        if i1 < l0 {
                            assert(self.entry(i1) == pre.entry(i1));
                            assert(pre.info(i1, j1).id + 1 < pre.next_id);
                        } else {
                            assert(fresh_info(
                                self.entry(i1).infos@[j1],
                                pre.next_id + 2 * j1,
                                bar_configs@[j1],
                                scale_factor,
                            ));
                        }
                        if i2 < l0 {
                            assert(self.entry(i2) == pre.entry(i2));
                            assert(pre.info(i2, j2).id + 1 < pre.next_id);
                        } else {
                            assert(fresh_info(
                                self.entry(i2).infos@[j2],
                                pre.next_id + 2 * j2,
                                bar_configs@[j2],
                                scale_factor,
                            ));
                        }
                        if i1 < l0 && i2 < l0 {
                            assert(pre.info(i1, j1).id != pre.info(i2, j2).id);
                        }
                    }
                    // fallback discipline
                    if !s1.any_real_nonempty() && s1.has_fallback() {
                        // the old fallback is still there and still has pairs
                        let fi = choose|fi: int|
                            s1.valid_entry(fi) && (#[trigger] s1.entry(fi)).wl_output is None;
                        assert(fi != ii);
                        assert(pre.entry(fi).wl_output is None);
                        assert(pre.n_infos(fi) > 0);
                        assert(s1.n_infos(fi) > 0);
                    }
                    if exists|i2: int|
                        pre.valid_entry(i2) && i2 != ii && #[trigger] pre.n_infos(i2) > 0 {
                        let w = choose|i2: int|
                            pre.valid_entry(i2) && i2 != ii && #[trigger] pre.n_infos(i2) > 0;
                        assert(s1.n_infos(w) > 0);
                        assert(s1.valid_entry(w));
                    }
                    assert forall|i1: int, i2: int|
                        self.valid_entry(i1) && self.valid_entry(i2) && (#[trigger] self.entry(
                            i1,
                        )).wl_output is None && (#[trigger] self.entry(i2)).wl_output is None
                        implies i1 == i2 by {
                        if i1 < l0 && i2 < l0 {
                            assert(pre.entry(i1).wl_output is None);
                            assert(pre.entry(i2).wl_output is None);
                        } else if i1 < l0 {
                            // an old fallback beside the fresh one: the old
                            // registry then had no surfaces at all, yet the
                            // fresh fallback was only created because the
                            // old fallback still had pairs
                            assert(pre.entry(i1).wl_output is None);
                            assert(pre.n_infos(i1) > 0);
                            assert(i1 != ii);
                            assert(s1.n_infos(i1) > 0);
                            assert(false);
                        } else if i2 < l0 {
                            assert(pre.entry(i2).wl_output is None);
                            assert(pre.n_infos(i2) > 0);
                            assert(i2 != ii);
                            assert(s1.n_infos(i2) > 0);
                            assert(false);
                        }
                    }
                    assert forall|i2: int|
                        self.valid_entry(i2) && (#[trigger] self.entry(i2)).wl_output is None
                        implies self.n_infos(i2) > 0 by {
                        if i2 < l0 {
                            assert(pre.entry(i2).wl_output is None);
                            assert(pre.n_infos(i2) > 0);
                            assert(i2 != ii);
                        }
                    }
                    assert(self.has_fallback() <==> !self.any_real_nonempty()) by {
                        if self.any_real_nonempty() {
                            let w = choose|i2: int|
                                self.valid_entry(i2) && (#[trigger] self.entry(
                                    i2,
                                )).wl_output is Some && self.n_infos(i2) > 0;
                            assert(w < l0);
                            assert(w != ii);
                            assert(pre.entry(w).wl_output is Some && pre.n_infos(w) > 0);
                            assert(pre.any_real_nonempty());
                            assert(!pre.has_fallback());
                            if self.has_fallback() {
                                let fi = choose|fi: int|
                                    self.valid_entry(fi) && (#[trigger] self.entry(
                                        fi,
                                    )).wl_output is None;
                                assert(fi >= l0 ==> false);
                                assert(pre.entry(fi).wl_output is None);
                                assert(false);
                            }
                        } else {
                            if !self.has_fallback() {
                                // the fallback-creation branch cannot have
                                // run, so some entry still had pairs; it
                                // has a handle, contradicting the case
                                assert(any) by {
                                    if !any {
                                        assert(self.entry(
                                            self.n_entries() - 1,
                                        ).wl_output is None);
                                        assert(self.has_fallback());
                                    }
                                }
                                let w = choose|i2: int|
                                    s1.valid_entry(i2) && #[trigger] s1.n_infos(i2) > 0;
                                assert(*self == s1);
                                assert(self.n_infos(w) > 0);
                                assert(self.entry(w).wl_output is Some);
                                assert(self.any_real_nonempty());
                                assert(false);
                            }
                        }
                    }
                    // exclusivity and sizing
                    if pre.menu_exclusive() {
                        assert forall|i1: int, j1: int, i2: int, j2: int|
                            self.valid_info(i1, j1) && self.valid_info(i2, j2)
                                && #[trigger] self.is_open(i1, j1) && #[trigger] self.is_open(
                                i2,
                                j2,
                            ) implies i1 == i2 && j1 == j2 by {
                            if i1 >= l0 {
                                assert(fresh_info(
                                    self.entry(i1).infos@[j1],
                                    pre.next_id + 2 * j1,
                                    bar_configs@[j1],
                                    scale_factor,
                                ));
                                assert(false);
                            } else if i2 >= l0 {
                                assert(fresh_info(
                                    self.entry(i2).infos@[j2],
                                    pre.next_id + 2 * j2,
                                    bar_configs@[j2],
                                    scale_factor,
                                ));
                                assert(false);
                            } else {
                                assert(self.entry(i1) == pre.entry(i1));
                                assert(self.entry(i2) == pre.entry(i2));
                                assert(pre.is_open(i1, j1) && pre.is_open(i2, j2));
                            }
                        }
                    }
                    if pre.sized_ok(n) {
                        assert forall|i2: int|
                            self.valid_entry(i2) && #[trigger] self.n_infos(i2) > 0 implies
                            self.n_infos(i2) == n by {
                            if i2 < l0 {
                                assert(self.entry(i2) == pre.entry(i2));
                                assert(pre.n_infos(i2) == self.n_infos(i2));
                            }
                        }
                    }
                    // the found-case ensures, with the found index as witness
                    assert(pre.valid_entry(ii) && pre.entry(ii).wl_output == Some(wl_output));
                }
            },
        }
        requests
    }
}

} // verus!

verus! {

/// One pair no longer agrees with the configuration it should reflect.
pub open spec fn pair_changed(si: ShellInfo, cfg: BarConfig, scale: u32) -> bool {
    si.config != cfg || si.scale_factor != scale
}

/// `post` is `pre` after an in-place update: same pairs, same identities,
/// same menu slots, but every pair now carries the current configuration
/// and scale factor.
pub open spec fn entry_updated_in_place(
    pre: OutputEntry,
    post: OutputEntry,
    configs: Seq<BarConfig>,
    scale: u32,
) -> bool {
    &&& post.name == pre.name
    &&& post.wl_output == pre.wl_output
    &&& post.infos@.len() == pre.infos@.len()
    &&& forall|j: int|
        0 <= j < pre.infos@.len() ==> (#[trigger] post.infos@[j]).id == pre.infos@[j].id
            && post.infos@[j].menu.id == pre.infos@[j].menu.id && post.infos@[j].menu.menu_info
            == pre.infos@[j].menu.menu_info && post.infos@[j].config == configs[j]
            && post.infos@[j].scale_factor == scale
}

/// `post` is `pre` reconciled against the configuration: matched attached
/// displays have one pair per bar, unmatched attached displays have none,
/// and every surviving pair carries the current configuration.
pub open spec fn entry_reconciled(
    pre: OutputEntry,
    post: OutputEntry,
    configs: Seq<BarConfig>,
    filter: config::Outputs,
    scale: u32,
) -> bool {
    let matched = spec_name_matches(string_bytes(pre.name), filter);
    &&& post.name == pre.name
    &&& post.wl_output == pre.wl_output
    &&& (matched && pre.wl_output is Some ==> post.infos@.len() == configs.len())
    &&& (!matched && pre.wl_output is Some ==> post.infos@.len() == 0)
    &&& (pre.wl_output is None && pre.infos@.len() > 0 ==> post.infos@.len() == configs.len())
    &&& (post.infos@.len() > 0 ==> post.infos@.len() == configs.len() && forall|j: int|
        0 <= j < post.infos@.len() ==> (#[trigger] post.infos@[j]).config == configs[j]
            && post.infos@[j].scale_factor == scale)
}

/// Replacing the pairs of one entry with freshly allocated ones keeps the
/// identity bookkeeping sound.
proof fn lemma_ids_replace(pre: Outputs, post: Outputs, ii: int, configs: Seq<BarConfig>, scale: u32)
    requires
        pre.ids_ok(),
        0 <= ii < pre.n_entries(),
        post.entries@.len() == pre.entries@.len(),
        forall|i: int|
            0 <= i < pre.n_entries() && i != ii ==> #[trigger] post.entry(i) == pre.entry(i),
        post.entry(ii).infos@.len() == configs.len(),
        forall|j: int|
            0 <= j < configs.len() ==> fresh_info(
                #[trigger] post.entry(ii).infos@[j],
                pre.next_id + 2 * j,
                configs[j],
                scale,
            ),
        post.next_id == pre.next_id + 2 * configs.len(),
    ensures
        post.ids_ok(),
{
    assert forall|i2: int, j2: int| post.valid_info(i2, j2) implies (#[trigger] post.info(
        i2,
        j2,
    )).menu.id == post.info(i2, j2).id + 1 && post.info(i2, j2).id % 2 == 0 && post.info(
        i2,
        j2,
    ).id + 1 < post.next_id by {
        if i2 == ii {
            assert(fresh_info(post.entry(ii).infos@[j2], pre.next_id + 2 * j2, configs[j2], scale));
        } else {
            assert(post.entry(i2) == pre.entry(i2));
            assert(pre.info(i2, j2).menu.id == pre.info(i2, j2).id + 1);
        }
    }
    assert forall|i1: int, j1: int, i2: int, j2: int|
        post.valid_info(i1, j1) && post.valid_info(i2, j2) && !(i1 == i2 && j1 == j2) implies (
    #[trigger] post.info(i1, j1)).id != (#[trigger] post.info(i2, j2)).id by {
        if i1 == ii {
            assert(fresh_info(post.entry(ii).infos@[j1], pre.next_id + 2 * j1, configs[j1], scale));
        } else {
            assert(post.entry(i1) == pre.entry(i1));
            assert(pre.info(i1, j1).id + 1 < pre.next_id);
        }
        if i2 == ii {
            assert(fresh_info(post.entry(ii).infos@[j2], pre.next_id + 2 * j2, configs[j2], scale));
        } else {
            assert(post.entry(i2) == pre.entry(i2));
            assert(pre.info(i2, j2).id + 1 < pre.next_id);
        }
        if i1 != ii && i2 != ii {
            assert(pre.info(i1, j1).id != pre.info(i2, j2).id);
        }
    }
}

/// Appending an entry with freshly allocated pairs keeps the identity
/// bookkeeping sound.
proof fn lemma_ids_append(pre: Outputs, post: Outputs, configs: Seq<BarConfig>, scale: u32)
    requires
        pre.ids_ok(),
        post.entries@.len() == pre.entries@.len() + 1,
        forall|i: int| 0 <= i < pre.n_entries() ==> #[trigger] post.entry(i) == pre.entry(i),
        post.entry(pre.n_entries()).infos@.len() == configs.len(),
        forall|j: int|
            0 <= j < configs.len() ==> fresh_info(
                #[trigger] post.entry(pre.n_entries()).infos@[j],
                pre.next_id + 2 * j,
                configs[j],
                scale,
            ),
        post.next_id == pre.next_id + 2 * configs.len(),
    ensures
        post.ids_ok(),
{
    let ii = pre.n_entries();
    assert forall|i2: int, j2: int| post.valid_info(i2, j2) implies (#[trigger] post.info(
        i2,
        j2,
    )).menu.id == post.info(i2, j2).id + 1 && post.info(i2, j2).id % 2 == 0 && post.info(
        i2,
        j2,
    ).id + 1 < post.next_id by {
        if i2 == ii {
            assert(fresh_info(post.entry(ii).infos@[j2], pre.next_id + 2 * j2, configs[j2], scale));
        } else {
            assert(post.entry(i2) == pre.entry(i2));
            assert(pre.info(i2, j2).menu.id == pre.info(i2, j2).id + 1);
        }
    }
    assert forall|i1: int, j1: int, i2: int, j2: int|
        post.valid_info(i1, j1) && post.valid_info(i2, j2) && !(i1 == i2 && j1 == j2) implies (
    #[trigger] post.info(i1, j1)).id != (#[trigger] post.info(i2, j2)).id by {
        if i1 == ii {
            assert(fresh_info(post.entry(ii).infos@[j1], pre.next_id + 2 * j1, configs[j1], scale));
        } else {
            assert(post.entry(i1) == pre.entry(i1));
            assert(pre.info(i1, j1).id + 1 < pre.next_id);
        }
        if i2 == ii {
            assert(fresh_info(post.entry(ii).infos@[j2], pre.next_id + 2 * j2, configs[j2], scale));
        } else {
            assert(post.entry(i2) == pre.entry(i2));
            assert(pre.info(i2, j2).id + 1 < pre.next_id);
        }
        if i1 != ii && i2 != ii {
            assert(pre.info(i1, j1).id != pre.info(i2, j2).id);
        }
    }
}

/// Removing one entry by swapping in the last keeps the identity
/// bookkeeping sound.
proof fn lemma_ids_swap_remove(pre: Outputs, post: Outputs, fi: int)
    requires
        pre.ids_ok(),
        0 <= fi < pre.n_entries(),
        post.next_id == pre.next_id,
        post.entries@.len() == pre.entries@.len() - 1,
        forall|i: int|
            0 <= i < post.entries@.len() ==> #[trigger] post.entry(i) == (if i == fi {
                pre.entry(pre.n_entries() - 1)
            } else {
                pre.entry(i)
            }),
    ensures
        post.ids_ok(),
{
    let l = pre.n_entries();
    assert forall|i2: int, j2: int| post.valid_info(i2, j2) implies (#[trigger] post.info(
        i2,
        j2,
    )).menu.id == post.info(i2, j2).id + 1 && post.info(i2, j2).id % 2 == 0 && post.info(
        i2,
        j2,
    ).id + 1 < post.next_id by {
        let o: int = if i2 == fi { l - 1 } else { i2 };
        assert(post.entry(i2) == pre.entry(o));
        assert(pre.info(o, j2).menu.id == pre.info(o, j2).id + 1);
    }
    assert forall|i1: int, j1: int, i2: int, j2: int|
        post.valid_info(i1, j1) && post.valid_info(i2, j2) && !(i1 == i2 && j1 == j2) implies (
    #[trigger] post.info(i1, j1)).id != (#[trigger] post.info(i2, j2)).id by {
        let o1: int = if i1 == fi { l - 1 } else { i1 };
        let o2: int = if i2 == fi { l - 1 } else { i2 };
        assert(post.entry(i1) == pre.entry(o1));
        assert(post.entry(i2) == pre.entry(o2));
        assert(o1 != o2 || (j1 != j2));
        assert(pre.info(o1, j1).id != pre.info(o2, j2).id);
    }
}

} // verus!

verus! {

/// Updates every pair of an entry to the current configuration and scale
/// factor, appending a resize request for each pair whose geometry input
/// actually changed.  Surface identities and menu slots are untouched:
/// How many pairs of an entry no longer agree with the configuration and
/// so need a resize request.
pub open spec fn changed_count(infos: Seq<ShellInfo>, configs: Seq<BarConfig>, scale: u32) -> int
    decreases infos.len(),
{
    if infos.len() == 0 {
        0
    } else {
        changed_count(infos.drop_last(), configs, scale) + (if pair_changed(
            infos.last(),
            configs[infos.len() - 1],
            scale,
        ) {
            1int
        } else {
            0int
        })
    }
}

/// The total number of pairs, over the first `upto` entries, that an
/// in-place reconciliation must resize.
pub open spec fn total_changed(
    entries: Seq<OutputEntry>,
    configs: Seq<BarConfig>,
    scale: u32,
    upto: int,
) -> int
    decreases upto,
{
    if upto <= 0 {
        0
    } else {
        total_changed(entries, configs, scale, upto - 1) + changed_count(
            entries[upto - 1].infos@,
            configs,
            scale,
        )
    }
}

/// cosmetic configuration edits never destroy a surface.
#[verifier::rlimit(100)]
#[verifier::spinoff_prover]
fn update_entry_in_place(
    e: &mut OutputEntry,
    bar_configs: &Vec<BarConfig>,
    scale_factor: u32,
    requests: &mut Vec<Request>,
)
    requires
        old(e).infos@.len() == bar_configs@.len(),
    ensures
        entry_updated_in_place(*old(e), *final(e), bar_configs@, scale_factor),
        final(requests)@.len() == old(requests)@.len() + changed_count(
            old(e).infos@,
            bar_configs@,
            scale_factor,
        ),
        final(requests)@.len() >= old(requests)@.len(),
        forall|k: int|
            0 <= k < old(requests)@.len() ==> final(requests)@[k] == old(requests)@[k],
        forall|k: int|
            old(requests)@.len() <= k < final(requests)@.len()
                ==> (#[trigger] final(requests)@[k]) is Resize,
        forall|k: int|
            old(requests)@.len() <= k < final(requests)@.len() ==> exists|j: int|
                0 <= j < bar_configs@.len() && pair_changed(
                    old(e).infos@[j],
                    bar_configs@[j],
                    scale_factor,
                ) && (#[trigger] final(requests)@[k]) == (Request::Resize {
                    id: old(e).infos@[j].id,
                    height: spec_bar_height(bar_configs@[j].style, scale_factor) as u32,
                }),
        forall|j: int|
            0 <= j < bar_configs@.len() && pair_changed(
                #[trigger] old(e).infos@[j],
                bar_configs@[j],
                scale_factor,
            ) ==> exists|k: int|
                0 <= k < final(requests)@.len() && final(requests)@[k] == (Request::Resize {
                    id: old(e).infos@[j].id,
                    height: spec_bar_height(bar_configs@[j].style, scale_factor) as u32,
                }),
        (forall|j: int|
            0 <= j < bar_configs@.len() ==> !pair_changed(
                #[trigger] old(e).infos@[j],
                bar_configs@[j],
                scale_factor,
            )) ==> (*final(e) == *old(e) && final(requests)@ == old(requests)@),
{
    let n = bar_configs.len();
    let mut j: usize = 0;
    while j < n
        invariant
            n == bar_configs@.len() == e.infos@.len() == old(e).infos@.len(),
            0 <= j <= n,
            e.name == old(e).name,
            e.wl_output == old(e).wl_output,
            forall|j2: int|
                j <= j2 < n ==> #[trigger] e.infos@[j2] == old(e).infos@[j2],
            forall|j2: int|
                0 <= j2 < j ==> (#[trigger] e.infos@[j2]).id == old(e).infos@[j2].id
                    && e.infos@[j2].menu.id == old(e).infos@[j2].menu.id
                    && e.infos@[j2].menu.menu_info == old(e).infos@[j2].menu.menu_info
                    && e.infos@[j2].config == bar_configs@[j2] && e.infos@[j2].scale_factor
                    == scale_factor,
            requests@.len() >= old(requests)@.len(),
            forall|k: int| 0 <= k < old(requests)@.len() ==> requests@[k] == old(requests)@[k],
            forall|k: int|
                old(requests)@.len() <= k < requests@.len()
                    ==> (#[trigger] requests@[k]) is Resize,
            forall|k: int|
                old(requests)@.len() <= k < requests@.len() ==> exists|j2: int|
                    0 <= j2 < j && pair_changed(
                        old(e).infos@[j2],
                        bar_configs@[j2],
                        scale_factor,
                    ) && (#[trigger] requests@[k]) == (Request::Resize {
                        id: old(e).infos@[j2].id,
                        height: spec_bar_height(bar_configs@[j2].style, scale_factor) as u32,
                    }),
            requests@.len() == old(requests)@.len() + changed_count(
                old(e).infos@.subrange(0, j as int),
                bar_configs@,
                scale_factor,
            ),
            forall|j2: int|
                0 <= j2 < j && pair_changed(
                    #[trigger] old(e).infos@[j2],
                    bar_configs@[j2],
                    scale_factor,
                ) ==> exists|k: int|
                    0 <= k < requests@.len() && requests@[k] == (Request::Resize {
                        id: old(e).infos@[j2].id,
                        height: spec_bar_height(bar_configs@[j2].style, scale_factor) as u32,
                    }),
            (forall|j2: int|
                0 <= j2 < n ==> !pair_changed(
                    #[trigger] old(e).infos@[j2],
                    bar_configs@[j2],
                    scale_factor,
                )) ==> (*e == *old(e) && requests@ == old(requests)@),
        decreases n - j,
    {
        let cfg = bar_configs[j];
        proof {
            assert(old(e).infos@.subrange(0, j + 1).drop_last() =~= old(e).infos@.subrange(
                0,
                j as int,
            ));
            assert(old(e).infos@.subrange(0, j + 1).last() == old(e).infos@[j as int]);
        }
        let unchanged = e.infos[j].config == cfg && e.infos[j].scale_factor == scale_factor;
        if !unchanged {
            let ghost pre_push = requests@;
            e.infos[j].config = cfg;
            e.infos[j].scale_factor = scale_factor;
            let h = bar_height(cfg.style, scale_factor);
            requests.push(Request::Resize { id: e.infos[j].id, height: h });
            proof {
                assert forall|j2: int|
                    0 <= j2 < j && pair_changed(
                        #[trigger] old(e).infos@[j2],
                        bar_configs@[j2],
                        scale_factor,
                    ) implies exists|k: int|
                        0 <= k < requests@.len() && requests@[k] == (Request::Resize {
                            id: old(e).infos@[j2].id,
                            height: spec_bar_height(bar_configs@[j2].style, scale_factor) as u32,
                        }) by {
                    let k0 = choose|k: int|
                        0 <= k < pre_push.len() && pre_push[k] == (Request::Resize {
                            id: old(e).infos@[j2].id,
                            height: spec_bar_height(bar_configs@[j2].style, scale_factor) as u32,
                        });
                    assert(requests@[k0] == pre_push[k0]);
                }
                assert(requests@[requests@.len() - 1] == (Request::Resize {
                    id: old(e).infos@[j as int].id,
                    height: spec_bar_height(bar_configs@[j as int].style, scale_factor) as u32,
                }));
                assert forall|k: int|
                    old(requests)@.len() <= k < requests@.len() implies exists|j2: int|
                        0 <= j2 < j + 1 && pair_changed(
                            old(e).infos@[j2],
                            bar_configs@[j2],
                            scale_factor,
                        ) && (#[trigger] requests@[k]) == (Request::Resize {
                            id: old(e).infos@[j2].id,
                            height: spec_bar_height(
                                bar_configs@[j2].style,
                                scale_factor,
                            ) as u32,
                        }) by {
                    if k < requests@.len() - 1 {
                        assert(requests@[k] == pre_push[k]);
                        let j0 = choose|j2: int|
                            0 <= j2 < j && pair_changed(
                                old(e).infos@[j2],
                                bar_configs@[j2],
                                scale_factor,
                            ) && pre_push[k] == (Request::Resize {
                                id: old(e).infos@[j2].id,
                                height: spec_bar_height(
                                    bar_configs@[j2].style,
                                    scale_factor,
                                ) as u32,
                            });
                        assert(requests@[k] == (Request::Resize {
                            id: old(e).infos@[j0].id,
                            height: spec_bar_height(
                                bar_configs@[j0].style,
                                scale_factor,
                            ) as u32,
                        }));
                    }
                }
            }
        }
        j += 1;
    }
    proof {
        assert(old(e).infos@.subrange(0, n as int) =~= old(e).infos@);
    }
}

impl Outputs {
    /// Reports whether any attached display currently has surface pairs.
    fn any_real_nonempty_exec(&self) -> (r: bool)
        ensures
            r == self.any_real_nonempty(),
    {
        let n = self.entries.len();
        let mut i: usize = 0;
        while i < n
            invariant
                n == self.entries@.len(),
                0 <= i <= n,
                forall|i2: int|
                    0 <= i2 < i ==> !((#[trigger] self.entry(i2)).wl_output is Some
                        && self.n_infos(i2) > 0),
            decreases n - i,
        {
            if self.entries[i].wl_output.is_some() && !self.entries[i].infos.is_empty() {
                assert(self.valid_entry(i as int) && self.entry(i as int).wl_output is Some
                    && self.n_infos(i as int) > 0);
                return true;
            }
            i += 1;
        }
        false
    }
}

} // verus!

verus! {

impl Outputs {
    /// Reconciliation pass run after every configuration change: attaches
    /// surfaces for matched displays that lack them, detaches surfaces
    /// from displays the filter no longer admits, rebuilds entries whose
    /// bar count changed, updates the rest in place (issuing resize
    /// requests instead of recreating surfaces), and repairs the fallback
    /// entry.  Running it again with the same inputs issues no request.
    #[verifier::rlimit(100)]
    #[verifier::spinoff_prover]
    pub fn sync(
        &mut self,
        bar_configs: &Vec<BarConfig>,
        request_outputs: &config::Outputs,
        scale_factor: u32,
    ) -> (requests: Vec<Request>)
        requires
            old(self).wf(),
            bar_configs@.len() > 0,
            old(self).next_id + 2 * bar_configs@.len() * (old(self).entries@.len() + 1)
                <= u64::MAX,
        ensures
            final(self).wf(),
            old(self).menu_exclusive() ==> final(self).menu_exclusive(),
            final(self).sized_ok(bar_configs@.len() as int),
            final(self).synced(bar_configs@, *request_outputs, scale_factor),
            no_keyboard_requests(requests@),
            final(self).next_id <= old(self).next_id + 2 * bar_configs@.len() * (old(
                self,
            ).entries@.len() + 1),
            final(self).entries@.len() <= old(self).entries@.len() + 1,
            forall|i: int|
                old(self).valid_entry(i) && (#[trigger] old(self).entry(i)).wl_output is Some
                    ==> exists|i2: int|
                    final(self).valid_entry(i2) && entry_reconciled(
                        old(self).entry(i),
                        #[trigger] final(self).entry(i2),
                        bar_configs@,
                        *request_outputs,
                        scale_factor,
                    ),
            !old(self).has_fallback() && final(self).has_fallback() ==> exists|i2: int|
                final(self).valid_entry(i2) && (#[trigger] final(self).entry(
                    i2,
                )).wl_output is None && final(self).entry(i2).name@ == "Fallback"@,
            forall|i: int, j: int|
                old(self).valid_info(i, j) && old(self).entry(i).wl_output is Some && !old(
                    self,
                ).matched_entry(i, *request_outputs) ==> (exists|k: int|
                    0 <= k < requests@.len() && requests@[k] == (Request::Destroy {
                        id: (#[trigger] old(self).info(i, j)).id,
                    })) && (exists|k: int|
                    0 <= k < requests@.len() && requests@[k] == (Request::Destroy {
                        id: old(self).info(i, j).menu.id,
                    })),
            old(self).synced(bar_configs@, *request_outputs, scale_factor) ==> (state_unchanged(
                *old(self),
                *final(self),
            ) && requests@.len() == 0),
            old(self).membership_stable(bar_configs@, *request_outputs) ==> {
                &&& forall|k: int|
                    0 <= k < requests@.len() ==> (#[trigger] requests@[k]) is Resize
                &&& final(self).n_entries() == old(self).n_entries()
                &&& forall|i: int|
                    old(self).valid_entry(i) ==> entry_updated_in_place(
                        old(self).entry(i),
                        #[trigger] final(self).entry(i),
                        bar_configs@,
                        scale_factor,
                    )
                &&& forall|i: int, j: int|
                    old(self).valid_info(i, j) && pair_changed(
                        #[trigger] old(self).info(i, j),
                        bar_configs@[j],
                        scale_factor,
                    ) ==> exists|k: int|
                        0 <= k < requests@.len() && requests@[k] == (Request::Resize {
                            id: old(self).info(i, j).id,
                            height: spec_bar_height(bar_configs@[j].style, scale_factor) as u32,
                        })
                &&& requests@.len() == total_changed(
                    old(self).entries@,
                    bar_configs@,
                    scale_factor,
                    old(self).n_entries(),
                )
                &&& forall|k: int|
                    0 <= k < requests@.len() ==> exists|i: int, j: int|
                        old(self).valid_info(i, j) && pair_changed(
                            old(self).info(i, j),
                            bar_configs@[j],
                            scale_factor,
                        ) && (#[trigger] requests@[k]) == (Request::Resize {
                            id: old(self).info(i, j).id,
                            height: spec_bar_height(bar_configs@[j].style, scale_factor) as u32,
                        })
            },
    {
        let mut requests: Vec<Request> = Vec::new();
        let n_bars = bar_configs.len();
        let num = self.entries.len();
        let ghost filt = *request_outputs;
        let ghost base_next = old(self).next_id;
        let mut i: usize = 0;
        while i < num
            invariant
                num == self.entries@.len() == old(self).entries@.len(),
                n_bars == bar_configs@.len(),
                n_bars > 0,
                0 <= i <= num,
                old(self).wf(),
                filt == *request_outputs,
                base_next == old(self).next_id,
                self.next_id >= old(self).next_id,
                self.next_id <= base_next + 2 * n_bars * i,
                self.next_id % 2 == 0,
                self.next_id + 2 * n_bars * (num - i + 1) <= u64::MAX,
                self.ids_ok(),
                forall|i2: int| i <= i2 < num ==> self.entries@[i2] == old(self).entries@[i2],
                forall|i2: int|
                    0 <= i2 < i ==> entry_reconciled(
                        old(self).entry(i2),
                        #[trigger] self.entry(i2),
                        bar_configs@,
                        filt,
                        scale_factor,
                    ),
                forall|i2: int, j2: int|
                    self.valid_info(i2, j2) && #[trigger] self.is_open(i2, j2) ==> old(
                        self,
                    ).valid_info(i2, j2) && old(self).is_open(i2, j2),
                forall|k: int|
                    0 <= k < requests@.len() ==> !((#[trigger] requests@[k]) is SetKeyboard),
                old(self).synced(bar_configs@, filt, scale_factor) ==> (state_unchanged(
                    *old(self),
                    *self,
                ) && requests@.len() == 0),
                old(self).membership_stable(bar_configs@, filt) ==> forall|k: int|
                    0 <= k < requests@.len() ==> (#[trigger] requests@[k]) is Resize,
                old(self).membership_stable(bar_configs@, filt) ==> forall|i2: int|
                    0 <= i2 < i ==> entry_updated_in_place(
                        old(self).entry(i2),
                        #[trigger] self.entry(i2),
                        bar_configs@,
                        scale_factor,
                    ),
                old(self).membership_stable(bar_configs@, filt) ==> forall|i2: int, j2: int|
                    0 <= i2 < i && 0 <= j2 < old(self).n_infos(i2) && pair_changed(
                        #[trigger] old(self).info(i2, j2),
                        bar_configs@[j2],
                        scale_factor,
                    ) ==> exists|k: int|
                        0 <= k < requests@.len() && requests@[k] == (Request::Resize {
                            id: old(self).info(i2, j2).id,
                            height: spec_bar_height(bar_configs@[j2].style, scale_factor) as u32,
                        }),
                forall|i2: int, j2: int|
                    0 <= i2 < i && 0 <= j2 < old(self).n_infos(i2) && old(self).entry(
                        i2,
                    ).wl_output is Some && !old(self).matched_entry(i2, filt) ==> (exists|k: int|
                        0 <= k < requests@.len() && requests@[k] == (Request::Destroy {
                            id: (#[trigger] old(self).info(i2, j2)).id,
                        })) && (exists|k: int|
                        0 <= k < requests@.len() && requests@[k] == (Request::Destroy {
                            id: old(self).info(i2, j2).menu.id,
                        })),
                old(self).membership_stable(bar_configs@, filt) ==> requests@.len()
                    == total_changed(old(self).entries@, bar_configs@, scale_factor, i as int),
                old(self).membership_stable(bar_configs@, filt) ==> forall|k: int|
                    0 <= k < requests@.len() ==> exists|i2: int, j2: int|
                        0 <= i2 < i && 0 <= j2 < old(self).n_infos(i2) && pair_changed(
                            old(self).info(i2, j2),
                            bar_configs@[j2],
                            scale_factor,
                        ) && (#[trigger] requests@[k]) == (Request::Resize {
                            id: old(self).info(i2, j2).id,
                            height: spec_bar_height(bar_configs@[j2].style, scale_factor) as u32,
                        }),
            decreases num - i,
        {
            let ghost pre_iter = *self;
            let ghost pre_req = requests@;
            let ghost ii = i as int;
            let matched = name_in_config(self.entries[i].name.as_str(), request_outputs);
            let has_handle = self.entries[i].wl_output.is_some();
            if self.entries[i].infos.is_empty() {
                if matched && has_handle {
                    proof {
                        if old(self).synced(bar_configs@, filt, scale_factor) {
                            assert(old(self).n_infos(ii) > 0);
                            assert(false);
                        }
                        if old(self).membership_stable(bar_configs@, filt) {
                            assert(old(self).n_infos(ii) > 0);
                            assert(false);
                        }
                    }
                    proof {
                        assert(self.next_id + 2 * n_bars <= u64::MAX) by (nonlinear_arith)
                            requires
                                self.next_id + 2 * n_bars * (num - i + 1) <= u64::MAX,
                                0 <= i < num,
                                n_bars >= 0,
                        ;
                    }
                    let wl = self.entries[i].wl_output;
                    let infos = create_output_layers(
                        &mut self.next_id,
                        wl,
                        bar_configs,
                        scale_factor,
                        &mut requests,
                    );
                    self.entries[i].infos = infos;
                    proof {
                        lemma_ids_replace(pre_iter, *self, ii, bar_configs@, scale_factor);
                        assert forall|i2: int| 0 <= i2 < ii implies #[trigger] self.entry(i2)
                            == pre_iter.entry(i2) by {}
                        assert forall|i2: int|
                            0 <= i2 < ii implies entry_reconciled(
                                old(self).entry(i2),
                                #[trigger] self.entry(i2),
                                bar_configs@,
                                filt,
                                scale_factor,
                            ) by {
                            assert(entry_reconciled(
                                old(self).entry(i2),
                                pre_iter.entry(i2),
                                bar_configs@,
                                filt,
                                scale_factor,
                            ));
                        }
                        assert forall|j: int| 0 <= j < n_bars implies !self.is_open(ii, j) by {
                            assert(fresh_info(
                                self.entry(ii).infos@[j],
                                pre_iter.next_id + 2 * j,
                                bar_configs@[j],
                                scale_factor,
                            ));
                        }
                        assert forall|j: int|
                            0 <= j < n_bars implies (#[trigger] self.info(ii, j)).config
                                == bar_configs@[j] && self.info(ii, j).scale_factor
                                == scale_factor by {
                            assert(fresh_info(
                                self.entry(ii).infos@[j],
                                pre_iter.next_id + 2 * j,
                                bar_configs@[j],
                                scale_factor,
                            ));
                        }
                        assert(entry_reconciled(
                            old(self).entry(ii),
                            self.entry(ii),
                            bar_configs@,
                            filt,
                            scale_factor,
                        ));
                        assert forall|i2: int, j2: int|
                            self.valid_info(i2, j2) && #[trigger] self.is_open(i2, j2) implies old(
                            self,
                        ).valid_info(i2, j2) && old(self).is_open(i2, j2) by {
                            if i2 == ii {
                                if 0 <= j2 < self.n_infos(ii) {
                                    assert(fresh_info(
                                        self.entry(ii).infos@[j2],
                                        pre_iter.next_id + 2 * j2,
                                        bar_configs@[j2],
                                        scale_factor,
                                    ));
                                }
                                assert(false);
                            } else {
                                assert(self.info(i2, j2) == pre_iter.info(i2, j2));
                                assert(pre_iter.valid_info(i2, j2) && pre_iter.is_open(i2, j2));
                            }
                        }
                    }
                }
            } else {
                if !matched && has_handle {
                    proof {
                        if old(self).synced(bar_configs@, filt, scale_factor) {
                            assert(old(self).n_infos(ii) == 0);
                            assert(false);
                        }
                        if old(self).membership_stable(bar_configs@, filt) {
                            assert(old(self).matched_entry(ii, filt));
                            assert(false);
                        }
                    }
                    destroy_pairs(&self.entries[i].infos, &mut requests);
                    self.entries[i].infos = Vec::new();
                    proof {
                        assert forall|j2: int|
                            0 <= j2 < old(self).n_infos(ii) implies (exists|k: int|
                                0 <= k < requests@.len() && requests@[k] == (Request::Destroy {
                                    id: (#[trigger] old(self).info(ii, j2)).id,
                                })) && (exists|k: int|
                                0 <= k < requests@.len() && requests@[k] == (Request::Destroy {
                                    id: old(self).info(ii, j2).menu.id,
                                })) by {
                            assert(requests@[pre_req.len() + 2 * j2] == (Request::Destroy {
                                id: old(self).info(ii, j2).id,
                            }));
                            assert(requests@[pre_req.len() + 2 * j2 + 1] == (Request::Destroy {
                                id: old(self).info(ii, j2).menu.id,
                            }));
                        }
                        assert forall|i2: int| 0 <= i2 < ii implies #[trigger] self.entry(i2)
                            == pre_iter.entry(i2) by {}
                        assert forall|i2: int|
                            0 <= i2 < ii implies entry_reconciled(
                                old(self).entry(i2),
                                #[trigger] self.entry(i2),
                                bar_configs@,
                                filt,
                                scale_factor,
                            ) by {
                            assert(entry_reconciled(
                                old(self).entry(i2),
                                pre_iter.entry(i2),
                                bar_configs@,
                                filt,
                                scale_factor,
                            ));
                        }
                        assert forall|i2: int, j2: int| self.valid_info(i2, j2) implies (
                        #[trigger] self.info(i2, j2)) == pre_iter.info(i2, j2) && pre_iter.valid_info(
                            i2,
                            j2,
                        ) by {
                            assert(i2 != ii);
                        }
                        assert(self.ids_ok()) by {
                            assert forall|i2: int, j2: int| self.valid_info(i2, j2) implies (
                            #[trigger] self.info(i2, j2)).menu.id == self.info(i2, j2).id + 1
                                && self.info(i2, j2).id % 2 == 0 && self.info(i2, j2).id + 1
                                < self.next_id by {
                                assert(pre_iter.info(i2, j2).menu.id == pre_iter.info(i2, j2).id
                                    + 1);
                            }
                            assert forall|i1: int, j1: int, i2: int, j2: int|
                                self.valid_info(i1, j1) && self.valid_info(i2, j2) && !(i1 == i2
                                    && j1 == j2) implies (#[trigger] self.info(i1, j1)).id != (
                            #[trigger] self.info(i2, j2)).id by {
                                assert(pre_iter.info(i1, j1).id != pre_iter.info(i2, j2).id);
                            }
                        }
                        assert(entry_reconciled(
                            old(self).entry(ii),
                            self.entry(ii),
                            bar_configs@,
                            filt,
                            scale_factor,
                        ));
                        assert forall|i2: int, j2: int|
                            self.valid_info(i2, j2) && #[trigger] self.is_open(i2, j2) implies old(
                            self,
                        ).valid_info(i2, j2) && old(self).is_open(i2, j2) by {
                            if i2 == ii {
                                if 0 <= j2 < self.n_infos(ii) {
                                    assert(fresh_info(
                                        self.entry(ii).infos@[j2],
                                        pre_iter.next_id + 2 * j2,
                                        bar_configs@[j2],
                                        scale_factor,
                                    ));
                                }
                                assert(false);
                            } else {
                                assert(self.info(i2, j2) == pre_iter.info(i2, j2));
                                assert(pre_iter.valid_info(i2, j2) && pre_iter.is_open(i2, j2));
                            }
                        }
                    }
                } else if self.entries[i].infos.len() != n_bars {
                    proof {
                        if old(self).synced(bar_configs@, filt, scale_factor) {
                            assert(old(self).pairs_current(ii, bar_configs@, scale_factor));
                            assert(false);
                        }
                        if old(self).membership_stable(bar_configs@, filt) {
                            assert(old(self).n_infos(ii) == n_bars);
                            assert(false);
                        }
                    }
                    destroy_pairs(&self.entries[i].infos, &mut requests);
                    proof {
                        assert(self.next_id + 2 * n_bars <= u64::MAX) by (nonlinear_arith)
                            requires
                                self.next_id + 2 * n_bars * (num - i + 1) <= u64::MAX,
                                0 <= i < num,
                                n_bars >= 0,
                        ;
                    }
                    let wl = self.entries[i].wl_output;
                    let infos = create_output_layers(
                        &mut self.next_id,
                        wl,
                        bar_configs,
                        scale_factor,
                        &mut requests,
                    );
                    self.entries[i].infos = infos;
                    proof {
                        lemma_ids_replace(pre_iter, *self, ii, bar_configs@, scale_factor);
                        assert forall|i2: int| 0 <= i2 < ii implies #[trigger] self.entry(i2)
                            == pre_iter.entry(i2) by {}
                        assert forall|i2: int|
                            0 <= i2 < ii implies entry_reconciled(
                                old(self).entry(i2),
                                #[trigger] self.entry(i2),
                                bar_configs@,
                                filt,
                                scale_factor,
                            ) by {
                            assert(entry_reconciled(
                                old(self).entry(i2),
                                pre_iter.entry(i2),
                                bar_configs@,
                                filt,
                                scale_factor,
                            ));
                        }
                        assert forall|j: int| 0 <= j < n_bars implies !self.is_open(ii, j) by {
                            assert(fresh_info(
                                self.entry(ii).infos@[j],
                                pre_iter.next_id + 2 * j,
                                bar_configs@[j],
                                scale_factor,
                            ));
                        }
                        assert forall|j: int|
                            0 <= j < n_bars implies (#[trigger] self.info(ii, j)).config
                                == bar_configs@[j] && self.info(ii, j).scale_factor
                                == scale_factor by {
                            assert(fresh_info(
                                self.entry(ii).infos@[j],
                                pre_iter.next_id + 2 * j,
                                bar_configs@[j],
                                scale_factor,
                            ));
                        }
                        assert(entry_reconciled(
                            old(self).entry(ii),
                            self.entry(ii),
                            bar_configs@,
                            filt,
                            scale_factor,
                        ));
                        assert forall|i2: int, j2: int|
                            self.valid_info(i2, j2) && #[trigger] self.is_open(i2, j2) implies old(
                            self,
                        ).valid_info(i2, j2) && old(self).is_open(i2, j2) by {
                            if i2 == ii {
                                if 0 <= j2 < self.n_infos(ii) {
                                    assert(fresh_info(
                                        self.entry(ii).infos@[j2],
                                        pre_iter.next_id + 2 * j2,
                                        bar_configs@[j2],
                                        scale_factor,
                                    ));
                                }
                                assert(false);
                            } else {
                                assert(self.info(i2, j2) == pre_iter.info(i2, j2));
                                assert(pre_iter.valid_info(i2, j2) && pre_iter.is_open(i2, j2));
                            }
                        }
                    }
                } else {
                    update_entry_in_place(
                        &mut self.entries[i],
                        bar_configs,
                        scale_factor,
                        &mut requests,
                    );
                    proof {
                        assert forall|i2: int| 0 <= i2 < ii implies #[trigger] self.entry(i2)
                            == pre_iter.entry(i2) by {}
                        assert(entry_updated_in_place(
                            pre_iter.entry(ii),
                            self.entry(ii),
                            bar_configs@,
                            scale_factor,
                        ));
                        assert forall|i2: int|
                            0 <= i2 < ii implies entry_reconciled(
                                old(self).entry(i2),
                                #[trigger] self.entry(i2),
                                bar_configs@,
                                filt,
                                scale_factor,
                            ) by {
                            assert(entry_reconciled(
                                old(self).entry(i2),
                                pre_iter.entry(i2),
                                bar_configs@,
                                filt,
                                scale_factor,
                            ));
                        }
                        assert(self.ids_ok()) by {
                            assert forall|i2: int, j2: int| self.valid_info(i2, j2) implies (
                            #[trigger] self.info(i2, j2)).menu.id == self.info(i2, j2).id + 1
                                && self.info(i2, j2).id % 2 == 0 && self.info(i2, j2).id + 1
                                < self.next_id by {
                                if i2 == ii {
                                    assert(self.info(i2, j2).id == pre_iter.info(i2, j2).id
                                        && self.info(i2, j2).menu.id == pre_iter.info(
                                        i2,
                                        j2,
                                    ).menu.id);
                                    assert(pre_iter.info(i2, j2).menu.id == pre_iter.info(
                                        i2,
                                        j2,
                                    ).id + 1);
                                } else {
                                    assert(pre_iter.info(i2, j2).menu.id == pre_iter.info(
                                        i2,
                                        j2,
                                    ).id + 1);
                                }
                            }
                            assert forall|i1: int, j1: int, i2: int, j2: int|
                                self.valid_info(i1, j1) && self.valid_info(i2, j2) && !(i1 == i2
                                    && j1 == j2) implies (#[trigger] self.info(i1, j1)).id != (
                            #[trigger] self.info(i2, j2)).id by {
                                if i1 == ii {
                                    assert(self.info(i1, j1).id == pre_iter.info(i1, j1).id);
                                }
                                if i2 == ii {
                                    assert(self.info(i2, j2).id == pre_iter.info(i2, j2).id);
                                }
                                assert(pre_iter.info(i1, j1).id != pre_iter.info(i2, j2).id);
                            }
                        }
                        assert forall|i2: int, j2: int|
                            self.valid_info(i2, j2) && #[trigger] self.is_open(i2, j2) implies old(
                            self,
                        ).valid_info(i2, j2) && old(self).is_open(i2, j2) by {
                            if i2 == ii {
                                assert(self.info(i2, j2).menu.menu_info == pre_iter.info(
                                    i2,
                                    j2,
                                ).menu.menu_info);
                            } else {
                                assert(self.info(i2, j2) == pre_iter.info(i2, j2));
                            }
                            assert(pre_iter.valid_info(i2, j2) && pre_iter.is_open(i2, j2));
                        }
                        assert(entry_reconciled(
                            old(self).entry(ii),
                            self.entry(ii),
                            bar_configs@,
                            filt,
                            scale_factor,
                        ));
                        if old(self).synced(bar_configs@, filt, scale_factor) {
                            assert(old(self).pairs_current(ii, bar_configs@, scale_factor));
                            assert forall|j: int|
                                0 <= j < n_bars implies !pair_changed(
                                    #[trigger] pre_iter.entry(ii).infos@[j],
                                    bar_configs@[j],
                                    scale_factor,
                                ) by {
                                assert(old(self).info(ii, j).config == bar_configs@[j]);
                            }
                            assert(self.entry(ii) == pre_iter.entry(ii));
                            assert forall|i2: int|
                                0 <= i2 < num implies #[trigger] self.entries@[i2] == old(
                                self,
                            ).entries@[i2] by {
                                if i2 == ii {
                                    assert(pre_iter.entries@[ii] == old(self).entries@[ii]);
                                } else {
                                    assert(self.entries@[i2] == pre_iter.entries@[i2]);
                                }
                            }
                        }
                        if old(self).membership_stable(bar_configs@, filt) {
                            assert forall|i2: int, j2: int|
                                0 <= i2 < ii + 1 && 0 <= j2 < old(self).n_infos(i2)
                                    && pair_changed(
                                    #[trigger] old(self).info(i2, j2),
                                    bar_configs@[j2],
                                    scale_factor,
                                ) implies exists|k: int|
                                    0 <= k < requests@.len() && requests@[k] == (Request::Resize {
                                        id: old(self).info(i2, j2).id,
                                        height: spec_bar_height(
                                            bar_configs@[j2].style,
                                            scale_factor,
                                        ) as u32,
                                    }) by {
                                if i2 == ii {
                                    assert(pair_changed(
                                        pre_iter.entry(ii).infos@[j2],
                                        bar_configs@[j2],
                                        scale_factor,
                                    ));
                                } else {
                                    let k0 = choose|k: int|
                                        0 <= k < pre_req.len() && pre_req[k] == (Request::Resize {
                                            id: old(self).info(i2, j2).id,
                                            height: spec_bar_height(
                                                bar_configs@[j2].style,
                                                scale_factor,
                                            ) as u32,
                                        });
                                    assert(requests@[k0] == pre_req[k0]);
                                }
                            }
                        }
                    }
                }
            }
            proof {
                let ii2 = i as int;
                assert forall|i2: int, j2: int|
                    0 <= i2 < ii2 + 1 && 0 <= j2 < old(self).n_infos(i2) && old(self).entry(
                        i2,
                    ).wl_output is Some && !old(self).matched_entry(i2, filt) implies (exists|
                        k: int,
                    |
                        0 <= k < requests@.len() && requests@[k] == (Request::Destroy {
                            id: (#[trigger] old(self).info(i2, j2)).id,
                        })) && (exists|k: int|
                        0 <= k < requests@.len() && requests@[k] == (Request::Destroy {
                            id: old(self).info(i2, j2).menu.id,
                        })) by {
                    if i2 < ii2 {
                        let k0 = choose|k: int|
                            0 <= k < pre_req.len() && pre_req[k] == (Request::Destroy {
                                id: old(self).info(i2, j2).id,
                            });
                        assert(requests@[k0] == pre_req[k0]);
                        let k1 = choose|k: int|
                            0 <= k < pre_req.len() && pre_req[k] == (Request::Destroy {
                                id: old(self).info(i2, j2).menu.id,
                            });
                        assert(requests@[k1] == pre_req[k1]);
                    }
                }
                if old(self).membership_stable(bar_configs@, filt) {
                    let ii = i as int;
                    assert(pre_iter.entries@[ii] == old(self).entries@[ii]);
                    assert(total_changed(old(self).entries@, bar_configs@, scale_factor, ii + 1)
                        == total_changed(old(self).entries@, bar_configs@, scale_factor, ii)
                        + changed_count(
                        old(self).entries@[ii].infos@,
                        bar_configs@,
                        scale_factor,
                    ));
                    assert(requests@.len() == total_changed(
                        old(self).entries@,
                        bar_configs@,
                        scale_factor,
                        ii + 1,
                    ));
                    assert forall|k: int|
                        0 <= k < requests@.len() implies exists|i2: int, j2: int|
                            0 <= i2 < ii + 1 && 0 <= j2 < old(self).n_infos(i2) && pair_changed(
                                old(self).info(i2, j2),
                                bar_configs@[j2],
                                scale_factor,
                            ) && (#[trigger] requests@[k]) == (Request::Resize {
                                id: old(self).info(i2, j2).id,
                                height: spec_bar_height(
                                    bar_configs@[j2].style,
                                    scale_factor,
                                ) as u32,
                            }) by {
                        if k < pre_req.len() {
                            let (i0, j0): (int, int) = choose|i2: int, j2: int|
                                0 <= i2 < ii && 0 <= j2 < old(self).n_infos(i2) && pair_changed(
                                    old(self).info(i2, j2),
                                    bar_configs@[j2],
                                    scale_factor,
                                ) && pre_req[k] == (Request::Resize {
                                    id: old(self).info(i2, j2).id,
                                    height: spec_bar_height(
                                        bar_configs@[j2].style,
                                        scale_factor,
                                    ) as u32,
                                });
                            assert(requests@[k] == pre_req[k]);
                        } else {
                            let j0 = choose|j2: int|
                                0 <= j2 < bar_configs@.len() && pair_changed(
                                    pre_iter.entries@[ii].infos@[j2],
                                    bar_configs@[j2],
                                    scale_factor,
                                ) && requests@[k] == (Request::Resize {
                                    id: pre_iter.entries@[ii].infos@[j2].id,
                                    height: spec_bar_height(
                                        bar_configs@[j2].style,
                                        scale_factor,
                                    ) as u32,
                                });
                            assert(pair_changed(
                                old(self).info(ii, j0),
                                bar_configs@[j0],
                                scale_factor,
                            ));
                        }
                    }
                }
                assert(self.next_id + 2 * n_bars * (num - (i + 1) + 1) <= u64::MAX)
                    by (nonlinear_arith)
                    requires
                        self.next_id <= pre_iter.next_id + 2 * n_bars,
                        pre_iter.next_id + 2 * n_bars * (num - i + 1) <= u64::MAX,
                        0 <= i < num,
                        n_bars >= 0,
                ;
                assert(self.next_id <= base_next + 2 * n_bars * (i + 1)) by (nonlinear_arith)
                    requires
                        self.next_id <= pre_iter.next_id + 2 * n_bars,
                        pre_iter.next_id <= base_next + 2 * n_bars * i,
                        0 <= i,
                        n_bars >= 0,
                ;
            }
            i += 1;
        }
        let any_real = self.any_real_nonempty_exec();
        let ghost s_mid = *self;
        let ghost req_mid = requests@;
        let fbi = self.find_fallback();
        if any_real {
            match fbi {
                Option::Some(fi) => {
                    proof {
                        if old(self).synced(bar_configs@, filt, scale_factor) {
                            let w = choose|i2: int|
                                s_mid.valid_entry(i2) && (#[trigger] s_mid.entry(
                                    i2,
                                )).wl_output is Some && s_mid.n_infos(i2) > 0;
                            assert(old(self).entries@[w] == s_mid.entries@[w]);
                            assert(old(self).any_real_nonempty());
                            assert(old(self).entries@[fi as int] == s_mid.entries@[fi as int]);
                            assert(old(self).entry(fi as int).wl_output is None);
                            assert(old(self).has_fallback());
                            assert(false);
                        }
                        if old(self).membership_stable(bar_configs@, filt) {
                            // under a stable membership the registry still
                            // satisfies the fallback rule, so a fallback
                            // cannot coexist with populated real entries
                            let w = choose|i2: int|
                                s_mid.valid_entry(i2) && (#[trigger] s_mid.entry(
                                    i2,
                                )).wl_output is Some && s_mid.n_infos(i2) > 0;
                            assert(entry_updated_in_place(
                                old(self).entry(w),
                                s_mid.entry(w),
                                bar_configs@,
                                scale_factor,
                            ));
                            assert(old(self).any_real_nonempty());
                            assert(!old(self).has_fallback());
                            assert(old(self).entry(fi as int).wl_output is None);
                            assert(false);
                        }
                    }
                    destroy_pairs(&self.entries[fi].infos, &mut requests);
                    self.entries.swap_remove(fi);
                    proof {
                        lemma_ids_swap_remove(s_mid, *self, fi as int);
                        let l = s_mid.n_entries();
                        assert(forall|i2: int|
                            0 <= i2 < l - 1 ==> #[trigger] self.entry(i2) == (if i2 == fi {
                                s_mid.entry(l - 1)
                            } else {
                                s_mid.entry(i2)
                            }));
                    }
                },
                Option::None => {},
            }
        } else {
            match fbi {
                Option::None => {
                    proof {
                        assert(self.next_id + 2 * n_bars <= u64::MAX) by (nonlinear_arith)
                            requires
                                self.next_id + 2 * n_bars * (num - i + 1) <= u64::MAX,
                                i == num,
                                n_bars >= 0,
                        ;
                        if old(self).synced(bar_configs@, filt, scale_factor) {
                            if old(self).any_real_nonempty() {
                                let w0 = choose|i2: int|
                                    old(self).valid_entry(i2) && (#[trigger] old(self).entry(
                                        i2,
                                    )).wl_output is Some && old(self).n_infos(i2) > 0;
                                assert(s_mid.entries@[w0] == old(self).entries@[w0]);
                                assert(s_mid.entry(w0).wl_output is Some && s_mid.n_infos(w0)
                                    > 0);
                                assert(s_mid.any_real_nonempty());
                                assert(false);
                            }
                            assert(old(self).has_fallback());
                            let w = choose|i2: int|
                                old(self).valid_entry(i2) && (#[trigger] old(self).entry(
                                    i2,
                                )).wl_output is None;
                            assert(s_mid.entries@[w] == old(self).entries@[w]);
                            assert(s_mid.entry(w).wl_output is None);
                            assert(false);
                        }
                        if old(self).membership_stable(bar_configs@, filt) {
                            assert forall|i2: int|
                                old(self).valid_entry(i2) && (#[trigger] old(self).entry(
                                    i2,
                                )).wl_output is Some && old(self).n_infos(i2) > 0 implies
                                false by {
                                assert(entry_updated_in_place(
                                    old(self).entry(i2),
                                    s_mid.entry(i2),
                                    bar_configs@,
                                    scale_factor,
                                ));
                                assert(s_mid.entry(i2).wl_output is Some && s_mid.n_infos(i2)
                                    > 0);
                                assert(s_mid.any_real_nonempty());
                            }
                            assert(!old(self).any_real_nonempty());
                            assert(old(self).has_fallback());
                            let w = choose|i2: int|
                                old(self).valid_entry(i2) && (#[trigger] old(self).entry(
                                    i2,
                                )).wl_output is None;
                            assert(entry_updated_in_place(
                                old(self).entry(w),
                                s_mid.entry(w),
                                bar_configs@,
                                scale_factor,
                            ));
                            assert(s_mid.entry(w).wl_output is None);
                            assert(false);
                        }
                    }
                    let infos = create_output_layers(
                        &mut self.next_id,
                        None,
                        bar_configs,
                        scale_factor,
                        &mut requests,
                    );
                    self.entries.push(
                        OutputEntry { name: fallback_name(), infos, wl_output: Option::None },
                    );
                    proof {
                        lemma_ids_append(s_mid, *self, bar_configs@, scale_factor);
                    }
                },
                Option::Some(_) => {},
            }
        }
        proof {
            sync_final_proof(
                *old(self),
                s_mid,
                *self,
                bar_configs@,
                filt,
                scale_factor,
                any_real,
                match fbi {
                    Option::Some(fi) => Some(fi as int),
                    Option::None => None,
                },
            );
            sync_retention(
                *old(self),
                s_mid,
                *self,
                bar_configs@,
                filt,
                scale_factor,
                any_real,
                match fbi {
                    Option::Some(fi) => Some(fi as int),
                    Option::None => None,
                },
            );
            assert forall|i2: int, j2: int|
                old(self).valid_info(i2, j2) && old(self).entry(i2).wl_output is Some && !old(
                    self,
                ).matched_entry(i2, filt) implies (exists|k: int|
                    0 <= k < requests@.len() && requests@[k] == (Request::Destroy {
                        id: (#[trigger] old(self).info(i2, j2)).id,
                    })) && (exists|k: int|
                    0 <= k < requests@.len() && requests@[k] == (Request::Destroy {
                        id: old(self).info(i2, j2).menu.id,
                    })) by {
                let k0 = choose|k: int|
                    0 <= k < req_mid.len() && req_mid[k] == (Request::Destroy {
                        id: old(self).info(i2, j2).id,
                    });
                assert(requests@[k0] == req_mid[k0]);
                let k1 = choose|k: int|
                    0 <= k < req_mid.len() && req_mid[k] == (Request::Destroy {
                        id: old(self).info(i2, j2).menu.id,
                    });
                assert(requests@[k1] == req_mid[k1]);
            }
            if old(self).membership_stable(bar_configs@, filt) {
                assert(requests@.len() == total_changed(
                    old(self).entries@,
                    bar_configs@,
                    scale_factor,
                    old(self).n_entries(),
                ));
                assert forall|k: int|
                    0 <= k < requests@.len() implies exists|i2: int, j2: int|
                        old(self).valid_info(i2, j2) && pair_changed(
                            old(self).info(i2, j2),
                            bar_configs@[j2],
                            scale_factor,
                        ) && (#[trigger] requests@[k]) == (Request::Resize {
                            id: old(self).info(i2, j2).id,
                            height: spec_bar_height(
                                bar_configs@[j2].style,
                                scale_factor,
                            ) as u32,
                        }) by {
                    let (i0, j0): (int, int) = choose|i2: int, j2: int|
                        0 <= i2 < num && 0 <= j2 < old(self).n_infos(i2) && pair_changed(
                            old(self).info(i2, j2),
                            bar_configs@[j2],
                            scale_factor,
                        ) && requests@[k] == (Request::Resize {
                            id: old(self).info(i2, j2).id,
                            height: spec_bar_height(
                                bar_configs@[j2].style,
                                scale_factor,
                            ) as u32,
                        });
                    assert(old(self).valid_info(i0, j0));
                }
            }
            assert(self.next_id <= s_mid.next_id + 2 * n_bars);
            assert(self.next_id <= base_next + 2 * n_bars * (num + 1)) by (nonlinear_arith)
                requires
                    self.next_id <= s_mid.next_id + 2 * n_bars,
                    s_mid.next_id <= base_next + 2 * n_bars * num,
                    n_bars >= 0,
            ;
            if !old(self).has_fallback() && self.has_fallback() {
                // a fresh fallback entry can only come from the appended
                // branch: the main pass keeps every handle, so the old
                // registry's lack of a fallback carries to its result
                assert forall|i2: int|
                    0 <= i2 < num implies (#[trigger] s_mid.entry(i2)).wl_output == old(
                    self,
                ).entry(i2).wl_output by {
                    assert(entry_reconciled(
                        old(self).entry(i2),
                        s_mid.entry(i2),
                        bar_configs@,
                        filt,
                        scale_factor,
                    ));
                }
                match fbi {
                    Option::Some(fi) => {
                        assert(old(self).entry(fi as int).wl_output is None);
                        assert(old(self).has_fallback());
                        assert(false);
                    },
                    Option::None => {},
                }
                if any_real {
                    assert(*self == s_mid);
                    let w = choose|i2: int|
                        self.valid_entry(i2) && (#[trigger] self.entry(i2)).wl_output is None;
                    assert(s_mid.entry(w).wl_output is None);
                    assert(old(self).entry(w).wl_output is None);
                    assert(false);
                } else {
                    assert(self.entry(s_mid.n_entries()).wl_output is None);
                    assert(self.entry(s_mid.n_entries()).name@ == "Fallback"@);
                }
            }
        }
        requests
    }
}

} // verus!

verus! {

/// The reconciliation pass keeps every attached display's entry: `s_mid`
/// reconciles each old entry in place, and the fallback repair afterwards
/// only moves entries around or appends, so each attached entry is still
/// present, reconciled, in the final state.
#[verifier::rlimit(100)]
#[verifier::spinoff_prover]
proof fn sync_retention(
    pre: Outputs,
    s_mid: Outputs,
    post: Outputs,
    configs: Seq<BarConfig>,
    filt: config::Outputs,
    scale: u32,
    any_real: bool,
    fbi: Option<int>,
)
    requires
        s_mid.n_entries() == pre.n_entries(),
        forall|i: int|
            pre.valid_entry(i) ==> entry_reconciled(
                pre.entry(i),
                #[trigger] s_mid.entry(i),
                configs,
                filt,
                scale,
            ),
        match fbi {
            Option::Some(fi) => 0 <= fi < s_mid.n_entries() && s_mid.entry(fi).wl_output is None,
            Option::None => true,
        },
        ({
            if any_real {
                match fbi {
                    Option::Some(fi) => post.entries@.len() == s_mid.entries@.len() - 1 && forall|
                        i: int,
                    |
                        0 <= i < post.entries@.len() ==> #[trigger] post.entry(i) == (if i == fi {
                            s_mid.entry(s_mid.n_entries() - 1)
                        } else {
                            s_mid.entry(i)
                        }),
                    Option::None => post == s_mid,
                }
            } else {
                match fbi {
                    Option::None => post.entries@.len() == s_mid.entries@.len() + 1 && forall|
                        i: int,
                    |
                        0 <= i < s_mid.n_entries() ==> #[trigger] post.entry(i) == s_mid.entry(i),
                    Option::Some(_) => post == s_mid,
                }
            }
        }),
    ensures
        forall|i: int|
            pre.valid_entry(i) && (#[trigger] pre.entry(i)).wl_output is Some ==> exists|i2: int|
                post.valid_entry(i2) && entry_reconciled(
                    pre.entry(i),
                    #[trigger] post.entry(i2),
                    configs,
                    filt,
                    scale,
                ),
{
    let l = s_mid.n_entries();
    let removed = any_real && fbi is Some;
    assert forall|i: int|
        pre.valid_entry(i) && (#[trigger] pre.entry(i)).wl_output is Some implies exists|i2: int|
            post.valid_entry(i2) && entry_reconciled(
                pre.entry(i),
                #[trigger] post.entry(i2),
                configs,
                filt,
                scale,
            ) by {
        assert(entry_reconciled(pre.entry(i), s_mid.entry(i), configs, filt, scale));
        if removed {
            let fi = fbi->0;
            assert(i != fi);
            if i == l - 1 {
                assert(post.entry(fi) == s_mid.entry(i));
            } else {
                assert(post.entry(i) == s_mid.entry(i));
            }
        } else {
            assert(post.entry(i) == s_mid.entry(i));
        }
    }
}

/// Assembles the postconditions of the reconciliation pass: `pre` is the
/// registry before it, `s_mid` the state after every entry has been
/// reconciled in order, and `post` the state after the fallback entry has
/// been repaired (removed when a real display has surfaces again, created
/// when none has, untouched otherwise).
#[verifier::rlimit(100)]
#[verifier::spinoff_prover]
proof fn sync_final_proof(
    pre: Outputs,
    s_mid: Outputs,
    post: Outputs,
    configs: Seq<BarConfig>,
    filt: config::Outputs,
    scale: u32,
    any_real: bool,
    fbi: Option<int>,
)
    requires
        pre.wf(),
        configs.len() > 0,
        s_mid.n_entries() == pre.n_entries(),
        forall|i: int|
            pre.valid_entry(i) ==> entry_reconciled(
                pre.entry(i),
                #[trigger] s_mid.entry(i),
                configs,
                filt,
                scale,
            ),
        post.ids_ok(),
        forall|i: int, j: int|
            s_mid.valid_info(i, j) && #[trigger] s_mid.is_open(i, j) ==> pre.valid_info(i, j)
                && pre.is_open(i, j),
        any_real == s_mid.any_real_nonempty(),
        match fbi {
            Option::Some(fi) => 0 <= fi < s_mid.n_entries() && s_mid.entry(fi).wl_output is None,
            Option::None => forall|i: int|
                s_mid.valid_entry(i) ==> (#[trigger] s_mid.entry(i)).wl_output is Some,
        },
        ({
            if any_real {
                match fbi {
                    Option::Some(fi) => post.entries@.len() == s_mid.entries@.len() - 1 && forall|
                        i: int,
                    |
                        0 <= i < post.entries@.len() ==> #[trigger] post.entry(i) == (if i == fi {
                            s_mid.entry(s_mid.n_entries() - 1)
                        } else {
                            s_mid.entry(i)
                        }),
                    Option::None => post == s_mid,
                }
            } else {
                match fbi {
                    Option::None => {
                        &&& post.entries@.len() == s_mid.entries@.len() + 1
                        &&& forall|i: int|
                            0 <= i < s_mid.n_entries() ==> #[trigger] post.entry(i) == s_mid.entry(
                                i,
                            )
                        &&& post.entry(s_mid.n_entries()).wl_output is None
                        &&& post.entry(s_mid.n_entries()).infos@.len() == configs.len()
                        &&& forall|j: int|
                            0 <= j < configs.len() ==> (#[trigger] post.entry(
                                s_mid.n_entries(),
                            ).infos@[j]).config == configs[j] && post.entry(
                                s_mid.n_entries(),
                            ).infos@[j].scale_factor == scale && post.entry(
                                s_mid.n_entries(),
                            ).infos@[j].menu.menu_info is None
                    },
                    Option::Some(_) => post == s_mid,
                }
            }
        }),
    ensures
        post.wf(),
        pre.menu_exclusive() ==> post.menu_exclusive(),
        post.sized_ok(configs.len() as int),
        post.synced(configs, filt, scale),
{
    let l = s_mid.n_entries();
    let n = configs.len() as int;
    let removed = any_real && fbi is Some;
    let appended = !any_real && fbi is None;
    // every s_mid entry keeps the handle of its pre counterpart
    assert forall|i: int| s_mid.valid_entry(i) implies (#[trigger] s_mid.entry(i)).wl_output
        == pre.entry(i).wl_output && s_mid.entry(i).name == pre.entry(i).name by {
        assert(entry_reconciled(pre.entry(i), s_mid.entry(i), configs, filt, scale));
    }
    // characterize post entries: reconciled old ones plus possibly a fresh
    // fallback at the end
    assert forall|i: int|
        post.valid_entry(i) && !(appended && i == l) implies exists|o: int|
            0 <= o < l && #[trigger] post.entry(i) == s_mid.entry(o) by {
        if removed {
            let fi = fbi->0;
            if i == fi {
                assert(post.entry(i) == s_mid.entry(l - 1));
            } else {
                assert(post.entry(i) == s_mid.entry(i));
            }
        } else {
            assert(post.entry(i) == s_mid.entry(i));
        }
    }
    // synced
    assert forall|i: int|
        post.valid_entry(i) && post.matched_entry(i, filt) && (#[trigger] post.entry(
            i,
        )).wl_output is Some implies post.n_infos(i) > 0 by {
        let o = choose|o: int| 0 <= o < l && #[trigger] post.entry(i) == s_mid.entry(o);
        assert(entry_reconciled(pre.entry(o), s_mid.entry(o), configs, filt, scale));
    }
    assert forall|i: int|
        post.valid_entry(i) && !post.matched_entry(i, filt) && (#[trigger] post.entry(
            i,
        )).wl_output is Some implies post.n_infos(i) == 0 by {
        let o = choose|o: int| 0 <= o < l && #[trigger] post.entry(i) == s_mid.entry(o);
        assert(entry_reconciled(pre.entry(o), s_mid.entry(o), configs, filt, scale));
    }
    assert forall|i: int|
        post.valid_entry(i) && #[trigger] post.n_infos(i) > 0 implies post.pairs_current(
            i,
            configs,
            scale,
        ) by {
        if appended && i == l {
            assert(post.n_infos(i) == n);
        } else {
            let o = choose|o: int| 0 <= o < l && #[trigger] post.entry(i) == s_mid.entry(o);
            assert(entry_reconciled(pre.entry(o), s_mid.entry(o), configs, filt, scale));
        }
    }
    assert(post.sized_ok(n)) by {
        assert forall|i: int|
            post.valid_entry(i) && #[trigger] post.n_infos(i) > 0 implies post.n_infos(i)
                == n by {
            assert(post.pairs_current(i, configs, scale));
        }
    }
    // fallback discipline
    assert forall|i1: int, i2: int|
        post.valid_entry(i1) && post.valid_entry(i2) && (#[trigger] post.entry(
            i1,
        )).wl_output is None && (#[trigger] post.entry(i2)).wl_output is None implies i1
        == i2 by {
        if !(appended && i1 == l) && !(appended && i2 == l) {
            let o1 = choose|o: int| 0 <= o < l && #[trigger] post.entry(i1) == s_mid.entry(o);
            let o2 = choose|o: int| 0 <= o < l && #[trigger] post.entry(i2) == s_mid.entry(o);
            assert(pre.entry(o1).wl_output is None && pre.entry(o2).wl_output is None);
            assert(o1 == o2);
            if removed {
                let fi = fbi->0;
                let m1: int = if i1 == fi { l - 1 } else { i1 };
                let m2: int = if i2 == fi { l - 1 } else { i2 };
                assert(post.entry(i1) == s_mid.entry(m1) && post.entry(i2) == s_mid.entry(m2));
                assert(s_mid.entry(m1).wl_output is None && s_mid.entry(m2).wl_output is None);
                assert(pre.entry(m1).wl_output is None && pre.entry(m2).wl_output is None);
                assert(m1 == m2);
            }
        } else if appended && i1 == l && i2 != l {
            let o2 = choose|o: int| 0 <= o < l && #[trigger] post.entry(i2) == s_mid.entry(o);
            assert(s_mid.entry(o2).wl_output is Some);
            assert(false);
        } else if appended && i2 == l && i1 != l {
            let o1 = choose|o: int| 0 <= o < l && #[trigger] post.entry(i1) == s_mid.entry(o);
            assert(s_mid.entry(o1).wl_output is Some);
            assert(false);
        }
    }
    assert forall|i: int|
        post.valid_entry(i) && (#[trigger] post.entry(i)).wl_output is None implies post.n_infos(
            i,
        ) > 0 by {
        if appended && i == l {
        } else {
            let o = choose|o: int| 0 <= o < l && #[trigger] post.entry(i) == s_mid.entry(o);
            assert(pre.entry(o).wl_output is None);
            assert(pre.n_infos(o) > 0);
            assert(entry_reconciled(pre.entry(o), s_mid.entry(o), configs, filt, scale));
        }
    }
    assert(post.has_fallback() <==> !post.any_real_nonempty()) by {
        if any_real {
            let w = choose|i: int|
                s_mid.valid_entry(i) && (#[trigger] s_mid.entry(i)).wl_output is Some
                    && s_mid.n_infos(i) > 0;
            if removed {
                let fi = fbi->0;
                assert(w != fi);
                if w == l - 1 {
                    assert(post.entry(fi) == s_mid.entry(w));
                    assert(post.valid_entry(fi));
                    assert(post.any_real_nonempty());
                } else {
                    assert(post.entry(w) == s_mid.entry(w));
                    assert(post.any_real_nonempty());
                }
            } else {
                assert(post.entry(w) == s_mid.entry(w));
                assert(post.any_real_nonempty());
            }
            if post.has_fallback() {
                let fw = choose|i: int|
                    post.valid_entry(i) && (#[trigger] post.entry(i)).wl_output is None;
                let o = choose|o: int| 0 <= o < l && #[trigger] post.entry(fw) == s_mid.entry(o);
                assert(s_mid.entry(o).wl_output is None);
                if removed {
                    let fi = fbi->0;
                    let m: int = if fw == fi { l - 1 } else { fw };
                    assert(post.entry(fw) == s_mid.entry(m));
                    assert(s_mid.entry(m).wl_output is None);
                    assert(pre.entry(m).wl_output is None);
                    assert(pre.entry(fi).wl_output is None);
                    assert(m == fi);
                    assert(fw != fi);
                    assert(post.entry(fw) == s_mid.entry(fw));
                    assert(false);
                } else {
                    assert(false);
                }
            }
        } else {
            if appended {
                assert(post.entry(l).wl_output is None);
                assert(post.has_fallback());
            } else {
                assert(s_mid.entry(fbi->0 as int).wl_output is None);
                assert(post.has_fallback());
            }
            if post.any_real_nonempty() {
                let w = choose|i: int|
                    post.valid_entry(i) && (#[trigger] post.entry(i)).wl_output is Some
                        && post.n_infos(i) > 0;
                assert(!(appended && w == l));
                let o = choose|o: int| 0 <= o < l && #[trigger] post.entry(w) == s_mid.entry(o);
                assert(s_mid.entry(o).wl_output is Some && s_mid.n_infos(o) > 0);
                assert(s_mid.any_real_nonempty());
                assert(false);
            }
        }
    }
    // exclusivity
    if pre.menu_exclusive() {
        assert forall|i1: int, j1: int, i2: int, j2: int|
            post.valid_info(i1, j1) && post.valid_info(i2, j2) && #[trigger] post.is_open(i1, j1)
                && #[trigger] post.is_open(i2, j2) implies i1 == i2 && j1 == j2 by {
            if appended && i1 == l {
                assert(post.entry(l).infos@[j1].menu.menu_info is None);
                assert(false);
            } else if appended && i2 == l {
                assert(post.entry(l).infos@[j2].menu.menu_info is None);
                assert(false);
            } else {
                if removed {
                    let fi = fbi->0;
                    let m1: int = if i1 == fi { l - 1 } else { i1 };
                    let m2: int = if i2 == fi { l - 1 } else { i2 };
                    assert(post.entry(i1) == s_mid.entry(m1));
                    assert(post.entry(i2) == s_mid.entry(m2));
                    assert(s_mid.is_open(m1, j1) && s_mid.is_open(m2, j2));
                    assert(pre.is_open(m1, j1) && pre.is_open(m2, j2));
                    assert(m1 == m2 && j1 == j2);
                } else {
                    assert(post.entry(i1) == s_mid.entry(i1));
                    assert(post.entry(i2) == s_mid.entry(i2));
                    assert(s_mid.is_open(i1, j1) && s_mid.is_open(i2, j2));
                    assert(pre.is_open(i1, j1) && pre.is_open(i2, j2));
                }
            }
        }
    }
}

} // verus!

verus! {

/// At most one open menu: `Outputs::new` establishes
/// [`Outputs::menu_exclusive`], every registry operation preserves it
/// (and `toggle_menu` even re-establishes it outright), so along any
/// sequence of attach, detach, reconciliation and menu events at most one
/// surface pair in the whole registry has a non-empty menu slot; two open
/// pairs are necessarily the same pair.
pub proof fn lemma_at_most_one_open_menu(o: Outputs, i1: int, j1: int, i2: int, j2: int)
    requires
        o.menu_exclusive(),
        o.valid_info(i1, j1),
        o.valid_info(i2, j2),
        o.is_open(i1, j1),
        o.is_open(i2, j2),
    ensures
        i1 == i2 && j1 == j2,
{
}

/// Pair-count law: in a registry sized for `n` configured bars — which
/// `new` establishes, `add` and `remove` preserve and `sync`
/// re-establishes for the new configuration — every entry that has
/// surfaces at all has exactly one surface pair per configured bar.
pub proof fn lemma_pair_count(o: Outputs, n: int, i: int)
    requires
        o.sized_ok(n),
        o.valid_entry(i),
        o.n_infos(i) > 0,
    ensures
        o.n_infos(i) == n,
{
}

/// Fallback law: while no attached display has surfaces, a well-formed
/// registry holds exactly one synthetic fallback entry, and in a registry
/// sized for `n` bars that entry carries exactly `n` surface pairs.
pub proof fn lemma_fallback_present(o: Outputs, n: int)
    requires
        o.wf(),
        o.sized_ok(n),
        !o.any_real_nonempty(),
    ensures
        exists|i: int|
            o.valid_entry(i) && (#[trigger] o.entry(i)).wl_output is None && o.n_infos(i) == n,
        forall|i1: int, i2: int|
            o.valid_entry(i1) && o.valid_entry(i2) && (#[trigger] o.entry(i1)).wl_output is None
                && (#[trigger] o.entry(i2)).wl_output is None ==> i1 == i2,
{
    assert(o.has_fallback());
    let i = choose|i: int| o.valid_entry(i) && (#[trigger] o.entry(i)).wl_output is None;
    assert(o.n_infos(i) > 0);
    assert(o.n_infos(i) == n);
}

} // verus!
