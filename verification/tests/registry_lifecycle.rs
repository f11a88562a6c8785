use ashell::config::AppearanceStyle;
use ashell::config::BarConfig;
use ashell::config::Outputs as OutputFilter;
use ashell::config::Position;
use ashell::outputs::name_in_config;
use ashell::outputs::HasOutput;
use ashell::outputs::Outputs;
use ashell::requests::bar_height;
use ashell::requests::OutputTarget;
use ashell::requests::Request;

fn bar(position: Position, style: AppearanceStyle) -> BarConfig {
    BarConfig { position, style }
}

fn targets(names: &[&str]) -> OutputFilter {
    OutputFilter::Targets(names.iter().map(|n| n.to_string()).collect())
}

#[test]
fn new_registry_starts_with_fallback_surfaces() {
    let bars = vec![bar(Position::Top, AppearanceStyle::Solid)];
    let (o, requests) = Outputs::new(&bars, 100);
    assert_eq!(o.entries.len(), 1);
    assert_eq!(o.entries[0].name, "Fallback");
    assert!(o.entries[0].wl_output.is_none());
    assert_eq!(o.entries[0].infos.len(), 1);
    assert_eq!(
        requests,
        vec![
            Request::CreateBar {
                id: 0,
                target: OutputTarget::ActiveOutput,
                position: Position::Top,
                height: 26,
            },
            Request::CreateMenu { id: 1, target: OutputTarget::ActiveOutput },
        ]
    );
}

#[test]
fn bar_height_follows_style_and_scale() {
    assert_eq!(bar_height(AppearanceStyle::Solid, 100), 26);
    assert_eq!(bar_height(AppearanceStyle::Gradient, 100), 26);
    assert_eq!(bar_height(AppearanceStyle::Islands, 100), 34);
    assert_eq!(bar_height(AppearanceStyle::Gradient, 150), 39);
    assert_eq!(bar_height(AppearanceStyle::Solid, 125), 32);
}

#[test]
fn filter_membership() {
    assert!(name_in_config("eDP-1", &OutputFilter::All));
    assert!(name_in_config("", &OutputFilter::All));
    assert!(!name_in_config("eDP-1", &OutputFilter::Active));
    assert!(name_in_config("eDP-1", &targets(&["eDP"])));
    assert!(name_in_config("DP-2 (eDP)", &targets(&["HDMI", "eDP"])));
    assert!(!name_in_config("HDMI-1", &targets(&["eDP"])));
    assert!(!name_in_config("", &targets(&["eDP"])));
}

// Scenario: two bar configurations with an explicit target filter; a
// matching display attaches, an unmatched one attaches, the matching one
// detaches again, and the fallback entry comes back with one pair per
// configured bar.
#[test]
fn attach_detach_scenario() {
    let bars = vec![
        bar(Position::Top, AppearanceStyle::Solid),
        bar(Position::Bottom, AppearanceStyle::Islands),
    ];
    let filter = targets(&["eDP"]);
    let (mut o, _) = Outputs::new(&bars, 100);

    // display "eDP-1" attaches: the fallback pairs are destroyed and two
    // pairs are created for the display
    let r = o.add(&bars, &filter, "eDP-1", 7, 100);
    assert_eq!(
        r,
        vec![
            Request::Destroy { id: 0 },
            Request::Destroy { id: 1 },
            Request::Destroy { id: 2 },
            Request::Destroy { id: 3 },
            Request::CreateBar {
                id: 4,
                target: OutputTarget::Output(7),
                position: Position::Top,
                height: 26,
            },
            Request::CreateMenu { id: 5, target: OutputTarget::Output(7) },
            Request::CreateBar {
                id: 6,
                target: OutputTarget::Output(7),
                position: Position::Bottom,
                height: 34,
            },
            Request::CreateMenu { id: 7, target: OutputTarget::Output(7) },
        ]
    );
    assert_eq!(o.entries.len(), 1);
    assert_eq!(o.entries[0].name, "eDP-1");
    assert_eq!(o.entries[0].infos.len(), 2);
    assert!(o.has_name("eDP"));

    // display "HDMI-1" attaches but is not matched: recorded without
    // surfaces
    let r = o.add(&bars, &filter, "HDMI-1", 8, 100);
    assert!(r.is_empty());
    assert_eq!(o.entries.len(), 2);
    assert_eq!(o.entries[1].name, "HDMI-1");
    assert!(o.entries[1].infos.is_empty());
    assert!(!o.has_name("HDMI"));

    // "eDP-1" detaches: its two pairs are destroyed and, since no other
    // entry has surfaces, a fallback entry with two pairs is created
    let r = o.remove(&bars, 7, 100);
    assert_eq!(
        r,
        vec![
            Request::Destroy { id: 4 },
            Request::Destroy { id: 5 },
            Request::Destroy { id: 6 },
            Request::Destroy { id: 7 },
            Request::CreateBar {
                id: 8,
                target: OutputTarget::ActiveOutput,
                position: Position::Top,
                height: 26,
            },
            Request::CreateMenu { id: 9, target: OutputTarget::ActiveOutput },
            Request::CreateBar {
                id: 10,
                target: OutputTarget::ActiveOutput,
                position: Position::Bottom,
                height: 34,
            },
            Request::CreateMenu { id: 11, target: OutputTarget::ActiveOutput },
        ]
    );
    assert_eq!(o.entries.len(), 3);
    assert!(o.entries[0].infos.is_empty());
    assert!(o.entries[1].infos.is_empty());
    assert_eq!(o.entries[2].name, "Fallback");
    assert!(o.entries[2].wl_output.is_none());
    assert_eq!(o.entries[2].infos.len(), 2);
}

#[test]
fn detach_of_unknown_handle_is_ignored() {
    let bars = vec![bar(Position::Top, AppearanceStyle::Solid)];
    let (mut o, _) = Outputs::new(&bars, 100);
    let r = o.remove(&bars, 42, 100);
    assert!(r.is_empty());
    assert_eq!(o.entries.len(), 1);
    assert_eq!(o.entries[0].infos.len(), 1);
}

// Reconfiguring only the visual style of a matched display's single bar
// resizes the existing surface instead of recreating it.
#[test]
fn style_change_resizes_in_place() {
    let bars_solid = vec![bar(Position::Top, AppearanceStyle::Solid)];
    let filter = targets(&["eDP"]);
    let (mut o, _) = Outputs::new(&bars_solid, 100);
    o.add(&bars_solid, &filter, "eDP-1", 7, 100);
    let bar_id = o.entries[0].infos[0].id;

    let bars_islands = vec![bar(Position::Top, AppearanceStyle::Islands)];
    let r = o.sync(&bars_islands, &filter, 100);
    assert_eq!(r, vec![Request::Resize { id: bar_id, height: 34 }]);
    // the surface identity survived the cosmetic edit
    assert_eq!(o.entries[0].infos[0].id, bar_id);
}

// Running the reconciliation pass twice with unchanged configuration and
// display set issues zero requests on the second call.
#[test]
fn sync_is_idempotent() {
    let bars = vec![bar(Position::Top, AppearanceStyle::Solid)];
    let filter = targets(&["eDP"]);
    let (mut o, _) = Outputs::new(&bars, 100);
    o.add(&bars, &filter, "eDP-1", 7, 100);
    o.add(&bars, &filter, "HDMI-1", 8, 100);

    let bars2 = vec![bar(Position::Bottom, AppearanceStyle::Gradient)];
    let filter2 = targets(&["HDMI"]);
    let first = o.sync(&bars2, &filter2, 150);
    assert!(!first.is_empty());
    let second = o.sync(&bars2, &filter2, 150);
    assert!(second.is_empty());
    let third = o.sync(&bars2, &filter2, 150);
    assert!(third.is_empty());
}

// Switching the filter so that nothing matches empties every entry and
// brings the fallback back; switching back repopulates the display.
#[test]
fn sync_membership_changes() {
    let bars = vec![bar(Position::Top, AppearanceStyle::Solid)];
    let filter = targets(&["eDP"]);
    let (mut o, _) = Outputs::new(&bars, 100);
    o.add(&bars, &filter, "eDP-1", 7, 100);
    assert_eq!(o.entries.len(), 1);

    // nothing matches any more: surfaces destroyed, fallback recreated
    let none = OutputFilter::Active;
    let r = o.sync(&bars, &none, 100);
    assert!(r.iter().any(|q| matches!(q, Request::Destroy { .. })));
    let fallback = o
        .entries
        .iter()
        .find(|e| e.wl_output.is_none())
        .expect("fallback entry expected");
    assert_eq!(fallback.infos.len(), 1);
    assert!(o.entries.iter().any(|e| e.name == "eDP-1" && e.infos.is_empty()));

    // the display matches again: the entry is repopulated from its kept
    // handle and the fallback goes away
    let r = o.sync(&bars, &filter, 100);
    assert!(r.iter().any(|q| matches!(q, Request::CreateBar { .. })));
    assert!(o.entries.iter().all(|e| e.wl_output.is_some()));
    let edp = o.entries.iter().find(|e| e.name == "eDP-1").unwrap();
    assert_eq!(edp.infos.len(), 1);
}

// A bar-count change for a matched display rebuilds its pairs rather
// than partially reusing them by index.
#[test]
fn sync_bar_count_change_recreates() {
    let bars1 = vec![bar(Position::Top, AppearanceStyle::Solid)];
    let filter = targets(&["eDP"]);
    let (mut o, _) = Outputs::new(&bars1, 100);
    o.add(&bars1, &filter, "eDP-1", 7, 100);
    let old_id = o.entries[0].infos[0].id;

    let bars2 = vec![
        bar(Position::Top, AppearanceStyle::Solid),
        bar(Position::Bottom, AppearanceStyle::Solid),
    ];
    let r = o.sync(&bars2, &filter, 100);
    assert!(r.iter().any(|q| matches!(q, Request::Destroy { id } if *id == old_id)));
    assert_eq!(o.entries[0].infos.len(), 2);
    assert_ne!(o.entries[0].infos[0].id, old_id);
}

#[test]
fn lookup_by_surface_identity() {
    let bars = vec![
        bar(Position::Top, AppearanceStyle::Solid),
        bar(Position::Bottom, AppearanceStyle::Islands),
    ];
    let filter = targets(&["eDP"]);
    let (mut o, _) = Outputs::new(&bars, 100);
    o.add(&bars, &filter, "eDP-1", 7, 100);
    let bar0 = o.entries[0].infos[0].id;
    let menu1 = o.entries[0].infos[1].menu.id;

    match o.has(bar0) {
        Some(HasOutput::Main(info)) => {
            assert_eq!(info.id, bar0);
            assert_eq!(info.config.position, Position::Top);
        }
        _ => panic!("expected the bar surface"),
    }
    match o.has(menu1) {
        Some(HasOutput::Menu(slot)) => assert!(slot.is_none()),
        _ => panic!("expected the menu surface"),
    }
    assert!(o.has(999).is_none());

    assert_eq!(o.get_monitor_name(bar0), Some("eDP-1"));
    assert_eq!(o.get_monitor_name(menu1), None);

    let cfg = o.get_bar_config(menu1).expect("config expected");
    assert_eq!(cfg.position, Position::Bottom);
    assert_eq!(cfg.style, AppearanceStyle::Islands);
    assert!(o.get_bar_config(999).is_none());
}

// Re-attaching a display under an already known name atomically replaces
// the prior surfaces: destroys are issued before the new creations for
// the same name, and no duplicate entry appears.
#[test]
fn reattach_replaces_same_name_entry() {
    let bars = vec![bar(Position::Top, AppearanceStyle::Solid)];
    let filter = targets(&["eDP"]);
    let (mut o, _) = Outputs::new(&bars, 100);
    o.add(&bars, &filter, "eDP-1", 7, 100);
    let old_bar = o.entries[0].infos[0].id;
    let old_menu = o.entries[0].infos[0].menu.id;

    let r = o.add(&bars, &filter, "eDP-1", 9, 100);
    assert_eq!(
        r,
        vec![
            Request::Destroy { id: old_bar },
            Request::Destroy { id: old_menu },
            Request::CreateBar {
                id: old_menu + 1,
                target: OutputTarget::Output(9),
                position: Position::Top,
                height: 26,
            },
            Request::CreateMenu { id: old_menu + 2, target: OutputTarget::Output(9) },
        ]
    );
    assert_eq!(o.entries.len(), 1);
    assert_eq!(o.entries[0].name, "eDP-1");
    assert_eq!(o.entries[0].wl_output, Some(9));
    assert_eq!(o.entries[0].infos.len(), 1);
}

// The number of surface pairs of every populated entry always equals the
// number of configured bars, across a whole event sequence.
#[test]
fn pair_count_matches_bar_count_throughout() {
    let bars = vec![
        bar(Position::Top, AppearanceStyle::Solid),
        bar(Position::Bottom, AppearanceStyle::Gradient),
    ];
    let filter = targets(&["eDP", "DP"]);
    let (mut o, _) = Outputs::new(&bars, 100);
    let all_sized = |o: &Outputs, n: usize| {
        o.entries.iter().all(|e| e.infos.is_empty() || e.infos.len() == n)
    };
    assert!(all_sized(&o, 2));
    o.add(&bars, &filter, "eDP-1", 1, 100);
    assert!(all_sized(&o, 2));
    o.add(&bars, &filter, "DP-3", 2, 100);
    assert!(all_sized(&o, 2));
    o.remove(&bars, 1, 100);
    assert!(all_sized(&o, 2));
    let bars3 = vec![
        bar(Position::Top, AppearanceStyle::Solid),
        bar(Position::Bottom, AppearanceStyle::Gradient),
        bar(Position::Top, AppearanceStyle::Islands),
    ];
    o.sync(&bars3, &filter, 100);
    assert!(all_sized(&o, 3));
}
