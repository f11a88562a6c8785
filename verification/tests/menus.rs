use ashell::config::AppearanceStyle;
use ashell::config::BarConfig;
use ashell::config::Outputs as OutputFilter;
use ashell::config::Position;
use ashell::menu::ButtonUIRef;
use ashell::menu::MenuType;
use ashell::outputs::HasOutput;
use ashell::outputs::Outputs;
use ashell::requests::KeyboardMode;
use ashell::requests::Request;

fn one_bar() -> Vec<BarConfig> {
    vec![BarConfig { position: Position::Top, style: AppearanceStyle::Solid }]
}

fn anchor(x: i32, y: i32) -> ButtonUIRef {
    ButtonUIRef { x, y }
}

/// A registry with two attached displays, one bar each: pairs (2, 3) on
/// "A-1" and (4, 5) on "B-1".
fn two_displays() -> Outputs {
    let bars = one_bar();
    let (mut o, _) = Outputs::new(&bars, 100);
    o.add(&bars, &OutputFilter::All, "A-1", 1, 100);
    o.add(&bars, &OutputFilter::All, "B-1", 2, 100);
    assert_eq!(o.entries[0].infos[0].id, 2);
    assert_eq!(o.entries[1].infos[0].id, 4);
    o
}

// Toggle law: toggling the same kind twice returns the pair to closed
// and, with keyboard requested, ends in a keyboard-release request.
#[test]
fn toggle_twice_returns_to_closed_and_releases_keyboard() {
    let bars = one_bar();
    let (mut o, _) = Outputs::new(&bars, 100);
    let r1 = o.toggle_menu(0, MenuType::Settings, anchor(10, 20), true);
    assert_eq!(
        r1,
        vec![
            Request::SetMenuVisible { id: 1, visible: true },
            Request::SetKeyboard { id: 0, mode: KeyboardMode::OnDemand },
        ]
    );
    assert!(o.menu_is_open());

    let r2 = o.toggle_menu(0, MenuType::Settings, anchor(10, 20), true);
    assert_eq!(
        r2,
        vec![
            Request::SetMenuVisible { id: 1, visible: false },
            Request::SetKeyboard { id: 0, mode: KeyboardMode::Disabled },
        ]
    );
    assert!(!o.menu_is_open());
}

#[test]
fn toggle_other_kind_replaces_open_menu() {
    let bars = one_bar();
    let (mut o, _) = Outputs::new(&bars, 100);
    o.toggle_menu(0, MenuType::Updates, anchor(1, 1), false);
    o.toggle_menu(0, MenuType::Settings, anchor(2, 2), false);
    match o.has(1) {
        Some(HasOutput::Menu(Some((MenuType::Settings, a)))) => assert_eq!(a, anchor(2, 2)),
        _ => panic!("expected the settings menu to be open"),
    }
}

// Scenario: a tray menu is open on the first display; toggling settings
// on the second display closes the first menu, opens the second, and
// issues exactly one keyboard grant (for the second bar surface) and no
// keyboard release for the first.
#[test]
fn toggle_moves_exclusive_menu_across_displays() {
    let mut o = two_displays();
    let r = o.toggle_menu(2, MenuType::Tray("bluez".to_string()), anchor(5, 5), true);
    assert_eq!(
        r,
        vec![
            Request::SetMenuVisible { id: 3, visible: true },
            Request::SetKeyboard { id: 2, mode: KeyboardMode::OnDemand },
        ]
    );

    let r = o.toggle_menu(4, MenuType::Settings, anchor(6, 6), true);
    assert_eq!(
        r,
        vec![
            Request::SetMenuVisible { id: 3, visible: false },
            Request::SetMenuVisible { id: 5, visible: true },
            Request::SetKeyboard { id: 4, mode: KeyboardMode::OnDemand },
        ]
    );
    let grants = r
        .iter()
        .filter(|q| matches!(q, Request::SetKeyboard { mode: KeyboardMode::OnDemand, .. }))
        .count();
    assert_eq!(grants, 1);
    assert!(!r.iter().any(|q| matches!(q, Request::SetKeyboard { id: 2, .. })));

    // at most one menu is open across the whole registry
    let open_pairs = o
        .entries
        .iter()
        .flat_map(|e| e.infos.iter())
        .filter(|i| i.menu.menu_info.is_some())
        .count();
    assert_eq!(open_pairs, 1);
}

#[test]
fn close_menu_revokes_keyboard_when_nothing_stays_open() {
    let mut o = two_displays();
    o.toggle_menu(2, MenuType::MediaPlayer, anchor(0, 0), true);
    let r = o.close_menu(2, true);
    assert_eq!(
        r,
        vec![
            Request::SetMenuVisible { id: 3, visible: false },
            Request::SetKeyboard { id: 2, mode: KeyboardMode::Disabled },
        ]
    );
    assert!(!o.menu_is_open());
}

#[test]
fn close_menu_without_escape_key_leaves_keyboard_alone() {
    let mut o = two_displays();
    o.toggle_menu(2, MenuType::MediaPlayer, anchor(0, 0), false);
    let r = o.close_menu(2, false);
    assert_eq!(r, vec![Request::SetMenuVisible { id: 3, visible: false }]);
}

#[test]
fn close_menu_if_only_closes_the_expected_kind() {
    let mut o = two_displays();
    o.toggle_menu(2, MenuType::Settings, anchor(0, 0), false);

    // a stale close for a different kind must not dismiss the menu
    let r = o.close_menu_if(2, MenuType::Tray("net".to_string()), true);
    assert!(r.is_empty());
    assert!(o.menu_is_open());

    let r = o.close_menu_if(2, MenuType::Settings, false);
    assert_eq!(r, vec![Request::SetMenuVisible { id: 3, visible: false }]);
    assert!(!o.menu_is_open());
}

#[test]
fn close_all_menu_if_matches_tray_by_name() {
    let mut o = two_displays();
    o.toggle_menu(4, MenuType::Tray("bluez".to_string()), anchor(0, 0), false);

    let r = o.close_all_menu_if(MenuType::Tray("other".to_string()), false);
    assert!(r.is_empty());
    assert!(o.menu_is_open());

    let r = o.close_all_menu_if(MenuType::Tray("bluez".to_string()), false);
    assert_eq!(r, vec![Request::SetMenuVisible { id: 5, visible: false }]);
    assert!(!o.menu_is_open());
}

#[test]
fn close_all_menus_closes_everything_and_revokes_everywhere() {
    let mut o = two_displays();
    o.toggle_menu(2, MenuType::SystemInfo, anchor(0, 0), false);
    let r = o.close_all_menus(true);
    assert_eq!(
        r,
        vec![
            Request::SetMenuVisible { id: 3, visible: false },
            Request::SetKeyboard { id: 2, mode: KeyboardMode::Disabled },
            Request::SetKeyboard { id: 4, mode: KeyboardMode::Disabled },
        ]
    );
    assert!(!o.menu_is_open());
}

#[test]
fn request_and_release_keyboard_target_the_owning_bar() {
    let o = two_displays();
    assert_eq!(
        o.request_keyboard(5),
        vec![Request::SetKeyboard { id: 4, mode: KeyboardMode::Exclusive }]
    );
    assert_eq!(
        o.release_keyboard(5),
        vec![Request::SetKeyboard { id: 4, mode: KeyboardMode::Disabled }]
    );
    assert!(o.request_keyboard(99).is_empty());
    assert!(o.release_keyboard(99).is_empty());
}

// Destroying a pair (through a detach) takes any open menu with it, so a
// menu can never outlive its surfaces.
#[test]
fn detach_drops_open_menu_with_its_pair() {
    let bars = one_bar();
    let (mut o, _) = Outputs::new(&bars, 100);
    o.add(&bars, &OutputFilter::All, "A-1", 1, 100);
    o.toggle_menu(2, MenuType::Updates, anchor(0, 0), false);
    assert!(o.menu_is_open());
    o.remove(&bars, 1, 100);
    assert!(!o.menu_is_open());
}

// Cosmetic configuration edits update surfaces in place, so an open menu
// survives a style-only reload; only a membership change (here: the
// display dropping out of the filter) takes the menu down with its pair.
#[test]
fn open_menu_survives_cosmetic_sync() {
    let bars = one_bar();
    let filter = OutputFilter::Targets(vec!["A".to_string()]);
    let (mut o, _) = Outputs::new(&bars, 100);
    o.add(&bars, &filter, "A-1", 1, 100);
    o.toggle_menu(2, MenuType::Settings, anchor(0, 0), false);
    assert!(o.menu_is_open());

    let restyled =
        vec![BarConfig { position: Position::Top, style: AppearanceStyle::Islands }];
    o.sync(&restyled, &filter, 100);
    assert!(o.menu_is_open());

    o.sync(&restyled, &OutputFilter::Active, 100);
    assert!(!o.menu_is_open());
}
