use ashell::config::AppearanceStyle;
use ashell::config::BarConfig;
use ashell::config::GeneralConfig;
use ashell::config::Outputs as OutputFilter;
use ashell::config::Position;
use ashell::controller::App;
use ashell::controller::Message;
use ashell::controller::ModuleAction;
use ashell::controller::OutputEvent;
use ashell::menu::ButtonUIRef;
use ashell::menu::MenuType;
use ashell::requests::KeyboardMode;
use ashell::requests::Request;

fn config(style: AppearanceStyle, scale: u32) -> GeneralConfig {
    GeneralConfig {
        bar_configs: vec![BarConfig { position: Position::Top, style }],
        outputs: OutputFilter::Targets(vec!["eDP".to_string()]),
        scale_factor: scale,
        enable_esc_key: true,
    }
}

#[test]
fn controller_routes_events() {
    let (mut app, startup) = App::new(config(AppearanceStyle::Solid, 100));
    assert_eq!(startup.len(), 2);

    // a matching display attaches
    let r = app.update(Message::OutputEvent(OutputEvent::Attached("eDP-1".to_string(), 7)));
    assert!(r.iter().any(|q| matches!(q, Request::CreateBar { .. })));
    let bar_id = app.outputs.entries[0].infos[0].id;
    let menu_id = app.outputs.entries[0].infos[0].menu.id;

    // a click toggles a menu; the escape-key flag requests the keyboard
    let r = app.update(Message::ToggleMenu(
        MenuType::Settings,
        bar_id,
        ButtonUIRef { x: 3, y: 4 },
    ));
    assert_eq!(
        r,
        vec![
            Request::SetMenuVisible { id: menu_id, visible: true },
            Request::SetKeyboard { id: bar_id, mode: KeyboardMode::OnDemand },
        ]
    );
    assert!(app.outputs.menu_is_open());

    // escape closes everything
    let r = app.update(Message::CloseAllMenus);
    assert!(!app.outputs.menu_is_open());
    assert!(r
        .iter()
        .any(|q| matches!(q, Request::SetKeyboard { mode: KeyboardMode::Disabled, .. })));

    // a second close-all is a no-op
    let r = app.update(Message::CloseAllMenus);
    assert!(r.is_empty());

    // module actions route into the same operations
    app.update(Message::ToggleMenu(MenuType::Updates, bar_id, ButtonUIRef { x: 0, y: 0 }));
    let r = app.update(Message::Module(ModuleAction::CloseMenuIf(bar_id, MenuType::Updates)));
    assert!(matches!(r[0], Request::SetMenuVisible { visible: false, .. }));

    // an idle message does nothing
    assert!(app.update(Message::Nothing).is_empty());
}

#[test]
fn controller_reload_only_style() {
    let (mut app, _) = App::new(config(AppearanceStyle::Solid, 100));
    app.update(Message::OutputEvent(OutputEvent::Attached("eDP-1".to_string(), 7)));
    let bar_id = app.outputs.entries[0].infos[0].id;

    // reload that changes only the visual style: one resize, no
    // destroy/create
    let r = app.update(Message::ConfigChanged(config(AppearanceStyle::Islands, 100)));
    assert_eq!(r, vec![Request::Resize { id: bar_id, height: 34 }]);

    // reload with an identical configuration: nothing to do
    let r = app.update(Message::ConfigChanged(config(AppearanceStyle::Islands, 100)));
    assert!(r.is_empty());

    // scale factor change resizes as well
    let r = app.update(Message::ConfigChanged(config(AppearanceStyle::Islands, 200)));
    assert_eq!(r, vec![Request::Resize { id: bar_id, height: 68 }]);

    // a detach of the display brings the fallback back
    let r = app.update(Message::OutputEvent(OutputEvent::Detached(7)));
    assert!(r.iter().any(|q| matches!(q, Request::CreateBar { .. })));
    assert!(app.outputs.entries.iter().any(|e| e.wl_output.is_none()));
}
