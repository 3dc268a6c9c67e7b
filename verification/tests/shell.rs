use rigg_voice::shell::{
    can_place, ends_launch, fire_trigger, margin, menu, on_menu, on_preferences_event, on_shortcut, position_bottom_center, quit_app, run,
    show_preferences, stays_on_exit, Command, Host, LaunchStep, MenuEntry, Monitor, Size, WindowStep,
};

#[test]
fn margin_agrees_with_double_precision() {
    for scale in [
        0.0f64, -0.0, 1.0, 1.25, 1.5, 2.0, 3.0, -2.0, 0.010416666666666666, 0.01041666666666667, 1e-320, 1e308, -1e308,
        22369621.333333332, 22369621.34, -22369621.34, f64::INFINITY, f64::NEG_INFINITY, f64::NAN, f64::MIN_POSITIVE,
        f64::MAX, 1.3333333333333333, 1.1, 0.1,
    ] {
        assert_eq!(margin(scale.to_bits()), (scale * 96.0) as i32, "scale {}", scale);
    }
    assert_eq!(margin(2.0f64.to_bits()), 192);
}

fn screen(width: u32, height: u32, scale: f64) -> Option<Monitor> {
    Some(Monitor { x: 0, y: 0, width, height, scale_bits: scale.to_bits() })
}

#[test]
fn the_bar_is_parked_at_the_bottom() {
    let size = Some(Size { width: 601, height: 100 });
    assert_eq!(position_bottom_center(screen(2880, 1800, 2.0), None, size), Some((1139, 1508)));
    assert_eq!(position_bottom_center(None, screen(1000, 500, 1.0), size), Some((199, 304)));
    assert_eq!(position_bottom_center(screen(1000, 500, 1.0), screen(1, 1, 1.0), size), Some((199, 304)));
}

#[test]
fn the_bar_is_parked_on_its_own_screen() {
    let size = Size { width: 400, height: 80 };
    let at = |x: i32, y: i32| Monitor { x, y, width: 1920, height: 1080, scale_bits: 1.0f64.to_bits() };
    assert_eq!(position_bottom_center(Some(at(1920, 0)), None, Some(size)), Some((2680, 904)));
    assert_eq!(position_bottom_center(Some(at(-1920, -200)), None, Some(size)), Some((-1160, 704)));
    assert!(can_place(at(1920, 0), size));
    assert!(!can_place(at(i32::MAX, 0), size));
    assert!(!can_place(at(0, 0), Size { width: 0x8000_0000, height: 80 }));
}

#[test]
fn a_large_bar_starts_at_the_corner() {
    let size = Some(Size { width: 3001, height: 2000 });
    assert_eq!(position_bottom_center(screen(1000, 500, 1.0), None, size), Some((0, 0)));
}

#[test]
fn nothing_is_placed_without_a_screen_or_a_size() {
    assert_eq!(position_bottom_center(None, None, Some(Size { width: 1, height: 1 })), None);
    assert_eq!(position_bottom_center(screen(10, 10, 1.0), None, None), None);
}

#[test]
fn a_trigger_shows_the_bar() {
    let t = fire_trigger(Some(3), Some(9), 7);
    assert_eq!(t.target, Some(9));
    assert_eq!(t.bar, vec![WindowStep::Park, WindowStep::Show, WindowStep::Focus]);
    assert_eq!(t.toggle_after_ms, 90);
    assert_eq!(fire_trigger(Some(3), Some(7), 7).target, Some(3));
}

#[test]
fn preferences_are_hidden_not_closed() {
    assert_eq!(show_preferences(), vec![WindowStep::Center, WindowStep::Show, WindowStep::Focus]);
    assert_eq!(on_preferences_event(true), Some(vec![WindowStep::Hide]));
    assert_eq!(on_preferences_event(false), None);
}

#[test]
fn the_menu_has_its_commands() {
    let entries = menu();
    let ids: Vec<String> = entries
        .into_iter()
        .filter_map(|e| match e {
            MenuEntry::Item { id, .. } => Some(id),
            MenuEntry::Separator => None,
        })
        .collect();
    assert_eq!(ids, vec!["start", "prefs", "quit"]);
    assert_eq!(on_menu("start"), Command::Dictate);
    assert_eq!(on_menu("prefs"), Command::Preferences);
    assert_eq!(on_menu("quit"), Command::Exit(0));
    assert_eq!(on_menu("other"), Command::Ignore);
}

#[test]
fn only_quitting_leaves() {
    assert!(stays_on_exit(None));
    assert!(!stays_on_exit(Some(quit_app())));
}

#[test]
fn the_shortcut_fires_when_pressed() {
    assert!(on_shortcut(true, true));
    assert!(!on_shortcut(false, true));
    assert!(!on_shortcut(true, false));
}

#[test]
fn launching_on_a_mac() {
    let host = Host { macos: true, desktop: true, has_preferences: true, has_bar: true };
    assert_eq!(
        run(host),
        vec![
            LaunchStep::BecomeAccessory,
            LaunchStep::BuildTray,
            LaunchStep::HidePreferencesOnClose,
            LaunchStep::ApplyGlass,
            LaunchStep::ParkBar,
            LaunchStep::RegisterShortcut,
            LaunchStep::ListenForDoubleTap,
            LaunchStep::WarmModels,
        ]
    );
    let bare = Host { macos: false, desktop: false, has_preferences: false, has_bar: false };
    assert_eq!(run(bare), vec![LaunchStep::BuildTray, LaunchStep::WarmModels]);
}

#[test]
fn only_the_tray_and_the_shortcut_end_the_launch() {
    let host = Host { macos: true, desktop: true, has_preferences: true, has_bar: true };
    for step in run(host) {
        assert_eq!(ends_launch(step), step == LaunchStep::BuildTray || step == LaunchStep::RegisterShortcut);
    }
    assert!(ends_launch(LaunchStep::BuildTray) && !ends_launch(LaunchStep::ApplyGlass));
}
