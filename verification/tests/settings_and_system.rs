use jdock::behaviour::{dodge_action, hides_at_startup, is_config_cmdline, should_schedule_hide, DodgeAction};
use jdock::config::{
    hide_mode_choice, hide_mode_from_choice, icon_size_choice, icon_size_from_choice, theme_choice,
    theme_from_choice, Config, DockEdge, HideMode, StyleVariant, ThemePreference,
};
use jdock::devices::{device_id, eject_label, eject_plan, ejectable, is_removable, DriveState, EjectPlan, MountState, VolumeState};
use jdock::icon::{fallback_icon_name, icon_candidates, is_icon_path};
use jdock::layout::{
    available_length, code_to_scheme, collapsed_margin, css_gap, dock_gap, dock_gap_property, fixed_scheme,
    indicator_alignment, indicator_is_horizontal, indicator_margin_property, is_color_scheme_change,
    layer_margin, opposite_edge, palette, prefers_dark, reserves_space, to_layer_edge, tooltip_primary_edge,
    Align, ColorScheme, LayerEdge,
};
use jdock::paths::{application_dirs, data_home, desktop_file_id, join_path};
use jdock::toplevel::{state_flags, state_values, HandleEvent, StateFlags, ToplevelEvent, ToplevelTracker};
use jdock::trash;

fn s(x: &str) -> String {
    x.to_string()
}

#[test]
fn config_defaults() {
    let c = Config::default();
    assert_eq!(c.icon_size, 53);
    assert_eq!(c.style, StyleVariant::Round);
    assert_eq!(c.edge, DockEdge::Bottom);
    assert_eq!(c.theme, ThemePreference::System);
    assert_eq!(c.edge_margin, 10);
    assert_eq!(c.pinned, vec![s("firefox.desktop"), s("org.gnome.Nautilus.desktop")]);
    assert_eq!(c.monitor, None);
    assert_eq!(c.hide_mode, HideMode::Maximized);
    assert!(c.show_trash);
    assert_eq!(HideMode::default(), HideMode::Maximized);
}

#[test]
fn hide_mode_labels() {
    assert_eq!(HideMode::Disabled.label(), "Disabled");
    assert_eq!(HideMode::Maximized.label(), "Maximized");
    assert_eq!(HideMode::Timed.label(), "Timed");
}

#[test]
fn choices_round_trip() {
    for t in [ThemePreference::System, ThemePreference::Light, ThemePreference::Dark] {
        assert_eq!(theme_from_choice(theme_choice(t)), t);
    }
    for m in [HideMode::Disabled, HideMode::Maximized, HideMode::Timed] {
        assert_eq!(hide_mode_from_choice(hide_mode_choice(m)), m);
    }
    assert_eq!(theme_from_choice(7), ThemePreference::System);
    assert_eq!(hide_mode_from_choice(9), HideMode::Disabled);
    assert_eq!(icon_size_choice(64), 3);
    assert_eq!(icon_size_choice(50), 0);
    assert_eq!(icon_size_from_choice(4, 53), 72);
    assert_eq!(icon_size_from_choice(5, 53), 53);
}

#[test]
fn layer_decisions() {
    let mut c = Config::default();
    assert_eq!(layer_margin(&c), 0);
    c.hide_mode = HideMode::Disabled;
    assert_eq!(layer_margin(&c), 10);
    assert_eq!(dock_gap(&c), 0);
    c.style = StyleVariant::Straight;
    assert_eq!(layer_margin(&c), 0);
    assert_eq!(css_gap(&c), 0);
    assert!(reserves_space(StyleVariant::Straight));
    assert!(!reserves_space(StyleVariant::Round));
    c.style = StyleVariant::Round;
    c.hide_mode = HideMode::Timed;
    assert_eq!(dock_gap(&c), 10);
    assert_eq!(css_gap(&c), 10);
    c.edge_margin = u32::MAX;
    c.hide_mode = HideMode::Disabled;
    assert_eq!(layer_margin(&c), -1);
    assert_eq!(to_layer_edge(DockEdge::Left), LayerEdge::Left);
    assert_eq!(tooltip_primary_edge(DockEdge::Bottom), LayerEdge::Left);
    assert_eq!(tooltip_primary_edge(DockEdge::Right), LayerEdge::Top);
    for e in [LayerEdge::Left, LayerEdge::Right, LayerEdge::Top, LayerEdge::Bottom] {
        assert_eq!(opposite_edge(opposite_edge(e)), e);
        assert_ne!(opposite_edge(e), e);
    }
    assert!(indicator_is_horizontal(DockEdge::Bottom));
    assert!(!indicator_is_horizontal(DockEdge::Left));
    assert_eq!(indicator_alignment(DockEdge::Right), (Align::End, Align::Center));
    assert_eq!(dock_gap_property(DockEdge::Left), "margin-start");
    assert_eq!(indicator_margin_property(DockEdge::Bottom), "margin-end");
    assert_eq!(collapsed_margin(60, 10), -64);
    assert_eq!(collapsed_margin(3, 0), 0);
    assert_eq!(available_length(DockEdge::Bottom, Some((2560, 1440))), 2560);
    assert_eq!(available_length(DockEdge::Left, Some((2560, 1440))), 1440);
    assert_eq!(available_length(DockEdge::Left, None), 1920);
}

#[test]
fn theme_decisions() {
    assert_eq!(code_to_scheme(1), ColorScheme::Dark);
    assert_eq!(code_to_scheme(0), ColorScheme::Light);
    assert_eq!(code_to_scheme(2), ColorScheme::Light);
    assert_eq!(palette(ColorScheme::Light).fill_hex, "#ececec");
    assert_eq!(palette(ColorScheme::Dark).menu_accent, "#0a84ff");
    assert_eq!(fixed_scheme(ThemePreference::System), None);
    assert_eq!(fixed_scheme(ThemePreference::Dark), Some(ColorScheme::Dark));
    assert!(prefers_dark(ThemePreference::System, ColorScheme::Dark));
    assert!(!prefers_dark(ThemePreference::Light, ColorScheme::Dark));
    assert!(is_color_scheme_change("SettingChanged", 3, "org.freedesktop.appearance", "color-scheme"));
    assert!(!is_color_scheme_change("SettingChanged", 2, "org.freedesktop.appearance", "color-scheme"));
    assert!(!is_color_scheme_change("SettingChanged", 3, "org.freedesktop.appearance", "accent-color"));
}

#[test]
fn hide_decisions() {
    assert!(should_schedule_hide(true, false, HideMode::Timed, false));
    assert!(!should_schedule_hide(false, false, HideMode::Timed, false));
    assert!(!should_schedule_hide(true, true, HideMode::Timed, false));
    assert!(should_schedule_hide(true, false, HideMode::Maximized, true));
    assert!(!should_schedule_hide(true, false, HideMode::Maximized, false));
    assert!(!should_schedule_hide(true, false, HideMode::Disabled, true));
    assert!(hides_at_startup(HideMode::Timed, false));
    assert!(!hides_at_startup(HideMode::Disabled, true));
    assert_eq!(dodge_action(HideMode::Timed, false, true, true), DodgeAction::Keep);
    assert_eq!(dodge_action(HideMode::Maximized, true, true, true), DodgeAction::Keep);
    assert_eq!(dodge_action(HideMode::Maximized, false, true, false), DodgeAction::Record);
    assert_eq!(dodge_action(HideMode::Maximized, false, true, true), DodgeAction::Hide);
    assert_eq!(dodge_action(HideMode::Maximized, true, false, true), DodgeAction::Show);
}

#[test]
fn icon_candidate_lists() {
    assert_eq!(icon_candidates("Firefox.PNG"), vec![s("Firefox.PNG"), s("firefox.png")]);
    assert_eq!(icon_candidates("Foo.svg"), vec![s("Foo.svg"), s("Foo"), s("foo")]);
    assert_eq!(icon_candidates("foo.xpm"), vec![s("foo.xpm"), s("foo")]);
    assert_eq!(icon_candidates("kitty"), vec![s("kitty")]);
    assert_eq!(icon_candidates("ÀB"), vec![s("ÀB"), s("àb")]);
    assert!(is_icon_path("/usr/share/icons/x.png"));
    assert!(!is_icon_path("x"));
    assert!(!is_icon_path(""));
    assert_eq!(fallback_icon_name(), "application-x-executable");
}

#[test]
fn paths() {
    assert_eq!(join_path("/home/u/.local/share", "applications"), "/home/u/.local/share/applications");
    assert_eq!(join_path("/", "Trash"), "/Trash");
    assert_eq!(join_path("", "Trash"), "Trash");
    assert_eq!(data_home(Some(""), Some("/d")), Some(s("/d")));
    assert_eq!(data_home(Some("/x"), Some("/d")), Some(s("/x")));
    assert_eq!(data_home(None, None), None);
    assert_eq!(
        application_dirs(Some("/h"), None),
        vec![s("/h/applications"), s("/usr/local/share/applications"), s("/usr/share/applications")]
    );
    assert_eq!(application_dirs(None, Some("/a::/b/")), vec![s("/a/applications"), s("/b/applications")]);
    assert_eq!(desktop_file_id("kde/konsole.desktop"), "kde-konsole.desktop");
}

#[test]
fn trash() {
    assert_eq!(trash::data_home(Some(""), None), ".");
    assert_eq!(trash::data_home(Some("/x"), Some("/d")), "/x");
    assert_eq!(trash::data_home(None, Some("/d")), "/d");
    assert_eq!(trash::trash_root("/d"), "/d/Trash");
    assert_eq!(trash::files_dir("/d"), "/d/Trash/files");
    assert_eq!(trash::icon_name(true), "user-trash");
    assert_eq!(trash::icon_name(false), "user-trash-full");
    assert_eq!(trash::monitor_dir("/d", false, true, true), Some(s("/d/Trash")));
    assert_eq!(trash::monitor_dir("/d", false, false, false), None);
    assert_eq!(trash::open(), vec![s("xdg-open"), s("trash:///")]);
    assert_eq!(trash::empty(), vec![s("gio"), s("trash"), s("--empty")]);
}

#[test]
fn devices() {
    let fixed = VolumeState { can_eject: false, drive: Some(DriveState { is_removable: false, can_eject: false }), mount: Some(MountState { can_unmount: true, can_eject: false }) };
    assert!(!is_removable(&fixed));
    assert!(ejectable(&fixed));
    assert_eq!(eject_label(&fixed), "Unmount");
    assert_eq!(eject_plan(&fixed), EjectPlan::UnmountMount);
    let usb = VolumeState { can_eject: true, drive: None, mount: None };
    assert!(is_removable(&usb));
    assert_eq!(eject_label(&usb), "Eject");
    assert_eq!(eject_plan(&usb), EjectPlan::EjectVolume);
    let net = VolumeState { can_eject: false, drive: None, mount: Some(MountState { can_unmount: false, can_eject: true }) };
    assert!(is_removable(&net));
    assert_eq!(eject_plan(&net), EjectPlan::EjectMount);
    let none = VolumeState { can_eject: false, drive: None, mount: None };
    assert!(!is_removable(&none));
    assert!(!ejectable(&none));
    assert_eq!(eject_plan(&none), EjectPlan::Nothing);
    assert_eq!(device_id(None, Some("/dev/sdb1"), "Stick"), "/dev/sdb1");
    assert_eq!(device_id(None, None, "Stick"), "Stick");
    assert_eq!(device_id(Some("ABCD"), Some("/dev/sdb1"), "Stick"), "ABCD");
}

#[test]
fn window_state_decoding() {
    let mut raw: Vec<u8> = Vec::new();
    for v in [2u32, 0, 7] {
        raw.extend_from_slice(&v.to_ne_bytes());
    }
    raw.push(3);
    let values = state_values(&raw);
    assert_eq!(values, vec![2, 0, 7]);
    assert_eq!(state_flags(&values), StateFlags { maximized: true, activated: true, fullscreen: false });
    assert_eq!(state_flags(&vec![3, 1]), StateFlags { maximized: false, activated: false, fullscreen: true });
}

#[test]
fn tracker_reports_whole_windows() {
    let mut t = ToplevelTracker::new();
    assert!(t.handle(4, HandleEvent::Done).is_none());
    assert!(t.handle(4, HandleEvent::AppId(s("foot"))).is_none());
    assert!(t.handle(4, HandleEvent::Title(s("~"))).is_none());
    assert!(t.handle(4, HandleEvent::State(StateFlags { maximized: false, activated: true, fullscreen: false })).is_none());
    match t.handle(4, HandleEvent::Done) {
        Some(ToplevelEvent::Updated(info)) => {
            assert_eq!(info.id, 4);
            assert_eq!(info.app_id, "foot");
            assert_eq!(info.title, "~");
            assert!(info.activated);
            assert!(info.outputs.is_empty());
        }
        other => panic!("unexpected {other:?}"),
    }
    assert!(t.handle(4, HandleEvent::Title(s("vim"))).is_none());
    match t.handle(4, HandleEvent::Done) {
        Some(ToplevelEvent::Updated(info)) => assert_eq!(info.title, "vim"),
        other => panic!("unexpected {other:?}"),
    }
    assert!(matches!(t.handle(4, HandleEvent::Closed), Some(ToplevelEvent::Closed(4))));
    assert!(t.handle(4, HandleEvent::Done).is_none());
}

#[test]
fn config_window_detection() {
    assert!(is_config_cmdline(b"/usr/bin/jdock\0--config\0"));
    assert!(is_config_cmdline(b"--config"));
    assert!(!is_config_cmdline(b"/usr/bin/jdock\0"));
    assert!(!is_config_cmdline(b"/usr/bin/jdock\0--configx\0"));
    assert!(!is_config_cmdline(b"x--config\0"));
}
