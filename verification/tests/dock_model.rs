use jdock::behaviour::{
    apply_event, click_action, close_commands, indicator_state, item_keys, menu_rows, same_strings,
    toggle_pin, tooltip_text, ClickAction, MenuRow,
};
use jdock::desktop::DesktopEntryStore;
use jdock::model::DockModel;
use jdock::toplevel::{Command, ToplevelEvent, ToplevelInfo};

fn s(x: &str) -> String {
    x.to_string()
}

fn win(id: u32, app_id: &str, title: &str, activated: bool) -> ToplevelInfo {
    ToplevelInfo {
        id,
        app_id: s(app_id),
        title: s(title),
        activated,
        maximized: false,
        fullscreen: false,
        outputs: Vec::new(),
    }
}

fn store() -> DesktopEntryStore {
    DesktopEntryStore::scan(vec![
        (
            s("firefox.desktop"),
            s("[Desktop Entry]\nType=Application\nName=Firefox\nIcon=firefox\nExec=firefox\nActions=new;\n[Desktop Action new]\nName=New Window\nExec=firefox -n\n"),
        ),
        (s("org.gnome.Nautilus.desktop"), s("[Desktop Entry]\nType=Application\nName=Files\nExec=nautilus\n")),
    ])
}

#[test]
fn pinned_items_come_first_then_running() {
    let desktop = store();
    let mut m = DockModel::new();
    m.upsert_window(win(7, "kitty", "shell", false), &desktop);
    m.upsert_window(win(3, "firefox", "Web", true), &desktop);
    m.upsert_window(win(5, "kitty", "", false), &desktop);
    let pinned = vec![s("firefox.desktop"), s("missing.app.desktop")];
    let items = m.build_items(&pinned, &desktop);
    assert_eq!(items.len(), 3);
    assert_eq!(items[0].key, "firefox.desktop");
    assert_eq!(items[0].name, "Firefox");
    assert_eq!(items[0].icon_name.as_deref(), Some("firefox"));
    assert_eq!(items[0].launch_desktop_id.as_deref(), Some("firefox.desktop"));
    assert_eq!(items[0].windows, vec![3]);
    assert_eq!(items[1].key, "missing.app.desktop");
    assert_eq!(items[1].name, "missing.app.desktop");
    assert_eq!(items[1].icon_name.as_deref(), Some("missing.app"));
    assert_eq!(items[1].launch_desktop_id, None);
    assert!(items[1].windows.is_empty());
    assert_eq!(items[2].key, "kitty");
    assert_eq!(items[2].name, "kitty");
    assert_eq!(items[2].icon_name.as_deref(), Some("kitty"));
    assert_eq!(items[2].windows, vec![5, 7]);
}

#[test]
fn running_item_uses_raw_app_id_of_lowest_window() {
    let desktop = store();
    let mut m = DockModel::new();
    m.upsert_window(win(9, "Kitty", "a", false), &desktop);
    m.upsert_window(win(4, "KITTY", "b", false), &desktop);
    let items = m.build_items(&[], &desktop);
    assert_eq!(items.len(), 1);
    assert_eq!(items[0].key, "kitty");
    assert_eq!(items[0].name, "KITTY");
    assert_eq!(items[0].windows, vec![4, 9]);
}

#[test]
fn remove_window_forgets_app_when_last_window_closes() {
    let desktop = store();
    let mut m = DockModel::new();
    m.upsert_window(win(1, "a", "", false), &desktop);
    m.upsert_window(win(2, "b", "", false), &desktop);
    m.upsert_window(win(3, "a", "", false), &desktop);
    m.remove_window(1);
    let keys: Vec<String> = m.build_items(&[], &desktop).into_iter().map(|i| i.key).collect();
    assert_eq!(keys, vec![s("a"), s("b")]);
    m.remove_window(3);
    let keys: Vec<String> = m.build_items(&[], &desktop).into_iter().map(|i| i.key).collect();
    assert_eq!(keys, vec![s("b")]);
    m.upsert_window(win(4, "a", "", false), &desktop);
    let keys: Vec<String> = m.build_items(&[], &desktop).into_iter().map(|i| i.key).collect();
    assert_eq!(keys, vec![s("b"), s("a")]);
    m.remove_window(42);
    assert_eq!(m.windows_for_key("a"), vec![4]);
}

#[test]
fn open_then_close_restores_model() {
    let desktop = store();
    let mut m = DockModel::new();
    m.upsert_window(win(1, "a", "t", false), &desktop);
    let before: Vec<String> = m.build_items(&[], &desktop).into_iter().map(|i| i.key).collect();
    m.upsert_window(win(2, "b", "u", true), &desktop);
    m.remove_window(2);
    let after: Vec<String> = m.build_items(&[], &desktop).into_iter().map(|i| i.key).collect();
    assert_eq!(before, after);
    assert!(!m.is_activated(2));
    assert_eq!(m.window_title(2), None);
}

#[test]
fn every_window_shown_once() {
    let desktop = store();
    let mut m = DockModel::new();
    for (id, app) in [(1, "firefox"), (2, "x"), (3, "y"), (4, "x"), (5, "org.gnome.Nautilus")] {
        m.upsert_window(win(id, app, "", false), &desktop);
    }
    let pinned = vec![s("org.gnome.Nautilus.desktop")];
    let items = m.build_items(&pinned, &desktop);
    let mut shown: Vec<u32> = items.iter().flat_map(|i| i.windows.clone()).collect();
    shown.sort();
    assert_eq!(shown, vec![1, 2, 3, 4, 5]);
    let keys = item_keys(&items);
    let mut dedup = keys.clone();
    dedup.dedup();
    assert_eq!(keys.len(), dedup.len());
}

#[test]
fn activation_title_and_dodge() {
    let desktop = store();
    let mut m = DockModel::new();
    let mut w = win(1, "a", "Title", true);
    w.maximized = true;
    w.outputs = vec![s("DP-1")];
    m.upsert_window(w, &desktop);
    m.upsert_window(win(2, "a", "", false), &desktop);
    assert!(m.is_activated(1));
    assert!(!m.is_activated(2));
    assert!(!m.is_activated(99));
    assert!(m.any_activated(&[2, 1]));
    assert!(!m.any_activated(&[2, 99]));
    assert_eq!(m.window_title(1), Some("Title"));
    assert_eq!(m.window_title(2), None);
    assert!(m.should_dodge(None));
    assert!(m.should_dodge(Some("DP-1")));
    assert!(!m.should_dodge(Some("HDMI-1")));
    let mut f = win(3, "b", "", true);
    f.fullscreen = true;
    m.upsert_window(win(1, "a", "Title", false), &desktop);
    assert!(!m.should_dodge(None));
    m.upsert_window(f, &desktop);
    assert!(m.should_dodge(Some("HDMI-1")));
}

#[test]
fn click_actions() {
    let desktop = store();
    let mut m = DockModel::new();
    let pinned = vec![s("firefox.desktop"), s("org.gnome.Nautilus.desktop")];
    match click_action(&m, &pinned, &desktop, "firefox.desktop", Some("firefox.desktop")) {
        ClickAction::Launch(id) => assert_eq!(id, "firefox.desktop"),
        other => panic!("unexpected {other:?}"),
    }
    assert!(matches!(click_action(&m, &pinned, &desktop, "firefox.desktop", Some("nope.desktop")), ClickAction::Nothing));
    assert!(matches!(click_action(&m, &pinned, &desktop, "unknown", None), ClickAction::Nothing));
    m.upsert_window(win(10, "firefox", "", true), &desktop);
    assert!(matches!(
        click_action(&m, &pinned, &desktop, "firefox.desktop", None),
        ClickAction::Send(Command::Minimize(10))
    ));
    m.upsert_window(win(11, "firefox", "", false), &desktop);
    assert!(matches!(
        click_action(&m, &pinned, &desktop, "firefox.desktop", None),
        ClickAction::Send(Command::Activate(11))
    ));
    m.upsert_window(win(10, "firefox", "", false), &desktop);
    assert!(matches!(
        click_action(&m, &pinned, &desktop, "firefox.desktop", None),
        ClickAction::Send(Command::Activate(10))
    ));
}

#[test]
fn toggle_pin_twice_restores() {
    let mut p = vec![s("a"), s("b")];
    toggle_pin(&mut p, "c");
    assert_eq!(p, vec![s("a"), s("b"), s("c")]);
    toggle_pin(&mut p, "c");
    assert_eq!(p, vec![s("a"), s("b")]);
    toggle_pin(&mut p, "a");
    assert_eq!(p, vec![s("b")]);
}

#[test]
fn menu_rows_for_items() {
    let desktop = store();
    let pinned = vec![s("firefox.desktop")];
    let rows = menu_rows(&desktop, Some("firefox.desktop"), "firefox.desktop", &pinned, &[1]);
    assert_eq!(rows, vec![MenuRow::Action(0), MenuRow::Separator, MenuRow::Unpin, MenuRow::Close]);
    let rows = menu_rows(&desktop, Some("org.gnome.Nautilus.desktop"), "org.gnome.Nautilus.desktop", &pinned, &[]);
    assert_eq!(rows, vec![MenuRow::Pin]);
    let rows = menu_rows(&desktop, None, "kitty", &pinned, &[4, 5]);
    assert_eq!(rows, vec![MenuRow::Pin, MenuRow::Close]);
}

#[test]
fn tooltip_and_indicator() {
    let desktop = store();
    let mut m = DockModel::new();
    m.upsert_window(win(1, "a", "Doc", true), &desktop);
    m.upsert_window(win(2, "b", "", false), &desktop);
    m.upsert_window(win(3, "b", "Other", false), &desktop);
    let items = m.build_items(&[], &desktop);
    assert_eq!(tooltip_text(&m, &items[0]), "Doc");
    assert_eq!(tooltip_text(&m, &items[1]), "b");
    assert_eq!(indicator_state(&m, &items[0]), (true, true));
    assert_eq!(indicator_state(&m, &items[1]), (true, false));
}

#[test]
fn events_update_model() {
    let desktop = store();
    let mut m = DockModel::new();
    apply_event(&mut m, ToplevelEvent::Updated(win(5, "z", "", true)), &desktop);
    assert!(m.is_activated(5));
    apply_event(&mut m, ToplevelEvent::Closed(5), &desktop);
    assert!(!m.is_activated(5));
    assert!(m.build_items(&[], &desktop).is_empty());
}

#[test]
fn key_lists_and_close_commands() {
    assert!(same_strings(&vec![s("a")], &vec![s("a")]));
    assert!(!same_strings(&vec![s("a")], &vec![s("b")]));
    assert!(!same_strings(&vec![s("a")], &vec![]));
    assert_eq!(close_commands(&[3, 1]), vec![Command::Close(3), Command::Close(1)]);
}

#[test]
fn windows_listed_in_ascending_id_order() {
    let desktop = store();
    let mut m = DockModel::new();
    for id in [30, 10, 20, 5, 25, 15] {
        m.upsert_window(win(id, "term", "", false), &desktop);
    }
    m.upsert_window(win(12, "other", "", false), &desktop);
    assert_eq!(m.windows_for_key("term"), vec![5, 10, 15, 20, 25, 30]);
    assert_eq!(m.windows_for_key("other"), vec![12]);
    assert_eq!(m.windows_for_key("absent"), Vec::<u32>::new());
    m.remove_window(15);
    assert_eq!(m.windows_for_key("term"), vec![5, 10, 20, 25, 30]);
}

#[test]
fn window_changing_app_moves_between_items() {
    let desktop = store();
    let mut m = DockModel::new();
    m.upsert_window(win(1, "a", "", false), &desktop);
    m.upsert_window(win(2, "b", "", false), &desktop);
    m.upsert_window(win(1, "b", "", false), &desktop);
    assert_eq!(m.windows_for_key("a"), Vec::<u32>::new());
    assert_eq!(m.windows_for_key("b"), vec![1, 2]);
    let items = m.build_items(&[], &desktop);
    assert_eq!(items.len(), 1);
    assert_eq!(items[0].key, "b");
    assert_eq!(items[0].windows, vec![1, 2]);
}

#[test]
fn recording_a_window_twice_changes_nothing() {
    let desktop = store();
    let mut m = DockModel::new();
    m.upsert_window(win(3, "firefox", "Web", true), &desktop);
    m.upsert_window(win(8, "kitty", "sh", false), &desktop);
    let once: Vec<(String, Vec<u32>)> = m.build_items(&[], &desktop).into_iter().map(|i| (i.key, i.windows)).collect();
    m.upsert_window(win(8, "kitty", "sh", false), &desktop);
    let twice: Vec<(String, Vec<u32>)> = m.build_items(&[], &desktop).into_iter().map(|i| (i.key, i.windows)).collect();
    assert_eq!(once, twice);
    assert_eq!(once, vec![(s("firefox.desktop"), vec![3]), (s("kitty"), vec![8])]);
}

#[test]
fn open_then_close_keeps_items_even_with_stale_key() {
    let desktop = store();
    let mut m = DockModel::new();
    m.upsert_window(win(1, "a", "", true), &desktop);
    m.upsert_window(win(1, "b", "", true), &desktop);
    let pinned = vec![s("firefox.desktop")];
    let keys = |m: &DockModel| -> Vec<(String, Vec<u32>)> {
        m.build_items(&pinned, &desktop).into_iter().map(|i| (i.key, i.windows)).collect()
    };
    let before = keys(&m);
    m.upsert_window(win(2, "a", "t", false), &desktop);
    m.remove_window(2);
    assert_eq!(keys(&m), before);
    assert_eq!(before, vec![(s("firefox.desktop"), vec![]), (s("b"), vec![1])]);
    assert!(m.is_activated(1));
    assert!(!m.is_activated(2));
    assert_eq!(m.window_title(2), None);
    assert!(!m.should_dodge(None));
}
