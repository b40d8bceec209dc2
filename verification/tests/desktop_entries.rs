use jdock::desktop::{
    expand_field_codes, launch, launch_action, parse_desktop_file, DesktopAction, DesktopEntry,
    DesktopEntryStore, LaunchError,
};

fn s(x: &str) -> String {
    x.to_string()
}

fn entry(id: &str, name: &str) -> DesktopEntry {
    DesktopEntry {
        id: s(id),
        name: s(name),
        icon: None,
        exec_line: None,
        terminal: false,
        startup_wm_class: None,
        actions: Vec::new(),
    }
}

const FIREFOX: &str = "\
# comment
[Desktop Entry]
Type=Application
Name=Firefox
Name=Firefox Web Browser
Icon=firefox
Exec=firefox %u
Terminal=FALSE
StartupWMClass=Navigator
Actions=new-window;new-private-window;missing;

[Desktop Action new-window]
Name=New Window
Exec=firefox --new-window %u

[Desktop Action new-private-window]
Name=New Private Window

[Desktop Action missing]
Exec=nothing
";

#[test]
fn parses_full_entry() {
    let e = parse_desktop_file(FIREFOX, s("firefox.desktop")).expect("an application");
    assert_eq!(e.id, "firefox.desktop");
    assert_eq!(e.name, "Firefox Web Browser");
    assert_eq!(e.icon.as_deref(), Some("firefox"));
    assert_eq!(e.exec_line.as_deref(), Some("firefox %u"));
    assert!(!e.terminal);
    assert_eq!(e.startup_wm_class.as_deref(), Some("Navigator"));
    assert_eq!(e.actions.len(), 2);
    assert_eq!(e.actions[0].name, "New Window");
    assert_eq!(e.actions[0].exec_line.as_deref(), Some("firefox --new-window %u"));
    assert_eq!(e.actions[1].name, "New Private Window");
    assert_eq!(e.actions[1].exec_line, None);
}

#[test]
fn parse_trims_and_reopens_groups() {
    let raw = "  [Desktop Entry]  \r\n Type = Application \r\nName=  A  \n[Other]\nIcon=x\n[Desktop Entry]\nIcon=y\nTerminal=True\n";
    let e = parse_desktop_file(raw, s("a.desktop")).unwrap();
    assert_eq!(e.name, "A");
    assert_eq!(e.icon.as_deref(), Some("y"));
    assert!(e.terminal);
}

#[test]
fn parse_rejects_non_applications() {
    assert!(parse_desktop_file("[Desktop Entry]\nType=Link\nName=L\n", s("l.desktop")).is_none());
    assert!(parse_desktop_file("[Desktop Entry]\nName=NoType\n", s("n.desktop")).is_none());
    assert!(parse_desktop_file("[Desktop Entry]\nType=Application\n", s("noname.desktop")).is_none());
    assert!(parse_desktop_file("Type=Application\nName=X\n", s("nogroup.desktop")).is_none());
    assert!(parse_desktop_file("", s("empty.desktop")).is_none());
}

#[test]
fn parse_ignores_lines_without_equals_and_comments() {
    let raw = "[Desktop Entry]\n#Name=Hidden\nType=Application\njunk\nName=Shown=Yes\n[\n";
    let e = parse_desktop_file(raw, s("x.desktop")).unwrap();
    assert_eq!(e.name, "Shown=Yes");
}

#[test]
fn scan_first_file_wins_and_bad_files_skipped() {
    let files = vec![
        (s("a.desktop"), s("[Desktop Entry]\nType=Link\nName=Bad\n")),
        (s("a.desktop"), s("[Desktop Entry]\nType=Application\nName=First\n")),
        (s("a.desktop"), s("[Desktop Entry]\nType=Application\nName=Second\n")),
        (s("b.desktop"), s("[Desktop Entry]\nType=Application\nName=B\n")),
    ];
    let store = DesktopEntryStore::scan(files);
    assert_eq!(store.get("a.desktop").unwrap().name, "First");
    assert_eq!(store.get("b.desktop").unwrap().name, "B");
    assert!(store.get("c.desktop").is_none());
}

fn app(id: &str, name: &str, wm_class: Option<&str>) -> String {
    let mut t = format!("[Desktop Entry]\nType=Application\nName={name}\n");
    if let Some(c) = wm_class {
        t.push_str(&format!("StartupWMClass={c}\n"));
    }
    let _ = id;
    t
}

fn store_of(list: &[(&str, &str, Option<&str>)]) -> DesktopEntryStore {
    DesktopEntryStore::scan(list.iter().map(|(id, name, c)| (s(id), app(id, name, *c))).collect())
}

#[test]
fn find_by_app_id_rules() {
    let store = store_of(&[
        ("org.gnome.Nautilus.desktop", "Files", None),
        ("firefox.desktop", "Firefox", Some("Navigator")),
        ("code.desktop", "Code", None),
        ("Alacritty.desktop", "Alacritty", None),
        ("com.example.Tool.desktop", "Tool", None),
    ]);
    assert_eq!(store.find_by_app_id("org.gnome.Nautilus").unwrap().id, "org.gnome.Nautilus.desktop");
    assert_eq!(store.find_by_app_id("navigator").unwrap().id, "firefox.desktop");
    assert_eq!(store.find_by_app_id("alacritty").unwrap().id, "Alacritty.desktop");
    assert_eq!(store.find_by_app_id("com.visualstudio.Code").unwrap().id, "code.desktop");
    assert_eq!(store.find_by_app_id("tool").unwrap().id, "com.example.Tool.desktop");
    assert!(store.find_by_app_id("unknown-app").is_none());
}

#[test]
fn find_by_app_id_prefers_exact_id() {
    let store = store_of(&[("other.desktop", "Other", Some("Foo")), ("Foo.desktop", "Foo", None)]);
    assert_eq!(store.find_by_app_id("Foo").unwrap().id, "Foo.desktop");
}

#[test]
fn find_by_app_id_lowercases_unicode() {
    let store = store_of(&[("straße.desktop", "S", None)]);
    assert_eq!(store.find_by_app_id("STRASSE").map(|e| e.id.clone()), None);
    assert_eq!(store.find_by_app_id("Straße").unwrap().id, "straße.desktop");
}

#[test]
fn trims_repeated_desktop_suffix() {
    let store = store_of(&[("app.desktop.desktop", "App", None)]);
    assert_eq!(store.find_by_app_id("APP").unwrap().id, "app.desktop.desktop");
}

#[test]
fn field_codes_expand() {
    let mut e = entry("t.desktop", "Tool");
    e.icon = Some(s("tool-icon"));
    let words: Vec<String> = ["tool", "%f", "%U", "%i", "%c", "%k", "%%", "--flag", "%m"].iter().map(|w| s(w)).collect();
    let args = expand_field_codes(&words, &e);
    assert_eq!(args, vec![s("tool"), s("--icon tool-icon"), s("Tool"), s("%"), s("--flag")]);
    e.icon = None;
    let args = expand_field_codes(&words, &e);
    assert_eq!(args, vec![s("tool"), s("Tool"), s("%"), s("--flag")]);
}

#[test]
fn launch_splits_with_shell_quoting() {
    let mut e = entry("q.desktop", "Q");
    e.exec_line = Some(s("sh -c 'echo \"hi there\"' %F"));
    assert_eq!(launch(&e, None), Ok(vec![s("sh"), s("-c"), s("echo \"hi there\"")]));
}

#[test]
fn launch_in_terminal() {
    let mut e = entry("vim.desktop", "Vim");
    e.exec_line = Some(s("vim %F"));
    e.terminal = true;
    assert_eq!(launch(&e, None), Ok(vec![s("x-terminal-emulator"), s("-e"), s("vim")]));
    assert_eq!(launch(&e, Some("foot")), Ok(vec![s("foot"), s("-e"), s("vim")]));
}

#[test]
fn launch_errors() {
    let mut e = entry("e.desktop", "E");
    assert_eq!(launch(&e, None), Err(LaunchError::NoExec));
    e.exec_line = Some(s("broken 'quote"));
    assert_eq!(launch(&e, None), Err(LaunchError::Unparsable));
    e.exec_line = Some(s("%f %U %k"));
    assert_eq!(launch(&e, None), Err(LaunchError::NoCommand));
    assert_eq!(LaunchError::NoExec.message(), "desktop entry has no Exec line");
    assert_eq!(LaunchError::Unparsable.message(), "could not parse Exec line");
    assert_eq!(LaunchError::NoCommand.message(), "Exec line had no command after stripping field codes");
}

#[test]
fn launch_action_uses_action_exec_and_entry_fields() {
    let mut e = entry("f.desktop", "F");
    e.exec_line = Some(s("f"));
    e.icon = Some(s("f-icon"));
    let a = DesktopAction { name: s("New"), exec_line: Some(s("f --new %i")) };
    assert_eq!(launch_action(&e, &a, None), Ok(vec![s("f"), s("--new"), s("--icon f-icon")]));
    let none = DesktopAction { name: s("Bad"), exec_line: None };
    assert_eq!(launch_action(&e, &none, None), Err(LaunchError::NoExec));
}
