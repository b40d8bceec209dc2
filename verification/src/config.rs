//! The dock's settings and the choices the settings window offers for them.

use vstd::prelude::*;
use crate::text::{string_from, strings};

verus! {

/// The shape of the dock's background.
#[derive(Debug, Clone, Copy, PartialEq, Eq, Structural)]
pub enum StyleVariant {
    Round,
    Straight,
}

/// The screen edge the dock sits on.
#[derive(Debug, Clone, Copy, PartialEq, Eq, Structural)]
pub enum DockEdge {
    Bottom,
    Left,
    Right,
}

/// When the dock hides itself.
#[derive(Debug, Clone, Copy, PartialEq, Eq, Structural)]
pub enum HideMode {
    /// Never.
    Disabled,
    /// While an active window is maximized or fullscreen.
    Maximized,
    /// Shortly after the pointer leaves it.
    Timed,
}

impl Default for HideMode {
    fn default() -> (r: Self)
        ensures
            r == HideMode::Maximized,
    {
        HideMode::Maximized
    }
}

impl HideMode {
    /// The name shown for the mode.
    pub fn label(self) -> (r: &'static str)
        ensures
            r@ == match self {
                HideMode::Disabled => "Disabled"@,
                HideMode::Maximized => "Maximized"@,
                HideMode::Timed => "Timed"@,
            },
    {
        match self {
            HideMode::Disabled => "Disabled",
            HideMode::Maximized => "Maximized",
            HideMode::Timed => "Timed",
        }
    }
}

/// Which colour scheme the dock follows.
#[derive(Debug, Clone, Copy, PartialEq, Eq, Structural)]
pub enum ThemePreference {
    System,
    Light,
    Dark,
}

/// The dock's settings (the background opacity is kept by the user interface).
#[derive(Debug, Clone)]
pub struct Config {
    pub icon_size: u32,
    pub style: StyleVariant,
    pub edge: DockEdge,
    pub theme: ThemePreference,
    pub edge_margin: u32,
    pub pinned: Vec<String>,
    pub monitor: Option<String>,
    pub hide_mode: HideMode,
    pub show_trash: bool,
}

impl Default for Config {
    fn default() -> (c: Self)
        ensures
            c.icon_size == 53,
            c.style == StyleVariant::Round,
            c.edge == DockEdge::Bottom,
            c.theme == ThemePreference::System,
            c.edge_margin == 10,
            strings(c.pinned@) == seq!["firefox.desktop"@, "org.gnome.Nautilus.desktop"@],
            c.monitor is None,
            c.hide_mode == HideMode::Maximized,
            c.show_trash,
    {
        let mut pinned: Vec<String> = Vec::new();
        pinned.push(string_from("firefox.desktop"));
        pinned.push(string_from("org.gnome.Nautilus.desktop"));
        assert(strings(pinned@) =~= seq!["firefox.desktop"@, "org.gnome.Nautilus.desktop"@]);
        Config {
            icon_size: 53,
            style: StyleVariant::Round,
            edge: DockEdge::Bottom,
            theme: ThemePreference::System,
            edge_margin: 10,
            pinned,
            monitor: None,
            hide_mode: HideMode::default(),
            show_trash: true,
        }
    }
}

/// The icon sizes the settings window offers, in pixels.
pub open spec fn icon_size_options() -> Seq<u32> {
    seq![40u32, 48u32, 53u32, 64u32, 72u32]
}

/// The icon sizes the settings window offers, in pixels.
pub fn icon_size_choices() -> (r: Vec<u32>)
    ensures
        r@ == icon_size_options(),
{
    let r = vec![40u32, 48u32, 53u32, 64u32, 72u32];
    assert(r@ =~= icon_size_options());
    r
}

/// The entry the icon-size list selects for `size`: its position, or the first entry when
/// `size` is not offered.
pub fn icon_size_choice(size: u32) -> (r: u32)
    ensures
        icon_size_options().contains(size) ==> r < 5 && icon_size_options()[r as int] == size
            && forall|j: int| 0 <= j < r ==> icon_size_options()[j] != size,
        !icon_size_options().contains(size) ==> r == 0,
{
    let options = icon_size_choices();
    let mut i: usize = 0;
    while i < options.len()
        invariant
            options@ == icon_size_options(),
            i <= options.len(),
            forall|j: int| 0 <= j < i ==> options@[j] != size,
        decreases options.len() - i,
    {
        if options[i] == size {
            return i as u32;
        }
        i += 1;
    }
    0
}

/// The icon size of entry `choice` of the list, or `fallback` for an entry it does not have.
pub fn icon_size_from_choice(choice: u32, fallback: u32) -> (r: u32)
    ensures
        r == if choice < 5 {
            icon_size_options()[choice as int]
        } else {
            fallback
        },
{
    let options = icon_size_choices();
    if (choice as usize) < options.len() {
        options[choice as usize]
    } else {
        fallback
    }
}

/// The position of `theme` in the theme list (System, Light, Dark).
pub open spec fn theme_index(theme: ThemePreference) -> u32 {
    match theme {
        ThemePreference::System => 0u32,
        ThemePreference::Light => 1u32,
        ThemePreference::Dark => 2u32,
    }
}

/// The theme at position `choice` of the theme list; any other position means System.
pub open spec fn theme_at(choice: u32) -> ThemePreference {
    if choice == 1 {
        ThemePreference::Light
    } else if choice == 2 {
        ThemePreference::Dark
    } else {
        ThemePreference::System
    }
}

/// The position of `mode` in the hide-mode list (Disabled, Maximized, Timed).
pub open spec fn hide_mode_index(mode: HideMode) -> u32 {
    match mode {
        HideMode::Disabled => 0u32,
        HideMode::Maximized => 1u32,
        HideMode::Timed => 2u32,
    }
}

/// The hide mode at position `choice` of the hide-mode list; any other position means
/// Disabled.
pub open spec fn hide_mode_at(choice: u32) -> HideMode {
    if choice == 1 {
        HideMode::Maximized
    } else if choice == 2 {
        HideMode::Timed
    } else {
        HideMode::Disabled
    }
}

/// The entry of the theme list that shows `theme`.
pub fn theme_choice(theme: ThemePreference) -> (r: u32)
    ensures
        r == theme_index(theme),
{
    match theme {
        ThemePreference::System => 0,
        ThemePreference::Light => 1,
        ThemePreference::Dark => 2,
    }
}

/// The theme of entry `choice` of the theme list; any other entry means System.
pub fn theme_from_choice(choice: u32) -> (r: ThemePreference)
    ensures
        r == theme_at(choice),
{
    if choice == 1 {
        ThemePreference::Light
    } else if choice == 2 {
        ThemePreference::Dark
    } else {
        ThemePreference::System
    }
}

/// The entry of the hide-mode list that shows `mode`.
pub fn hide_mode_choice(mode: HideMode) -> (r: u32)
    ensures
        r == hide_mode_index(mode),
{
    match mode {
        HideMode::Disabled => 0,
        HideMode::Maximized => 1,
        HideMode::Timed => 2,
    }
}

/// The hide mode of entry `choice` of the hide-mode list; any other entry means Disabled.
pub fn hide_mode_from_choice(choice: u32) -> (r: HideMode)
    ensures
        r == hide_mode_at(choice),
{
    if choice == 1 {
        HideMode::Maximized
    } else if choice == 2 {
        HideMode::Timed
    } else {
        HideMode::Disabled
    }
}

/// Choosing the entry that shows a theme gives that theme back; likewise for hide modes.
pub proof fn law_choices_round_trip(theme: ThemePreference, mode: HideMode)
    ensures
        theme_at(theme_index(theme)) == theme,
        hide_mode_at(hide_mode_index(mode)) == mode,
{
}

}
