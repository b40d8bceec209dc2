//! Layout decisions: which screen edges the dock's surfaces attach to, the
//! margins and gaps it keeps, the orientation of its row, and the colour scheme.

use vstd::prelude::*;
use crate::config::{Config, DockEdge, HideMode, StyleVariant, ThemePreference};
use crate::text::str_is;

verus! {

/// An edge of the screen, as the layer-shell protocol names them.
#[derive(Debug, Clone, Copy, PartialEq, Eq, Structural)]
pub enum LayerEdge {
    Left,
    Right,
    Top,
    Bottom,
}

/// The layer-shell edge the dock is anchored to.
pub fn to_layer_edge(edge: DockEdge) -> (r: LayerEdge)
    ensures
        r == match edge {
            DockEdge::Bottom => LayerEdge::Bottom,
            DockEdge::Left => LayerEdge::Left,
            DockEdge::Right => LayerEdge::Right,
        },
{
    match edge {
        DockEdge::Bottom => LayerEdge::Bottom,
        DockEdge::Left => LayerEdge::Left,
        DockEdge::Right => LayerEdge::Right,
    }
}

/// The edge along the dock from which tooltips and menus are positioned.
pub fn tooltip_primary_edge(edge: DockEdge) -> (r: LayerEdge)
    ensures
        r == match edge {
            DockEdge::Bottom => LayerEdge::Left,
            DockEdge::Left | DockEdge::Right => LayerEdge::Top,
        },
{
    match edge {
        DockEdge::Bottom => LayerEdge::Left,
        DockEdge::Left | DockEdge::Right => LayerEdge::Top,
    }
}

/// The edge across the screen from `edge`.
pub open spec fn opposite(edge: LayerEdge) -> LayerEdge {
    match edge {
        LayerEdge::Left => LayerEdge::Right,
        LayerEdge::Right => LayerEdge::Left,
        LayerEdge::Top => LayerEdge::Bottom,
        LayerEdge::Bottom => LayerEdge::Top,
    }
}

/// The edge across the screen from `edge`.
pub fn opposite_edge(edge: LayerEdge) -> (r: LayerEdge)
    ensures
        r == opposite(edge),
{
    match edge {
        LayerEdge::Left => LayerEdge::Right,
        LayerEdge::Right => LayerEdge::Left,
        LayerEdge::Top => LayerEdge::Bottom,
        LayerEdge::Bottom => LayerEdge::Top,
    }
}

/// Whether the running indicators lie along a horizontal row (the dock is at the bottom).
pub fn indicator_is_horizontal(edge: DockEdge) -> (r: bool)
    ensures
        r == (edge == DockEdge::Bottom),
{
    match edge {
        DockEdge::Bottom => true,
        _ => false,
    }
}

/// The orientation of a row of widgets.
#[derive(Debug, Clone, Copy, PartialEq, Eq, Structural)]
pub enum Orientation {
    Horizontal,
    Vertical,
}

/// The alignment of a widget in its cell.
#[derive(Debug, Clone, Copy, PartialEq, Eq, Structural)]
pub enum Align {
    Start,
    Center,
    End,
}

/// The orientation of the dock's row of icons.
pub fn dock_orientation(edge: DockEdge) -> (r: Orientation)
    ensures
        r == match edge {
            DockEdge::Bottom => Orientation::Horizontal,
            DockEdge::Left | DockEdge::Right => Orientation::Vertical,
        },
{
    match edge {
        DockEdge::Bottom => Orientation::Horizontal,
        DockEdge::Left | DockEdge::Right => Orientation::Vertical,
    }
}

/// Where a running indicator sits in its icon's cell: horizontal, then vertical alignment.
pub fn indicator_alignment(edge: DockEdge) -> (r: (Align, Align))
    ensures
        r == match edge {
            DockEdge::Bottom => (Align::Center, Align::End),
            DockEdge::Left => (Align::Start, Align::Center),
            DockEdge::Right => (Align::End, Align::Center),
        },
{
    match edge {
        DockEdge::Bottom => (Align::Center, Align::End),
        DockEdge::Left => (Align::Start, Align::Center),
        DockEdge::Right => (Align::End, Align::Center),
    }
}

/// The margin between the dock's surface and its screen edge while it is shown: the
/// configured margin for a round dock that never hides, else none.
pub open spec fn shown_margin(config: Config) -> i32 {
    match config.hide_mode {
        HideMode::Maximized | HideMode::Timed => 0,
        HideMode::Disabled => match config.style {
            StyleVariant::Round => config.edge_margin as i32,
            StyleVariant::Straight => 0,
        },
    }
}

/// The margin between the dock's surface and its screen edge while it is shown.
pub fn layer_margin(config: &Config) -> (r: i32)
    ensures
        r == shown_margin(*config),
{
    match config.hide_mode {
        HideMode::Maximized | HideMode::Timed => 0,
        HideMode::Disabled => match config.style {
            StyleVariant::Round => config.edge_margin as i32,
            StyleVariant::Straight => 0,
        },
    }
}

/// Whether the dock reserves screen space (a straight dock does; a round one floats).
pub fn reserves_space(style: StyleVariant) -> (r: bool)
    ensures
        r == (style == StyleVariant::Straight),
{
    match style {
        StyleVariant::Straight => true,
        StyleVariant::Round => false,
    }
}

/// The gap the style sheet keeps between the dock's background and its screen edge: the
/// configured margin for a round dock that hides, else none.
pub fn dock_gap(config: &Config) -> (r: u32)
    ensures
        r == match config.hide_mode {
            HideMode::Timed | HideMode::Maximized => match config.style {
                StyleVariant::Round => config.edge_margin,
                StyleVariant::Straight => 0u32,
            },
            HideMode::Disabled => 0u32,
        },
{
    match config.hide_mode {
        HideMode::Timed | HideMode::Maximized => match config.style {
            StyleVariant::Round => config.edge_margin,
            StyleVariant::Straight => 0,
        },
        HideMode::Disabled => 0,
    }
}

/// The style property that holds the gap to the screen edge.
pub fn dock_gap_property(edge: DockEdge) -> (r: &'static str)
    ensures
        r@ == match edge {
            DockEdge::Bottom => "margin-bottom"@,
            DockEdge::Left => "margin-start"@,
            DockEdge::Right => "margin-end"@,
        },
{
    match edge {
        DockEdge::Bottom => "margin-bottom",
        DockEdge::Left => "margin-start",
        DockEdge::Right => "margin-end",
    }
}

/// The style property that holds a vertical dock's indicator margin.
pub fn indicator_margin_property(edge: DockEdge) -> (r: &'static str)
    ensures
        r@ == match edge {
            DockEdge::Left => "margin-start"@,
            _ => "margin-end"@,
        },
{
    match edge {
        DockEdge::Left => "margin-start",
        _ => "margin-end",
    }
}

/// The gap a round dock keeps to its screen edge, as a margin.
pub fn css_gap(config: &Config) -> (r: i32)
    ensures
        r == match config.style {
            StyleVariant::Round => config.edge_margin as i32,
            StyleVariant::Straight => 0i32,
        },
{
    match config.style {
        StyleVariant::Round => config.edge_margin as i32,
        StyleVariant::Straight => 0,
    }
}

/// How much of a hidden dock stays on screen, in pixels.
pub const PEEK_PX: i32 = 6;

/// The (non-positive) margin that slides a hidden dock of thickness `thickness` (rounded
/// to pixels) and gap `gap` off the screen, all but `PEEK_PX` pixels.
pub fn collapsed_margin(thickness: i32, gap: i32) -> (r: i32)
    requires
        i32::MIN + PEEK_PX <= thickness + gap <= i32::MAX,
    ensures
        r == -(if thickness + gap - PEEK_PX > 0 {
            thickness + gap - PEEK_PX
        } else {
            0
        }),
{
    let extent = thickness + gap;
    let over = extent - PEEK_PX;
    if over > 0 {
        -over
    } else {
        0
    }
}

/// The length of the screen edge the dock lies along: the monitor's width for a bottom
/// dock, its height otherwise, or 1920 when no monitor is known.
pub fn available_length(edge: DockEdge, monitor_size: Option<(i32, i32)>) -> (r: i32)
    ensures
        r == match monitor_size {
            None => 1920i32,
            Some((w, h)) => match edge {
                DockEdge::Bottom => w,
                DockEdge::Left | DockEdge::Right => h,
            },
        },
{
    match monitor_size {
        None => 1920,
        Some((w, h)) => match edge {
            DockEdge::Bottom => w,
            DockEdge::Left | DockEdge::Right => h,
        },
    }
}

/// The colour scheme the dock is drawn in.
#[derive(Debug, Clone, Copy, PartialEq, Eq, Structural)]
pub enum ColorScheme {
    Light,
    Dark,
}

/// The colour scheme of the settings portal's `color-scheme` value: 1 means dark, anything
/// else light.
pub fn code_to_scheme(code: u32) -> (r: ColorScheme)
    ensures
        r == if code == 1 {
            ColorScheme::Dark
        } else {
            ColorScheme::Light
        },
{
    if code == 1 {
        ColorScheme::Dark
    } else {
        ColorScheme::Light
    }
}

/// The edge across from the edge across is the edge itself.
pub proof fn law_opposite_involutive(edge: LayerEdge)
    ensures
        opposite(opposite(edge)) == edge,
{
}

/// Whether a settings-portal signal reports a change of the colour scheme: a
/// `SettingChanged` signal with at least three parameters, for the key `color-scheme` of
/// the namespace `org.freedesktop.appearance`.
pub fn is_color_scheme_change(signal: &str, n_params: usize, namespace: &str, key: &str) -> (r: bool)
    ensures
        r == (signal@ == "SettingChanged"@ && n_params >= 3 && namespace@ == "org.freedesktop.appearance"@
            && key@ == "color-scheme"@),
{
    str_is(signal, "SettingChanged") && n_params >= 3 && str_is(namespace, "org.freedesktop.appearance")
        && str_is(key, "color-scheme")
}

/// The colours of the dock's style sheet for one colour scheme.
#[derive(Debug, Clone, Copy)]
pub struct Palette {
    pub fill_hex: &'static str,
    pub rim: &'static str,
    pub dot: &'static str,
    pub hover_highlight: &'static str,
    pub press_highlight: &'static str,
    pub tooltip_bg: &'static str,
    pub tooltip_fg: &'static str,
    pub tooltip_border: &'static str,
    pub menu_bg: &'static str,
    pub menu_fg: &'static str,
    pub menu_border: &'static str,
    pub menu_separator: &'static str,
    pub menu_accent: &'static str,
    pub menu_accent_active: &'static str,
}

/// The colours of the dock for `scheme`.
pub fn palette(scheme: ColorScheme) -> (p: Palette)
    ensures
        scheme == ColorScheme::Light ==> {
            &&& p.fill_hex@ == "#ececec"@
            &&& p.rim@ == "alpha(#000000, 0.12)"@
            &&& p.dot@ == "alpha(#000000, 0.60)"@
            &&& p.hover_highlight@ == "alpha(#000000, 0.06)"@
            &&& p.press_highlight@ == "alpha(#000000, 0.12)"@
            &&& p.tooltip_bg@ == "alpha(#ffffff, 0.95)"@
            &&& p.tooltip_fg@ == "#1a1a1a"@
            &&& p.tooltip_border@ == "alpha(#000000, 0.10)"@
            &&& p.menu_bg@ == "alpha(#f5f5f5, 0.96)"@
            &&& p.menu_fg@ == "#1a1a1a"@
            &&& p.menu_border@ == "alpha(#000000, 0.10)"@
            &&& p.menu_separator@ == "alpha(#000000, 0.12)"@
            &&& p.menu_accent@ == "#007aff"@
            &&& p.menu_accent_active@ == "alpha(#007aff, 0.85)"@
        },
        scheme == ColorScheme::Dark ==> {
            &&& p.fill_hex@ == "#191919"@
            &&& p.rim@ == "alpha(#a0a0a0, 0.40)"@
            &&& p.dot@ == "alpha(#f0f0f0, 0.90)"@
            &&& p.hover_highlight@ == "alpha(#ffffff, 0.09)"@
            &&& p.press_highlight@ == "alpha(#ffffff, 0.16)"@
            &&& p.tooltip_bg@ == "alpha(#2a2a2a, 0.94)"@
            &&& p.tooltip_fg@ == "#ffffff"@
            &&& p.tooltip_border@ == "alpha(#ffffff, 0.12)"@
            &&& p.menu_bg@ == "alpha(#1e1e1e, 0.94)"@
            &&& p.menu_fg@ == "#ffffff"@
            &&& p.menu_border@ == "alpha(#ffffff, 0.10)"@
            &&& p.menu_separator@ == "alpha(#ffffff, 0.12)"@
            &&& p.menu_accent@ == "#0a84ff"@
            &&& p.menu_accent_active@ == "alpha(#0a84ff, 0.85)"@
        },
{
    match scheme {
        ColorScheme::Light => Palette {
            fill_hex: "#ececec",
            rim: "alpha(#000000, 0.12)",
            dot: "alpha(#000000, 0.60)",
            hover_highlight: "alpha(#000000, 0.06)",
            press_highlight: "alpha(#000000, 0.12)",
            tooltip_bg: "alpha(#ffffff, 0.95)",
            tooltip_fg: "#1a1a1a",
            tooltip_border: "alpha(#000000, 0.10)",
            menu_bg: "alpha(#f5f5f5, 0.96)",
            menu_fg: "#1a1a1a",
            menu_border: "alpha(#000000, 0.10)",
            menu_separator: "alpha(#000000, 0.12)",
            menu_accent: "#007aff",
            menu_accent_active: "alpha(#007aff, 0.85)",
        },
        ColorScheme::Dark => Palette {
            fill_hex: "#191919",
            rim: "alpha(#a0a0a0, 0.40)",
            dot: "alpha(#f0f0f0, 0.90)",
            hover_highlight: "alpha(#ffffff, 0.09)",
            press_highlight: "alpha(#ffffff, 0.16)",
            tooltip_bg: "alpha(#2a2a2a, 0.94)",
            tooltip_fg: "#ffffff",
            tooltip_border: "alpha(#ffffff, 0.12)",
            menu_bg: "alpha(#1e1e1e, 0.94)",
            menu_fg: "#ffffff",
            menu_border: "alpha(#ffffff, 0.10)",
            menu_separator: "alpha(#ffffff, 0.12)",
            menu_accent: "#0a84ff",
            menu_accent_active: "alpha(#0a84ff, 0.85)",
        },
    }
}

/// The colour scheme a theme preference fixes; `None` when it follows the system.
pub fn fixed_scheme(pref: ThemePreference) -> (r: Option<ColorScheme>)
    ensures
        r == match pref {
            ThemePreference::System => None,
            ThemePreference::Light => Some(ColorScheme::Light),
            ThemePreference::Dark => Some(ColorScheme::Dark),
        },
{
    match pref {
        ThemePreference::System => None,
        ThemePreference::Light => Some(ColorScheme::Light),
        ThemePreference::Dark => Some(ColorScheme::Dark),
    }
}

/// Whether the settings window asks for a dark theme, given the system's scheme for the
/// System preference.
pub fn prefers_dark(pref: ThemePreference, system: ColorScheme) -> (r: bool)
    ensures
        r == match pref {
            ThemePreference::Light => false,
            ThemePreference::Dark => true,
            ThemePreference::System => system == ColorScheme::Dark,
        },
{
    match pref {
        ThemePreference::Light => false,
        ThemePreference::Dark => true,
        ThemePreference::System => match system {
            ColorScheme::Dark => true,
            ColorScheme::Light => false,
        },
    }
}

}
