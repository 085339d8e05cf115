//! Desktop placement: surface bounds, anchoring on a screen, layer-shell
//! edge flags and margins, and the choice of window backend from the
//! session's environment.
use crate::text::{
    contains_chars, contains_seq, str_eq, to_chars, to_lowercase_str, to_uppercase_str, trim,
    trim_str, unicode_lower, unicode_upper,
};
use std::collections::HashMap;
use vstd::prelude::*;

verus! {

/// Display and window backend errors.
#[derive(Debug, Clone, PartialEq, Eq)]
pub enum DisplayError {
    SurfaceDestroyed,
    Backend(String),
    Protocol(String),
    InvalidGeometry(String),
    DBus(String),
    /// An I/O failure, with its message.
    Io(String),
}

/// The value of `w as i32`: widths above `i32::MAX` wrap to negatives.
pub open spec fn as_i32(w: u32) -> int {
    if w <= i32::MAX {
        w as int
    } else {
        w - 0x1_0000_0000
    }
}

pub open spec fn fits_i32(v: int) -> bool {
    i32::MIN <= v <= i32::MAX
}

/// `w as i32`, widened.
pub fn as_i32_exec(w: u32) -> (r: i64)
    ensures
        r == as_i32(w),
{
    wrap_u32(w)
}

fn wrap_u32(w: u32) -> (r: i64)
    ensures
        r == as_i32(w),
{
    if w <= 0x7fff_ffff {
        w as i64
    } else {
        w as i64 - 0x1_0000_0000
    }
}

/// 2D bounding box for desktop surfaces.
#[derive(Debug, Clone, Copy, PartialEq, Eq, Default)]
pub struct SurfaceBounds {
    pub x: i32,
    pub y: i32,
    pub width: u32,
    pub height: u32,
}

impl SurfaceBounds {
    pub fn new(x: i32, y: i32, width: u32, height: u32) -> (r: Self)
        ensures
            r == (SurfaceBounds { x, y, width, height }),
    {
        SurfaceBounds { x, y, width, height }
    }

    /// Both far edges are representable: they are computed in `i32`, which
    /// would overflow otherwise.
    pub open spec fn edges_fit(&self) -> bool {
        fits_i32(self.x + as_i32(self.width)) && fits_i32(self.y + as_i32(self.height))
    }

    pub open spec fn covers(&self, px: int, py: int) -> bool {
        &&& self.x <= px < self.x + as_i32(self.width)
        &&& self.y <= py < self.y + as_i32(self.height)
    }

    /// Whether the point lies inside the box (right and bottom edges
    /// excluded).
    pub fn contains(&self, px: i32, py: i32) -> (r: bool)
        requires
            self.edges_fit(),
        ensures
            r == self.covers(px as int, py as int),
    {
        let right = self.x as i64 + wrap_u32(self.width);
        let bottom = self.y as i64 + wrap_u32(self.height);
        px >= self.x && (px as i64) < right && py >= self.y && (py as i64) < bottom
    }
}

/// The integer geometry of a monitor that placement reads.
#[derive(Debug, Clone, Copy, PartialEq, Eq)]
pub struct ScreenArea {
    pub x: i32,
    pub y: i32,
    pub width: u32,
    pub height: u32,
}

impl ScreenArea {
    pub fn new(x: i32, y: i32, width: u32, height: u32) -> (r: Self)
        ensures
            r == (ScreenArea { x, y, width, height }),
    {
        ScreenArea { x, y, width, height }
    }
}

/// Anchor positioning type for desktop skin windows.
#[derive(Debug, Clone, Copy, PartialEq, Eq, Hash)]
pub enum Anchor {
    TopLeft,
    TopCenter,
    TopRight,
    Center,
    BottomLeft,
    BottomCenter,
    BottomRight,
    Absolute,
}

/// Integer division by two rounding toward zero, as `i32 / 2` does.
pub open spec fn half(a: int) -> int {
    if a >= 0 {
        a / 2
    } else {
        -((-a) / 2)
    }
}

/// Where the anchored axis starts: at the near edge plus the margin, in
/// the middle plus the margin, or at the far edge minus size and margin.
pub open spec fn axis_start(place: int, origin: int, extent: int, size: int, margin: int) -> int {
    if place == 0 {
        origin + margin
    } else if place == 1 {
        origin + half(extent - size) + margin
    } else {
        origin + extent - size - margin
    }
}

/// The intermediate values of `axis_start` all fit in `i32`.
pub open spec fn axis_fits(place: int, origin: int, extent: int, size: int, margin: int) -> bool {
    if place == 0 {
        fits_i32(origin + margin)
    } else if place == 1 {
        &&& fits_i32(extent - size)
        &&& fits_i32(origin + half(extent - size))
        &&& fits_i32(origin + half(extent - size) + margin)
    } else {
        &&& fits_i32(origin + extent)
        &&& fits_i32(origin + extent - size)
        &&& fits_i32(origin + extent - size - margin)
    }
}

impl Anchor {
    /// Horizontal placement: 0 near edge, 1 centred, 2 far edge.
    pub open spec fn h_place(self) -> int {
        match self {
            Anchor::TopCenter | Anchor::Center | Anchor::BottomCenter => 1,
            Anchor::TopRight | Anchor::BottomRight => 2,
            _ => 0,
        }
    }

    /// Vertical placement: 0 near edge, 1 centred, 2 far edge.
    pub open spec fn v_place(self) -> int {
        match self {
            Anchor::Center => 1,
            Anchor::BottomLeft | Anchor::BottomCenter | Anchor::BottomRight => 2,
            _ => 0,
        }
    }

    pub open spec fn position_fits(
        self,
        screen: ScreenArea,
        widget_w: u32,
        widget_h: u32,
        margin_x: i32,
        margin_y: i32,
    ) -> bool {
        &&& axis_fits(
            self.h_place(),
            screen.x as int,
            as_i32(screen.width),
            as_i32(widget_w),
            margin_x as int,
        )
        &&& axis_fits(
            self.v_place(),
            screen.y as int,
            as_i32(screen.height),
            as_i32(widget_h),
            margin_y as int,
        )
    }

    pub open spec fn position(
        self,
        screen: ScreenArea,
        widget_w: u32,
        widget_h: u32,
        margin_x: i32,
        margin_y: i32,
    ) -> (int, int) {
        (
            axis_start(
                self.h_place(),
                screen.x as int,
                as_i32(screen.width),
                as_i32(widget_w),
                margin_x as int,
            ),
            axis_start(
                self.v_place(),
                screen.y as int,
                as_i32(screen.height),
                as_i32(widget_h),
                margin_y as int,
            ),
        )
    }

    /// Resolves top-left screen coordinates given the screen, the widget
    /// size and the margins, which are inward offsets from the anchored
    /// edges (`Center` and the centred axes add them).
    pub fn resolve_position(
        &self,
        screen: &ScreenArea,
        widget_w: u32,
        widget_h: u32,
        margin_x: i32,
        margin_y: i32,
    ) -> (r: (i32, i32))
        requires
            self.position_fits(*screen, widget_w, widget_h, margin_x, margin_y),
        ensures
            r.0 == self.position(*screen, widget_w, widget_h, margin_x, margin_y).0,
            r.1 == self.position(*screen, widget_w, widget_h, margin_x, margin_y).1,
    {
        let x = axis_exec(
            self.h_place_exec(),
            screen.x,
            wrap_u32(screen.width),
            wrap_u32(widget_w),
            margin_x,
        );
        let y = axis_exec(
            self.v_place_exec(),
            screen.y,
            wrap_u32(screen.height),
            wrap_u32(widget_h),
            margin_y,
        );
        (x, y)
    }

    fn h_place_exec(&self) -> (r: u8)
        ensures
            r == self.h_place(),
    {
        match self {
            Anchor::TopCenter | Anchor::Center | Anchor::BottomCenter => 1,
            Anchor::TopRight | Anchor::BottomRight => 2,
            _ => 0,
        }
    }

    fn v_place_exec(&self) -> (r: u8)
        ensures
            r == self.v_place(),
    {
        match self {
            Anchor::Center => 1,
            Anchor::BottomLeft | Anchor::BottomCenter | Anchor::BottomRight => 2,
            _ => 0,
        }
    }

    /// Resolves the full bounds of the widget.
    pub fn resolve_bounds(
        &self,
        screen: &ScreenArea,
        widget_w: u32,
        widget_h: u32,
        margin_x: i32,
        margin_y: i32,
    ) -> (r: SurfaceBounds)
        requires
            self.position_fits(*screen, widget_w, widget_h, margin_x, margin_y),
        ensures
            r.x == self.position(*screen, widget_w, widget_h, margin_x, margin_y).0,
            r.y == self.position(*screen, widget_w, widget_h, margin_x, margin_y).1,
            r.width == widget_w,
            r.height == widget_h,
    {
        let (x, y) = self.resolve_position(screen, widget_w, widget_h, margin_x, margin_y);
        SurfaceBounds::new(x, y, widget_w, widget_h)
    }

    /// The layer-shell edges a surface with this anchor is attached to.
    pub fn layer_shell_edges(&self) -> (r: LayerShellAnchor)
        ensures
            r.0 == edge_bits(*self),
    {
        assert(1u32 | 4u32 == 5 && 1u32 | 8u32 == 9 && 2u32 | 4u32 == 6 && 2u32 | 8u32 == 10)
            by (bit_vector);
        match self {
            Anchor::TopLeft => LayerShellAnchor::top().union(LayerShellAnchor::left()),
            Anchor::TopCenter => LayerShellAnchor::top(),
            Anchor::TopRight => LayerShellAnchor::top().union(LayerShellAnchor::right()),
            Anchor::Center => LayerShellAnchor::empty(),
            Anchor::BottomLeft => LayerShellAnchor::bottom().union(LayerShellAnchor::left()),
            Anchor::BottomCenter => LayerShellAnchor::bottom(),
            Anchor::BottomRight => LayerShellAnchor::bottom().union(LayerShellAnchor::right()),
            Anchor::Absolute => LayerShellAnchor::top().union(LayerShellAnchor::left()),
        }
    }

    /// The layer-shell margins `(top, right, bottom, left)` for the
    /// offsets `(mx, my)`: each offset goes to the edge it is measured from.
    pub fn layer_shell_margins(&self, margin: (i32, i32)) -> (r: (i32, i32, i32, i32))
        ensures
            r == margins_for(*self, margin.0, margin.1),
    {
        let (mx, my) = margin;
        match self {
            Anchor::TopLeft => (my, 0, 0, mx),
            Anchor::TopCenter => (my, 0, 0, mx),
            Anchor::TopRight => (my, mx, 0, 0),
            Anchor::Center => (my, 0, 0, mx),
            Anchor::BottomLeft => (0, 0, my, mx),
            Anchor::BottomCenter => (0, 0, my, mx),
            Anchor::BottomRight => (0, mx, my, 0),
            Anchor::Absolute => (my, 0, 0, mx),
        }
    }
}

fn axis_exec(place: u8, origin: i32, extent: i64, size: i64, margin: i32) -> (r: i32)
    requires
        place <= 2,
        axis_fits(place as int, origin as int, extent as int, size as int, margin as int),
        fits_i32(extent as int),
        fits_i32(size as int),
    ensures
        r == axis_start(place as int, origin as int, extent as int, size as int, margin as int),
{
    if place == 0 {
        (origin as i64 + margin as i64) as i32
    } else if place == 1 {
        let d: i64 = extent - size;
        let h: i64 = if d >= 0 {
            d / 2
        } else {
            -((-d) / 2)
        };
        (origin as i64 + h + margin as i64) as i32
    } else {
        (origin as i64 + extent - size - margin as i64) as i32
    }
}

/// Edge flags of an anchor: top 1, bottom 2, left 4, right 8.
pub open spec fn edge_bits(a: Anchor) -> u32 {
    match a {
        Anchor::TopLeft => 5,
        Anchor::TopCenter => 1,
        Anchor::TopRight => 9,
        Anchor::Center => 0,
        Anchor::BottomLeft => 6,
        Anchor::BottomCenter => 2,
        Anchor::BottomRight => 10,
        Anchor::Absolute => 5,
    }
}

pub open spec fn margins_for(a: Anchor, mx: i32, my: i32) -> (i32, i32, i32, i32) {
    match a {
        Anchor::TopRight => (my, mx, 0, 0),
        Anchor::BottomLeft | Anchor::BottomCenter => (0, 0, my, mx),
        Anchor::BottomRight => (0, mx, my, 0),
        _ => (my, 0, 0, mx),
    }
}

/// Wayland wlr-layer-shell surface layers, in protocol order.
#[derive(Debug, Clone, Copy, PartialEq, Eq, Hash)]
pub enum Layer {
    Background,
    Bottom,
    Top,
    Overlay,
}

/// Bit flags of `zwlr_layer_surface_v1` edge anchors.
#[derive(Debug, Clone, Copy, PartialEq, Eq, Default)]
pub struct LayerShellAnchor(pub u32);

impl LayerShellAnchor {
    pub fn top() -> (r: Self)
        ensures
            r.0 == 1,
    {
        LayerShellAnchor(1)
    }

    pub fn bottom() -> (r: Self)
        ensures
            r.0 == 2,
    {
        LayerShellAnchor(2)
    }

    pub fn left() -> (r: Self)
        ensures
            r.0 == 4,
    {
        LayerShellAnchor(4)
    }

    pub fn right() -> (r: Self)
        ensures
            r.0 == 8,
    {
        LayerShellAnchor(8)
    }

    pub fn empty() -> (r: Self)
        ensures
            r.0 == 0,
    {
        LayerShellAnchor(0)
    }

    /// Every flag of `other` is set in `self`.
    pub fn contains(&self, other: Self) -> (r: bool)
        ensures
            r == (self.0 & other.0 == other.0),
    {
        (self.0 & other.0) == other.0
    }

    pub fn bits(&self) -> (r: u32)
        ensures
            r == self.0,
    {
        self.0
    }

    /// Builds flags from raw bits, keeping only the four edge flags
    /// (top 1, bottom 2, left 4, right 8).
    pub fn from_bits_truncate(bits: u32) -> (r: Self)
        ensures
            r.0 == bits & 0xF,
    {
        LayerShellAnchor(bits & 0xF)
    }

    /// The flags of both (`|`).
    pub fn union(self, other: Self) -> (r: Self)
        ensures
            r.0 == self.0 | other.0,
    {
        LayerShellAnchor(self.0 | other.0)
    }
}

/// A layer-shell surface is attached to at most one of the top and bottom
/// edges and at most one of the left and right edges, and its margins are
/// non-zero only on the edges its anchor measures from.
pub proof fn law_layer_shell_edges_consistent(a: Anchor, mx: i32, my: i32)
    ensures
        edge_bits(a) & 3 != 3,
        edge_bits(a) & 12 != 12,
        edge_bits(a) & 1 == 0 ==> margins_for(a, mx, my).0 == 0 || a == Anchor::Center,
        edge_bits(a) & 2 == 0 ==> margins_for(a, mx, my).2 == 0,
        edge_bits(a) & 8 == 0 ==> margins_for(a, mx, my).1 == 0,
{
    assert(5u32 & 3 == 1 && 5u32 & 12 == 4 && 5u32 & 1 == 1 && 5u32 & 2 == 0 && 5u32 & 8 == 0)
        by (bit_vector);
    assert(1u32 & 3 == 1 && 1u32 & 12 == 0 && 1u32 & 1 == 1 && 1u32 & 2 == 0 && 1u32 & 8 == 0)
        by (bit_vector);
    assert(9u32 & 3 == 1 && 9u32 & 12 == 8 && 9u32 & 1 == 1 && 9u32 & 2 == 0 && 9u32 & 8 == 8)
        by (bit_vector);
    assert(0u32 & 3 == 0 && 0u32 & 12 == 0 && 0u32 & 1 == 0 && 0u32 & 2 == 0 && 0u32 & 8 == 0)
        by (bit_vector);
    assert(6u32 & 3 == 2 && 6u32 & 12 == 4 && 6u32 & 1 == 0 && 6u32 & 2 == 2 && 6u32 & 8 == 0)
        by (bit_vector);
    assert(2u32 & 3 == 2 && 2u32 & 12 == 0 && 2u32 & 1 == 0 && 2u32 & 2 == 2 && 2u32 & 8 == 0)
        by (bit_vector);
    assert(10u32 & 3 == 2 && 10u32 & 12 == 8 && 10u32 & 1 == 0 && 10u32 & 2 == 2 && 10u32 & 8
        == 8) by (bit_vector);
}

} // verus!
verus! {

/// Supported desktop window backend types.
#[derive(Debug, Clone, Copy, PartialEq, Eq, Hash)]
pub enum BackendType {
    WlrLayerShell,
    GnomeWayland,
    X11,
    Mock,
}

/// The environment variables backend detection reads.
#[derive(Debug, Clone)]
pub struct BackendEnv {
    pub pluvia_backend: Option<String>,
    pub backend: Option<String>,
    pub wayland_display: Option<String>,
    pub xdg_session_type: Option<String>,
    pub xdg_current_desktop: Option<String>,
    pub xdg_session_desktop: Option<String>,
    pub gnome_desktop_session_id: Option<String>,
    pub display: Option<String>,
}

pub open spec fn ov(o: Option<String>) -> Option<Seq<char>> {
    match o {
        Some(s) => Some(s@),
        None => None,
    }
}

pub open spec fn or_empty(o: Option<String>) -> Seq<char> {
    match o {
        Some(s) => s@,
        None => Seq::empty(),
    }
}

/// Set and not blank.
pub open spec fn present(o: Option<String>) -> bool {
    o matches Some(s) && trim(s@).len() > 0
}

/// The backend an explicit override names, if it names one.
pub open spec fn explicit_backend(name: Seq<char>) -> Option<BackendType> {
    if name == "mock"@ || name == "test"@ || name == "headless"@ {
        Some(BackendType::Mock)
    } else if name == "layer-shell"@ || name == "layershell"@ || name == "wlr"@ || name
        == "wlr-layer-shell"@ || name == "wayland"@ {
        Some(BackendType::WlrLayerShell)
    } else if name == "gnome"@ || name == "gnome-wayland"@ || name == "gnome-shell"@ {
        Some(BackendType::GnomeWayland)
    } else if name == "x11"@ || name == "xorg"@ || name == "x"@ {
        Some(BackendType::X11)
    } else {
        None
    }
}

impl BackendEnv {
    /// `PLUVIA_BACKEND`, or `BACKEND` when that is unset.
    pub open spec fn override_value(self) -> Option<String> {
        if self.pluvia_backend is Some {
            self.pluvia_backend
        } else {
            self.backend
        }
    }

    pub open spec fn is_wayland(self) -> bool {
        present(self.wayland_display) || unicode_lower(or_empty(self.xdg_session_type))
            == "wayland"@
    }

    pub open spec fn is_gnome(self) -> bool {
        ||| contains_seq(unicode_upper(or_empty(self.xdg_current_desktop)), "GNOME"@)
        ||| contains_seq(unicode_upper(or_empty(self.xdg_session_desktop)), "GNOME"@)
        ||| self.gnome_desktop_session_id is Some
    }

    /// The backend for this environment: a recognised override wins, a
    /// Wayland session gets the GNOME bridge under GNOME and layer-shell
    /// elsewhere, and anything else gets X11.
    pub open spec fn choice(self) -> BackendType {
        let ex = match self.override_value() {
            Some(v) => explicit_backend(unicode_lower(trim(v@))),
            None => None,
        };
        if ex is Some {
            ex->0
        } else if self.is_wayland() {
            if self.is_gnome() {
                BackendType::GnomeWayland
            } else {
                BackendType::WlrLayerShell
            }
        } else {
            BackendType::X11
        }
    }
}

fn explicit_backend_exec(name: &str) -> (r: Option<BackendType>)
    ensures
        r == explicit_backend(name@),
{
    if str_eq(name, "mock") || str_eq(name, "test") || str_eq(name, "headless") {
        Some(BackendType::Mock)
    } else if str_eq(name, "layer-shell") || str_eq(name, "layershell") || str_eq(name, "wlr")
        || str_eq(name, "wlr-layer-shell") || str_eq(name, "wayland") {
        Some(BackendType::WlrLayerShell)
    } else if str_eq(name, "gnome") || str_eq(name, "gnome-wayland") || str_eq(
        name,
        "gnome-shell",
    ) {
        Some(BackendType::GnomeWayland)
    } else if str_eq(name, "x11") || str_eq(name, "xorg") || str_eq(name, "x") {
        Some(BackendType::X11)
    } else {
        None
    }
}

fn is_present(o: &Option<String>) -> (r: bool)
    ensures
        r == present(*o),
{
    match o {
        Some(s) => trim_str(s.as_str()).unicode_len() > 0,
        None => false,
    }
}

fn upper_contains_gnome(o: &Option<String>) -> (r: bool)
    ensures
        r == contains_seq(unicode_upper(or_empty(*o)), "GNOME"@),
{
    let base = match o {
        Some(s) => s.clone(),
        None => String::new(),
    };
    let up = to_chars(to_uppercase_str(base.as_str()).as_str());
    let pat = to_chars("GNOME");
    contains_chars(&up, &pat)
}

impl BackendType {
    /// The backend's name as the daemon reports it.
    pub fn name(&self) -> (r: String)
        ensures
            r@ == backend_name(*self),
    {
        match self {
            BackendType::WlrLayerShell => "WlrLayerShell".to_string(),
            BackendType::GnomeWayland => "GnomeWayland".to_string(),
            BackendType::X11 => "X11".to_string(),
            BackendType::Mock => "Mock".to_string(),
        }
    }

    /// Chooses the backend from the environment's values.
    pub fn from_env_values(env: &BackendEnv) -> (r: BackendType)
        ensures
            r == env.choice(),
    {
        let over = if env.pluvia_backend.is_some() {
            &env.pluvia_backend
        } else {
            &env.backend
        };
        if let Some(v) = over {
            let t = trim_str(v.as_str());
            let l = to_lowercase_str(t.as_str());
            if let Some(b) = explicit_backend_exec(l.as_str()) {
                return b;
            }
        }
        let session = match &env.xdg_session_type {
            Some(s) => s.clone(),
            None => String::new(),
        };
        let session_lower = to_lowercase_str(session.as_str());
        let wayland = is_present(&env.wayland_display) || str_eq(
            session_lower.as_str(),
            "wayland",
        );
        if wayland {
            let gnome = upper_contains_gnome(&env.xdg_current_desktop) || upper_contains_gnome(
                &env.xdg_session_desktop,
            ) || env.gnome_desktop_session_id.is_some();
            if gnome {
                BackendType::GnomeWayland
            } else {
                BackendType::WlrLayerShell
            }
        } else {
            BackendType::X11
        }
    }

    /// Detects the backend from a map of environment variables.
    pub fn detect_from_map(map: &HashMap<String, String>) -> (r: BackendType)
        ensures
            exists|e: BackendEnv| #[trigger] read_from_map(map@, e) && r == e.choice(),
    {
        let env = BackendEnv {
            pluvia_backend: env_get(map, "PLUVIA_BACKEND"),
            backend: env_get(map, "BACKEND"),
            wayland_display: env_get(map, "WAYLAND_DISPLAY"),
            xdg_session_type: env_get(map, "XDG_SESSION_TYPE"),
            xdg_current_desktop: env_get(map, "XDG_CURRENT_DESKTOP"),
            xdg_session_desktop: env_get(map, "XDG_SESSION_DESKTOP"),
            gnome_desktop_session_id: env_get(map, "GNOME_DESKTOP_SESSION_ID"),
            display: env_get(map, "DISPLAY"),
        };
        let r = Self::from_env_values(&env);
        assert(read_from_map(map@, env));
        r
    }

    /// Detects the backend with a variable lookup function, looking up
    /// only what the decision needs: `PLUVIA_BACKEND` (then `BACKEND` when
    /// it is unset); when no recognised override decides,
    /// `WAYLAND_DISPLAY` and `XDG_SESSION_TYPE`; then the three desktop
    /// variables in a Wayland session, else `DISPLAY`.
    pub fn detect_from_env<F: Fn(&str) -> Option<String>>(lookup: F) -> (r: BackendType)
        requires
            forall|k: &str| lookup.requires((k,)),
        ensures
            exists|e: BackendEnv| #[trigger] read_staged(lookup, e) && r == e.choice(),
    {
        let pluvia_backend = lookup("PLUVIA_BACKEND");
        let backend = if pluvia_backend.is_none() {
            lookup("BACKEND")
        } else {
            None
        };
        let decided = {
            let over = if pluvia_backend.is_some() {
                &pluvia_backend
            } else {
                &backend
            };
            match over {
                Some(v) => {
                    let t = trim_str(v.as_str());
                    let l = to_lowercase_str(t.as_str());
                    explicit_backend_exec(l.as_str()).is_some()
                },
                None => false,
            }
        };
        let env = if decided {
            BackendEnv {
                pluvia_backend,
                backend,
                wayland_display: None,
                xdg_session_type: None,
                xdg_current_desktop: None,
                xdg_session_desktop: None,
                gnome_desktop_session_id: None,
                display: None,
            }
        } else {
            let wayland_display = lookup("WAYLAND_DISPLAY");
            let xdg_session_type = lookup("XDG_SESSION_TYPE");
            let session = match &xdg_session_type {
                Some(s) => s.clone(),
                None => String::new(),
            };
            let session_lower = to_lowercase_str(session.as_str());
            let wayland = is_present(&wayland_display) || str_eq(session_lower.as_str(), "wayland");
            if wayland {
                let xdg_current_desktop = lookup("XDG_CURRENT_DESKTOP");
                let xdg_session_desktop = lookup("XDG_SESSION_DESKTOP");
                let gnome_desktop_session_id = lookup("GNOME_DESKTOP_SESSION_ID");
                BackendEnv {
                    pluvia_backend,
                    backend,
                    wayland_display,
                    xdg_session_type,
                    xdg_current_desktop,
                    xdg_session_desktop,
                    gnome_desktop_session_id,
                    display: None,
                }
            } else {
                let display = lookup("DISPLAY");
                BackendEnv {
                    pluvia_backend,
                    backend,
                    wayland_display,
                    xdg_session_type,
                    xdg_current_desktop: None,
                    xdg_session_desktop: None,
                    gnome_desktop_session_id: None,
                    display,
                }
            }
        };
        let r = Self::from_env_values(&env);
        assert(read_staged(lookup, env));
        r
    }
}

pub open spec fn backend_name(b: BackendType) -> Seq<char> {
    match b {
        BackendType::WlrLayerShell => "WlrLayerShell"@,
        BackendType::GnomeWayland => "GnomeWayland"@,
        BackendType::X11 => "X11"@,
        BackendType::Mock => "Mock"@,
    }
}

/// `v` is what `m` holds under the key `k`.
pub open spec fn map_entry(m: Map<String, String>, k: Seq<char>, v: Option<String>) -> bool {
    match v {
        Some(s) => exists|key: String| #[trigger] m.contains_key(key) && key@ == k && m[key]@ == s@,
        None => forall|key: String| #[trigger] m.contains_key(key) ==> key@ != k,
    }
}

/// Every field of `e` was read from `m` under its variable's name.
pub open spec fn read_from_map(m: Map<String, String>, e: BackendEnv) -> bool {
    &&& map_entry(m, "PLUVIA_BACKEND"@, e.pluvia_backend)
    &&& map_entry(m, "BACKEND"@, e.backend)
    &&& map_entry(m, "WAYLAND_DISPLAY"@, e.wayland_display)
    &&& map_entry(m, "XDG_SESSION_TYPE"@, e.xdg_session_type)
    &&& map_entry(m, "XDG_CURRENT_DESKTOP"@, e.xdg_current_desktop)
    &&& map_entry(m, "XDG_SESSION_DESKTOP"@, e.xdg_session_desktop)
    &&& map_entry(m, "GNOME_DESKTOP_SESSION_ID"@, e.gnome_desktop_session_id)
    &&& map_entry(m, "DISPLAY"@, e.display)
}

/// Every field of `e` is a possible answer of `lookup` for its name.
/// `lookup` was called with `key` and gave `v`.
pub open spec fn looked_up<F: Fn(&str) -> Option<String>>(lookup: F, key: Seq<char>, v: Option<String>) -> bool {
    exists|k: &str| k@ == key && #[trigger] lookup.ensures((k,), v)
}

/// The fields of `e` that the decision needs were read with `lookup` under
/// their variables' names, in stages; the others are unset.
pub open spec fn read_staged<F: Fn(&str) -> Option<String>>(lookup: F, e: BackendEnv) -> bool {
    let decided = match e.override_value() {
        Some(v) => explicit_backend(unicode_lower(trim(v@))) is Some,
        None => false,
    };
    &&& looked_up(lookup, "PLUVIA_BACKEND"@, e.pluvia_backend)
    &&& if e.pluvia_backend is None {
        looked_up(lookup, "BACKEND"@, e.backend)
    } else {
        e.backend is None
    }
    &&& if decided {
        &&& e.wayland_display is None && e.xdg_session_type is None
        &&& e.xdg_current_desktop is None && e.xdg_session_desktop is None
        &&& e.gnome_desktop_session_id is None && e.display is None
    } else {
        &&& looked_up(lookup, "WAYLAND_DISPLAY"@, e.wayland_display)
        &&& looked_up(lookup, "XDG_SESSION_TYPE"@, e.xdg_session_type)
        &&& if e.is_wayland() {
            &&& looked_up(lookup, "XDG_CURRENT_DESKTOP"@, e.xdg_current_desktop)
            &&& looked_up(lookup, "XDG_SESSION_DESKTOP"@, e.xdg_session_desktop)
            &&& looked_up(lookup, "GNOME_DESKTOP_SESSION_ID"@, e.gnome_desktop_session_id)
            &&& e.display is None
        } else {
            &&& e.xdg_current_desktop is None && e.xdg_session_desktop is None
            &&& e.gnome_desktop_session_id is None
            &&& looked_up(lookup, "DISPLAY"@, e.display)
        }
    }
}

/// Calls `HashMap::get` with a string key: the value stored under a key
/// equal to `key`, if any.
#[verifier::external_body]
fn env_get(map: &HashMap<String, String>, key: &str) -> (r: Option<String>)
    ensures
        map_entry(map@, key@, r),
{
    map.get(key).cloned()
}

} // verus!
verus! {

/// A monitor: its output name and where it lies on the desktop canvas.
/// (Its scale factor, a float, stays with the caller.)
#[derive(Debug, Clone, PartialEq, Eq)]
pub struct ScreenGeometry {
    pub name: String,
    pub x: i32,
    pub y: i32,
    pub width: u32,
    pub height: u32,
}

impl ScreenGeometry {
    pub fn new(name: &str, x: i32, y: i32, width: u32, height: u32) -> (r: Self)
        ensures
            r.name@ == name@,
            r.x == x && r.y == y && r.width == width && r.height == height,
    {
        ScreenGeometry { name: name.to_string(), x, y, width, height }
    }

    /// Both far edges are representable in `i32`, in which the edges are
    /// computed.
    pub open spec fn edges_fit(&self) -> bool {
        fits_i32(self.x + as_i32(self.width)) && fits_i32(self.y + as_i32(self.height))
    }

    pub open spec fn covers(&self, px: int, py: int) -> bool {
        &&& self.x <= px < self.x + as_i32(self.width)
        &&& self.y <= py < self.y + as_i32(self.height)
    }

    /// Whether the point lies on the monitor (right and bottom edges
    /// excluded).
    pub fn contains(&self, px: i32, py: i32) -> (r: bool)
        requires
            self.edges_fit(),
        ensures
            r == self.covers(px as int, py as int),
    {
        let right = self.x as i64 + wrap_u32(self.width);
        let bottom = self.y as i64 + wrap_u32(self.height);
        px >= self.x && (px as i64) < right && py >= self.y && (py as i64) < bottom
    }

    /// The geometry that placement reads.
    pub fn area(&self) -> (r: ScreenArea)
        ensures
            r == (ScreenArea { x: self.x, y: self.y, width: self.width, height: self.height }),
    {
        ScreenArea { x: self.x, y: self.y, width: self.width, height: self.height }
    }
}

/// The index of the first monitor from `i` on that holds the point, or -1.
pub open spec fn first_covering(screens: Seq<ScreenGeometry>, i: int, px: int, py: int) -> int
    decreases screens.len() - i,
{
    if i < 0 || i >= screens.len() {
        -1
    } else if screens[i].covers(px, py) {
        i
    } else {
        first_covering(screens, i + 1, px, py)
    }
}

/// The index of the first monitor from `i` on named `name`, or -1.
pub open spec fn first_named(screens: Seq<ScreenGeometry>, i: int, name: Seq<char>) -> int
    decreases screens.len() - i,
{
    if i < 0 || i >= screens.len() {
        -1
    } else if screens[i].name@ == name {
        i
    } else {
        first_named(screens, i + 1, name)
    }
}

/// The monitors of the desktop, the first being the primary one.
#[derive(Debug, Clone, PartialEq, Eq)]
pub struct DisplayLayout {
    pub screens: Vec<ScreenGeometry>,
}

impl DisplayLayout {
    pub fn new(screens: Vec<ScreenGeometry>) -> (r: Self)
        ensures
            r.screens@ == screens@,
    {
        DisplayLayout { screens }
    }

    /// The first monitor, if any.
    pub fn primary_monitor(&self) -> (r: Option<&ScreenGeometry>)
        ensures
            match r {
                Some(s) => self.screens@.len() > 0 && *s == self.screens@[0],
                None => self.screens@.len() == 0,
            },
    {
        if self.screens.len() > 0 {
            Some(&self.screens[0])
        } else {
            None
        }
    }

    /// The first monitor holding the point, if any.
    pub fn find_monitor_at(&self, x: i32, y: i32) -> (r: Option<&ScreenGeometry>)
        requires
            forall|i: int| 0 <= i < self.screens@.len() ==> (#[trigger] self.screens@[i]).edges_fit(),
        ensures
            ({
                let k = first_covering(self.screens@, 0, x as int, y as int);
                match r {
                    Some(s) => 0 <= k < self.screens@.len() && *s == self.screens@[k],
                    None => k == -1,
                }
            }),
    {
        let mut i: usize = 0;
        while i < self.screens.len()
            invariant
                i <= self.screens@.len(),
                forall|j: int| 0 <= j < self.screens@.len() ==> (#[trigger] self.screens@[j]).edges_fit(),
                first_covering(self.screens@, 0, x as int, y as int) == first_covering(
                    self.screens@,
                    i as int,
                    x as int,
                    y as int,
                ),
            decreases self.screens.len() - i,
        {
            if self.screens[i].contains(x, y) {
                return Some(&self.screens[i]);
            }
            i = i + 1;
        }
        None
    }

    /// The first monitor with the output name `name`, if any.
    pub fn find_monitor_by_name(&self, name: &str) -> (r: Option<&ScreenGeometry>)
        ensures
            ({
                let k = first_named(self.screens@, 0, name@);
                match r {
                    Some(s) => 0 <= k < self.screens@.len() && *s == self.screens@[k],
                    None => k == -1,
                }
            }),
    {
        let mut i: usize = 0;
        while i < self.screens.len()
            invariant
                i <= self.screens@.len(),
                first_named(self.screens@, 0, name@) == first_named(self.screens@, i as int, name@),
            decreases self.screens.len() - i,
        {
            if str_eq(self.screens[i].name.as_str(), name) {
                return Some(&self.screens[i]);
            }
            i = i + 1;
        }
        None
    }

    /// An offset from a monitor's top-left corner, placed on `target`.
    pub fn translate_relative(&self, relative_offset: (i32, i32), source: &ScreenGeometry, target: &ScreenGeometry) -> (r: (
        i32,
        i32,
    ))
        requires
            fits_i32(target.x + relative_offset.0),
            fits_i32(target.y + relative_offset.1),
        ensures
            r.0 == target.x + relative_offset.0,
            r.1 == target.y + relative_offset.1,
    {
        (target.x + relative_offset.0, target.y + relative_offset.1)
    }

    /// A canvas point on `source`, moved to the same place on `target`.
    pub fn translate_point(&self, point: (i32, i32), source: &ScreenGeometry, target: &ScreenGeometry) -> (r: (
        i32,
        i32,
    ))
        requires
            fits_i32(point.0 - source.x),
            fits_i32(point.1 - source.y),
            fits_i32(target.x + (point.0 - source.x)),
            fits_i32(target.y + (point.1 - source.y)),
        ensures
            (r.0 as int, r.1 as int) == translated((point.0 as int, point.1 as int), *source, *target),
    {
        let rel_x = point.0 - source.x;
        let rel_y = point.1 - source.y;
        (target.x + rel_x, target.y + rel_y)
    }
}

/// Where a canvas point on `source` lands on `target`.
pub open spec fn translated(p: (int, int), source: ScreenGeometry, target: ScreenGeometry) -> (int, int) {
    (target.x + (p.0 - source.x), target.y + (p.1 - source.y))
}

/// Moving a point to another monitor and back gives the point back; a
/// monitor's corner lands on the other's corner.
pub proof fn law_translate_round_trip(p: (int, int), source: ScreenGeometry, target: ScreenGeometry)
    ensures
        translated(translated(p, source, target), target, source) == p,
        translated((source.x as int, source.y as int), source, target) == (target.x as int, target.y as int),
{
}

} // verus!
