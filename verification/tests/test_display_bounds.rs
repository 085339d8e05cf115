use std::cell::RefCell;
use pluvia::display::{Anchor, BackendType, DisplayError, DisplayLayout, Layer, ScreenArea, ScreenGeometry, SurfaceBounds, LayerShellAnchor};
use pluvia::render::hit_mask::{AlphaHitMask, PixelRect};
use pluvia::surface::{LayerShellSurface, MockDesktopSurface};
use std::collections::HashMap;

#[test]
fn test_anchor_coordinate_resolution_standard_screens() {
    // 1. 1920x1080 viewport with widget 400x200 and margins (20, 30)
    let screen_fhd = ScreenArea::new(0, 0, 1920, 1080);
    let (w, h) = (400, 200);
    let (mx, my) = (20, 30);

    assert_eq!(Anchor::TopLeft.resolve_bounds(&screen_fhd, w, h, mx, my), SurfaceBounds::new(20, 30, 400, 200));
    assert_eq!(Anchor::TopCenter.resolve_bounds(&screen_fhd, w, h, mx, my), SurfaceBounds::new(780, 30, 400, 200));
    assert_eq!(Anchor::TopRight.resolve_bounds(&screen_fhd, w, h, mx, my), SurfaceBounds::new(1500, 30, 400, 200));
    assert_eq!(Anchor::Center.resolve_bounds(&screen_fhd, w, h, mx, my), SurfaceBounds::new(780, 470, 400, 200));
    assert_eq!(Anchor::BottomLeft.resolve_bounds(&screen_fhd, w, h, mx, my), SurfaceBounds::new(20, 850, 400, 200));
    assert_eq!(Anchor::BottomCenter.resolve_bounds(&screen_fhd, w, h, mx, my), SurfaceBounds::new(780, 850, 400, 200));
    assert_eq!(Anchor::BottomRight.resolve_bounds(&screen_fhd, w, h, mx, my), SurfaceBounds::new(1500, 850, 400, 200));
    assert_eq!(Anchor::Absolute.resolve_bounds(&screen_fhd, w, h, mx, my), SurfaceBounds::new(20, 30, 400, 200));

    // 2. 2560x1440 viewport with widget 500x300 and zero margin
    let screen_qhd = ScreenArea::new(0, 0, 2560, 1440);
    let (w2, h2) = (500, 300);
    assert_eq!(Anchor::TopCenter.resolve_bounds(&screen_qhd, w2, h2, 0, 0), SurfaceBounds::new(1030, 0, 500, 300));
    assert_eq!(Anchor::TopRight.resolve_bounds(&screen_qhd, w2, h2, 0, 0), SurfaceBounds::new(2060, 0, 500, 300));
    assert_eq!(Anchor::Center.resolve_bounds(&screen_qhd, w2, h2, 0, 0), SurfaceBounds::new(1030, 570, 500, 300));
    assert_eq!(Anchor::BottomRight.resolve_bounds(&screen_qhd, w2, h2, 0, 0), SurfaceBounds::new(2060, 1140, 500, 300));

    // 3. 5120x1440 ultrawide viewport with widget 600x250 and margins (50, 40)
    let screen_uw = ScreenArea::new(0, 0, 5120, 1440);
    let (w3, h3) = (600, 250);
    let (mx3, my3) = (50, 40);
    assert_eq!(Anchor::TopCenter.resolve_bounds(&screen_uw, w3, h3, mx3, my3), SurfaceBounds::new(2310, 40, 600, 250));
    assert_eq!(Anchor::TopRight.resolve_bounds(&screen_uw, w3, h3, mx3, my3), SurfaceBounds::new(4470, 40, 600, 250));
    assert_eq!(Anchor::Center.resolve_bounds(&screen_uw, w3, h3, mx3, my3), SurfaceBounds::new(2310, 635, 600, 250));
    assert_eq!(Anchor::BottomRight.resolve_bounds(&screen_uw, w3, h3, mx3, my3), SurfaceBounds::new(4470, 1150, 600, 250));
}

#[test]
fn test_backend_detection_environment_logic() {
    // 1. Pure Wayland (Sway / Hyprland)
    let mut env = HashMap::new();
    env.insert("WAYLAND_DISPLAY".to_string(), "wayland-1".to_string());
    env.insert("XDG_SESSION_TYPE".to_string(), "wayland".to_string());
    env.insert("XDG_CURRENT_DESKTOP".to_string(), "sway".to_string());
    assert_eq!(BackendType::detect_from_map(&env), BackendType::WlrLayerShell);

    // 2. GNOME on Wayland
    let mut gnome_env = HashMap::new();
    gnome_env.insert("WAYLAND_DISPLAY".to_string(), "wayland-0".to_string());
    gnome_env.insert("XDG_SESSION_TYPE".to_string(), "wayland".to_string());
    gnome_env.insert("XDG_CURRENT_DESKTOP".to_string(), "GNOME".to_string());
    assert_eq!(BackendType::detect_from_map(&gnome_env), BackendType::GnomeWayland);

    // Ubuntu variant: ubuntu:GNOME
    let mut ubuntu_env = HashMap::new();
    ubuntu_env.insert("WAYLAND_DISPLAY".to_string(), "wayland-0".to_string());
    ubuntu_env.insert("XDG_SESSION_TYPE".to_string(), "wayland".to_string());
    ubuntu_env.insert("XDG_CURRENT_DESKTOP".to_string(), "ubuntu:GNOME".to_string());
    assert_eq!(BackendType::detect_from_map(&ubuntu_env), BackendType::GnomeWayland);

    // 3. X11 session
    let mut x11_env = HashMap::new();
    x11_env.insert("DISPLAY".to_string(), ":0".to_string());
    x11_env.insert("XDG_SESSION_TYPE".to_string(), "x11".to_string());
    assert_eq!(BackendType::detect_from_map(&x11_env), BackendType::X11);

    // 4. Explicit override: PLUVIA_BACKEND
    let mut override_env = HashMap::new();
    override_env.insert("PLUVIA_BACKEND".to_string(), "mock".to_string());
    override_env.insert("WAYLAND_DISPLAY".to_string(), "wayland-1".to_string());
    assert_eq!(BackendType::detect_from_map(&override_env), BackendType::Mock);

    override_env.insert("PLUVIA_BACKEND".to_string(), "x11".to_string());
    assert_eq!(BackendType::detect_from_map(&override_env), BackendType::X11);

    override_env.insert("PLUVIA_BACKEND".to_string(), "layer-shell".to_string());
    assert_eq!(BackendType::detect_from_map(&override_env), BackendType::WlrLayerShell);

    override_env.insert("PLUVIA_BACKEND".to_string(), "gnome".to_string());
    assert_eq!(BackendType::detect_from_map(&override_env), BackendType::GnomeWayland);
}

#[test]
fn backend_detection_with_lookup_function() {
    let lookup = |k: &str| if k == "BACKEND" { Some("  XORG ".to_string()) } else { None };
    assert_eq!(BackendType::detect_from_env(lookup), BackendType::X11);
    let none = |_k: &str| None;
    assert_eq!(BackendType::detect_from_env(none), BackendType::X11);
    let blank_wayland = |k: &str| if k == "WAYLAND_DISPLAY" { Some("  ".to_string()) } else { None };
    assert_eq!(BackendType::detect_from_env(blank_wayland), BackendType::X11);
    let gnome_session = |k: &str| match k {
        "WAYLAND_DISPLAY" => Some("wayland-0".to_string()),
        "GNOME_DESKTOP_SESSION_ID" => Some("this-is-deprecated".to_string()),
        _ => None,
    };
    assert_eq!(BackendType::detect_from_env(gnome_session), BackendType::GnomeWayland);
}

#[test]
fn surface_bounds_contains_excludes_far_edges() {
    let b = SurfaceBounds::new(100, 100, 300, 200);
    assert!(b.contains(100, 100));
    assert!(b.contains(399, 299));
    assert!(!b.contains(400, 150));
    assert!(!b.contains(150, 300));
    assert!(!b.contains(99, 150));
}

#[test]
fn layer_shell_edges_and_margins_follow_the_anchor() {
    let e = Anchor::TopRight.layer_shell_edges();
    assert!(e.contains(LayerShellAnchor::top()));
    assert!(e.contains(LayerShellAnchor::right()));
    assert!(!e.contains(LayerShellAnchor::left()));
    assert_eq!(e.bits(), 9);
    assert_eq!(Anchor::Center.layer_shell_edges().bits(), 0);
    assert_eq!(Anchor::BottomRight.layer_shell_margins((10, 20)), (0, 10, 20, 0));
    assert_eq!(Anchor::TopLeft.layer_shell_margins((10, 20)), (20, 0, 0, 10));
    assert_eq!(LayerShellAnchor::from_bits_truncate(6).bits(), 6);
    assert_eq!(LayerShellAnchor::from_bits_truncate(0x10).bits(), 0);
    assert_eq!(LayerShellAnchor::from_bits_truncate(0xFF).bits(), 0xF);
    assert_eq!(LayerShellAnchor::empty().bits(), 0);
}

#[test]
fn test_mock_desktop_surface_lifecycle_and_hit_mask() {
    let mut surface = MockDesktopSurface::new("clock-widget", SurfaceBounds::new(100, 100, 300, 200));

    assert_eq!(surface.id(), "clock-widget");
    assert_eq!(surface.backend_type(), BackendType::Mock);
    assert_eq!(surface.bounds(), SurfaceBounds::new(100, 100, 300, 200));
    assert!(surface.is_visible());
    assert!(!surface.is_destroyed());

    // Update visibility
    surface.set_visible(false).unwrap();
    assert!(!surface.is_visible());
    surface.set_visible(true).unwrap();
    assert!(surface.is_visible());

    // Update bounds
    surface.set_bounds(SurfaceBounds::new(150, 120, 320, 220)).unwrap();
    assert_eq!(surface.bounds(), SurfaceBounds::new(150, 120, 320, 220));

    // A 320x220 frame and a hit mask with two disjoint interactive buttons
    let hit_mask = AlphaHitMask::from_rectangles(320, 220, &vec![(20, 20, 80, 50), (150, 80, 230, 120)]);

    surface.update_surface(320, 220, &hit_mask).unwrap();
    assert_eq!(surface.update_count(), 1);
    assert_eq!(surface.damage_history().len(), 1);
    assert_eq!(surface.last_surface_size(), Some((320, 220)));

    // Check submitted disjoint rectangles for click-through
    let submitted_rects = surface.hit_mask_rectangles();
    assert_eq!(submitted_rects.len(), 2);
    assert_eq!(submitted_rects[0], PixelRect { x: 20, y: 20, width: 60, height: 30 });
    assert_eq!(submitted_rects[1], PixelRect { x: 150, y: 80, width: 80, height: 40 });

    // Update hit mask independently
    let new_mask = AlphaHitMask::from_rectangles(320, 220, &vec![(10, 10, 50, 50)]);
    surface.update_hit_mask(&new_mask).unwrap();
    assert_eq!(surface.hit_mask_rectangles().len(), 1);
    assert_eq!(surface.hit_mask_rectangles()[0], PixelRect { x: 10, y: 10, width: 40, height: 40 });

    surface.clear_damage();
    assert!(surface.damage_history().is_empty());

    // Destroy
    surface.destroy().unwrap();
    assert!(surface.is_destroyed());
    assert!(surface.hit_mask_rectangles().is_empty());
    // Subsequent operations fail after destroy
    assert_eq!(surface.set_visible(true), Err(DisplayError::SurfaceDestroyed));
    assert!(surface.update_surface(320, 220, &hit_mask).is_err());
    assert!(surface.set_bounds(SurfaceBounds::new(0, 0, 1, 1)).is_err());
    assert!(surface.update_hit_mask(&new_mask).is_err());
    assert_eq!(surface.update_count(), 1);
    assert!(!surface.is_visible());
}

#[test]
fn test_layer_shell_backend_configuration() {
    let bounds = SurfaceBounds::new(100, 50, 400, 300);
    let mut surface = LayerShellSurface::new("weather-widget", bounds, Layer::Bottom, "DP-1", Anchor::TopRight, (20, 30));

    assert_eq!(surface.id(), "weather-widget");
    assert_eq!(surface.backend_type(), BackendType::WlrLayerShell);
    assert_eq!(surface.layer(), Layer::Bottom);
    assert_eq!(surface.namespace(), "pluvia");
    assert_eq!(surface.output(), "DP-1");

    // Anchor translation to wlr-layer-shell bitflags
    let flags = surface.layer_shell_anchors();
    assert!(flags.contains(LayerShellAnchor::top()));
    assert!(flags.contains(LayerShellAnchor::right()));
    assert!(!flags.contains(LayerShellAnchor::bottom()));
    assert!(!flags.contains(LayerShellAnchor::left()));

    // Margins
    let (top, right, bottom, left) = surface.margins();
    assert_eq!((top, right, bottom, left), (30, 20, 0, 0));

    // Submit AlphaHitMask with disjoint rectangles to input region
    let disjoint = vec![PixelRect { x: 10, y: 10, width: 50, height: 50 }];
    let mask = AlphaHitMask::from_rectangles(400, 300, &vec![(10, 10, 60, 60)]);

    surface.update_surface(400, 300, &mask).unwrap();
    assert_eq!(*surface.input_region_rects(), disjoint);
    assert_eq!(surface.damage_rects().len(), 1);
}

#[test]
fn layer_shell_surface_life_cycle() {
    let mut surface = LayerShellSurface::new("w", SurfaceBounds::new(0, 0, 10, 10), Layer::Top, "", Anchor::Center, (0, 0));
    surface.set_namespace("desk");
    assert_eq!(surface.namespace(), "desk");
    surface.set_visible(false).unwrap();
    assert!(!surface.is_visible());
    surface.set_bounds(SurfaceBounds::new(5, 5, 20, 20)).unwrap();
    assert_eq!(surface.bounds(), SurfaceBounds::new(5, 5, 20, 20));
    let mask = AlphaHitMask::from_rectangles(20, 20, &vec![(0, 0, 4, 4)]);
    surface.update_hit_mask(&mask).unwrap();
    assert_eq!(surface.input_region_rects().len(), 1);
    surface.destroy().unwrap();
    assert!(surface.is_destroyed());
    assert!(surface.input_region_rects().is_empty());
    assert_eq!(surface.set_bounds(SurfaceBounds::new(0, 0, 1, 1)), Err(DisplayError::SurfaceDestroyed));
    assert!(surface.update_surface(20, 20, &mask).is_err());
    assert!(surface.damage_rects().is_empty());
}

#[test]
fn test_multi_monitor_coordinate_translation() {
    let mon1 = ScreenGeometry::new("DP-1", 0, 0, 1920, 1080);
    let mon2 = ScreenGeometry::new("DP-2", 1920, 0, 2560, 1440);
    let mon3 = ScreenGeometry::new("HDMI-1", 4480, 100, 1920, 1080);

    let layout = DisplayLayout::new(vec![mon1.clone(), mon2.clone(), mon3.clone()]);
    assert_eq!(layout.screens.len(), 3);

    // Anchor BottomRight on Monitor 2 (offset 1920, 0, size 2560x1440)
    let bounds_m2 = Anchor::BottomRight.resolve_bounds(&mon2.area(), 400, 200, 20, 20);
    assert_eq!(bounds_m2.x, 1920 + 2560 - 400 - 20); // 4060
    assert_eq!(bounds_m2.y, 0 + 1440 - 200 - 20); // 1220

    // Anchor Center on Monitor 3 (offset 4480, 100, size 1920x1080)
    let bounds_m3 = Anchor::Center.resolve_bounds(&mon3.area(), 400, 200, 0, 0);
    assert_eq!(bounds_m3.x, 4480 + (1920 - 400) / 2); // 5240
    assert_eq!(bounds_m3.y, 100 + (1080 - 200) / 2); // 540

    // Coordinate translation between monitors:
    // Move relative position from Mon 1 (100, 100) to Mon 2
    let translated = layout.translate_relative((100, 100), &mon1, &mon2);
    assert_eq!(translated, (1920 + 100, 0 + 100));

    // Monitor lookup by coordinates
    assert_eq!(layout.find_monitor_at(500, 500).map(|s| s.name.as_str()), Some("DP-1"));
    assert_eq!(layout.find_monitor_at(2500, 500).map(|s| s.name.as_str()), Some("DP-2"));
    assert_eq!(layout.find_monitor_at(5000, 500).map(|s| s.name.as_str()), Some("HDMI-1"));
    assert_eq!(layout.find_monitor_at(10000, 10000), None);
}

#[test]
fn monitors_by_name_primary_and_point_translation() {
    let mon1 = ScreenGeometry::new("DP-1", 0, 0, 1920, 1080);
    let mon2 = ScreenGeometry::new("DP-2", 1920, 0, 2560, 1440);
    let layout = DisplayLayout::new(vec![mon1.clone(), mon2.clone()]);
    assert_eq!(layout.primary_monitor().map(|s| s.name.as_str()), Some("DP-1"));
    assert_eq!(DisplayLayout::new(vec![]).primary_monitor(), None);
    assert_eq!(layout.find_monitor_by_name("DP-2").map(|s| s.x), Some(1920));
    assert_eq!(layout.find_monitor_by_name("dp-2"), None);
    let p = layout.translate_point((2000, 50), &mon2, &mon1);
    assert_eq!(p, (80, 50));
    assert_eq!(layout.translate_point(p, &mon1, &mon2), (2000, 50));
    // The right edge belongs to the next monitor.
    assert_eq!(layout.find_monitor_at(1920, 0).map(|s| s.name.as_str()), Some("DP-2"));
    assert_eq!(layout.find_monitor_at(-1, 0), None);
}

#[test]
fn backend_detection_looks_up_only_what_it_needs() {
    let asked = RefCell::new(Vec::new());
    let env = |vars: &'static [(&'static str, &'static str)]| {
        move |k: &str| -> Option<String> { vars.iter().find(|(n, _)| *n == k).map(|(_, v)| v.to_string()) }
    };
    let over = env(&[("PLUVIA_BACKEND", "mock"), ("DISPLAY", ":0")]);
    let b = BackendType::detect_from_env(|k: &str| {
        asked.borrow_mut().push(k.to_string());
        over(k)
    });
    assert_eq!(b, BackendType::Mock);
    assert_eq!(*asked.borrow(), vec!["PLUVIA_BACKEND".to_string()]);

    asked.borrow_mut().clear();
    let x = env(&[("BACKEND", "nonsense"), ("DISPLAY", ":0")]);
    let b = BackendType::detect_from_env(|k: &str| {
        asked.borrow_mut().push(k.to_string());
        x(k)
    });
    assert_eq!(b, BackendType::X11);
    assert_eq!(
        *asked.borrow(),
        vec!["PLUVIA_BACKEND", "BACKEND", "WAYLAND_DISPLAY", "XDG_SESSION_TYPE", "DISPLAY"]
    );

    asked.borrow_mut().clear();
    let w = env(&[("WAYLAND_DISPLAY", "wayland-0"), ("XDG_CURRENT_DESKTOP", "ubuntu:GNOME")]);
    let b = BackendType::detect_from_env(|k: &str| {
        asked.borrow_mut().push(k.to_string());
        w(k)
    });
    assert_eq!(b, BackendType::GnomeWayland);
    assert_eq!(asked.borrow().len(), 7);
}
