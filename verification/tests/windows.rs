use sysmon_tray::config::{AppConfig, OverlayEdgeX, OverlayEdgeY, OverlayStyle};
use sysmon_tray::number::Double;
use sysmon_tray::overlay::{
    apply_overlay_snap_and_persist, overlay_layout_size, parse_overlay_layout_mode,
    set_overlay_collapsed, set_overlay_layout, snap_overlay_to_edges, LayoutChange,
    OverlayLayoutMode, OverlaySnapResult, Placement, WorkArea,
};
use sysmon_tray::panel::{
    exit_allowed, focus_lost, main_save_due, menu_action, monitor_at_logical_point,
    monitor_at_physical_point, overlay_save_due, panel_size, react, schedule_main_position_save,
    schedule_overlay_position_save, show_panel, toggle_panel, tray_event_scale, AppAction,
    AppEvent, AppWindow, MenuAction,
    PanelAction, Point, Screen, SharedMainLastMove, SharedMainPosSave, SharedOverlayLastMove,
    SharedOverlayPosSave, SharedOverlaySnapQuietUntil,
};

fn double(x: f64) -> Double {
    Double { bits: x.to_bits() }
}

const MS: u64 = 1_000_000;

const WORK: WorkArea = WorkArea { x: 0, y: 0, width: 1920, height: 1040 };

#[test]
fn layouts() {
    assert_eq!(parse_overlay_layout_mode("collapsed"), Ok(OverlayLayoutMode::Collapsed));
    assert_eq!(parse_overlay_layout_mode("expanded"), Ok(OverlayLayoutMode::Expanded));
    assert_eq!(parse_overlay_layout_mode("peek"), Ok(OverlayLayoutMode::Peek));
    assert_eq!(parse_overlay_layout_mode("Peek"), Err("未知叠加层布局: Peek".to_string()));
    assert_eq!(set_overlay_layout(" peek\n"), Ok(OverlayLayoutMode::Peek));
    assert_eq!(set_overlay_layout(" x "), Err("未知叠加层布局: x".to_string()));
    assert_eq!(set_overlay_collapsed(true), OverlayLayoutMode::Collapsed);
    assert_eq!(set_overlay_collapsed(false), OverlayLayoutMode::Expanded);
    let size = |mode, style| overlay_layout_size(mode, style, None, None);
    assert_eq!(size(OverlayLayoutMode::Collapsed, OverlayStyle::Capsule), (310, 38));
    assert_eq!(size(OverlayLayoutMode::Collapsed, OverlayStyle::Vertical), (72, 168));
    assert_eq!(size(OverlayLayoutMode::Collapsed, OverlayStyle::Numeric), (258, 34));
    assert_eq!(size(OverlayLayoutMode::Expanded, OverlayStyle::Numeric), (310, 176));
    assert_eq!(size(OverlayLayoutMode::Peek, OverlayStyle::Numeric), (8, 96));
}

fn change(mode: OverlayLayoutMode, scale: f64, position: (i32, i32), size: (u32, u32)) -> LayoutChange {
    LayoutChange {
        mode,
        style: OverlayStyle::Capsule,
        edge_x: None,
        edge_y: None,
        scale: double(scale),
        position,
        size,
        work: Some(WORK),
    }
}

/// The same geometry in machine numbers.
fn expected(c: &LayoutChange) -> Placement {
    let (w, h) = overlay_layout_size(c.mode, c.style, c.edge_x, c.edge_y);
    let scale = f64::from_bits(c.scale.bits);
    let (px, py) = (c.position.0 as f64 / scale, c.position.1 as f64 / scale);
    let (pw, ph) = (c.size.0 as f64 / scale, c.size.1 as f64 / scale);
    let (nw, nh) = (w as f64, h as f64);
    let (mut x, mut y) = (px, py);
    if let Some(work) = c.work {
        let (wx, wy) = (work.x as f64 / scale, work.y as f64 / scale);
        let (ww, wh) = (work.width as f64 / scale, work.height as f64 / scale);
        let (max_x, max_y) = (wx + ww - nw, wy + wh - nh);
        x = match c.edge_x {
            Some(OverlayEdgeX::Right) => max_x,
            Some(OverlayEdgeX::Left) => wx,
            None if wx + ww - (px + pw) <= px - wx => px + pw - nw,
            None => px,
        };
        y = match c.edge_y {
            Some(OverlayEdgeY::Bottom) => max_y,
            Some(OverlayEdgeY::Top) => wy,
            None if wy + wh - (py + ph) <= py - wy => py + ph - nh,
            None => py,
        };
        if c.mode == OverlayLayoutMode::Peek {
            if c.edge_x.is_some() && c.edge_y.is_none() {
                y = (py + ph * 0.5 - nh * 0.5).clamp(wy, max_y);
            } else if c.edge_x.is_none() && c.edge_y.is_some() {
                x = (px + pw * 0.5 - nw * 0.5).clamp(wx, max_x);
            }
        }
        x = x.clamp(wx, max_x);
        y = y.clamp(wy, max_y);
    }
    Placement {
        x: (x * scale).round() as i32,
        y: (y * scale).round() as i32,
        width: (nw * scale).round().max(1.0) as u32,
        height: (nh * scale).round().max(1.0) as u32,
    }
}

#[test]
fn places_of_layouts() {
    let c = change(OverlayLayoutMode::Expanded, 1.0, (1500, 900), (310, 38));
    assert!(c.does_fit());
    assert_eq!(c.apply_overlay_layout(), Placement { x: 1500, y: 762, width: 310, height: 176 });
    let c = LayoutChange { edge_x: Some(OverlayEdgeX::Right), ..change(OverlayLayoutMode::Peek, 1.0, (1610, 500), (310, 38)) };
    assert_eq!(c.apply_overlay_layout(), Placement { x: 1912, y: 471, width: 8, height: 96 });

    let modes = [OverlayLayoutMode::Collapsed, OverlayLayoutMode::Expanded, OverlayLayoutMode::Peek];
    let edges_x = [None, Some(OverlayEdgeX::Left), Some(OverlayEdgeX::Right)];
    let edges_y = [None, Some(OverlayEdgeY::Top), Some(OverlayEdgeY::Bottom)];
    for mode in modes {
        for edge_x in edges_x {
            for edge_y in edges_y {
                for (scale, position) in [(1.25, (-7, 1000)), (1.5, (1701, 33)), (0.9, (400, 401))] {
                    let c = LayoutChange { edge_x, edge_y, ..change(mode, scale, position, (300, 37)) };
                    assert!(c.does_fit());
                    assert_eq!(c.apply_overlay_layout(), expected(&c), "{c:?}");
                }
            }
        }
    }
    let c = LayoutChange { work: None, ..change(OverlayLayoutMode::Collapsed, 1.3, (-5, 7), (1, 1)) };
    assert_eq!(c.apply_overlay_layout(), expected(&c));
}

#[test]
fn a_screen_without_room() {
    let small = WorkArea { x: 0, y: 0, width: 100, height: 1000 };
    let c = LayoutChange { work: Some(small), ..change(OverlayLayoutMode::Expanded, 1.0, (0, 0), (10, 10)) };
    assert!(!c.does_fit());
    let c = LayoutChange { scale: double(f64::NAN), ..change(OverlayLayoutMode::Peek, 1.0, (0, 0), (10, 10)) };
    assert!(!c.does_fit());
}

fn snapped(x: i32, y: i32, edge_x: Option<OverlayEdgeX>, edge_y: Option<OverlayEdgeY>) -> OverlaySnapResult {
    OverlaySnapResult { x, y, edge_x, edge_y }
}

#[test]
fn edges_draw_the_overlay() {
    let size = (310, 38);
    let snap = |x, y| snap_overlay_to_edges((x, y), size, WORK);
    assert_eq!(snap(36, 500), snapped(0, 500, Some(OverlayEdgeX::Left), None));
    assert_eq!(snap(37, 500), snapped(37, 500, None, None));
    assert_eq!(snap(1574, 500), snapped(1610, 500, Some(OverlayEdgeX::Right), None));
    assert_eq!(snap(500, 2000), snapped(500, 1002, None, Some(OverlayEdgeY::Bottom)));
    assert_eq!(snap(-90, -90), snapped(0, 0, Some(OverlayEdgeX::Left), Some(OverlayEdgeY::Top)));
    for (x, y) in [(36, 500), (1580, 990), (-5, 3), (700, 20)] {
        let first = snap(x, y);
        assert_eq!(snap(first.x, first.y), first);
    }
    // Near both sides of a narrow area the left one gains at a corner only.
    let narrow = WorkArea { x: 0, y: 0, width: 340, height: 1040 };
    assert_eq!(snap_overlay_to_edges((16, 500), size, narrow).edge_x, Some(OverlayEdgeX::Right));
    assert_eq!(snap_overlay_to_edges((16, 10), size, narrow).edge_x, Some(OverlayEdgeX::Left));
    // Larger than the area, and of no size.
    assert_eq!(snap_overlay_to_edges((50, 50), (4000, 38), WORK).x, 0);
    assert_eq!(snap_overlay_to_edges((50, 50), (0, 38), WORK), snapped(50, 50, None, None));
    assert_eq!(snap_overlay_to_edges((50, 50), (u32::MAX, 38), WORK), snapped(50, 50, None, None));
}

#[test]
fn what_follows_a_snap() {
    let s = snapped(0, 5, Some(OverlayEdgeX::Left), None);
    assert_eq!(apply_overlay_snap_and_persist(s, Some((0, 5)), true), (false, Some(OverlayEdgeX::Left)));
    assert_eq!(apply_overlay_snap_and_persist(s, Some((1, 5)), false), (true, None));
    assert_eq!(apply_overlay_snap_and_persist(s, None, true), (true, Some(OverlayEdgeX::Left)));
}

#[test]
fn moves_and_writes_of_the_overlay() {
    let mut cfg = AppConfig::default();
    let mut quiet = SharedOverlaySnapQuietUntil(None);
    let mut moved = SharedOverlayLastMove(None);
    let mut saved = SharedOverlayPosSave(None);
    assert!(!overlay_save_due(&moved, &mut saved, 0));
    quiet.start(0);
    assert!(!schedule_overlay_position_save(&mut cfg, (1, 2), &quiet, &mut moved, 500 * MS - 1));
    assert_eq!((cfg.overlay_x, cfg.overlay_y, moved.0), (Some(1), Some(2), None));
    assert!(schedule_overlay_position_save(&mut cfg, (3, 4), &quiet, &mut moved, 500 * MS));
    assert_eq!((cfg.overlay_x, cfg.overlay_y, moved.0), (Some(3), Some(4), Some(500 * MS)));
    assert!(!overlay_save_due(&moved, &mut saved, 700 * MS - 1));
    assert!(overlay_save_due(&moved, &mut saved, 700 * MS));
    assert_eq!(saved.0, Some(700 * MS));
    assert!(!overlay_save_due(&moved, &mut saved, 900 * MS - 1));
    assert!(overlay_save_due(&moved, &mut saved, 900 * MS));
}

#[test]
fn moves_and_writes_of_the_panel() {
    let mut cfg = AppConfig::default();
    let mut moved = SharedMainLastMove(None);
    let mut saved = SharedMainPosSave(None);
    schedule_main_position_save(&mut cfg, (8, 9), &mut moved, 10 * MS);
    assert_eq!((cfg.main_x, cfg.main_y), (Some(8), Some(9)));
    assert!(!main_save_due(&moved, &mut saved, 240 * MS - 1));
    assert!(main_save_due(&moved, &mut saved, 240 * MS));
    assert!(!main_save_due(&moved, &mut saved, 241 * MS));
}

fn screen(x: i32, width: u32, scale: f64) -> Screen {
    Screen {
        x,
        y: 0,
        width,
        height: 1000,
        scale: double(scale),
        work: WorkArea { x, y: 0, width, height: 960 },
    }
}

#[test]
fn points_on_screens() {
    let screens = vec![screen(0, 1000, 1.0), screen(1000, 2000, 2.0)];
    let primary = Some(screen(0, 1000, 1.0));
    let at = |x, y| monitor_at_physical_point(&screens, primary, x, y).map(|s| s.x);
    assert_eq!(at(0, 0), Some(0));
    assert_eq!(at(999, 999), Some(0));
    assert_eq!(at(1000, 0), Some(1000));
    assert_eq!(at(3000, 0), Some(0));
    assert_eq!(monitor_at_physical_point(&screens, None, -1, 0), None);
    let logical = |x: f64, y: f64| monitor_at_logical_point(&screens, None, double(x), double(y)).map(|s| s.x);
    assert_eq!(logical(1200.0, 10.0), Some(1000));
    assert_eq!(logical(999.5, 10.0), Some(0));
    assert_eq!(logical(1499.9, 499.9), Some(1000));
    assert_eq!(logical(1500.0, 10.0), None);
    assert_eq!(logical(f64::NAN, 10.0), None);
    assert_eq!(tray_event_scale(&screens, None, Point::Physical(1500, 1)), double(2.0));
    assert_eq!(tray_event_scale(&screens, primary, Point::Physical(-9, 1)), double(1.0));
    assert_eq!(tray_event_scale(&vec![], None, Point::Logical(double(1.0), double(1.0))), double(1.0));
}

#[test]
fn the_panel_opens_at_the_tray() {
    assert_eq!(panel_size(None), (380, 690));
    assert_eq!(panel_size(Some((1, 2))), (1, 2));
    let panel = (380, 690);
    assert_eq!(show_panel((1700, 1045), (24, 24), panel, Some(WORK)), Some((1522, 347)));
    assert_eq!(show_panel((1900, 1045), (24, 24), panel, Some(WORK)), Some((1540, 347)));
    assert_eq!(show_panel((5, 10), (24, 24), panel, Some(WORK)), Some((0, 0)));
    assert_eq!(show_panel((5, 10), (24, 24), panel, None), Some((0, 0)));
    assert_eq!(show_panel((500, 900), (25, 24), (381, 100), None), Some((322, 792)));
    assert_eq!(show_panel((i32::MAX, 0), (4000, 1), (2, 2), None), None);
}

#[test]
fn what_events_ask_for() {
    assert_eq!(menu_action("quit", true), MenuAction::Quit);
    assert_eq!(menu_action("show", true), MenuAction::Show);
    assert_eq!(menu_action("alert_settings", true), MenuAction::Settings);
    assert_eq!(menu_action("overlay", true), MenuAction::Overlay(false));
    assert_eq!(menu_action("overlay", false), MenuAction::Overlay(true));
    assert_eq!(menu_action("other", false), MenuAction::Nothing);
    assert_eq!(toggle_panel(Some(true)), PanelAction::Hide);
    assert_eq!(toggle_panel(Some(false)), PanelAction::Show);
    assert_eq!(toggle_panel(None), PanelAction::Show);
    assert_eq!(focus_lost(true), PanelAction::Stay);
    assert_eq!(focus_lost(false), PanelAction::Hide);
    assert!(exit_allowed(Some(0)));
    assert!(!exit_allowed(None));
}

#[test]
fn windows_are_hidden_not_closed() {
    let told = |event, open| {
        let r = react(event, open);
        (r.prevented, r.action)
    };
    for open in [false, true] {
        assert_eq!(told(AppEvent::CloseRequested(AppWindow::Main), open), (true, AppAction::HidePanel));
        assert_eq!(told(AppEvent::CloseRequested(AppWindow::Overlay), open), (true, AppAction::TurnOverlayOff));
        assert_eq!(told(AppEvent::FocusLost(AppWindow::Overlay), open), (false, AppAction::Nothing));
        assert_eq!(told(AppEvent::ExitRequested(None), open), (true, AppAction::Nothing));
        assert_eq!(told(AppEvent::ExitRequested(Some(0)), open), (false, AppAction::Exit));
        for window in [AppWindow::Main, AppWindow::Overlay] {
            assert_eq!(told(AppEvent::Moved(window), open), (false, AppAction::SavePlaceLater(window)));
        }
    }
    assert_eq!(told(AppEvent::FocusLost(AppWindow::Main), false), (false, AppAction::HidePanel));
    assert_eq!(told(AppEvent::FocusLost(AppWindow::Main), true), (false, AppAction::Nothing));
}

#[test]
fn a_layout_stays_on_the_screen() {
    let works = [WORK, WorkArea { x: -1921, y: 37, width: 1919, height: 1041 }, WorkArea { x: 2147483000, y: -2147483648, width: 647, height: 4294967295 }];
    let edges_x = [None, Some(OverlayEdgeX::Left), Some(OverlayEdgeX::Right)];
    let edges_y = [None, Some(OverlayEdgeY::Top), Some(OverlayEdgeY::Bottom)];
    for work in works {
        for scale in [1.0, 1.1, 1.25, 1.5, 1.75, 0.3, 0.001, 2.0 / 3.0] {
            for mode in [OverlayLayoutMode::Collapsed, OverlayLayoutMode::Peek] {
                for (edge_x, edge_y) in edges_x.into_iter().zip(edges_y) {
                    let position = (work.x.saturating_add(333), work.y.saturating_add(999));
                    let c = LayoutChange { edge_x, edge_y, work: Some(work), ..change(mode, scale, position, (301, 39)) };
                    assert!(c.does_fit());
                    let p = c.apply_overlay_layout();
                    assert!(work.x <= p.x && work.y <= p.y, "{c:?}");
                    let right = p.x as i64 + p.width as i64;
                    let bottom = p.y as i64 + p.height as i64;
                    assert!(right <= work.x as i64 + work.width as i64 + 1, "{c:?}");
                    assert!(bottom <= work.y as i64 + work.height as i64 + 1, "{c:?}");
                }
            }
        }
    }
}
