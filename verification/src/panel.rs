//! Where windows are: when a place is written down, on which screen a point lies,
//! where the main panel opens, and what the tray and the windows' events ask for.

use crate::config::AppConfig;
use crate::number;
use crate::number::Double;
use crate::overlay;
use crate::overlay::{end_of, to_signed, WorkArea};
use crate::text;
use vstd::prelude::*;
use vstd::string::*;

verus! {

/// How long after its last move the overlay is drawn to an edge, in milliseconds.
pub const OVERLAY_SNAP_DEBOUNCE_MS: u64 = 220;

/// How long a change of layout keeps moves from being taken for the user's, in
/// milliseconds.
pub const OVERLAY_LAYOUT_QUIET_MS: u64 = 500;

/// How long after its last move the main panel's place is written, in milliseconds.
pub const MAIN_POS_SAVE_DEBOUNCE_MS: u64 = 250;

/// By how much a wait may fall short, in milliseconds.
pub const DEBOUNCE_SLACK_MS: u64 = 20;

/// The shortest time between two writes of a place, in milliseconds.
pub const POS_SAVE_MIN_INTERVAL_MS: u64 = 200;

/// When the overlay's place was last written. Times are nanoseconds of one clock.
#[derive(Debug)]
pub struct SharedOverlayPosSave(pub Option<u64>);

/// When the overlay was last moved.
#[derive(Debug)]
pub struct SharedOverlayLastMove(pub Option<u64>);

/// Until when moves of the overlay are not the user's.
#[derive(Debug)]
pub struct SharedOverlaySnapQuietUntil(pub Option<u128>);

/// When the main panel's place was last written.
#[derive(Debug)]
pub struct SharedMainPosSave(pub Option<u64>);

/// When the main panel was last moved.
#[derive(Debug)]
pub struct SharedMainLastMove(pub Option<u64>);

/// Whether moves at `now` are not the user's.
pub open spec fn quiet(until: Option<u128>, now: u64) -> bool {
    until is Some && now < until->0
}

/// Whether so many milliseconds have passed from `from` to `now`.
pub open spec fn passed(from: u64, now: u64, ms: int) -> bool {
    now - from >= ms * 1_000_000 || ms <= 0
}

/// Whether the last move at `last` was the last one for the time being.
pub open spec fn settled(last: Option<u64>, now: u64, debounce_ms: u64) -> bool {
    last is Some && passed(last->0, now, debounce_ms - DEBOUNCE_SLACK_MS)
}

/// Whether a place may be written at `now`, after the last write.
pub open spec fn due(last: Option<u64>, now: u64) -> bool {
    last is None || passed(last->0, now, POS_SAVE_MIN_INTERVAL_MS as int)
}

fn has_passed(from: u64, now: u64, ms: u64) -> (r: bool)
    ensures
        r == passed(from, now, ms as int),
{
    now.saturating_sub(from) as u128 >= ms as u128 * 1_000_000
}

fn is_settled(last: Option<u64>, now: u64, debounce_ms: u64) -> (r: bool)
    requires
        debounce_ms >= DEBOUNCE_SLACK_MS,
    ensures
        r == settled(last, now, debounce_ms),
{
    match last {
        Some(t) => has_passed(t, now, debounce_ms - DEBOUNCE_SLACK_MS),
        None => false,
    }
}

fn is_due(last: Option<u64>, now: u64) -> (r: bool)
    ensures
        r == due(last, now),
{
    match last {
        Some(t) => has_passed(t, now, POS_SAVE_MIN_INTERVAL_MS),
        None => true,
    }
}

impl SharedOverlaySnapQuietUntil {
    /// Starts the time in which moves are not the user's.
    pub fn start(&mut self, now: u64)
        ensures
            final(self).0 == Some((now + 500_000_000) as u128),
            final(self).0 == Some((now + OVERLAY_LAYOUT_QUIET_MS * 1_000_000) as u128),
    {
        self.0 = Some(now as u128 + OVERLAY_LAYOUT_QUIET_MS as u128 * 1_000_000);
    }

    pub fn is_quiet(&self, now: u64) -> (r: bool)
        ensures
            r <==> self.0 is Some && now < self.0->0,
            r == quiet(self.0, now),
    {
        match self.0 {
            Some(until) => (now as u128) < until,
            None => false,
        }
    }
}

/// Takes in a move of the overlay: its place is remembered at once. Whether the move
/// is the user's, and the overlay is to be drawn to an edge after a while.
pub fn schedule_overlay_position_save(
    cfg: &mut AppConfig,
    position: (i32, i32),
    quiet_until: &SharedOverlaySnapQuietUntil,
    last_move: &mut SharedOverlayLastMove,
    now: u64,
) -> (r: bool)
    ensures
        *final(cfg) == (AppConfig {
            overlay_x: Some(position.0),
            overlay_y: Some(position.1),
            ..*old(cfg)
        }),
        r <==> quiet_until.0 is None || now >= quiet_until.0->0,
        r == !quiet(quiet_until.0, now),
        final(last_move).0 == (if r {
            Some(now)
        } else {
            old(last_move).0
        }),
{
    cfg.overlay_x = Some(position.0);
    cfg.overlay_y = Some(position.1);
    if quiet_until.is_quiet(now) {
        return false;
    }
    last_move.0 = Some(now);
    true
}

/// Whether, a while after a move, the overlay is to be drawn to an edge and its place
/// written: it has not moved since, and the last write was not just now.
pub fn overlay_save_due(
    last_move: &SharedOverlayLastMove,
    last_save: &mut SharedOverlayPosSave,
    now: u64,
) -> (r: bool)
    ensures
        r <==> last_move.0 is Some && now - last_move.0->0 >= 200_000_000 && (old(last_save).0 is None
            || now - old(last_save).0->0 >= 200_000_000),
        r == (settled(last_move.0, now, OVERLAY_SNAP_DEBOUNCE_MS) && due(old(last_save).0, now)),
        final(last_save).0 == (if r {
            Some(now)
        } else {
            old(last_save).0
        }),
{
    if is_settled(last_move.0, now, OVERLAY_SNAP_DEBOUNCE_MS) && is_due(last_save.0, now) {
        last_save.0 = Some(now);
        true
    } else {
        false
    }
}

/// Takes in a move of the main panel: its place is remembered at once.
pub fn schedule_main_position_save(
    cfg: &mut AppConfig,
    position: (i32, i32),
    last_move: &mut SharedMainLastMove,
    now: u64,
)
    ensures
        *final(cfg) == (AppConfig {
            main_x: Some(position.0),
            main_y: Some(position.1),
            ..*old(cfg)
        }),
        final(last_move).0 == Some(now),
{
    cfg.main_x = Some(position.0);
    cfg.main_y = Some(position.1);
    last_move.0 = Some(now);
}

/// Whether, a while after a move, the main panel's place is to be written.
pub fn main_save_due(
    last_move: &SharedMainLastMove,
    last_save: &mut SharedMainPosSave,
    now: u64,
) -> (r: bool)
    ensures
        r <==> last_move.0 is Some && now - last_move.0->0 >= 230_000_000 && (old(last_save).0 is None
            || now - old(last_save).0->0 >= 200_000_000),
        r == (settled(last_move.0, now, MAIN_POS_SAVE_DEBOUNCE_MS) && due(old(last_save).0, now)),
        final(last_save).0 == (if r {
            Some(now)
        } else {
            old(last_save).0
        }),
{
    if is_settled(last_move.0, now, MAIN_POS_SAVE_DEBOUNCE_MS) && is_due(last_save.0, now) {
        last_save.0 = Some(now);
        true
    } else {
        false
    }
}

/// While a window keeps moving, its place is not written: a check finds the last move
/// too recent.
pub proof fn law_moving_is_not_written(last: u64, now: u64, debounce_ms: u64)
    requires
        debounce_ms > DEBOUNCE_SLACK_MS,
        now - last < (debounce_ms - DEBOUNCE_SLACK_MS) * 1_000_000,
    ensures
        !settled(Some(last), now, debounce_ms),
{
}

/// Two writes of a place are at least a fifth of a second apart.
pub proof fn law_writes_are_apart(last: u64, now: u64)
    requires
        due(Some(last), now),
    ensures
        now - last >= 200_000_000,
{
}

/// A screen, in pixels.
#[derive(Clone, Copy, PartialEq, Eq, Structural, Debug)]
pub struct Screen {
    pub x: i32,
    pub y: i32,
    pub width: u32,
    pub height: u32,
    pub scale: Double,
    pub work: WorkArea,
}

impl Screen {
    /// Whether the point, in pixels, lies on the screen.
    pub open spec fn holds(self, x: i32, y: i32) -> bool {
        &&& self.x <= x < overlay::far_end(self.x, self.width)
        &&& self.y <= y < overlay::far_end(self.y, self.height)
    }

    /// Whether the point lies on the screen when this is measured by its own scale.
    pub open spec fn holds_scaled(self, x: Double, y: Double) -> bool {
        let left = number::double_int(self.x as int).quotient(self.scale);
        let top = number::double_int(self.y as int).quotient(self.scale);
        let width = number::double_whole(self.width as nat).quotient(self.scale);
        let height = number::double_whole(self.height as nat).quotient(self.scale);
        &&& left.at_most(x) && x.below(left.sum(width))
        &&& top.at_most(y) && y.below(top.sum(height))
    }

    fn has(&self, x: i32, y: i32) -> (r: bool)
        ensures
            r == self.holds(x, y),
    {
        let right = end_of(self.x, self.width);
        let bottom = end_of(self.y, self.height);
        x >= self.x && (x as i64) < right && y >= self.y && (y as i64) < bottom
    }

    fn has_scaled(&self, x: Double, y: Double) -> (r: bool)
        ensures
            r == self.holds_scaled(x, y),
    {
        let left = Double::whole_signed(self.x as i64).over(self.scale);
        let top = Double::whole_signed(self.y as i64).over(self.scale);
        let width = Double::whole(self.width as u64).over(self.scale);
        let height = Double::whole(self.height as u64).over(self.scale);
        left.is_at_most(x) && x.is_below(left.plus(width)) && top.is_at_most(y) && y.is_below(
            top.plus(height),
        )
    }
}

/// A point on the screens, in pixels or measured by the scale of the screen it is on.
#[derive(Clone, Copy, PartialEq, Eq, Structural, Debug)]
pub enum Point {
    Physical(i32, i32),
    Logical(Double, Double),
}

impl Point {
    pub open spec fn on(self, screen: Screen) -> bool {
        match self {
            Point::Physical(x, y) => screen.holds(x, y),
            Point::Logical(x, y) => screen.holds_scaled(x, y),
        }
    }
}

/// The first screen that the point is on, and the primary one where it is on none.
pub open spec fn screen_at(screens: Seq<Screen>, primary: Option<Screen>, point: Point) -> Option<
    Screen,
>
    decreases screens.len(),
{
    if screens.len() == 0 {
        primary
    } else if point.on(screens[0]) {
        Some(screens[0])
    } else {
        screen_at(screens.drop_first(), primary, point)
    }
}

fn find_screen(screens: &Vec<Screen>, primary: Option<Screen>, point: Point) -> (r: Option<Screen>)
    ensures
        r == screen_at(screens@, primary, point),
{
    let n = screens.len();
    let mut i: usize = 0;
    assert(screens@.skip(0) =~= screens@);
    while i < n
        invariant
            n == screens@.len(),
            i <= n,
            screen_at(screens@, primary, point) == screen_at(
                screens@.skip(i as int),
                primary,
                point,
            ),
        decreases n - i,
    {
        let found = match point {
            Point::Physical(x, y) => screens[i].has(x, y),
            Point::Logical(x, y) => screens[i].has_scaled(x, y),
        };
        if found {
            return Some(screens[i]);
        }
        assert(screens@.skip(i as int).drop_first() =~= screens@.skip(i + 1));
        i = i + 1;
    }
    primary
}

/// The screen that a point given in pixels is on.
pub fn monitor_at_physical_point(
    screens: &Vec<Screen>,
    primary: Option<Screen>,
    x: i32,
    y: i32,
) -> (r: Option<Screen>)
    ensures
        r == screen_at(screens@, primary, Point::Physical(x, y)),
{
    find_screen(screens, primary, Point::Physical(x, y))
}

/// The screen that a point measured by scale is on.
pub fn monitor_at_logical_point(
    screens: &Vec<Screen>,
    primary: Option<Screen>,
    x: Double,
    y: Double,
) -> (r: Option<Screen>)
    ensures
        r == screen_at(screens@, primary, Point::Logical(x, y)),
{
    find_screen(screens, primary, Point::Logical(x, y))
}

/// The scale of the screen that the tray icon is on; one where it is not known.
pub fn tray_event_scale(screens: &Vec<Screen>, primary: Option<Screen>, point: Point) -> (r: Double)
    ensures
        r == (match screen_at(screens@, primary, point) {
            Some(screen) => screen.scale,
            None => number::double_whole(1),
        }),
{
    let screen = match point {
        Point::Physical(x, y) => monitor_at_physical_point(screens, primary, x, y),
        Point::Logical(x, y) => monitor_at_logical_point(screens, primary, x, y),
    };
    match screen {
        Some(screen) => screen.scale,
        None => Double::whole(1),
    }
}

/// Screens that do not overlap: a point on one of them is found on that one.
pub proof fn law_point_is_found(
    screens: Seq<Screen>,
    primary: Option<Screen>,
    point: Point,
    i: int,
)
    requires
        0 <= i < screens.len(),
        point.on(screens[i]),
        forall|j: int| 0 <= j < screens.len() && j != i ==> !point.on(#[trigger] screens[j]),
    ensures
        screen_at(screens, primary, point) == Some(screens[i]),
    decreases screens.len(),
{
    if i > 0 {
        assert(!point.on(screens[0]));
        let rest = screens.drop_first();
        assert forall|j: int| 0 <= j < rest.len() && j != i - 1 implies !point.on(
            #[trigger] rest[j],
        ) by {
            assert(rest[j] == screens[j + 1]);
        }
        law_point_is_found(rest, primary, point, i - 1);
    }
}

/// `n / 2` without its fraction.
pub open spec fn halved(n: int) -> int {
    if n < 0 {
        -((-n) / 2)
    } else {
        n / 2
    }
}

fn half_of(n: i64) -> (r: i64)
    requires
        n > i64::MIN,
    ensures
        r == halved(n as int),
{
    if n < 0 {
        -((-n) / 2)
    } else {
        n / 2
    }
}

/// Where a panel of that length starts on one axis: at `at`, inside the work area.
pub open spec fn panel_start(at: int, len: int, low: int, high: int) -> int {
    number::within(at, low, overlay::larger(high - len, low))
}

/// Where the main panel opens at the tray icon: its middle over the icon's, its lower
/// end a little above it, inside the work area of the icon's screen.
pub open spec fn panel_place(
    icon: (i32, i32),
    icon_size: (u32, u32),
    panel: (u32, u32),
    work: Option<WorkArea>,
) -> (int, int) {
    let width = overlay::signed(panel.0);
    let height = overlay::signed(panel.1);
    let x = icon.0 + halved(overlay::signed(icon_size.0)) - halved(width);
    let y = number::within(icon.1 - (height + 8), i32::MIN as int, i32::MAX as int);
    match work {
        Some(work) => (
            panel_start(x, width, work.x as int, overlay::far_end(work.x, work.width)),
            panel_start(y, height, work.y as int, overlay::far_end(work.y, work.height)),
        ),
        None => (overlay::larger(x, 0), overlay::larger(y, 0)),
    }
}

/// Whether the main panel can be put at that place: a place beyond the range of `i32`
/// comes of an icon beyond every screen only.
pub open spec fn panel_place_fits(
    icon: (i32, i32),
    icon_size: (u32, u32),
    panel: (u32, u32),
    work: Option<WorkArea>,
) -> bool {
    let (x, y) = panel_place(icon, icon_size, panel, work);
    i32::MIN <= x <= i32::MAX && i32::MIN <= y <= i32::MAX
}

/// The size of the main panel, where it cannot be read.
pub fn panel_size(read: Option<(u32, u32)>) -> (r: (u32, u32))
    ensures
        r == (match read {
            Some(size) => size,
            None => (380u32, 690u32),
        }),
{
    match read {
        Some(size) => size,
        None => (380, 690),
    }
}

fn hold_start(at: i64, len: i64, low: i32, high: i64) -> (r: i64)
    requires
        -0x1_0000_0000 <= at <= 0x1_0000_0000,
        -0x1_0000_0000 <= len <= 0x1_0000_0000,
        -0x1_0000_0000 <= high <= 0x1_0000_0000,
    ensures
        r == panel_start(at as int, len as int, low as int, high as int),
{
    let low = low as i64;
    let last = if high - len < low {
        low
    } else {
        high - len
    };
    if at < low {
        low
    } else if at > last {
        last
    } else {
        at
    }
}

/// Where the main panel opens at the tray icon; `None` where that place is beyond
/// the range of `i32`.
pub fn show_panel(
    icon: (i32, i32),
    icon_size: (u32, u32),
    panel: (u32, u32),
    work: Option<WorkArea>,
) -> (r: Option<(i32, i32)>)
    ensures
        match r {
            Some((x, y)) => panel_place_fits(icon, icon_size, panel, work) && (x as int, y as int)
                == panel_place(icon, icon_size, panel, work),
            None => !panel_place_fits(icon, icon_size, panel, work),
        },
{
    let width = to_signed(panel.0);
    let height = to_signed(panel.1);
    let x = icon.0 as i64 + half_of(to_signed(icon_size.0)) - half_of(width);
    let above = icon.1 as i64 - (height + 8);
    let y = if above < i32::MIN as i64 {
        i32::MIN as i64
    } else if above > i32::MAX as i64 {
        i32::MAX as i64
    } else {
        above
    };
    let (x, y) = match work {
        Some(work) => (
            hold_start(x, width, work.x, end_of(work.x, work.width)),
            hold_start(y, height, work.y, end_of(work.y, work.height)),
        ),
        None => (
            if x < 0 {
                0
            } else {
                x
            },
            if y < 0 {
                0
            } else {
                y
            },
        ),
    };
    if x < i32::MIN as i64 || x > i32::MAX as i64 || y < i32::MIN as i64 || y > i32::MAX as i64 {
        None
    } else {
        Some((x as i32, y as i32))
    }
}

/// On a screen that is known, a panel no larger than its work area opens inside it.
pub proof fn law_panel_opens_inside(
    icon: (i32, i32),
    icon_size: (u32, u32),
    panel: (u32, u32),
    work: WorkArea,
)
    requires
        0 <= overlay::signed(panel.0) <= overlay::far_end(work.x, work.width) - work.x,
        0 <= overlay::signed(panel.1) <= overlay::far_end(work.y, work.height) - work.y,
    ensures
        ({
            let (x, y) = panel_place(icon, icon_size, panel, Some(work));
            &&& work.x <= x && x + overlay::signed(panel.0) <= overlay::far_end(work.x, work.width)
            &&& work.y <= y && y + overlay::signed(panel.1) <= overlay::far_end(
                work.y,
                work.height,
            )
        }),
{
}

/// What the tray's menu asks for.
#[derive(Clone, Copy, PartialEq, Eq, Structural, Debug)]
pub enum MenuAction {
    Quit,
    Show,
    Settings,
    /// Show the overlay, or hide it.
    Overlay(bool),
    Nothing,
}

/// What an entry of the tray's menu asks for; the overlay's one asks for what is not.
pub fn menu_action(id: &str, overlay_enabled: bool) -> (r: MenuAction)
    ensures
        r == (if id@ == "quit"@ {
            MenuAction::Quit
        } else if id@ == "show"@ {
            MenuAction::Show
        } else if id@ == "alert_settings"@ {
            MenuAction::Settings
        } else if id@ == "overlay"@ {
            MenuAction::Overlay(!overlay_enabled)
        } else {
            MenuAction::Nothing
        }),
{
    if text::same_text(id, "quit") {
        MenuAction::Quit
    } else if text::same_text(id, "show") {
        MenuAction::Show
    } else if text::same_text(id, "alert_settings") {
        MenuAction::Settings
    } else if text::same_text(id, "overlay") {
        MenuAction::Overlay(!overlay_enabled)
    } else {
        MenuAction::Nothing
    }
}

/// What becomes of the main panel.
#[derive(Clone, Copy, PartialEq, Eq, Structural, Debug)]
pub enum PanelAction {
    Show,
    Hide,
    Stay,
}

/// What a click on the tray icon does; a panel of which it is not known whether it is
/// visible is shown.
pub fn toggle_panel(visible: Option<bool>) -> (r: PanelAction)
    ensures
        r == (if visible == Some(true) {
            PanelAction::Hide
        } else {
            PanelAction::Show
        }),
{
    match visible {
        Some(true) => PanelAction::Hide,
        _ => PanelAction::Show,
    }
}

/// What the loss of the focus does: the panel is hidden, unless its settings are
/// open.
pub fn focus_lost(settings_open: bool) -> (r: PanelAction)
    ensures
        r == (if settings_open {
            PanelAction::Stay
        } else {
            PanelAction::Hide
        }),
{
    if settings_open {
        PanelAction::Stay
    } else {
        PanelAction::Hide
    }
}

/// Whether a request to exit is followed: it is where it has a code, which it has
/// where the user asked for it, and not where the last window was closed.
pub fn exit_allowed(code: Option<i32>) -> (r: bool)
    ensures
        r == code is Some,
{
    code.is_some()
}

/// The two windows.
#[derive(Clone, Copy, PartialEq, Eq, Structural, Debug)]
pub enum AppWindow {
    Main,
    Overlay,
}

/// What happens to a window, or to the application.
#[derive(Clone, Copy, PartialEq, Eq, Structural, Debug)]
pub enum AppEvent {
    FocusLost(AppWindow),
    CloseRequested(AppWindow),
    Moved(AppWindow),
    /// The request has a code where the user asked for it.
    ExitRequested(Option<i32>),
}

/// What is done about it.
#[derive(Clone, Copy, PartialEq, Eq, Structural, Debug)]
pub enum AppAction {
    Nothing,
    /// Write the main panel's place and hide it.
    HidePanel,
    /// Switch the overlay off in the settings, which hides it.
    TurnOverlayOff,
    /// Write the window's place after a while.
    SavePlaceLater(AppWindow),
    /// Write the places of both windows and end.
    Exit,
}

/// What is done about an event, and whether what the system would do is prevented.
#[derive(Clone, Copy, PartialEq, Eq, Structural, Debug)]
pub struct Reaction {
    pub prevented: bool,
    pub action: AppAction,
}

/// What is done about an event. The overlay stays when it loses the focus.
pub open spec fn reaction(event: AppEvent, settings_open: bool) -> Reaction {
    match event {
        AppEvent::FocusLost(AppWindow::Main) => Reaction {
            prevented: false,
            action: if settings_open {
                AppAction::Nothing
            } else {
                AppAction::HidePanel
            },
        },
        AppEvent::FocusLost(AppWindow::Overlay) => Reaction {
            prevented: false,
            action: AppAction::Nothing,
        },
        AppEvent::CloseRequested(AppWindow::Main) => Reaction {
            prevented: true,
            action: AppAction::HidePanel,
        },
        AppEvent::CloseRequested(AppWindow::Overlay) => Reaction {
            prevented: true,
            action: AppAction::TurnOverlayOff,
        },
        AppEvent::Moved(window) => Reaction {
            prevented: false,
            action: AppAction::SavePlaceLater(window),
        },
        AppEvent::ExitRequested(code) => Reaction {
            prevented: code is None,
            action: if code is Some {
                AppAction::Exit
            } else {
                AppAction::Nothing
            },
        },
    }
}

/// Answers an event.
pub fn react(event: AppEvent, settings_open: bool) -> (r: Reaction)
    ensures
        r == reaction(event, settings_open),
{
    match event {
        AppEvent::FocusLost(AppWindow::Main) => {
            let action = match focus_lost(settings_open) {
                PanelAction::Hide => AppAction::HidePanel,
                _ => AppAction::Nothing,
            };
            Reaction { prevented: false, action }
        },
        AppEvent::FocusLost(AppWindow::Overlay) => Reaction {
            prevented: false,
            action: AppAction::Nothing,
        },
        AppEvent::CloseRequested(AppWindow::Main) => Reaction {
            prevented: true,
            action: AppAction::HidePanel,
        },
        AppEvent::CloseRequested(AppWindow::Overlay) => Reaction {
            prevented: true,
            action: AppAction::TurnOverlayOff,
        },
        AppEvent::Moved(window) => Reaction {
            prevented: false,
            action: AppAction::SavePlaceLater(window),
        },
        AppEvent::ExitRequested(code) => {
            if exit_allowed(code) {
                Reaction { prevented: false, action: AppAction::Exit }
            } else {
                Reaction { prevented: true, action: AppAction::Nothing }
            }
        },
    }
}

/// What the events do, each with whether the settings are open: the panel that loses
/// the focus is hidden exactly where they are not; a request to close the panel is
/// prevented and hides it; one to close the overlay is prevented and switches it off;
/// a request to exit without a code is prevented.
pub proof fn law_windows_are_hidden_not_closed(settings_open: bool)
    ensures
        reaction(AppEvent::FocusLost(AppWindow::Main), settings_open).action
            == AppAction::HidePanel <==> !settings_open,
        forall|window: AppWindow|
            (#[trigger] reaction(AppEvent::CloseRequested(window), settings_open)).prevented,
        reaction(AppEvent::CloseRequested(AppWindow::Main), settings_open).action
            == AppAction::HidePanel,
        reaction(AppEvent::CloseRequested(AppWindow::Overlay), settings_open).action
            == AppAction::TurnOverlayOff,
        reaction(AppEvent::ExitRequested(None), settings_open).prevented,
        reaction(AppEvent::ExitRequested(None), settings_open).action == AppAction::Nothing,
{
}

/// Whether the application still runs after the events, each with whether the
/// settings are open.
pub open spec fn runs_after(events: Seq<(AppEvent, bool)>) -> bool
    decreases events.len(),
{
    events.len() == 0 || (runs_after(events.drop_last()) && reaction(
        events.last().0,
        events.last().1,
    ).action != AppAction::Exit)
}

/// Whatever happens, the application ends exactly where there is an exit with a code
/// among the events.
pub proof fn law_only_an_explicit_exit_ends(events: Seq<(AppEvent, bool)>)
    ensures
        !runs_after(events) <==> exists|i: int|
            0 <= i < events.len() && (#[trigger] events[i]).0 is ExitRequested
                && events[i].0->ExitRequested_0 is Some,
    decreases events.len(),
{
    if events.len() > 0 {
        let before = events.drop_last();
        law_only_an_explicit_exit_ends(before);
        assert(events.last() == events[events.len() - 1]);
        assert(forall|i: int| 0 <= i < before.len() ==> #[trigger] before[i] == events[i]);
        if !runs_after(before) {
            let i = choose|i: int|
                0 <= i < before.len() && (#[trigger] before[i]).0 is ExitRequested
                    && before[i].0->ExitRequested_0 is Some;
            assert(events[i] == before[i]);
        } else if exists|i: int|
            0 <= i < events.len() && (#[trigger] events[i]).0 is ExitRequested
                && events[i].0->ExitRequested_0 is Some {
            let i = choose|i: int|
                0 <= i < events.len() && (#[trigger] events[i]).0 is ExitRequested
                    && events[i].0->ExitRequested_0 is Some;
            if i < before.len() {
                assert(before[i] == events[i]);
            }
        }
    }
}

/// When a move and a write are long enough ago: a move where what is asked for has passed
/// but for 20 milliseconds, a write where 200 have. Without a move there is nothing to
/// wait for; without a write the place may be written.
pub proof fn law_waiting_times(last: Option<u64>, now: u64, debounce_ms: u64)
    requires
        debounce_ms > 20,
    ensures
        settled(last, now, debounce_ms) <==> last is Some && now - last->0 >= (debounce_ms - 20)
            * 1_000_000,
        due(last, now) <==> last is None || now - last->0 >= 200_000_000,
{
}

/// Moves are not the user's before the time that was set, and are from it on.
pub proof fn law_quiet_time(until: Option<u128>, now: u64)
    ensures
        quiet(until, now) <==> until is Some && now < until->0,
{
}

/// A point in pixels is on a screen from its left and upper edge up to, and without, its
/// right and lower one. Edges beyond the range of `i32` count as its ends.
pub proof fn law_points_on_screens(s: Screen, x: i32, y: i32)
    requires
        s.width <= 0x7fff_ffff,
        s.height <= 0x7fff_ffff,
    ensures
        s.holds(x, y) <==> {
            &&& s.x <= x && x < s.x + s.width && x < 0x7fff_ffff
            &&& s.y <= y && y < s.y + s.height && y < 0x7fff_ffff
        },
        Point::Physical(x, y).on(s) == s.holds(x, y),
{
}

/// A point measured by scale is on a screen from its left and upper edge up to, and
/// without, its right and lower one, all of them divided by the screen's scale.
pub proof fn law_scaled_points_on_screens(s: Screen, x: Double, y: Double)
    ensures
        ({
            let left = number::double_int(s.x as int).quotient(s.scale);
            let top = number::double_int(s.y as int).quotient(s.scale);
            let right = left.sum(number::double_whole(s.width as nat).quotient(s.scale));
            let bottom = top.sum(number::double_whole(s.height as nat).quotient(s.scale));
            s.holds_scaled(x, y) <==> left.at_most(x) && x.below(right) && top.at_most(y)
                && y.below(bottom)
        }),
        Point::Logical(x, y).on(s) == s.holds_scaled(x, y),
{
}

/// The first screen that a point is on is the one that counts; on none, the primary one.
pub proof fn law_first_screen_counts(
    screens: Seq<Screen>,
    primary: Option<Screen>,
    point: Point,
    i: int,
)
    requires
        0 <= i <= screens.len(),
        i < screens.len() ==> point.on(screens[i]),
        forall|j: int| 0 <= j < i ==> !point.on(#[trigger] screens[j]),
    ensures
        i < screens.len() ==> screen_at(screens, primary, point) == Some(screens[i]),
        i == screens.len() ==> screen_at(screens, primary, point) == primary,
    decreases screens.len(),
{
    if i > 0 {
        assert(!point.on(screens[0]));
        let rest = screens.drop_first();
        assert forall|j: int| 0 <= j < i - 1 implies !point.on(#[trigger] rest[j]) by {
            assert(rest[j] == screens[j + 1]);
        }
        law_first_screen_counts(rest, primary, point, i - 1);
    }
}

/// Where the panel opens, in pixels: half the icon's width and half its own from the
/// icon's left, its lower end 8 pixels above the icon's top, and then as little moved as
/// puts it inside the work area, from whose start it opens where it does not fit. Without
/// a work area it is kept from starting left of or above zero.
pub proof fn law_where_the_panel_opens(
    icon: (i32, i32),
    icon_size: (u32, u32),
    panel: (u32, u32),
    work: WorkArea,
)
    requires
        icon_size.0 <= 0x7fff_ffff,
        panel.0 <= 0x7fff_ffff,
        panel.1 <= 0x7fff_ffff,
        work.width <= 0x7fff_ffff,
        work.height <= 0x7fff_ffff,
        work.x + work.width <= 0x7fff_ffff,
        work.y + work.height <= 0x7fff_ffff,
        icon.1 - panel.1 - 8 >= -0x8000_0000,
    ensures
        ({
            let x = icon.0 + icon_size.0 / 2 - panel.0 / 2;
            let y = icon.1 - panel.1 - 8;
            let last_x = if work.width < panel.0 {
                work.x as int
            } else {
                work.x + work.width - panel.0
            };
            let last_y = if work.height < panel.1 {
                work.y as int
            } else {
                work.y + work.height - panel.1
            };
            let on = panel_place(icon, icon_size, panel, Some(work));
            let off = panel_place(icon, icon_size, panel, None);
            &&& x < work.x ==> on.0 == work.x
            &&& work.x <= x <= last_x ==> on.0 == x
            &&& work.x <= x && x > last_x ==> on.0 == last_x
            &&& y < work.y ==> on.1 == work.y
            &&& work.y <= y <= last_y ==> on.1 == y
            &&& work.y <= y && y > last_y ==> on.1 == last_y
            &&& off.0 == (if x < 0 {
                0
            } else {
                x
            })
            &&& off.1 == (if y < 0 {
                0
            } else {
                y
            })
            &&& panel_place_fits(icon, icon_size, panel, Some(work))
        }),
{
}

/// A place fits where both of its numbers are in the range of `i32`.
pub proof fn law_places_that_fit(
    icon: (i32, i32),
    icon_size: (u32, u32),
    panel: (u32, u32),
    work: Option<WorkArea>,
)
    ensures
        panel_place_fits(icon, icon_size, panel, work) <==> {
            let place = panel_place(icon, icon_size, panel, work);
            &&& -0x8000_0000 <= place.0 <= 0x7fff_ffff
            &&& -0x8000_0000 <= place.1 <= 0x7fff_ffff
        },
{
}

/// What is done about the other events: the overlay stays when it loses the focus, and so
/// does the panel while its settings are open; the place of a window that moved is written
/// after a while; an exit with a code ends the application. None of these is prevented.
pub proof fn law_what_events_do(window: AppWindow, code: i32, settings_open: bool)
    ensures
        !reaction(AppEvent::FocusLost(window), settings_open).prevented,
        reaction(AppEvent::FocusLost(AppWindow::Overlay), settings_open).action
            == AppAction::Nothing,
        settings_open ==> reaction(AppEvent::FocusLost(AppWindow::Main), settings_open).action
            == AppAction::Nothing,
        !reaction(AppEvent::Moved(window), settings_open).prevented,
        reaction(AppEvent::Moved(window), settings_open).action == AppAction::SavePlaceLater(window),
        !reaction(AppEvent::ExitRequested(Some(code)), settings_open).prevented,
        reaction(AppEvent::ExitRequested(Some(code)), settings_open).action == AppAction::Exit,
{
}

} // verus!
