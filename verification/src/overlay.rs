//! The overlay window: its size in each layout, where a change of layout puts it,
//! and how it keeps to the edges of the screen.

use crate::config::{OverlayEdgeX, OverlayEdgeY, OverlayStyle};
use crate::ieee;
use crate::ieee::Format;
use crate::number;
use crate::number::Double;
use crate::pixels;
use crate::text;
use vstd::arithmetic::power2::*;
use vstd::prelude::*;
use vstd::string::*;

verus! {

/// How near to an edge, in pixels, the overlay is drawn to it.
pub const OVERLAY_SNAP_THRESHOLD_PX: i64 = 36;

/// How much the left and the upper edge gain at a corner, in pixels.
pub const OVERLAY_SNAP_CORNER_BONUS_PX: i64 = 12;

pub const OVERLAY_COLLAPSED_WIDTH: u32 = 310;

pub const OVERLAY_COLLAPSED_HEIGHT: u32 = 38;

pub const OVERLAY_VERTICAL_WIDTH: u32 = 72;

pub const OVERLAY_VERTICAL_HEIGHT: u32 = 168;

pub const OVERLAY_NUMERIC_WIDTH: u32 = 258;

pub const OVERLAY_NUMERIC_HEIGHT: u32 = 34;

pub const OVERLAY_EXPANDED_WIDTH: u32 = 310;

pub const OVERLAY_EXPANDED_HEIGHT: u32 = 176;

pub const OVERLAY_PEEK_THICKNESS: u32 = 8;

pub const OVERLAY_PEEK_LENGTH: u32 = 96;

/// How the overlay is laid out.
#[derive(Clone, Copy, PartialEq, Eq, Structural, Debug)]
pub enum OverlayLayoutMode {
    Collapsed,
    Expanded,
    /// The narrow strip that is left of a hidden overlay.
    Peek,
}

/// The layout of that name.
pub open spec fn layout_named(mode: Seq<char>) -> Option<OverlayLayoutMode> {
    if mode == "collapsed"@ {
        Some(OverlayLayoutMode::Collapsed)
    } else if mode == "expanded"@ {
        Some(OverlayLayoutMode::Expanded)
    } else if mode == "peek"@ {
        Some(OverlayLayoutMode::Peek)
    } else {
        None
    }
}

pub fn parse_overlay_layout_mode(mode: &str) -> (r: Result<OverlayLayoutMode, String>)
    ensures
        match r {
            Ok(m) => layout_named(mode@) == Some(m),
            Err(e) => layout_named(mode@) is None && e@ == "未知叠加层布局: "@ + mode@,
        },
{
    if text::same_text(mode, "collapsed") {
        Ok(OverlayLayoutMode::Collapsed)
    } else if text::same_text(mode, "expanded") {
        Ok(OverlayLayoutMode::Expanded)
    } else if text::same_text(mode, "peek") {
        Ok(OverlayLayoutMode::Peek)
    } else {
        Err(text::pair("未知叠加层布局: ", mode))
    }
}

/// The layout that is asked for by a name with space around it.
pub fn set_overlay_layout(mode: &str) -> (r: Result<OverlayLayoutMode, String>)
    ensures
        match r {
            Ok(m) => layout_named(text::trim(mode@)) == Some(m),
            Err(e) => layout_named(text::trim(mode@)) is None && e@ == "未知叠加层布局: "@
                + text::trim(mode@),
        },
{
    let trimmed = text::string_of(&text::trimmed(&text::chars_of(mode)));
    parse_overlay_layout_mode(trimmed.as_str())
}

/// The layout of a collapsed or an open overlay.
pub fn set_overlay_collapsed(collapsed: bool) -> (r: OverlayLayoutMode)
    ensures
        r == (if collapsed {
            OverlayLayoutMode::Collapsed
        } else {
            OverlayLayoutMode::Expanded
        }),
{
    if collapsed {
        OverlayLayoutMode::Collapsed
    } else {
        OverlayLayoutMode::Expanded
    }
}

/// The width and the height of the overlay in a layout. Only the collapsed one
/// depends on the style.
pub open spec fn layout_size(mode: OverlayLayoutMode, style: OverlayStyle) -> (u32, u32) {
    match mode {
        OverlayLayoutMode::Collapsed => match style {
            OverlayStyle::Capsule => (310, 38),
            OverlayStyle::Vertical => (72, 168),
            OverlayStyle::Numeric => (258, 34),
        },
        OverlayLayoutMode::Expanded => (310, 176),
        OverlayLayoutMode::Peek => (8, 96),
    }
}

pub fn overlay_layout_size(
    mode: OverlayLayoutMode,
    style: OverlayStyle,
    _edge_x: Option<OverlayEdgeX>,
    _edge_y: Option<OverlayEdgeY>,
) -> (r: (u32, u32))
    ensures
        r == layout_size(mode, style),
{
    match mode {
        OverlayLayoutMode::Collapsed => match style {
            OverlayStyle::Capsule => (OVERLAY_COLLAPSED_WIDTH, OVERLAY_COLLAPSED_HEIGHT),
            OverlayStyle::Vertical => (OVERLAY_VERTICAL_WIDTH, OVERLAY_VERTICAL_HEIGHT),
            OverlayStyle::Numeric => (OVERLAY_NUMERIC_WIDTH, OVERLAY_NUMERIC_HEIGHT),
        },
        OverlayLayoutMode::Expanded => (OVERLAY_EXPANDED_WIDTH, OVERLAY_EXPANDED_HEIGHT),
        OverlayLayoutMode::Peek => (OVERLAY_PEEK_THICKNESS, OVERLAY_PEEK_LENGTH),
    }
}

/// The part of a screen that windows may cover, in pixels.
#[derive(Clone, Copy, PartialEq, Eq, Structural, Debug)]
pub struct WorkArea {
    pub x: i32,
    pub y: i32,
    pub width: u32,
    pub height: u32,
}

/// One end of an axis: left and top, or right and bottom.
#[derive(Clone, Copy, PartialEq, Eq, Structural, Debug)]
pub enum End {
    Start,
    Finish,
}

/// The end of the horizontal axis that an edge is.
pub open spec fn end_x(edge: Option<OverlayEdgeX>) -> Option<End> {
    match edge {
        Some(OverlayEdgeX::Left) => Some(End::Start),
        Some(OverlayEdgeX::Right) => Some(End::Finish),
        None => None,
    }
}

/// The end of the vertical axis that an edge is.
pub open spec fn end_y(edge: Option<OverlayEdgeY>) -> Option<End> {
    match edge {
        Some(OverlayEdgeY::Top) => Some(End::Start),
        Some(OverlayEdgeY::Bottom) => Some(End::Finish),
        None => None,
    }
}

fn to_end_x(edge: Option<OverlayEdgeX>) -> (r: Option<End>)
    ensures
        r == end_x(edge),
{
    match edge {
        Some(OverlayEdgeX::Left) => Some(End::Start),
        Some(OverlayEdgeX::Right) => Some(End::Finish),
        None => None,
    }
}

fn to_end_y(edge: Option<OverlayEdgeY>) -> (r: Option<End>)
    ensures
        r == end_y(edge),
{
    match edge {
        Some(OverlayEdgeY::Top) => Some(End::Start),
        Some(OverlayEdgeY::Bottom) => Some(End::Finish),
        None => None,
    }
}

/// The window and the screen along one axis, in pixels that do not depend on the
/// screen's scale.
#[derive(Clone, Copy, PartialEq, Eq, Structural, Debug)]
pub struct Axis {
    /// Where the window starts.
    pub at: Double,
    /// How long the window is, and how long it is to be.
    pub len: Double,
    pub next_len: Double,
    /// Where the work area starts, and how long it is.
    pub low: Double,
    pub span: Double,
}

/// One half.
pub open spec fn half() -> Double {
    number::double(ieee::fraction(Format::Double, 1, 2))
}

impl Axis {
    /// The last place at which the window is inside the work area.
    pub open spec fn max(self) -> Double {
        self.low.sum(self.span).difference(self.next_len)
    }

    /// The window's far end stays in place where it is as near to its side, else the
    /// near end does.
    pub open spec fn kept(self) -> Double {
        let end = self.at.sum(self.len);
        if self.low.sum(self.span).difference(end).at_most(self.at.difference(self.low)) {
            end.difference(self.next_len)
        } else {
            self.at
        }
    }

    /// The window's middle stays in place.
    pub open spec fn centered(self) -> Double {
        self.at.sum(self.len.product(half())).difference(self.next_len.product(half()))
    }

    /// Where the window is to start, before it is held inside the work area.
    pub open spec fn wanted(self, end: Option<End>, center: bool) -> Double {
        match end {
            Some(End::Start) => self.low,
            Some(End::Finish) => self.max(),
            None => if center {
                self.centered()
            } else {
                self.kept()
            },
        }
    }

    /// Whether the work area has room for the window.
    pub open spec fn fits(self) -> bool {
        self.low.at_most(self.max())
    }

    pub fn max_of(&self) -> (r: Double)
        ensures
            r == self.max(),
    {
        self.low.plus(self.span).minus(self.next_len)
    }

    fn wanted_of(&self, end: Option<End>, center: bool) -> (r: Double)
        ensures
            r == self.wanted(end, center),
    {
        match end {
            Some(End::Start) => self.low,
            Some(End::Finish) => self.max_of(),
            None => if center {
                let half = Double::ratio(1, 2);
                self.at.plus(self.len.times(half)).minus(self.next_len.times(half))
            } else {
                let end = self.at.plus(self.len);
                let after = self.low.plus(self.span).minus(end);
                if after.is_at_most(self.at.minus(self.low)) {
                    end.minus(self.next_len)
                } else {
                    self.at
                }
            },
        }
    }

    fn does_fit(&self) -> (r: bool)
        ensures
            r == self.fits(),
    {
        self.low.is_at_most(self.max_of())
    }
}

/// `x`, or the end of the range that it lies beyond.
pub open spec fn held(x: Double, low: Double, high: Double) -> Double {
    if x.below(low) {
        low
    } else if high.below(x) {
        high
    } else {
        x
    }
}

fn hold(x: Double, low: Double, high: Double) -> (r: Double)
    ensures
        r == held(x, low, high),
{
    if x.is_below(low) {
        low
    } else if high.is_below(x) {
        high
    } else {
        x
    }
}

/// What a change of layout starts from: the layout and the style, the edges that
/// the overlay keeps to, the screen's scale, the window and the work area in pixels.
#[derive(Clone, Copy, Debug)]
pub struct LayoutChange {
    pub mode: OverlayLayoutMode,
    pub style: OverlayStyle,
    pub edge_x: Option<OverlayEdgeX>,
    pub edge_y: Option<OverlayEdgeY>,
    pub scale: Double,
    pub position: (i32, i32),
    pub size: (u32, u32),
    pub work: Option<WorkArea>,
}

/// Where a window is put, in pixels.
#[derive(Clone, Copy, PartialEq, Eq, Structural, Debug)]
pub struct Placement {
    pub x: i32,
    pub y: i32,
    pub width: u32,
    pub height: u32,
}

impl LayoutChange {
    /// The horizontal axis.
    pub open spec fn across(self, work: WorkArea) -> Axis {
        Axis {
            at: number::double_int(self.position.0 as int).quotient(self.scale),
            len: number::double_whole(self.size.0 as nat).quotient(self.scale),
            next_len: number::double_whole(layout_size(self.mode, self.style).0 as nat),
            low: number::double_int(work.x as int).quotient(self.scale),
            span: number::double_whole(work.width as nat).quotient(self.scale),
        }
    }

    /// The vertical axis.
    pub open spec fn down(self, work: WorkArea) -> Axis {
        Axis {
            at: number::double_int(self.position.1 as int).quotient(self.scale),
            len: number::double_whole(self.size.1 as nat).quotient(self.scale),
            next_len: number::double_whole(layout_size(self.mode, self.style).1 as nat),
            low: number::double_int(work.y as int).quotient(self.scale),
            span: number::double_whole(work.height as nat).quotient(self.scale),
        }
    }

    /// Whether the work area, if it is known, has room for the window.
    pub open spec fn fits(self) -> bool {
        match self.work {
            Some(work) => self.across(work).fits() && self.down(work).fits(),
            None => true,
        }
    }

    /// Whether the strip keeps to an edge of the one axis only, and so keeps its
    /// middle on the other.
    pub open spec fn centers_x(self) -> bool {
        self.mode == OverlayLayoutMode::Peek && self.edge_x is None && self.edge_y is Some
    }

    pub open spec fn centers_y(self) -> bool {
        self.mode == OverlayLayoutMode::Peek && self.edge_y is None && self.edge_x is Some
    }

    /// Where the window is to start, across.
    pub open spec fn target_x(self) -> Double {
        match self.work {
            Some(work) => {
                let axis = self.across(work);
                held(axis.wanted(end_x(self.edge_x), self.centers_x()), axis.low, axis.max())
            },
            None => number::double_int(self.position.0 as int).quotient(self.scale),
        }
    }

    /// Where the window is to start, down.
    pub open spec fn target_y(self) -> Double {
        match self.work {
            Some(work) => {
                let axis = self.down(work);
                held(axis.wanted(end_y(self.edge_y), self.centers_y()), axis.low, axis.max())
            },
            None => number::double_int(self.position.1 as int).quotient(self.scale),
        }
    }

    /// Where the window is put.
    pub open spec fn placement(self) -> Placement {
        let (width, height) = layout_size(self.mode, self.style);
        Placement {
            x: in_pixels(self.target_x(), self.scale, i32::MIN as int, i32::MAX as int) as i32,
            y: in_pixels(self.target_y(), self.scale, i32::MIN as int, i32::MAX as int) as i32,
            width: in_pixels(
                number::double_whole(width as nat),
                self.scale,
                1,
                u32::MAX as int,
            ) as u32,
            height: in_pixels(
                number::double_whole(height as nat),
                self.scale,
                1,
                u32::MAX as int,
            ) as u32,
        }
    }

    fn axis_x(&self, work: WorkArea) -> (r: Axis)
        ensures
            r == self.across(work),
    {
        let (width, _) = overlay_layout_size(self.mode, self.style, self.edge_x, self.edge_y);
        Axis {
            at: Double::whole_signed(self.position.0 as i64).over(self.scale),
            len: Double::whole(self.size.0 as u64).over(self.scale),
            next_len: Double::whole(width as u64),
            low: Double::whole_signed(work.x as i64).over(self.scale),
            span: Double::whole(work.width as u64).over(self.scale),
        }
    }

    fn axis_y(&self, work: WorkArea) -> (r: Axis)
        ensures
            r == self.down(work),
    {
        let (_, height) = overlay_layout_size(self.mode, self.style, self.edge_x, self.edge_y);
        Axis {
            at: Double::whole_signed(self.position.1 as i64).over(self.scale),
            len: Double::whole(self.size.1 as u64).over(self.scale),
            next_len: Double::whole(height as u64),
            low: Double::whole_signed(work.y as i64).over(self.scale),
            span: Double::whole(work.height as u64).over(self.scale),
        }
    }

    /// Whether the work area, if it is known, has room for the window.
    pub fn does_fit(&self) -> (r: bool)
        ensures
            r == self.fits(),
    {
        match self.work {
            Some(work) => self.axis_x(work).does_fit() && self.axis_y(work).does_fit(),
            None => true,
        }
    }

    /// Puts the window in its place for the layout.
    pub fn apply_overlay_layout(&self) -> (r: Placement)
        requires
            self.fits(),
        ensures
            r == self.placement(),
    {
        let (width, height) = overlay_layout_size(self.mode, self.style, self.edge_x, self.edge_y);
        let peek = match self.mode {
            OverlayLayoutMode::Peek => true,
            _ => false,
        };
        let (x, y) = match self.work {
            Some(work) => {
                let across = self.axis_x(work);
                let down = self.axis_y(work);
                let center_x = peek && self.edge_x.is_none() && self.edge_y.is_some();
                let center_y = peek && self.edge_y.is_none() && self.edge_x.is_some();
                (
                    hold(
                        across.wanted_of(to_end_x(self.edge_x), center_x),
                        across.low,
                        across.max_of(),
                    ),
                    hold(
                        down.wanted_of(to_end_y(self.edge_y), center_y),
                        down.low,
                        down.max_of(),
                    ),
                )
            },
            None => (
                Double::whole_signed(self.position.0 as i64).over(self.scale),
                Double::whole_signed(self.position.1 as i64).over(self.scale),
            ),
        };
        Placement {
            x: x.times(self.scale).rounded_within(i32::MIN as i64, i32::MAX as i64) as i32,
            y: y.times(self.scale).rounded_within(i32::MIN as i64, i32::MAX as i64) as i32,
            width: Double::whole(width as u64).times(self.scale).rounded_within(
                1,
                u32::MAX as i64,
            ) as u32,
            height: Double::whole(height as u64).times(self.scale).rounded_within(
                1,
                u32::MAX as i64,
            ) as u32,
        }
    }
}

/// A length in whole pixels of a screen of that scale, held in a range.
pub open spec fn in_pixels(x: Double, scale: Double, low: int, high: int) -> int {
    number::within(number::rounded(x.product(scale)), low, high)
}

/// Whatever the layout, a window for which there is room starts inside the work
/// area, unless its place was no number.
pub proof fn law_layout_stays_inside(change: LayoutChange, work: WorkArea)
    requires
        change.work == Some(work),
        change.fits(),
    ensures
        ({
            let axis = change.across(work);
            let x = change.target_x();
            x.nan() || (axis.low.at_most(x) && x.at_most(axis.max()))
        }),
        ({
            let axis = change.down(work);
            let y = change.target_y();
            y.nan() || (axis.low.at_most(y) && y.at_most(axis.max()))
        }),
{
}

impl LayoutChange {
    /// Whether the places divided by the scale are numbers that can be told: a tiny
    /// scale takes them beyond the largest number there is.
    pub open spec fn in_range(self, work: WorkArea) -> bool {
        &&& pixels::finite(self.across(work).low) && pixels::finite(self.across(work).max())
        &&& pixels::finite(self.down(work).low) && pixels::finite(self.down(work).max())
        &&& !self.target_x().nan() && !self.target_y().nan()
    }
}

/// Whatever the layout, a window for which there is room is put, in pixels, where it
/// starts inside the work area and ends at most one pixel beyond it, by rounding.
pub proof fn law_window_stays_in_work_area(change: LayoutChange, work: WorkArea)
    requires
        change.work == Some(work),
        change.fits(),
        pixels::is_scale(change.scale),
        change.in_range(work),
    ensures
        ({
            let p = change.placement();
            &&& work.x <= p.x && p.x + p.width <= work.x + work.width + 1
            &&& work.y <= p.y && p.y + p.height <= work.y + work.height + 1
        }),
{
    law_layout_stays_inside(change, work);
    let (width, height) = layout_size(change.mode, change.style);
    pixels::lemma_window_in_pixels(
        work.x as int,
        work.width as nat,
        width as nat,
        change.scale,
        change.target_x(),
    );
    pixels::lemma_window_in_pixels(
        work.y as int,
        work.height as nat,
        height as nat,
        change.scale,
        change.target_y(),
    );
}

proof fn lemma_axis_in_range(axis: Axis, end: Option<End>, center: bool)
    requires
        pixels::finite(axis.at),
        pixels::finite(axis.len),
        pixels::finite(axis.next_len),
        pixels::finite(axis.low),
        pixels::finite(axis.max()),
    ensures
        !held(axis.wanted(end, center), axis.low, axis.max()).nan(),
{
    pixels::lemma_sum_is_a_number(axis.at, axis.len);
    pixels::lemma_sum_is_a_number(axis.at.sum(axis.len), axis.next_len);
    pixels::lemma_half_is_finite(axis.len);
    pixels::lemma_half_is_finite(axis.next_len);
    pixels::lemma_sum_is_a_number(axis.at, axis.len.product(half()));
    pixels::lemma_sum_is_a_number(
        axis.at.sum(axis.len.product(half())),
        axis.next_len.product(half()),
    );
}

proof fn lemma_lengths_in_range(at: i32, len: u32, next_len: u32, low: i32, span: u32, scale: Double)
    requires
        next_len <= 310,
        pixels::is_scale(scale),
        pow2(1074) <= 0x1_0000_0000_0000_0000 * pixels::scaled(scale),
    ensures
        ({
            let axis = Axis {
                at: number::double_int(at as int).quotient(scale),
                len: number::double_whole(len as nat).quotient(scale),
                next_len: number::double_whole(next_len as nat),
                low: number::double_int(low as int).quotient(scale),
                span: number::double_whole(span as nat).quotient(scale),
            };
            &&& pixels::finite(axis.at)
            &&& pixels::finite(axis.len)
            &&& pixels::finite(axis.next_len)
            &&& pixels::finite(axis.low)
            &&& pixels::finite(axis.max())
        }),
{
    pixels::lemma_quotient_is_finite(at as int, scale);
    pixels::lemma_quotient_is_finite(len as int, scale);
    pixels::lemma_quotient_is_finite(low as int, scale);
    pixels::lemma_quotient_is_finite(span as int, scale);
    number::lemma_whole_double(next_len as nat);
    lemma2_to64();
    lemma_pow2_strictly_increases(10, 97);
    assert(next_len * pow2(1074) <= pow2(97) * pow2(1074)) by (nonlinear_arith)
        requires
            next_len <= pow2(97),
    ;
    pixels::lemma_last_place_is_finite(
        number::double_int(low as int).quotient(scale),
        number::double_whole(span as nat).quotient(scale),
        number::double_whole(next_len as nat),
    );
}

/// Every scale from 2^-64 on, and so every scale of a screen, keeps the places in range.
pub proof fn law_scales_of_screens_are_in_range(change: LayoutChange, work: WorkArea)
    requires
        change.work == Some(work),
        pixels::is_scale(change.scale),
        pow2(1074) <= 0x1_0000_0000_0000_0000 * pixels::scaled(change.scale),
    ensures
        change.in_range(work),
{
    let (width, height) = layout_size(change.mode, change.style);
    let scale = change.scale;
    lemma_lengths_in_range(change.position.0, change.size.0, width, work.x, work.width, scale);
    lemma_lengths_in_range(change.position.1, change.size.1, height, work.y, work.height, scale);
    lemma_axis_in_range(change.across(work), end_x(change.edge_x), change.centers_x());
    lemma_axis_in_range(change.down(work), end_y(change.edge_y), change.centers_y());
}

/// An overlay that keeps to an edge is put at that edge in every layout.
pub proof fn law_layout_keeps_edges(change: LayoutChange, work: WorkArea)
    requires
        change.work == Some(work),
        change.fits(),
    ensures
        change.edge_x == Some(OverlayEdgeX::Left) ==> change.target_x() == change.across(work).low,
        change.edge_x == Some(OverlayEdgeX::Right) ==> change.target_x() == change.across(
            work,
        ).max(),
        change.edge_y == Some(OverlayEdgeY::Top) ==> change.target_y() == change.down(work).low,
        change.edge_y == Some(OverlayEdgeY::Bottom) ==> change.target_y() == change.down(
            work,
        ).max(),
{
}

/// A `u32` by the bits of which an `i32` is made.
pub open spec fn signed(n: u32) -> int {
    if n < 0x8000_0000 {
        n as int
    } else {
        n - 0x1_0000_0000
    }
}

pub fn to_signed(n: u32) -> (r: i64)
    ensures
        r == signed(n),
{
    if n < 0x8000_0000 {
        n as i64
    } else {
        n as i64 - 0x1_0000_0000
    }
}

/// Where a length from `from` ends, held in the range of `i32`.
pub open spec fn far_end(from: i32, len: u32) -> int {
    number::within(from + signed(len), i32::MIN as int, i32::MAX as int)
}

pub fn end_of(from: i32, len: u32) -> (r: i64)
    ensures
        r == far_end(from, len),
{
    let end = from as i64 + to_signed(len);
    if end < i32::MIN as i64 {
        i32::MIN as i64
    } else if end > i32::MAX as i64 {
        i32::MAX as i64
    } else {
        end
    }
}

/// The larger of two numbers.
pub open spec fn larger(a: int, b: int) -> int {
    if a < b {
        b
    } else {
        a
    }
}

/// A window along one axis of a work area, in pixels.
pub ghost struct Track {
    pub at: int,
    pub len: int,
    pub low: int,
    pub high: int,
}

impl Track {
    /// The last place at which the window is inside, or the first one where it is
    /// larger than the work area.
    pub open spec fn last(self) -> int {
        larger(self.high - self.len, self.low)
    }

    /// The place nearest to the window's own that is inside.
    pub open spec fn inside(self) -> int {
        number::within(self.at, self.low, self.last())
    }

    /// How far the start and the end of the window then are from those of the work
    /// area.
    pub open spec fn to_start(self) -> int {
        self.inside() - self.low
    }

    pub open spec fn to_end(self) -> int {
        self.high - (self.inside() + self.len)
    }

    pub open spec fn near(self) -> bool {
        self.to_start() <= OVERLAY_SNAP_THRESHOLD_PX || self.to_end() <= OVERLAY_SNAP_THRESHOLD_PX
    }

    /// The end that the window is drawn to, if it is near one. At a corner the start
    /// is preferred.
    pub open spec fn drawn_to(self, corner: bool) -> Option<End> {
        let boost = if corner {
            OVERLAY_SNAP_CORNER_BONUS_PX as int
        } else {
            0
        };
        if !self.near() {
            None
        } else if self.to_start() - boost <= self.to_end() {
            Some(End::Start)
        } else {
            Some(End::Finish)
        }
    }

    /// Where the window is put.
    pub open spec fn snapped(self, corner: bool) -> int {
        match self.drawn_to(corner) {
            Some(End::Start) => self.low,
            Some(End::Finish) => self.last(),
            None => self.inside(),
        }
    }

    /// The same window at another place.
    pub open spec fn moved(self, at: int) -> Track {
        Track { at, ..self }
    }
}

/// A window drawn to an edge stays there, and one that is not drawn stays in place.
proof fn lemma_snap_again(t: Track, corner: bool)
    requires
        t.low <= t.high,
        t.len > 0,
    ensures
        t.moved(t.snapped(corner)).drawn_to(corner) == t.drawn_to(corner),
        t.moved(t.snapped(corner)).snapped(corner) == t.snapped(corner),
        t.moved(t.snapped(corner)).near() == t.near(),
        t.low <= t.snapped(corner) <= t.last(),
{
}

/// Where the overlay is put and the edges that it is drawn to.
#[derive(Clone, Copy, PartialEq, Eq, Structural, Debug)]
pub struct OverlaySnapResult {
    pub x: i32,
    pub y: i32,
    pub edge_x: Option<OverlayEdgeX>,
    pub edge_y: Option<OverlayEdgeY>,
}

/// The horizontal and the vertical axis of a window in a work area.
pub open spec fn track_x(position: (i32, i32), size: (u32, u32), work: WorkArea) -> Track {
    Track {
        at: position.0 as int,
        len: signed(size.0),
        low: work.x as int,
        high: far_end(work.x, work.width),
    }
}

pub open spec fn track_y(position: (i32, i32), size: (u32, u32), work: WorkArea) -> Track {
    Track {
        at: position.1 as int,
        len: signed(size.1),
        low: work.y as int,
        high: far_end(work.y, work.height),
    }
}

/// The place and the edges of an overlay that was left there.
pub open spec fn snap(position: (i32, i32), size: (u32, u32), work: WorkArea) -> OverlaySnapResult {
    let across = track_x(position, size, work);
    let down = track_y(position, size, work);
    let corner = across.near() && down.near();
    if across.len <= 0 || down.len <= 0 {
        OverlaySnapResult { x: position.0, y: position.1, edge_x: None, edge_y: None }
    } else {
        OverlaySnapResult {
            x: across.snapped(corner) as i32,
            y: down.snapped(corner) as i32,
            edge_x: match across.drawn_to(corner) {
                Some(End::Start) => Some(OverlayEdgeX::Left),
                Some(End::Finish) => Some(OverlayEdgeX::Right),
                None => None,
            },
            edge_y: match down.drawn_to(corner) {
                Some(End::Start) => Some(OverlayEdgeY::Top),
                Some(End::Finish) => Some(OverlayEdgeY::Bottom),
                None => None,
            },
        }
    }
}

/// Along one axis: the first and the last place, the place inside, and how far the
/// ends are.
fn measure(at: i32, len: i64, low: i32, high: i64) -> (r: (i64, i64, i64, i64))
    requires
        0 < len <= i32::MAX,
        i32::MIN <= high <= i32::MAX,
    ensures
        ({
            let t = Track { at: at as int, len: len as int, low: low as int, high: high as int };
            r == (t.last() as i64, t.inside() as i64, t.to_start() as i64, t.to_end() as i64)
        }),
        low <= r.1 <= r.0 <= i32::MAX,
        r.2 == r.1 - low,
        r.3 == high - (r.1 + len),
{
    let low = low as i64;
    let last = if high - len < low {
        low
    } else {
        high - len
    };
    let at = at as i64;
    let inside = if at < low {
        low
    } else if at > last {
        last
    } else {
        at
    };
    (last, inside, inside - low, high - (inside + len))
}

/// Draws an overlay that was left near an edge of the work area to that edge, and
/// one that was left at a corner into it.
pub fn snap_overlay_to_edges(position: (i32, i32), size: (u32, u32), work: WorkArea) -> (r:
    OverlaySnapResult)
    ensures
        r == snap(position, size, work),
{
    let right = end_of(work.x, work.width);
    let bottom = end_of(work.y, work.height);
    let width = to_signed(size.0);
    let height = to_signed(size.1);
    if width <= 0 || height <= 0 {
        return OverlaySnapResult { x: position.0, y: position.1, edge_x: None, edge_y: None };
    }
    let (max_x, inside_x, dist_left, dist_right) = measure(position.0, width, work.x, right);
    let (max_y, inside_y, dist_top, dist_bottom) = measure(position.1, height, work.y, bottom);
    let near_x = dist_left <= OVERLAY_SNAP_THRESHOLD_PX || dist_right <= OVERLAY_SNAP_THRESHOLD_PX;
    let near_y = dist_top <= OVERLAY_SNAP_THRESHOLD_PX || dist_bottom <= OVERLAY_SNAP_THRESHOLD_PX;
    let corner_boost = if near_x && near_y {
        OVERLAY_SNAP_CORNER_BONUS_PX
    } else {
        0
    };
    let (x, edge_x) = if !near_x {
        (inside_x, None)
    } else if dist_left - corner_boost <= dist_right {
        (work.x as i64, Some(OverlayEdgeX::Left))
    } else {
        (max_x, Some(OverlayEdgeX::Right))
    };
    let (y, edge_y) = if !near_y {
        (inside_y, None)
    } else if dist_top - corner_boost <= dist_bottom {
        (work.y as i64, Some(OverlayEdgeY::Top))
    } else {
        (max_y, Some(OverlayEdgeY::Bottom))
    };
    OverlaySnapResult { x: x as i32, y: y as i32, edge_x, edge_y }
}

/// A work area that starts and ends where the numbers can say.
pub open spec fn is_area(work: WorkArea) -> bool {
    signed(work.width) >= 0 && signed(work.height) >= 0
}

/// An overlay that was drawn to its edges and is left there is drawn to the same
/// ones, and does not move.
pub proof fn law_snapping_is_stable(position: (i32, i32), size: (u32, u32), work: WorkArea)
    requires
        is_area(work),
    ensures
        ({
            let first = snap(position, size, work);
            snap((first.x, first.y), size, work) == first
        }),
{
    let across = track_x(position, size, work);
    let down = track_y(position, size, work);
    if across.len > 0 && down.len > 0 {
        let corner = across.near() && down.near();
        lemma_snap_again(across, corner);
        lemma_snap_again(down, corner);
        let first = snap(position, size, work);
        assert(track_x((first.x, first.y), size, work) == across.moved(across.snapped(corner)));
        assert(track_y((first.x, first.y), size, work) == down.moved(down.snapped(corner)));
    }
}

/// A window no larger than the work area ends up inside it.
pub proof fn law_snapping_stays_inside(position: (i32, i32), size: (u32, u32), work: WorkArea)
    requires
        is_area(work),
        0 < signed(size.0) <= far_end(work.x, work.width) - work.x,
        0 < signed(size.1) <= far_end(work.y, work.height) - work.y,
    ensures
        ({
            let r = snap(position, size, work);
            &&& work.x <= r.x && r.x + signed(size.0) <= far_end(work.x, work.width)
            &&& work.y <= r.y && r.y + signed(size.1) <= far_end(work.y, work.height)
        }),
{
    let across = track_x(position, size, work);
    let down = track_y(position, size, work);
    let corner = across.near() && down.near();
    lemma_snap_again(across, corner);
    lemma_snap_again(down, corner);
}

/// What follows from where the overlay is put: whether it moves, and the side to
/// announce where it hides at the side that it keeps to.
pub fn apply_overlay_snap_and_persist(
    snap: OverlaySnapResult,
    position: Option<(i32, i32)>,
    auto_hide: bool,
) -> (r: (bool, Option<OverlayEdgeX>))
    ensures
        r.0 == (position != Some((snap.x, snap.y))),
        r.1 == (if auto_hide {
            snap.edge_x
        } else {
            None
        }),
{
    let moves = match position {
        Some((x, y)) => x != snap.x || y != snap.y,
        None => true,
    };
    let edge = if auto_hide {
        snap.edge_x
    } else {
        None
    };
    (moves, edge)
}

/// Where an overlay that was left at a place ends up, in the pixels of its place, its
/// size and the work area alone. It is first held inside; where its start is then at most
/// 36 pixels from the start of the work area, or its end from the end of it, it is drawn
/// to the nearer of the two, to the start where both are as near. Where that is so both
/// across and down, the start gains 12 pixels. Else it stays where it is held and keeps
/// to no edge. One that has no size is left alone.
pub proof fn law_edges_draw_the_overlay(position: (i32, i32), size: (u32, u32), work: WorkArea)
    ensures
        ({
            let r = snap(position, size, work);
            let width = if size.0 < 0x8000_0000 {
                size.0 as int
            } else {
                size.0 - 0x1_0000_0000
            };
            let height = if size.1 < 0x8000_0000 {
                size.1 as int
            } else {
                size.1 - 0x1_0000_0000
            };
            let end_x = if work.width < 0x8000_0000 {
                work.x + work.width
            } else {
                work.x + work.width - 0x1_0000_0000
            };
            let end_y = if work.height < 0x8000_0000 {
                work.y + work.height
            } else {
                work.y + work.height - 0x1_0000_0000
            };
            let right = if end_x > 0x7fff_ffff {
                0x7fff_ffff
            } else if end_x < -0x8000_0000 {
                -0x8000_0000
            } else {
                end_x
            };
            let bottom = if end_y > 0x7fff_ffff {
                0x7fff_ffff
            } else if end_y < -0x8000_0000 {
                -0x8000_0000
            } else {
                end_y
            };
            let last_x = if right - width < work.x {
                work.x as int
            } else {
                right - width
            };
            let last_y = if bottom - height < work.y {
                work.y as int
            } else {
                bottom - height
            };
            let x = if position.0 < work.x {
                work.x as int
            } else if position.0 > last_x {
                last_x
            } else {
                position.0 as int
            };
            let y = if position.1 < work.y {
                work.y as int
            } else if position.1 > last_y {
                last_y
            } else {
                position.1 as int
            };
            let near_x = x - work.x <= 36 || right - (x + width) <= 36;
            let near_y = y - work.y <= 36 || bottom - (y + height) <= 36;
            let gain: int = if near_x && near_y {
                12
            } else {
                0
            };
            if width <= 0 || height <= 0 {
                &&& r.x == position.0 && r.y == position.1
                &&& r.edge_x is None && r.edge_y is None
            } else {
                &&& r.edge_x is Some <==> near_x
                &&& r.edge_y is Some <==> near_y
                &&& r.edge_x == Some(OverlayEdgeX::Left) <==> near_x && x - work.x - gain <= right
                    - (x + width)
                &&& r.edge_y == Some(OverlayEdgeY::Top) <==> near_y && y - work.y - gain <= bottom
                    - (y + height)
                &&& r.edge_x == Some(OverlayEdgeX::Left) ==> r.x == work.x
                &&& r.edge_x == Some(OverlayEdgeX::Right) ==> r.x == last_x
                &&& r.edge_x is None ==> r.x == x
                &&& r.edge_y == Some(OverlayEdgeY::Top) ==> r.y == work.y
                &&& r.edge_y == Some(OverlayEdgeY::Bottom) ==> r.y == last_y
                &&& r.edge_y is None ==> r.y == y
            }
        }),
{
}

/// An overlay that fits in the work area is drawn to the top or to the bottom where,
/// once it is held inside, it is at most 36 pixels from one of them, and to the left or
/// to the right by the same rule; else it keeps to neither.
pub proof fn law_near_edges_are_kept_to(position: (i32, i32), size: (u32, u32), work: WorkArea)
    requires
        0 < size.0 <= work.width <= 0x7fff_ffff,
        0 < size.1 <= work.height <= 0x7fff_ffff,
        work.x + work.width <= 0x7fff_ffff,
        work.y + work.height <= 0x7fff_ffff,
    ensures
        ({
            let r = snap(position, size, work);
            &&& r.edge_x is Some <==> position.0 - work.x <= 36 || work.x + work.width - size.0
                - position.0 <= 36
            &&& r.edge_y is Some <==> position.1 - work.y <= 36 || work.y + work.height - size.1
                - position.1 <= 36
            &&& r.edge_x is Some ==> r.x == work.x || r.x == work.x + work.width - size.0
            &&& r.edge_y is Some ==> r.y == work.y || r.y == work.y + work.height - size.1
            &&& r.edge_x == Some(OverlayEdgeX::Left) ==> r.x == work.x
            &&& r.edge_x == Some(OverlayEdgeX::Right) ==> r.x == work.x + work.width - size.0
            &&& r.edge_y == Some(OverlayEdgeY::Top) ==> r.y == work.y
            &&& r.edge_y == Some(OverlayEdgeY::Bottom) ==> r.y == work.y + work.height - size.1
            &&& r.edge_x is None ==> r.x == position.0
            &&& r.edge_y is None ==> r.y == position.1
        }),
{
}

/// The size of each layout, in pixels of a screen without a scale.
pub proof fn law_sizes_of_layouts(style: OverlayStyle)
    ensures
        layout_size(OverlayLayoutMode::Collapsed, OverlayStyle::Capsule) == (310u32, 38u32),
        layout_size(OverlayLayoutMode::Collapsed, OverlayStyle::Vertical) == (72u32, 168u32),
        layout_size(OverlayLayoutMode::Collapsed, OverlayStyle::Numeric) == (258u32, 34u32),
        layout_size(OverlayLayoutMode::Expanded, style) == (310u32, 176u32),
        layout_size(OverlayLayoutMode::Peek, style) == (8u32, 96u32),
{
}

/// A layout is named by its word alone.
pub proof fn law_names_of_layouts(mode: Seq<char>)
    ensures
        layout_named(mode) == Some(OverlayLayoutMode::Collapsed) <==> mode == "collapsed"@,
        layout_named(mode) == Some(OverlayLayoutMode::Expanded) <==> mode == "expanded"@,
        layout_named(mode) == Some(OverlayLayoutMode::Peek) <==> mode == "peek"@,
{
    reveal_strlit("collapsed");
    reveal_strlit("expanded");
    reveal_strlit("peek");
    assert("collapsed"@.len() == 9 && "expanded"@.len() == 8 && "peek"@.len() == 4);
}

/// The bits of a `u32` as an `i32`, and the end of a length of so many pixels, held in
/// the range of `i32`.
pub proof fn law_ends_of_lengths(from: i32, len: u32)
    ensures
        len <= 0x7fff_ffff ==> signed(len) == len,
        len > 0x7fff_ffff ==> signed(len) == len - 0x1_0000_0000,
        -0x8000_0000 <= from + signed(len) <= 0x7fff_ffff ==> far_end(from, len) == from + signed(
            len,
        ),
        from + signed(len) > 0x7fff_ffff ==> far_end(from, len) == 0x7fff_ffff,
        from + signed(len) < -0x8000_0000 ==> far_end(from, len) == -0x8000_0000,
{
}

/// Where a change of layout puts the window across, by the screen's scale. At an edge that
/// it keeps to it stands at that edge. Else the strip of a hidden overlay keeps its middle,
/// where it keeps to an edge of the other axis; any other window keeps its end where that
/// is as near to the end of the work area as its start is to the start, and its start
/// where it is not. It is then held inside the work area.
pub proof fn law_layout_across(change: LayoutChange, work: WorkArea)
    requires
        change.work == Some(work),
    ensures
        ({
            let s = change.scale;
            let half = number::double(ieee::fraction(Format::Double, 1, 2));
            let at = number::double_int(change.position.0 as int).quotient(s);
            let len = number::double_whole(change.size.0 as nat).quotient(s);
            let new = number::double_whole(layout_size(change.mode, change.style).0 as nat);
            let low = number::double_int(work.x as int).quotient(s);
            let end = low.sum(number::double_whole(work.width as nat).quotient(s));
            let last = end.difference(new);
            let far = at.sum(len);
            let strip = change.mode == OverlayLayoutMode::Peek && change.edge_y is Some;
            let wanted = if change.edge_x == Some(OverlayEdgeX::Left) {
                low
            } else if change.edge_x == Some(OverlayEdgeX::Right) {
                last
            } else if strip {
                at.sum(len.product(half)).difference(new.product(half))
            } else if end.difference(far).at_most(at.difference(low)) {
                far.difference(new)
            } else {
                at
            };
            let r = change.target_x();
            &&& wanted.below(low) ==> r == low
            &&& !wanted.below(low) && last.below(wanted) ==> r == last
            &&& !wanted.below(low) && !last.below(wanted) ==> r == wanted
        }),
{
}

/// Where a change of layout puts the window down, by the screen's scale. At an edge that
/// it keeps to it stands at that edge. Else the strip of a hidden overlay keeps its middle,
/// where it keeps to an edge of the other axis; any other window keeps its end where that
/// is as near to the end of the work area as its start is to the start, and its start
/// where it is not. It is then held inside the work area.
pub proof fn law_layout_down(change: LayoutChange, work: WorkArea)
    requires
        change.work == Some(work),
    ensures
        ({
            let s = change.scale;
            let half = number::double(ieee::fraction(Format::Double, 1, 2));
            let at = number::double_int(change.position.1 as int).quotient(s);
            let len = number::double_whole(change.size.1 as nat).quotient(s);
            let new = number::double_whole(layout_size(change.mode, change.style).1 as nat);
            let low = number::double_int(work.y as int).quotient(s);
            let end = low.sum(number::double_whole(work.height as nat).quotient(s));
            let last = end.difference(new);
            let far = at.sum(len);
            let strip = change.mode == OverlayLayoutMode::Peek && change.edge_x is Some;
            let wanted = if change.edge_y == Some(OverlayEdgeY::Top) {
                low
            } else if change.edge_y == Some(OverlayEdgeY::Bottom) {
                last
            } else if strip {
                at.sum(len.product(half)).difference(new.product(half))
            } else if end.difference(far).at_most(at.difference(low)) {
                far.difference(new)
            } else {
                at
            };
            let r = change.target_y();
            &&& wanted.below(low) ==> r == low
            &&& !wanted.below(low) && last.below(wanted) ==> r == last
            &&& !wanted.below(low) && !last.below(wanted) ==> r == wanted
        }),
{
}

/// Without a work area a change of layout leaves the window where it is; and with or
/// without one, places and sizes by the scale become the nearest whole pixels, a size of
/// one at least.
pub proof fn law_layout_in_pixels(change: LayoutChange)
    ensures
        change.work is None ==> change.target_x() == number::double_int(
            change.position.0 as int,
        ).quotient(change.scale) && change.target_y() == number::double_int(
            change.position.1 as int,
        ).quotient(change.scale),
        ({
            let x = number::rounded(change.target_x().product(change.scale));
            let y = number::rounded(change.target_y().product(change.scale));
            let size = layout_size(change.mode, change.style);
            let width = number::rounded(number::double_whole(size.0 as nat).product(change.scale));
            let height = number::rounded(number::double_whole(size.1 as nat).product(change.scale));
            let p = change.placement();
            &&& -0x8000_0000 <= x <= 0x7fff_ffff ==> p.x == x
            &&& x > 0x7fff_ffff ==> p.x == 0x7fff_ffff
            &&& x < -0x8000_0000 ==> p.x == -0x8000_0000
            &&& -0x8000_0000 <= y <= 0x7fff_ffff ==> p.y == y
            &&& y > 0x7fff_ffff ==> p.y == 0x7fff_ffff
            &&& y < -0x8000_0000 ==> p.y == -0x8000_0000
            &&& 1 <= width <= 0xffff_ffff ==> p.width == width
            &&& width < 1 ==> p.width == 1
            &&& width > 0xffff_ffff ==> p.width == 0xffff_ffff
            &&& 1 <= height <= 0xffff_ffff ==> p.height == height
            &&& height < 1 ==> p.height == 1
            &&& height > 0xffff_ffff ==> p.height == 0xffff_ffff
        }),
{
}

/// There is room for the window where the last place inside is not before the first, and
/// always where the work area is not known.
pub proof fn law_room_for_the_window(change: LayoutChange, work: WorkArea)
    ensures
        change.work is None ==> change.fits(),
        change.work == Some(work) ==> (change.fits() <==> {
            let s = change.scale;
            let size = layout_size(change.mode, change.style);
            let left = number::double_int(work.x as int).quotient(s);
            let top = number::double_int(work.y as int).quotient(s);
            let right = left.sum(number::double_whole(work.width as nat).quotient(s));
            let bottom = top.sum(number::double_whole(work.height as nat).quotient(s));
            &&& left.at_most(right.difference(number::double_whole(size.0 as nat)))
            &&& top.at_most(bottom.difference(number::double_whole(size.1 as nat)))
        }),
{
}

proof fn lemma_edge_in_pixels(area: i32, area_len: u32, window_len: u32, scale: Double, x: Double)
    requires
        area + area_len <= i32::MAX,
        pixels::is_scale(scale),
        ({
            let low = number::double_int(area as int).quotient(scale);
            let span = number::double_whole(area_len as nat).quotient(scale);
            let max = low.sum(span).difference(number::double_whole(window_len as nat));
            &&& pixels::finite(low)
            &&& pixels::finite(max)
            &&& low.at_most(x)
            &&& x.at_most(max)
        }),
    ensures
        ({
            let low = number::double_int(area as int).quotient(scale);
            let span = number::double_whole(area_len as nat).quotient(scale);
            let window = number::double_whole(window_len as nat);
            let a = in_pixels(x, scale, i32::MIN as int, i32::MAX as int);
            let b = in_pixels(window, scale, 1, u32::MAX as int);
            &&& i32::MIN <= a <= i32::MAX && 1 <= b <= u32::MAX
            &&& x == low ==> a == area
            &&& x == low.sum(span).difference(window) ==> area + area_len - 1 <= a + b
        }),
{
    pixels::lemma_window_in_pixels(
        area as int,
        area_len as nat,
        window_len as nat,
        scale,
        x,
    );
}

/// In pixels, a window that keeps to the left or to the top starts where the work area
/// does, and one that keeps to the right or to the bottom ends where the work area does,
/// but for one pixel.
pub proof fn law_edges_in_pixels(change: LayoutChange, work: WorkArea)
    requires
        change.work == Some(work),
        change.fits(),
        pixels::is_scale(change.scale),
        change.in_range(work),
        work.x + work.width <= i32::MAX,
        work.y + work.height <= i32::MAX,
    ensures
        ({
            let p = change.placement();
            &&& change.edge_x == Some(OverlayEdgeX::Left) ==> p.x == work.x
            &&& change.edge_y == Some(OverlayEdgeY::Top) ==> p.y == work.y
            &&& change.edge_x == Some(OverlayEdgeX::Right) ==> work.x + work.width - 1 <= p.x
                + p.width <= work.x + work.width + 1
            &&& change.edge_y == Some(OverlayEdgeY::Bottom) ==> work.y + work.height - 1 <= p.y
                + p.height <= work.y + work.height + 1
        }),
{
    law_layout_stays_inside(change, work);
    law_layout_keeps_edges(change, work);
    law_window_stays_in_work_area(change, work);
    let (width, height) = layout_size(change.mode, change.style);
    lemma_edge_in_pixels(work.x, work.width, width, change.scale, change.target_x());
    lemma_edge_in_pixels(work.y, work.height, height, change.scale, change.target_y());
}

/// Without a work area a change of layout leaves the window at its pixel.
pub proof fn law_layout_without_a_work_area(change: LayoutChange)
    requires
        change.work is None,
        pixels::is_scale(change.scale),
        pow2(1074) <= 0x1_0000_0000_0000_0000 * pixels::scaled(change.scale),
    ensures
        change.placement().x == change.position.0,
        change.placement().y == change.position.1,
{
    pixels::lemma_quotient_is_finite(change.position.0 as int, change.scale);
    pixels::lemma_quotient_is_finite(change.position.1 as int, change.scale);
    pixels::lemma_back_to_pixels(change.position.0 as int, change.scale);
    pixels::lemma_back_to_pixels(change.position.1 as int, change.scale);
}

} // verus!
