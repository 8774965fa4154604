//! The panes of the screen: where they lie and what is painted in them.

use crate::canvas::{clear, fg, move_to, reset, Canvas, PaintView};
use crate::cells::{self, truncate};
use crate::text;
use vstd::prelude::*;

pub mod overlays;
pub mod panes;
pub mod rows;

verus! {

/// The pane that the keys go to.
#[derive(Debug, Clone, Copy, PartialEq, Eq, Structural)]
pub enum Focus {
    Graph,
    Status,
}

/// Where the panes lie on a screen of `width` columns and `height` rows.
#[derive(Debug, Clone, Copy)]
pub struct Layout {
    pub width: u16,
    pub height: u16,
    /// The column between the graph and the right pane.
    pub graph_width: u16,
    /// The row of the right pane at which the diff starts.
    pub diff_split_y: u16,
}

/// On a narrower screen nothing is laid out.
pub const MIN_WIDTH: u16 = 60;

/// On a lower screen nothing is laid out.
pub const MIN_HEIGHT: u16 = 12;

/// The smaller of two numbers.
pub open spec fn least(a: int, b: int) -> int {
    if a < b {
        a
    } else {
        b
    }
}

/// The larger of two numbers.
pub open spec fn most(a: int, b: int) -> int {
    if a < b {
        b
    } else {
        a
    }
}

/// `a - b`, or 0 where that is negative.
pub open spec fn monus(a: int, b: int) -> int {
    most(a - b, 0)
}

/// The columns of the graph on a screen of `w` columns: 55 in a hundred, but
/// at least 30, with at least 30 left for the right pane where there is room.
pub open spec fn graph_columns(w: int) -> int {
    most(least(w * 55 / 100, monus(w, 30)), 30)
}

/// The row at which the diff starts on a screen of `h` rows: the list of files
/// gets 33 rows in a hundred, from 4 to 10, and has two rows above it.
pub open spec fn split_row(h: int) -> int {
    least(most(h * 33 / 100, 4), 10) + 2
}

impl Layout {
    /// There is a column right of the line between the panes.
    pub open spec fn wf(self) -> bool {
        self.graph_width < u16::MAX
    }

    /// Lays out a screen of `w` columns and `h` rows.
    pub fn new(w: u16, h: u16) -> (r: Layout)
        ensures
            r.width == w,
            r.height == h,
            r.graph_width == graph_columns(w as int),
            r.diff_split_y == split_row(h as int),
            r.wf(),
    {
        let target: u32 = w as u32 * 55 / 100;
        let beside: u32 = w.saturating_sub(30) as u32;
        let wished: u32 = if target < beside {
            target
        } else {
            beside
        };
        let graph_width: u16 = if wished < 30 {
            30
        } else {
            wished as u16
        };
        let third: u32 = h as u32 * 33 / 100;
        let rows: u16 = if third < 4 {
            4
        } else if third > 10 {
            10
        } else {
            third as u16
        };
        Layout { width: w, height: h, graph_width, diff_split_y: rows + 2 }
    }

    /// The screen is too small to lay anything out.
    pub open spec fn cramped(self) -> bool {
        self.width < MIN_WIDTH || self.height < MIN_HEIGHT
    }

    /// Is the screen too small to lay anything out?
    pub fn too_small(&self) -> (r: bool)
        ensures
            r == self.cramped(),
    {
        self.width < MIN_WIDTH || self.height < MIN_HEIGHT
    }
}

/// On a screen that is not too small the graph and the right pane have at least
/// 30 columns each, the column between them counted with the latter, and the
/// graph has no more than 55 columns in a hundred or 30.
pub proof fn panes_have_room(l: Layout)
    requires
        !l.cramped(),
        l.graph_width == graph_columns(l.width as int),
        l.diff_split_y == split_row(l.height as int),
    ensures
        l.graph_width >= 30,
        l.width - l.graph_width >= 30,
        l.graph_width <= 30 || l.graph_width * 100 <= l.width * 55,
        6 <= l.diff_split_y <= l.height - 2,
{
}

// ---------------------------------------------------------------------------
// Too small
// ---------------------------------------------------------------------------
/// What is said on a screen that is too small.
pub open spec fn too_small_message(width: int, height: int) -> Seq<char> {
    "spor needs at least "@ + text::decimal(MIN_WIDTH as nat) + "×"@ + text::decimal(
        MIN_HEIGHT as nat,
    ) + " (currently "@ + text::decimal(width as nat) + "×"@ + text::decimal(height as nat)
        + ")"@
}

/// The message in the middle of the screen, cut to its width.
pub open spec fn too_small_steps(width: int, height: int) -> Seq<PaintView> {
    let msg = cells::cut(too_small_message(width, height), width as nat);
    if width == 0 || height == 0 {
        seq![PaintView::Clear]
    } else {
        seq![
            PaintView::Clear,
            PaintView::MoveTo(height / 2, monus(width, msg.len() as int) / 2),
            PaintView::Fg((220, 180, 80)),
            PaintView::Text(msg),
            PaintView::Reset,
        ]
    }
}

/// Paints that the screen is too small.
pub fn draw_too_small(layout: &Layout, out: &mut Canvas)
    ensures
        final(out)@ == old(out)@ + too_small_steps(layout.width as int, layout.height as int),
{
    let ghost before = out@;
    clear(out);
    if layout.width == 0 || layout.height == 0 {
        assert(out@ =~= before + too_small_steps(layout.width as int, layout.height as int));
        return;
    }
    let mut msg = "spor needs at least ".to_owned();
    text::push_number(&mut msg, MIN_WIDTH as u64);
    msg.append("×");
    text::push_number(&mut msg, MIN_HEIGHT as u64);
    msg.append(" (currently ");
    text::push_number(&mut msg, layout.width as u64);
    msg.append("×");
    text::push_number(&mut msg, layout.height as u64);
    msg.append(")");
    assert(msg@ =~= too_small_message(layout.width as int, layout.height as int));
    let msg = truncate(msg.as_str(), layout.width as usize);
    let count = msg.as_str().unicode_len();
    let x: u16 = if count < layout.width as usize {
        (layout.width - count as u16) / 2
    } else {
        0
    };
    move_to(layout.height / 2, x, out);
    fg((220, 180, 80), out);
    out.write(msg.as_str());
    reset(out);
    assert(out@ =~= before + too_small_steps(layout.width as int, layout.height as int));
}

// ---------------------------------------------------------------------------
// Shares of the screen
// ---------------------------------------------------------------------------
/// The graph has 55 columns in a hundred wherever both panes then have thirty;
/// the list of files has a third of the rows, but at least four and at most ten,
/// below two rows of heading, and the diff has the rest.
pub proof fn panes_share_the_screen(w: int, h: int)
    requires
        w >= 0,
        h >= 0,
    ensures
        30 <= w * 55 / 100 <= w - 30 ==> graph_columns(w) == w * 55 / 100,
        w <= 60 ==> graph_columns(w) == 30,
        graph_columns(w) >= 30,
        w >= 60 ==> w - graph_columns(w) >= 30,
        h < 13 ==> split_row(h) == 6,
        h >= 31 ==> split_row(h) == 12,
        13 <= h < 31 ==> split_row(h) == h * 33 / 100 + 2,
        6 <= split_row(h) <= 12,
{
}

/// A screen is too small exactly below sixty columns or twelve rows; then the
/// sizes that are needed and that there are is said, and nothing else is shown.
pub proof fn small_screens_are_told(l: Layout)
    ensures
        l.cramped() <==> l.width < 60 || l.height < 12,
        l.width > 0 && l.height > 0 ==> too_small_steps(l.width as int, l.height as int).contains(
            PaintView::Text(
                cells::cut(
                    "spor needs at least "@ + text::decimal(60) + "×"@ + text::decimal(12)
                        + " (currently "@ + text::decimal(l.width as nat) + "×"@ + text::decimal(
                        l.height as nat,
                    ) + ")"@,
                    l.width as nat,
                ),
            ),
        ),
{
    if l.width > 0 && l.height > 0 {
        let steps = too_small_steps(l.width as int, l.height as int);
        assert(steps[3] is Text);
    }
}

} // verus!
