//! What is painted on the terminal: a list of steps, and the control sequences
//! that carry them out.

use crate::cells;
use crate::color::Rgb;
use crate::text;
use vstd::prelude::*;

verus! {

/// One step of painting.
#[derive(Debug)]
pub enum Paint {
    /// Wipe the screen and go to its top left corner.
    Clear,
    /// Go to a row and a column, both counted from 0.
    MoveTo(u16, u16),
    /// Write in this colour from here on.
    Fg(Rgb),
    /// Write on this colour from here on.
    Bg(Rgb),
    /// Back to plain text.
    Reset,
    Bold,
    HideCursor,
    ShowCursor,
    /// Write this.
    Text(String),
}

/// A step of painting as contracts speak of it.
pub enum PaintView {
    Clear,
    MoveTo(int, int),
    Fg(Rgb),
    Bg(Rgb),
    Reset,
    Bold,
    HideCursor,
    ShowCursor,
    Text(Seq<char>),
}

impl DeepView for Paint {
    type V = PaintView;

    open spec fn deep_view(&self) -> PaintView {
        match self {
            Paint::Clear => PaintView::Clear,
            Paint::MoveTo(row, col) => PaintView::MoveTo(*row as int, *col as int),
            Paint::Fg(c) => PaintView::Fg(*c),
            Paint::Bg(c) => PaintView::Bg(*c),
            Paint::Reset => PaintView::Reset,
            Paint::Bold => PaintView::Bold,
            Paint::HideCursor => PaintView::HideCursor,
            Paint::ShowCursor => PaintView::ShowCursor,
            Paint::Text(s) => PaintView::Text(s@),
        }
    }
}

/// The steps that have been painted so far.
#[derive(Debug)]
pub struct Canvas {
    pub steps: Vec<Paint>,
}

impl View for Canvas {
    type V = Seq<PaintView>;

    open spec fn view(&self) -> Seq<PaintView> {
        self.steps.deep_view()
    }
}

impl Canvas {
    /// Nothing painted yet.
    pub fn new() -> (r: Canvas)
        ensures
            r@ == Seq::<PaintView>::empty(),
    {
        let r = Canvas { steps: Vec::new() };
        assert(r@ =~= Seq::<PaintView>::empty());
        r
    }

    /// Paints one step more.
    pub fn paint(&mut self, step: Paint)
        ensures
            final(self)@ == old(self)@.push(step.deep_view()),
    {
        let ghost before = self@;
        self.steps.push(step);
        assert(self@ =~= before.push(step.deep_view()));
    }

    /// Writes a text.
    pub fn write(&mut self, s: &str)
        ensures
            final(self)@ == old(self)@.push(PaintView::Text(s@)),
    {
        self.paint(Paint::Text(s.to_owned()));
    }
}

/// Wipes the screen.
pub fn clear(out: &mut Canvas)
    ensures
        final(out)@ == old(out)@.push(PaintView::Clear),
{
    out.paint(Paint::Clear);
}

/// Goes to a row and a column, both counted from 0.
pub fn move_to(row: u16, col: u16, out: &mut Canvas)
    ensures
        final(out)@ == old(out)@.push(PaintView::MoveTo(row as int, col as int)),
{
    out.paint(Paint::MoveTo(row, col));
}

/// Writes in this colour from here on.
pub fn fg(c: Rgb, out: &mut Canvas)
    ensures
        final(out)@ == old(out)@.push(PaintView::Fg(c)),
{
    out.paint(Paint::Fg(c));
}

/// Writes on this colour from here on.
pub fn bg(c: Rgb, out: &mut Canvas)
    ensures
        final(out)@ == old(out)@.push(PaintView::Bg(c)),
{
    out.paint(Paint::Bg(c));
}

/// Back to plain text.
pub fn reset(out: &mut Canvas)
    ensures
        final(out)@ == old(out)@.push(PaintView::Reset),
{
    out.paint(Paint::Reset);
}

/// Writes in bold from here on.
pub fn bold(out: &mut Canvas)
    ensures
        final(out)@ == old(out)@.push(PaintView::Bold),
{
    out.paint(Paint::Bold);
}

/// Hides the cursor.
pub fn hide_cursor(out: &mut Canvas)
    ensures
        final(out)@ == old(out)@.push(PaintView::HideCursor),
{
    out.paint(Paint::HideCursor);
}

/// Shows the cursor.
pub fn show_cursor(out: &mut Canvas)
    ensures
        final(out)@ == old(out)@.push(PaintView::ShowCursor),
{
    out.paint(Paint::ShowCursor);
}

// ---------------------------------------------------------------------------
// Control sequences
// ---------------------------------------------------------------------------
/// The sequence that sets a colour, behind its beginning.
pub open spec fn colour_code(c: Rgb) -> Seq<char> {
    text::decimal(c.0 as nat) + ";"@ + text::decimal(c.1 as nat) + ";"@ + text::decimal(c.2 as nat)
        + "m"@
}

/// What is sent to the terminal for a step. Terminals count rows and columns
/// from 1.
pub open spec fn sequence(step: PaintView) -> Seq<char> {
    match step {
        PaintView::Clear => "\x1b[2J\x1b[H"@,
        PaintView::MoveTo(row, col) => "\x1b["@ + text::decimal((row + 1) as nat) + ";"@
            + text::decimal((col + 1) as nat) + "H"@,
        PaintView::Fg(c) => "\x1b[38;2;"@ + colour_code(c),
        PaintView::Bg(c) => "\x1b[48;2;"@ + colour_code(c),
        PaintView::Reset => "\x1b[0m"@,
        PaintView::Bold => "\x1b[1m"@,
        PaintView::HideCursor => "\x1b[?25l"@,
        PaintView::ShowCursor => "\x1b[?25h"@,
        PaintView::Text(s) => s,
    }
}

/// What is sent to the terminal for the steps.
pub open spec fn encoded(steps: Seq<PaintView>) -> Seq<char>
    decreases steps.len(),
{
    if steps.len() == 0 {
        seq![]
    } else {
        encoded(steps.drop_last()) + sequence(steps.last())
    }
}

fn push_colour(out: &mut String, c: Rgb)
    ensures
        final(out)@ == old(out)@ + colour_code(c),
{
    let ghost before = out@;
    text::push_number(out, c.0 as u64);
    out.append(";");
    text::push_number(out, c.1 as u64);
    out.append(";");
    text::push_number(out, c.2 as u64);
    out.append("m");
    assert(out@ =~= before + colour_code(c));
}

fn push_sequence(out: &mut String, step: &Paint)
    ensures
        final(out)@ == old(out)@ + sequence(step.deep_view()),
{
    let ghost before = out@;
    match step {
        Paint::Clear => out.append("\x1b[2J\x1b[H"),
        Paint::MoveTo(row, col) => {
            out.append("\x1b[");
            text::push_number(out, *row as u64 + 1);
            out.append(";");
            text::push_number(out, *col as u64 + 1);
            out.append("H");
        },
        Paint::Fg(c) => {
            out.append("\x1b[38;2;");
            push_colour(out, *c);
        },
        Paint::Bg(c) => {
            out.append("\x1b[48;2;");
            push_colour(out, *c);
        },
        Paint::Reset => out.append("\x1b[0m"),
        Paint::Bold => out.append("\x1b[1m"),
        Paint::HideCursor => out.append("\x1b[?25l"),
        Paint::ShowCursor => out.append("\x1b[?25h"),
        Paint::Text(s) => out.append(s.as_str()),
    }
    assert(out@ =~= before + sequence(step.deep_view()));
}

/// What is sent to the terminal to paint the canvas.
pub fn encode(canvas: &Canvas) -> (r: String)
    ensures
        r@ == encoded(canvas@),
{
    let mut r = String::new();
    let ghost all = canvas@;
    assert(r@ =~= encoded(all.take(0)));
    for i in 0..canvas.steps.len()
        invariant
            all == canvas@,
            all == canvas.steps.deep_view(),
            r@ == encoded(all.take(i as int)),
    {
        proof {
            assert(all.take(i + 1).drop_last() =~= all.take(i as int));
            assert(all.take(i + 1).last() == canvas.steps@[i as int].deep_view());
        }
        push_sequence(&mut r, &canvas.steps[i]);
    }
    assert(all.take(canvas.steps@.len() as int) =~= all);
    r
}

/// What is sent for two canvases is sent for one after the other.
pub proof fn encoding_is_piecewise(a: Seq<PaintView>, b: Seq<PaintView>)
    ensures
        encoded(a + b) == encoded(a) + encoded(b),
    decreases b.len(),
{
    if b.len() == 0 {
        assert(a + b =~= a);
        assert(encoded(a) + encoded(b) =~= encoded(a));
    } else {
        assert((a + b).drop_last() =~= a + b.drop_last());
        encoding_is_piecewise(a, b.drop_last());
        assert(encoded(a + b) =~= encoded(a) + encoded(b));
    }
}

// ---------------------------------------------------------------------------
// Cells
// ---------------------------------------------------------------------------
/// The cells that a step writes to.
pub open spec fn step_width(step: PaintView) -> nat {
    match step {
        PaintView::Text(s) => cells::text_width(s),
        _ => 0,
    }
}

/// The cells that the steps write to.
pub open spec fn written(steps: Seq<PaintView>) -> nat
    decreases steps.len(),
{
    if steps.len() == 0 {
        0
    } else {
        written(steps.drop_last()) + step_width(steps.last())
    }
}

/// Counts the cells that the steps from the given one on write to. The count
/// stops at the largest number.
pub fn measure(canvas: &Canvas, from: usize) -> (r: usize)
    requires
        from <= canvas@.len(),
    ensures
        r == if written(canvas@.skip(from as int)) <= usize::MAX {
            written(canvas@.skip(from as int)) as int
        } else {
            usize::MAX as int
        },
{
    let n = canvas.steps.len();
    let ghost all = canvas@.skip(from as int);
    let mut r: usize = 0;
    assert(all.take(0).len() == 0);
    for i in from..n
        invariant
            n == canvas.steps@.len(),
            from <= n,
            all == canvas@.skip(from as int),
            r == if written(all.take(i - from)) <= usize::MAX {
                written(all.take(i - from)) as int
            } else {
                usize::MAX as int
            },
    {
        proof {
            assert(all.take(i + 1 - from).drop_last() =~= all.take(i - from));
            assert(all.take(i + 1 - from).last() == canvas.steps@[i as int].deep_view());
        }
        if let Paint::Text(s) = &canvas.steps[i] {
            r = r.saturating_add(cells::display_width(s.as_str()));
        }
    }
    assert(all.take(n - from) =~= all);
    r
}

/// The cells add up.
pub broadcast proof fn lemma_written_concat(a: Seq<PaintView>, b: Seq<PaintView>)
    ensures
        #[trigger] written(a + b) == written(a) + written(b),
    decreases b.len(),
{
    if b.len() == 0 {
        assert(a + b =~= a);
    } else {
        assert((a + b).drop_last() =~= a + b.drop_last());
        lemma_written_concat(a, b.drop_last());
    }
}

/// The cells of one step more.
pub broadcast proof fn lemma_written_push(steps: Seq<PaintView>, step: PaintView)
    ensures
        #[trigger] written(steps.push(step)) == written(steps) + step_width(step),
{
    assert(steps.push(step).drop_last() =~= steps);
}

/// It does not matter how steps are grouped.
pub proof fn lemma_grouping(a: Seq<PaintView>, b: Seq<PaintView>, c: Seq<PaintView>)
    ensures
        a + (b + c) == (a + b) + c,
{
    assert(a + (b + c) =~= (a + b) + c);
}

/// The cells of two steps.
pub broadcast proof fn lemma_written_two(steps: Seq<PaintView>)
    requires
        steps.len() == 2,
    ensures
        #[trigger] written(steps) == step_width(steps[0]) + step_width(steps[1]),
{
    let one = Seq::<PaintView>::empty().push(steps[0]);
    lemma_written_push(Seq::empty(), steps[0]);
    lemma_written_push(one, steps[1]);
    assert(steps =~= one.push(steps[1]));
}

// ---------------------------------------------------------------------------
// Moves
// ---------------------------------------------------------------------------
/// The cursor is moved to places on the screen only.
pub open spec fn stays_on(steps: Seq<PaintView>, width: int, height: int) -> bool {
    forall|i: int|
        0 <= i < steps.len() ==> (#[trigger] steps[i] matches PaintView::MoveTo(row, col) ==> 0
            <= row < height && 0 <= col < width)
}

/// Steps that stay on the screen do so one after the other.
pub broadcast proof fn lemma_stays_concat(
    a: Seq<PaintView>,
    b: Seq<PaintView>,
    width: int,
    height: int,
)
    ensures
        #[trigger] stays_on(a + b, width, height) <==> stays_on(a, width, height) && stays_on(
            b,
            width,
            height,
        ),
{
    if stays_on(a + b, width, height) {
        assert forall|i: int| 0 <= i < a.len() implies (#[trigger] a[i] matches PaintView::MoveTo(
            row,
            col,
        ) ==> 0 <= row < height && 0 <= col < width) by {
            assert((a + b)[i] == a[i]);
        }
        assert forall|i: int| 0 <= i < b.len() implies (#[trigger] b[i] matches PaintView::MoveTo(
            row,
            col,
        ) ==> 0 <= row < height && 0 <= col < width) by {
            assert((a + b)[a.len() + i] == b[i]);
        }
    }
}

// ---------------------------------------------------------------------------
// What the terminal is sent
// ---------------------------------------------------------------------------
/// A move is sent with its row and then its column, counted from one; a colour
/// with red, green and blue, in front or behind; a text is sent as it is.
pub proof fn steps_are_sent(row: nat, col: nat, c: Rgb, s: Seq<char>)
    ensures
        encoded(seq![PaintView::MoveTo(row as int, col as int)]) == "\x1b["@ + text::decimal(row + 1)
            + ";"@ + text::decimal(col + 1) + "H"@,
        encoded(seq![PaintView::Fg(c)]) == "\x1b[38;2;"@ + (text::decimal(c.0 as nat) + ";"@
            + text::decimal(c.1 as nat) + ";"@ + text::decimal(c.2 as nat) + "m"@),
        encoded(seq![PaintView::Bg(c)]) == "\x1b[48;2;"@ + (text::decimal(c.0 as nat) + ";"@
            + text::decimal(c.1 as nat) + ";"@ + text::decimal(c.2 as nat) + "m"@),
        encoded(seq![PaintView::Text(s)]) == s,
{
    lemma_one_sent(PaintView::MoveTo(row as int, col as int));
    lemma_one_sent(PaintView::Fg(c));
    lemma_one_sent(PaintView::Bg(c));
    lemma_one_sent(PaintView::Text(s));
}

/// The screen is cleared, the colours are put back, bold is set and the cursor is
/// hidden and shown by their control sequences.
pub proof fn controls_are_sent()
    ensures
        encoded(seq![PaintView::Clear]) == "\x1b[2J\x1b[H"@,
        encoded(seq![PaintView::Reset]) == "\x1b[0m"@,
        encoded(seq![PaintView::Bold]) == "\x1b[1m"@,
        encoded(seq![PaintView::HideCursor]) == "\x1b[?25l"@,
        encoded(seq![PaintView::ShowCursor]) == "\x1b[?25h"@,
{
    lemma_one_sent(PaintView::Clear);
    lemma_one_sent(PaintView::Reset);
    lemma_one_sent(PaintView::Bold);
    lemma_one_sent(PaintView::HideCursor);
    lemma_one_sent(PaintView::ShowCursor);
}

proof fn lemma_one_sent(step: PaintView)
    ensures
        encoded(seq![step]) == sequence(step),
{
    let one = seq![step];
    assert(one.drop_last() =~= Seq::<PaintView>::empty());
    assert(encoded(one.drop_last()) =~= Seq::<char>::empty());
    assert(encoded(one) =~= sequence(step));
}

/// `part` stands somewhere in `steps`.
pub open spec fn painted_in(part: Seq<PaintView>, steps: Seq<PaintView>) -> bool {
    exists|at: int|
        0 <= at <= steps.len() - part.len() && #[trigger] steps.subrange(at, at + part.len())
            == part
}

/// What stands in a part stands in the whole.
pub proof fn lemma_painted_within(
    part: Seq<PaintView>,
    before: Seq<PaintView>,
    steps: Seq<PaintView>,
    after: Seq<PaintView>,
)
    requires
        painted_in(part, steps),
    ensures
        painted_in(part, before + steps + after),
{
    let at = choose|at: int|
        0 <= at <= steps.len() - part.len() && #[trigger] steps.subrange(at, at + part.len())
            == part;
    let all = before + steps + after;
    let k = before.len() as int + at;
    assert(all.subrange(k, k + part.len()) =~= steps.subrange(at, at + part.len()));
}

/// What begins with a part holds it.
pub proof fn lemma_painted_between(
    before: Seq<PaintView>,
    part: Seq<PaintView>,
    steps: Seq<PaintView>,
)
    requires
        (before + part).is_prefix_of(steps),
    ensures
        painted_in(part, steps),
{
    let with = before + part;
    let at = before.len() as int;
    assert(steps.subrange(at, at + part.len()) =~= part) by {
        assert forall|j: int| 0 <= j < part.len() implies steps[at + j] == part[j] by {
            assert(with[at + j] == part[j]);
        }
    }
}

/// What stands in something that stands in the whole stands in the whole.
pub proof fn lemma_painted_through(part: Seq<PaintView>, mid: Seq<PaintView>, steps: Seq<PaintView>)
    requires
        painted_in(part, mid),
        painted_in(mid, steps),
    ensures
        painted_in(part, steps),
{
    let k = choose|k: int|
        0 <= k <= mid.len() - part.len() && #[trigger] mid.subrange(k, k + part.len()) == part;
    let m = choose|m: int|
        0 <= m <= steps.len() - mid.len() && #[trigger] steps.subrange(m, m + mid.len()) == mid;
    assert(steps.subrange(m + k, m + k + part.len()) =~= part) by {
        assert forall|j: int| 0 <= j < part.len() implies steps[m + k + j] == part[j] by {
            assert(mid.subrange(k, k + part.len())[j] == part[j]);
            assert(steps.subrange(m, m + mid.len())[k + j] == mid[k + j]);
        }
    }
}

/// A part between two others stands in the whole.
pub proof fn lemma_painted_middle(
    before: Seq<PaintView>,
    part: Seq<PaintView>,
    after: Seq<PaintView>,
)
    ensures
        painted_in(part, before + part + after),
{
    let all = before + part + after;
    let k = before.len() as int;
    assert(all.subrange(k, k + part.len()) =~= part);
}

} // verus!
