//! The boxes that are painted over the panes: the branch picker and the help.

use crate::canvas::{self, bg, bold, fg, move_to, reset, Canvas, PaintView};
use crate::cells::{self, pad_right};
use crate::color::{self, branch_family, color_for, Rgb};
use crate::git::{Branch, BranchView};
use crate::text;
use crate::ui::{self, Layout};
use vstd::prelude::*;

verus! {

// ---------------------------------------------------------------------------
// Boxes
// ---------------------------------------------------------------------------
/// The background of a box.
pub const BOX: Rgb = (25, 25, 35);

/// The frame of a box.
pub const FRAME: Rgb = (180, 200, 255);

/// The upper edge of a box, with a title in its middle.
pub open spec fn top_steps(y: int, x: int, inner: int, title: Seq<char>) -> Seq<PaintView> {
    let dashes = ui::monus(inner, title.len() as int);
    seq![
        PaintView::MoveTo(y, x),
        PaintView::Bg(BOX),
        PaintView::Fg(FRAME),
        PaintView::Text("┌"@ + text::run_of('─', (dashes / 2) as nat)),
        PaintView::Bold,
        PaintView::Text(title),
        PaintView::Reset,
        PaintView::Bg(BOX),
        PaintView::Fg(FRAME),
        PaintView::Text(text::run_of('─', (dashes - dashes / 2) as nat) + "┐"@),
    ]
}

/// The lower edge of a box, with a hint in its middle.
pub open spec fn bottom_steps(y: int, x: int, inner: int, hint: Seq<char>) -> Seq<PaintView> {
    let dashes = ui::monus(inner, hint.len() as int);
    seq![
        PaintView::MoveTo(y, x),
        PaintView::Bg(BOX),
        PaintView::Fg(FRAME),
        PaintView::Text(
            "└"@ + text::run_of('─', (dashes / 2) as nat) + hint + text::run_of(
                '─',
                (dashes - dashes / 2) as nat,
            ) + "┘"@,
        ),
        PaintView::Reset,
    ]
}

fn draw_top(y: u16, x: u16, inner: usize, title: &str, out: &mut Canvas)
    ensures
        final(out)@ == old(out)@ + top_steps(y as int, x as int, inner as int, title@),
{
    let ghost before = out@;
    let dashes = inner.saturating_sub(title.unicode_len());
    let mut left = "┌".to_owned();
    left.append(text::repeat('─', dashes / 2).as_str());
    let mut right = text::repeat('─', dashes - dashes / 2);
    right.append("┐");
    move_to(y, x, out);
    bg(BOX, out);
    fg(FRAME, out);
    out.write(left.as_str());
    bold(out);
    out.write(title);
    reset(out);
    bg(BOX, out);
    fg(FRAME, out);
    out.write(right.as_str());
    assert(out@ =~= before + top_steps(y as int, x as int, inner as int, title@));
}

fn draw_bottom(y: u16, x: u16, inner: usize, hint: &str, out: &mut Canvas)
    ensures
        final(out)@ == old(out)@ + bottom_steps(y as int, x as int, inner as int, hint@),
{
    let ghost before = out@;
    let dashes = inner.saturating_sub(hint.unicode_len());
    let mut edge = "└".to_owned();
    edge.append(text::repeat('─', dashes / 2).as_str());
    edge.append(hint);
    edge.append(text::repeat('─', dashes - dashes / 2).as_str());
    edge.append("┘");
    move_to(y, x, out);
    bg(BOX, out);
    fg(FRAME, out);
    out.write(edge.as_str());
    reset(out);
    assert(out@ =~= before + bottom_steps(y as int, x as int, inner as int, hint@));
}

// ---------------------------------------------------------------------------
// The branch picker
// ---------------------------------------------------------------------------
/// Columns of the picker.
pub open spec fn picker_width(layout: Layout) -> int {
    ui::least(layout.width as int, 60)
}

/// Rows of the picker.
pub open spec fn picker_height(layout: Layout) -> int {
    ui::least(layout.height as int, 18)
}

/// The text that is typed, and the line below it.
pub open spec fn query_steps(y: int, x: int, inner: int, query: Seq<char>) -> Seq<PaintView> {
    seq![
        PaintView::MoveTo(y + 1, x),
        PaintView::Bg(BOX),
        PaintView::Fg(FRAME),
        PaintView::Text("│ "@),
        PaintView::Fg((120, 200, 120)),
        PaintView::Text("> "@),
        PaintView::Fg((230, 230, 230)),
        PaintView::Text(cells::padded(query + "_"@, ui::monus(inner, 3) as nat)),
        PaintView::Fg(FRAME),
        PaintView::Text("│"@),
        PaintView::MoveTo(y + 2, x),
        PaintView::Fg(FRAME),
        PaintView::Text("├"@ + text::run_of('─', inner as nat) + "┤"@),
    ]
}

/// A branch in the list: the cursor, a dot where it is the current one, and its
/// name in its colour.
pub open spec fn choice_steps(
    b: BranchView,
    is_selected: bool,
    inner: int,
    remotes: Seq<Seq<char>>,
) -> Seq<PaintView> {
    (if is_selected {
        seq![PaintView::Bg((40, 50, 70))]
    } else {
        seq![]
    }) + seq![
        PaintView::Fg(FRAME),
        PaintView::Text(
            if is_selected {
                "▎"@
            } else {
                " "@
            },
        ),
        PaintView::Fg((120, 200, 120)),
        PaintView::Text(
            if b.is_current {
                "● "@
            } else {
                "  "@
            },
        ),
        PaintView::Fg(color::colour(color::family(b.name, remotes), b.name)),
        PaintView::Text(
            cells::padded(
                if b.is_remote {
                    b.name + " (remote)"@
                } else {
                    b.name
                },
                ui::monus(inner, 4) as nat,
            ),
        ),
    ]
}

/// The `i`-th row of the list, empty where there are fewer branches.
pub open spec fn match_steps(
    y: int,
    x: int,
    inner: int,
    matches: Seq<BranchView>,
    sel: int,
    remotes: Seq<Seq<char>>,
    i: int,
) -> Seq<PaintView> {
    seq![
        PaintView::MoveTo(y + 3 + i, x),
        PaintView::Bg(BOX),
        PaintView::Fg(FRAME),
        PaintView::Text("│"@),
    ] + (if i < matches.len() {
        choice_steps(matches[i], i == sel, inner, remotes)
    } else {
        seq![PaintView::Text(text::run_of(' ', inner as nat))]
    }) + seq![PaintView::Bg(BOX), PaintView::Fg(FRAME), PaintView::Text("│"@)]
}

/// The first `n` rows of the list.
pub open spec fn matches_steps(
    y: int,
    x: int,
    inner: int,
    matches: Seq<BranchView>,
    sel: int,
    remotes: Seq<Seq<char>>,
    n: int,
) -> Seq<PaintView>
    decreases n,
{
    if n <= 0 {
        seq![]
    } else {
        matches_steps(y, x, inner, matches, sel, remotes, n - 1) + match_steps(
            y,
            x,
            inner,
            matches,
            sel,
            remotes,
            n - 1,
        )
    }
}

/// The branch picker, in the middle of the screen.
pub open spec fn picker_steps(
    layout: Layout,
    query: Seq<char>,
    matches: Seq<BranchView>,
    sel: int,
    remotes: Seq<Seq<char>>,
) -> Seq<PaintView> {
    let w = picker_width(layout);
    let h = picker_height(layout);
    let x = (layout.width - w) / 2;
    let y = (layout.height - h) / 2;
    let inner = w - 2;
    top_steps(y, x, inner, " Switch branch "@) + query_steps(y, x, inner, query) + matches_steps(
        y,
        x,
        inner,
        matches,
        sel,
        remotes,
        ui::monus(h, 4),
    ) + bottom_steps(y + h - 1, x, inner, " ↑↓ select  ⏎ checkout  esc cancel "@)
}

fn draw_query(y: u16, x: u16, inner: usize, query: &str, out: &mut Canvas)
    requires
        y + 2 <= u16::MAX,
    ensures
        final(out)@ == old(out)@ + query_steps(y as int, x as int, inner as int, query@),
{
    let ghost before = out@;
    let mut typed = query.to_owned();
    typed.append("_");
    let mut line = "├".to_owned();
    line.append(text::repeat('─', inner).as_str());
    line.append("┤");
    move_to(y + 1, x, out);
    bg(BOX, out);
    fg(FRAME, out);
    out.write("│ ");
    fg((120, 200, 120), out);
    out.write("> ");
    fg((230, 230, 230), out);
    out.write(pad_right(typed.as_str(), inner.saturating_sub(3)).as_str());
    fg(FRAME, out);
    out.write("│");
    move_to(y + 2, x, out);
    fg(FRAME, out);
    out.write(line.as_str());
    assert(out@ =~= before + query_steps(y as int, x as int, inner as int, query@));
}

fn draw_choice(b: &Branch, is_selected: bool, inner: usize, remotes: &[String], out: &mut Canvas)
    ensures
        final(out)@ == old(out)@ + choice_steps(
            b.deep_view(),
            is_selected,
            inner as int,
            remotes.deep_view(),
        ),
{
    let ghost before = out@;
    if is_selected {
        bg((40, 50, 70), out);
    }
    fg(FRAME, out);
    out.write(
        if is_selected {
            "▎"
        } else {
            " "
        },
    );
    fg((120, 200, 120), out);
    out.write(
        if b.is_current {
            "● "
        } else {
            "  "
        },
    );
    let name = b.name.as_str();
    fg(color_for(branch_family(name, remotes), name), out);
    let mut label = b.name.clone();
    if b.is_remote {
        label.append(" (remote)");
    }
    out.write(pad_right(label.as_str(), inner.saturating_sub(4)).as_str());
    assert(out@ =~= before + choice_steps(
        b.deep_view(),
        is_selected,
        inner as int,
        remotes.deep_view(),
    ));
}

fn draw_match(
    y: u16,
    x: u16,
    inner: usize,
    matches: &[&Branch],
    sel: usize,
    remotes: &[String],
    i: usize,
    out: &mut Canvas,
)
    requires
        y + 3 + i <= u16::MAX,
    ensures
        final(out)@ == old(out)@ + match_steps(
            y as int,
            x as int,
            inner as int,
            matches.deep_view(),
            sel as int,
            remotes.deep_view(),
            i as int,
        ),
{
    let ghost before = out@;
    let ghost all = matches.deep_view();
    move_to(y + 3 + i as u16, x, out);
    bg(BOX, out);
    fg(FRAME, out);
    out.write("│");
    let ghost opened = out@;
    let ghost a = seq![
        PaintView::MoveTo(y + 3 + i, x as int),
        PaintView::Bg(BOX),
        PaintView::Fg(FRAME),
        PaintView::Text("│"@),
    ];
    assert(opened =~= before + a);
    let ghost b = if i < all.len() {
        choice_steps(all[i as int], i == sel, inner as int, remotes.deep_view())
    } else {
        seq![PaintView::Text(text::run_of(' ', inner as nat))]
    };
    if i < matches.len() {
        assert(all[i as int] == matches@[i as int].deep_view());
        draw_choice(matches[i], i == sel, inner, remotes, out);
    } else {
        out.write(text::repeat(' ', inner).as_str());
        assert(out@ =~= opened + b);
    }
    bg(BOX, out);
    fg(FRAME, out);
    out.write("│");
    proof {
        let c = seq![PaintView::Bg(BOX), PaintView::Fg(FRAME), PaintView::Text("│"@)];
        assert(out@ =~= opened + b + c);
        canvas::lemma_grouping(before, a, b);
        canvas::lemma_grouping(before, a + b, c);
    }
}

/// Paints the branch picker.
pub fn draw_branch_picker(
    layout: &Layout,
    query: &str,
    matches: &[&Branch],
    sel: usize,
    remotes: &[String],
    out: &mut Canvas,
)
    requires
        layout.width >= 2,
        layout.height >= 1,
    ensures
        final(out)@ == old(out)@ + picker_steps(
            *layout,
            query@,
            matches.deep_view(),
            sel as int,
            remotes.deep_view(),
        ),
{
    let ghost before = out@;
    let w: u16 = if layout.width < 60 {
        layout.width
    } else {
        60
    };
    let h: u16 = if layout.height < 18 {
        layout.height
    } else {
        18
    };
    let x: u16 = (layout.width - w) / 2;
    let y: u16 = (layout.height - h) / 2;
    let inner: usize = (w - 2) as usize;
    draw_top(y, x, inner, " Switch branch ", out);
    draw_query(y, x, inner, query, out);
    let ghost a = top_steps(y as int, x as int, inner as int, " Switch branch "@);
    let ghost b = query_steps(y as int, x as int, inner as int, query@);
    let ghost opened = out@;
    let ghost all = matches.deep_view();
    let ghost known = remotes.deep_view();
    let rows: usize = (h as usize).saturating_sub(4);
    assert(out@ =~= opened + matches_steps(
        y as int,
        x as int,
        inner as int,
        all,
        sel as int,
        known,
        0,
    ));
    for i in 0..rows
        invariant
            all == matches.deep_view(),
            known == remotes.deep_view(),
            y + 3 + rows <= u16::MAX,
            out@ == opened + matches_steps(
                y as int,
                x as int,
                inner as int,
                all,
                sel as int,
                known,
                i as int,
            ),
    {
        draw_match(y, x, inner, matches, sel, remotes, i, out);
        proof {
            canvas::lemma_grouping(
                opened,
                matches_steps(
                    y as int,
                    x as int,
                    inner as int,
                    all,
                    sel as int,
                    known,
                    i as int,
                ),
                match_steps(y as int, x as int, inner as int, all, sel as int, known, i as int),
            );
        }
    }
    let hint = " ↑↓ select  ⏎ checkout  esc cancel ";
    draw_bottom(y + (h - 1), x, inner, hint, out);
    proof {
        let c = matches_steps(
            y as int,
            x as int,
            inner as int,
            all,
            sel as int,
            known,
            rows as int,
        );
        let d = bottom_steps(y + h - 1, x as int, inner as int, hint@);
        canvas::lemma_grouping(before, a, b);
        canvas::lemma_grouping(before, a + b, c);
        canvas::lemma_grouping(before, a + b + c, d);
    }
}

// ---------------------------------------------------------------------------
// The help
// ---------------------------------------------------------------------------
/// A line of the help.
#[derive(Debug)]
pub enum HelpLine {
    /// The heading of a section.
    Title(&'static str),
    /// Keys and what they do.
    Keys(&'static str, &'static str),
    Blank,
}

/// A line of the help as contracts speak of it.
pub enum HelpLineView {
    Title(Seq<char>),
    Keys(Seq<char>, Seq<char>),
    Blank,
}

impl DeepView for HelpLine {
    type V = HelpLineView;

    open spec fn deep_view(&self) -> HelpLineView {
        match self {
            HelpLine::Title(t) => HelpLineView::Title(t@),
            HelpLine::Keys(k, d) => HelpLineView::Keys(k@, d@),
            HelpLine::Blank => HelpLineView::Blank,
        }
    }
}

/// The help.
pub open spec fn help_text() -> Seq<HelpLineView> {
    seq![
        HelpLineView::Title("Navigation"@),
        HelpLineView::Keys("j  ↓"@, "move down"@),
        HelpLineView::Keys("k  ↑"@, "move up"@),
        HelpLineView::Keys("Tab"@, "switch focus (graph ↔ files)"@),
        HelpLineView::Keys("J  K"@, "scroll diff"@),
        HelpLineView::Blank,
        HelpLineView::Title("Branches"@),
        HelpLineView::Keys("Enter  o"@, "checkout branch at selected commit"@),
        HelpLineView::Keys("n"@, "new branch from selected commit"@),
        HelpLineView::Keys("b"@, "open branch picker"@),
        HelpLineView::Blank,
        HelpLineView::Title("Working tree (file pane)"@),
        HelpLineView::Keys("Space"@, "stage / unstage"@),
        HelpLineView::Keys("Backspace"@, "discard unstaged changes (confirm)"@),
        HelpLineView::Keys("Shift-Bksp"@, "discard without confirm (if terminal sends it)"@),
        HelpLineView::Keys("c"@, "commit"@),
        HelpLineView::Blank,
        HelpLineView::Title("Remote"@),
        HelpLineView::Keys("P"@, "pull (fast-forward only)"@),
        HelpLineView::Keys("p"@, "push (confirms if behind)"@),
        HelpLineView::Keys("R"@, "open PR / MR for current branch"@),
        HelpLineView::Blank,
        HelpLineView::Title("General"@),
        HelpLineView::Keys("r"@, "refresh"@),
        HelpLineView::Keys("?"@, "this help"@),
        HelpLineView::Keys("q  Ctrl-C"@, "quit"@),
        HelpLineView::Blank,
    ]
}

/// The lines of the help.
pub fn help_lines() -> (r: Vec<HelpLine>)
    ensures
        r.deep_view() == help_text(),
{
    let r = vec![
        HelpLine::Title("Navigation"),
        HelpLine::Keys("j  ↓", "move down"),
        HelpLine::Keys("k  ↑", "move up"),
        HelpLine::Keys("Tab", "switch focus (graph ↔ files)"),
        HelpLine::Keys("J  K", "scroll diff"),
        HelpLine::Blank,
        HelpLine::Title("Branches"),
        HelpLine::Keys("Enter  o", "checkout branch at selected commit"),
        HelpLine::Keys("n", "new branch from selected commit"),
        HelpLine::Keys("b", "open branch picker"),
        HelpLine::Blank,
        HelpLine::Title("Working tree (file pane)"),
        HelpLine::Keys("Space", "stage / unstage"),
        HelpLine::Keys("Backspace", "discard unstaged changes (confirm)"),
        HelpLine::Keys("Shift-Bksp", "discard without confirm (if terminal sends it)"),
        HelpLine::Keys("c", "commit"),
        HelpLine::Blank,
        HelpLine::Title("Remote"),
        HelpLine::Keys("P", "pull (fast-forward only)"),
        HelpLine::Keys("p", "push (confirms if behind)"),
        HelpLine::Keys("R", "open PR / MR for current branch"),
        HelpLine::Blank,
        HelpLine::Title("General"),
        HelpLine::Keys("r", "refresh"),
        HelpLine::Keys("?", "this help"),
        HelpLine::Keys("q  Ctrl-C", "quit"),
        HelpLine::Blank,
    ];
    assert(r.deep_view() =~= help_text());
    r
}

/// Columns of the help.
pub open spec fn help_width(layout: Layout) -> int {
    ui::least(layout.width as int, 64)
}

/// Rows of the help: its lines and four more, where there is room for them.
pub open spec fn help_height(layout: Layout) -> int {
    ui::least(help_text().len() as int + 4, ui::monus(layout.height as int, 2))
}

/// A line of the help in a row of the box. The keys have sixteen columns.
pub open spec fn help_line_steps(row: int, x: int, inner: int, line: HelpLineView) -> Seq<
    PaintView,
> {
    match line {
        HelpLineView::Title(title) => seq![
            PaintView::MoveTo(row, x),
            PaintView::Bg(BOX),
            PaintView::Fg(FRAME),
            PaintView::Text("│ "@),
            PaintView::Bold,
            PaintView::Fg((140, 200, 255)),
            PaintView::Text(title),
            PaintView::Reset,
            PaintView::Bg(BOX),
            PaintView::Text(text::run_of(' ', ui::monus(inner, title.len() as int + 1) as nat)),
            PaintView::Fg(FRAME),
            PaintView::Text("│"@),
        ],
        HelpLineView::Keys(keys, what) => seq![
            PaintView::MoveTo(row, x),
            PaintView::Bg(BOX),
            PaintView::Fg(FRAME),
            PaintView::Text("│ "@),
            PaintView::Fg((180, 220, 180)),
            PaintView::Text(cells::padded(keys, 16)),
            PaintView::Fg((220, 220, 220)),
            PaintView::Text(cells::padded(what, ui::monus(inner, 18) as nat)),
            PaintView::Fg(FRAME),
            PaintView::Text("│"@),
        ],
        HelpLineView::Blank => seq![
            PaintView::MoveTo(row, x),
            PaintView::Bg(BOX),
            PaintView::Fg(FRAME),
            PaintView::Text("│"@ + text::run_of(' ', inner as nat) + "│"@),
        ],
    }
}

/// The line that stands in the `i`-th row of the box, blank below the last.
pub open spec fn help_row(i: int) -> HelpLineView {
    if i < help_text().len() {
        help_text()[i]
    } else {
        HelpLineView::Blank
    }
}

/// The first `n` lines of the help.
pub open spec fn help_rows_steps(y: int, x: int, inner: int, n: int) -> Seq<PaintView>
    decreases n,
{
    if n <= 0 {
        seq![]
    } else {
        help_rows_steps(y, x, inner, n - 1) + help_line_steps(y + n, x, inner, help_row(n - 1))
    }
}

/// The help, in the middle of the screen.
pub open spec fn help_steps(layout: Layout) -> Seq<PaintView> {
    let w = help_width(layout);
    let h = help_height(layout);
    let x = (layout.width - w) / 2;
    let y = (layout.height - h) / 2;
    let inner = w - 2;
    top_steps(y, x, inner, " Keyboard shortcuts "@) + help_rows_steps(y, x, inner, ui::monus(h, 2))
        + bottom_steps(y + h - 1, x, inner, " any key to dismiss "@)
}

fn draw_help_line(row: u16, x: u16, inner: usize, line: &HelpLine, out: &mut Canvas)
    ensures
        final(out)@ == old(out)@ + help_line_steps(
            row as int,
            x as int,
            inner as int,
            line.deep_view(),
        ),
{
    let ghost before = out@;
    move_to(row, x, out);
    bg(BOX, out);
    fg(FRAME, out);
    match line {
        HelpLine::Title(title) => {
            out.write("│ ");
            bold(out);
            fg((140, 200, 255), out);
            out.write(title);
            reset(out);
            bg(BOX, out);
            let taken = title.unicode_len().saturating_add(1);
            out.write(text::repeat(' ', inner.saturating_sub(taken)).as_str());
            fg(FRAME, out);
            out.write("│");
        },
        HelpLine::Keys(keys, what) => {
            out.write("│ ");
            fg((180, 220, 180), out);
            out.write(pad_right(keys, 16).as_str());
            fg((220, 220, 220), out);
            out.write(pad_right(what, inner.saturating_sub(18)).as_str());
            fg(FRAME, out);
            out.write("│");
        },
        HelpLine::Blank => {
            let mut blank = "│".to_owned();
            blank.append(text::repeat(' ', inner).as_str());
            blank.append("│");
            out.write(blank.as_str());
        },
    }
    assert(out@ =~= before + help_line_steps(
        row as int,
        x as int,
        inner as int,
        line.deep_view(),
    ));
}

/// Paints the help.
pub fn draw_help(layout: &Layout, out: &mut Canvas)
    requires
        layout.width >= 2,
        layout.height >= 2,
    ensures
        final(out)@ == old(out)@ + help_steps(*layout),
{
    let ghost before = out@;
    let lines = help_lines();
    let n = lines.len();
    assert(help_text().len() == 27);
    assert(lines.deep_view().len() == n);
    let w: u16 = if layout.width < 64 {
        layout.width
    } else {
        64
    };
    let h: u16 = if layout.height - 2 < n as u16 + 4 {
        layout.height - 2
    } else {
        n as u16 + 4
    };
    let x: u16 = (layout.width - w) / 2;
    let y: u16 = (layout.height - h) / 2;
    let inner: usize = (w - 2) as usize;
    draw_top(y, x, inner, " Keyboard shortcuts ", out);
    let ghost a = top_steps(y as int, x as int, inner as int, " Keyboard shortcuts "@);
    let ghost opened = out@;
    let rows: u16 = h.saturating_sub(2);
    assert(out@ =~= opened + help_rows_steps(y as int, x as int, inner as int, 0));
    for i in 0..rows
        invariant
            n == lines@.len(),
            lines.deep_view() == help_text(),
            y + 1 + rows <= u16::MAX,
            out@ == opened + help_rows_steps(y as int, x as int, inner as int, i as int),
    {
        let blank = HelpLine::Blank;
        let line = if (i as usize) < n {
            assert(help_text()[i as int] == lines@[i as int].deep_view());
            &lines[i as usize]
        } else {
            &blank
        };
        draw_help_line(y + 1 + i, x, inner, line, out);
        proof {
            canvas::lemma_grouping(
                opened,
                help_rows_steps(y as int, x as int, inner as int, i as int),
                help_line_steps(y + i + 1, x as int, inner as int, help_row(i as int)),
            );
        }
    }
    draw_bottom((y + h) - 1, x, inner, " any key to dismiss ", out);
    proof {
        let b = help_rows_steps(y as int, x as int, inner as int, rows as int);
        let c = bottom_steps(y + h - 1, x as int, inner as int, " any key to dismiss "@);
        canvas::lemma_grouping(before, a, b);
        canvas::lemma_grouping(before, a + b, c);
    }
}

// ---------------------------------------------------------------------------
// Laws
// ---------------------------------------------------------------------------
proof fn lemma_matches_stay(
    layout: Layout,
    y: int,
    x: int,
    inner: int,
    matches: Seq<BranchView>,
    sel: int,
    remotes: Seq<Seq<char>>,
    n: int,
)
    requires
        0 <= y,
        y + 3 + n <= layout.height,
        0 <= x < layout.width,
    ensures
        canvas::stays_on(
            matches_steps(y, x, inner, matches, sel, remotes, n),
            layout.width as int,
            layout.height as int,
        ),
    decreases n,
{
    broadcast use canvas::lemma_stays_concat;

    if n > 0 {
        lemma_matches_stay(layout, y, x, inner, matches, sel, remotes, n - 1);
        assert(canvas::stays_on(
            match_steps(y, x, inner, matches, sel, remotes, n - 1),
            layout.width as int,
            layout.height as int,
        ));
    }
}

/// The cursor stays on a screen that is not too small.
pub proof fn picker_stays_on_the_screen(
    layout: Layout,
    query: Seq<char>,
    matches: Seq<BranchView>,
    sel: int,
    remotes: Seq<Seq<char>>,
)
    requires
        !layout.cramped(),
    ensures
        canvas::stays_on(
            picker_steps(layout, query, matches, sel, remotes),
            layout.width as int,
            layout.height as int,
        ),
{
    broadcast use canvas::lemma_stays_concat;

    let w = picker_width(layout);
    let h = picker_height(layout);
    let x = (layout.width - w) / 2;
    let y = (layout.height - h) / 2;
    lemma_matches_stay(layout, y, x, w - 2, matches, sel, remotes, ui::monus(h, 4));
}

proof fn lemma_help_rows_stay(layout: Layout, y: int, x: int, inner: int, n: int)
    requires
        0 <= y,
        y + n < layout.height,
        0 <= x < layout.width,
    ensures
        canvas::stays_on(
            help_rows_steps(y, x, inner, n),
            layout.width as int,
            layout.height as int,
        ),
    decreases n,
{
    broadcast use canvas::lemma_stays_concat;

    if n > 0 {
        lemma_help_rows_stay(layout, y, x, inner, n - 1);
        assert(canvas::stays_on(
            help_line_steps(y + n, x, inner, help_row(n - 1)),
            layout.width as int,
            layout.height as int,
        ));
    }
}

/// The cursor stays on a screen that is not too small.
pub proof fn help_stays_on_the_screen(layout: Layout)
    requires
        !layout.cramped(),
    ensures
        canvas::stays_on(help_steps(layout), layout.width as int, layout.height as int),
{
    broadcast use canvas::lemma_stays_concat;

    let w = help_width(layout);
    let h = help_height(layout);
    let x = (layout.width - w) / 2;
    let y = (layout.height - h) / 2;
    assert(help_text().len() == 27);
    lemma_help_rows_stay(layout, y, x, w - 2, ui::monus(h, 2));
}

proof fn lemma_choice_width(
    b: BranchView,
    is_selected: bool,
    inner: int,
    remotes: Seq<Seq<char>>,
)
    requires
        inner >= 4,
    ensures
        canvas::written(choice_steps(b, is_selected, inner, remotes)) <= inner - 1,
{
    broadcast use {
        canvas::lemma_written_concat,
        canvas::lemma_written_push,
        canvas::lemma_written_two,
        cells::lemma_width_push,
        cells::lemma_width_two,
    };

    let label = if b.is_remote {
        b.name + " (remote)"@
    } else {
        b.name
    };
    cells::padding_fills(label, (inner - 4) as nat);
    let steps = choice_steps(b, is_selected, inner, remotes);
    let k: int = if is_selected {
        1
    } else {
        0
    };
    reveal_strlit("▎");
    reveal_strlit(" ");
    reveal_strlit("● ");
    reveal_strlit("  ");
    assert("▎"@ =~= Seq::<char>::empty().push('▎'));
    assert(" "@ =~= Seq::<char>::empty().push(' '));
    let end = seq![steps[k], steps[k + 1]] + seq![steps[k + 2], steps[k + 3]] + seq![
        steps[k + 4],
        steps[k + 5],
    ];
    assert(steps =~= steps.take(k) + end);
    if is_selected {
        assert(steps.take(1) =~= Seq::<PaintView>::empty().push(steps[0]));
    } else {
        assert(steps.take(0) =~= Seq::<PaintView>::empty());
    }
}

/// A branch in the picker stays inside the frame.
pub proof fn choices_stay_in_the_frame(
    y: int,
    x: int,
    inner: int,
    matches: Seq<BranchView>,
    sel: int,
    remotes: Seq<Seq<char>>,
    i: int,
)
    requires
        inner >= 4,
        0 <= i < matches.len(),
    ensures
        canvas::written(match_steps(y, x, inner, matches, sel, remotes, i)) <= inner + 1,
{
    broadcast use {
        canvas::lemma_written_concat,
        canvas::lemma_written_push,
        canvas::lemma_written_two,
        cells::lemma_width_push,
    };

    lemma_choice_width(matches[i], i == sel, inner, remotes);
    reveal_strlit("│");
    assert("│"@ =~= Seq::<char>::empty().push('│'));
    assert(seq![
        PaintView::MoveTo(y + 3 + i, x),
        PaintView::Bg(BOX),
        PaintView::Fg(FRAME),
        PaintView::Text("│"@),
    ] =~= seq![PaintView::MoveTo(y + 3 + i, x), PaintView::Bg(BOX)] + seq![
        PaintView::Fg(FRAME),
        PaintView::Text("│"@),
    ]);
    assert(seq![PaintView::Bg(BOX), PaintView::Fg(FRAME), PaintView::Text("│"@)] =~= seq![
        PaintView::Bg(BOX),
        PaintView::Fg(FRAME),
    ].push(PaintView::Text("│"@)));
}

// ---------------------------------------------------------------------------
// What the boxes tell
// ---------------------------------------------------------------------------
/// A branch is offered by its whole name, in its colour, with a dot where it is
/// the current one and a word where it is a remote's; the selected one has a
/// cursor and a background.
pub proof fn choices_are_told_apart(
    b: BranchView,
    is_selected: bool,
    inner: int,
    remotes: Seq<Seq<char>>,
)
    ensures
        ({
            let steps = choice_steps(b, is_selected, inner, remotes);
            let at = if is_selected {
                1int
            } else {
                0
            };
            let room = ui::monus(inner, 4) as nat;
            &&& is_selected ==> steps[0] == PaintView::Bg((40u8, 50u8, 70u8))
            &&& steps[at + 1] == PaintView::Text(
                if is_selected {
                    "▎"@
                } else {
                    " "@
                },
            )
            &&& steps[at + 3] == PaintView::Text(
                if b.is_current {
                    "● "@
                } else {
                    "  "@
                },
            )
            &&& steps[at + 4] == PaintView::Fg(
                color::colour(color::family(b.name, remotes), b.name),
            )
            &&& !b.is_remote ==> steps[at + 5] == PaintView::Text(cells::padded(b.name, room))
            &&& b.is_remote ==> steps[at + 5] == PaintView::Text(
                cells::padded(b.name + " (remote)"@, room),
            )
            &&& steps.len() == at + 6
        }),
{
}

proof fn lemma_matches_prefix(
    y: int,
    x: int,
    inner: int,
    matches: Seq<BranchView>,
    sel: int,
    remotes: Seq<Seq<char>>,
    m: int,
    n: int,
)
    requires
        0 <= m <= n,
    ensures
        matches_steps(y, x, inner, matches, sel, remotes, m).is_prefix_of(
            matches_steps(y, x, inner, matches, sel, remotes, n),
        ),
    decreases n - m,
{
    let short = matches_steps(y, x, inner, matches, sel, remotes, m);
    let all = matches_steps(y, x, inner, matches, sel, remotes, n);
    let k = short.len() as int;
    if m < n {
        lemma_matches_prefix(y, x, inner, matches, sel, remotes, m, n - 1);
        let less = matches_steps(y, x, inner, matches, sel, remotes, n - 1);
        assert(all.take(k) =~= less.take(k));
    } else {
        assert(short.take(k) =~= short);
    }
}

/// A row of the picker holds the choice that stands in it.
proof fn lemma_choice_in_row(
    y: int,
    x: int,
    inner: int,
    matches: Seq<BranchView>,
    sel: int,
    remotes: Seq<Seq<char>>,
    i: int,
)
    requires
        i < matches.len(),
    ensures
        canvas::painted_in(
            choice_steps(matches[i], i == sel, inner, remotes),
            match_steps(y, x, inner, matches, sel, remotes, i),
        ),
{
    canvas::lemma_painted_middle(
        seq![
            PaintView::MoveTo(y + 3 + i, x),
            PaintView::Bg(BOX),
            PaintView::Fg(FRAME),
            PaintView::Text("│"@),
        ],
        choice_steps(matches[i], i == sel, inner, remotes),
        seq![PaintView::Bg(BOX), PaintView::Fg(FRAME), PaintView::Text("│"@)],
    );
}

/// The picker offers the matches from the first on, in order, as many as it has
/// rows for, and the selected one is marked.
#[verifier::spinoff_prover]
#[verifier::rlimit(50)]
pub proof fn picker_offers_the_matches(
    layout: Layout,
    query: Seq<char>,
    matches: Seq<BranchView>,
    sel: int,
    remotes: Seq<Seq<char>>,
    i: int,
)
    requires
        layout.width >= 60,
        layout.height >= 5,
        0 <= i < matches.len(),
        i < layout.height - 4,
        i < 14,
    ensures
        canvas::painted_in(
            choice_steps(matches[i], i == sel, 58, remotes),
            picker_steps(layout, query, matches, sel, remotes),
        ),
{
    let h = picker_height(layout);
    let x = (layout.width - 60) / 2;
    let y = (layout.height - h) / 2;
    let top = top_steps(y, x, 58, " Switch branch "@);
    let typed = query_steps(y, x, 58, query);
    let rows = matches_steps(y, x, 58, matches, sel, remotes, ui::monus(h, 4));
    let bottom = bottom_steps(y + h - 1, x, 58, " ↑↓ select  ⏎ checkout  esc cancel "@);
    let before = matches_steps(y, x, 58, matches, sel, remotes, i);
    let row = match_steps(y, x, 58, matches, sel, remotes, i);
    let choice = choice_steps(matches[i], i == sel, 58, remotes);
    lemma_matches_prefix(y, x, 58, matches, sel, remotes, i + 1, ui::monus(h, 4));
    canvas::lemma_painted_between(before, row, rows);
    lemma_choice_in_row(y, x, 58, matches, sel, remotes, i);
    canvas::lemma_painted_middle(top + typed, rows, bottom);
    canvas::lemma_painted_through(row, rows, top + typed + rows + bottom);
    canvas::lemma_painted_through(choice, row, top + typed + rows + bottom);
}

/// The picker shows what was typed.
#[verifier::spinoff_prover]
#[verifier::rlimit(50)]
pub proof fn picker_shows_the_query(
    layout: Layout,
    query: Seq<char>,
    matches: Seq<BranchView>,
    sel: int,
    remotes: Seq<Seq<char>>,
)
    requires
        layout.width >= 60,
    ensures
        canvas::painted_in(
            seq![PaintView::Text(cells::padded(query + "_"@, 55))],
            picker_steps(layout, query, matches, sel, remotes),
        ),
{
    let h = picker_height(layout);
    let x = (layout.width - 60) / 2;
    let y = (layout.height - h) / 2;
    let top = top_steps(y, x, 58, " Switch branch "@);
    let typed = query_steps(y, x, 58, query);
    let rows = matches_steps(y, x, 58, matches, sel, remotes, ui::monus(h, 4));
    let bottom = bottom_steps(y + h - 1, x, 58, " ↑↓ select  ⏎ checkout  esc cancel "@);
    let text = seq![PaintView::Text(cells::padded(query + "_"@, 55))];
    canvas::lemma_painted_middle(typed.take(7), text, typed.skip(8));
    assert(typed.take(7) + text + typed.skip(8) =~= typed);
    canvas::lemma_painted_within(text, top, typed, rows + bottom);
    assert(top + typed + (rows + bottom) =~= top + typed + rows + bottom);
}

/// The help names every key of the panes and what it does.
pub proof fn help_names_the_keys()
    ensures
        help_text().contains(HelpLineView::Keys("j  ↓"@, "move down"@)),
        help_text().contains(HelpLineView::Keys("k  ↑"@, "move up"@)),
        help_text().contains(HelpLineView::Keys("Tab"@, "switch focus (graph ↔ files)"@)),
        help_text().contains(HelpLineView::Keys("J  K"@, "scroll diff"@)),
        help_text().contains(
            HelpLineView::Keys("Enter  o"@, "checkout branch at selected commit"@),
        ),
        help_text().contains(HelpLineView::Keys("n"@, "new branch from selected commit"@)),
        help_text().contains(HelpLineView::Keys("b"@, "open branch picker"@)),
        help_text().contains(HelpLineView::Keys("Space"@, "stage / unstage"@)),
        help_text().contains(HelpLineView::Keys("c"@, "commit"@)),
        help_text().contains(HelpLineView::Keys("P"@, "pull (fast-forward only)"@)),
        help_text().contains(HelpLineView::Keys("p"@, "push (confirms if behind)"@)),
        help_text().contains(HelpLineView::Keys("R"@, "open PR / MR for current branch"@)),
        help_text().contains(HelpLineView::Keys("r"@, "refresh"@)),
        help_text().contains(HelpLineView::Keys("?"@, "this help"@)),
        help_text().contains(HelpLineView::Keys("q  Ctrl-C"@, "quit"@)),
{
    let all = help_text();
    assert(all[1] is Keys && all[2] is Keys && all[3] is Keys && all[4] is Keys);
    assert(all[7] is Keys && all[8] is Keys && all[9] is Keys);
    assert(all[12] is Keys && all[15] is Keys);
    assert(all[18] is Keys && all[19] is Keys && all[20] is Keys);
    assert(all[23] is Keys && all[24] is Keys && all[25] is Keys);
}

proof fn lemma_help_prefix(y: int, x: int, inner: int, m: int, n: int)
    requires
        0 <= m <= n,
    ensures
        help_rows_steps(y, x, inner, m).is_prefix_of(help_rows_steps(y, x, inner, n)),
    decreases n - m,
{
    let short = help_rows_steps(y, x, inner, m);
    let all = help_rows_steps(y, x, inner, n);
    let k = short.len() as int;
    if m < n {
        lemma_help_prefix(y, x, inner, m, n - 1);
        let less = help_rows_steps(y, x, inner, n - 1);
        assert(all.take(k) =~= less.take(k));
    } else {
        assert(short.take(k) =~= short);
    }
}

/// Every line of the help that there is room for is shown, from the first on:
/// keys and what they do beside each other.
#[verifier::spinoff_prover]
#[verifier::rlimit(50)]
pub proof fn help_shows_its_lines(layout: Layout, i: int, keys: Seq<char>, what: Seq<char>)
    requires
        layout.width >= 64,
        0 <= i < help_text().len(),
        i + 4 < layout.height,
        help_text()[i] == HelpLineView::Keys(keys, what),
    ensures
        canvas::painted_in(seq![PaintView::Text(cells::padded(keys, 16))], help_steps(layout)),
        canvas::painted_in(seq![PaintView::Text(cells::padded(what, 44))], help_steps(layout)),
{
    let w = help_width(layout);
    let h = help_height(layout);
    let x = (layout.width - w) / 2;
    let y = (layout.height - h) / 2;
    let inner = w - 2;
    let top = top_steps(y, x, inner, " Keyboard shortcuts "@);
    let n = ui::monus(h, 2);
    let rows = help_rows_steps(y, x, inner, n);
    let bottom = bottom_steps(y + h - 1, x, inner, " any key to dismiss "@);
    let before = help_rows_steps(y, x, inner, i);
    let row = help_line_steps(y + i + 1, x, inner, help_text()[i]);
    lemma_help_prefix(y, x, inner, i + 1, n);
    canvas::lemma_painted_between(before, row, rows);
    let a = seq![PaintView::Text(cells::padded(keys, 16))];
    let b = seq![PaintView::Text(cells::padded(what, 44))];
    canvas::lemma_painted_middle(row.take(5), a, row.skip(6));
    assert(row.take(5) + a + row.skip(6) =~= row);
    canvas::lemma_painted_middle(row.take(7), b, row.skip(8));
    assert(row.take(7) + b + row.skip(8) =~= row);
    canvas::lemma_painted_through(a, row, rows);
    canvas::lemma_painted_through(b, row, rows);
    canvas::lemma_painted_within(a, top, rows, bottom);
    canvas::lemma_painted_within(b, top, rows, bottom);
}

} // verus!
