//! The right pane, with the list of files above the diff, and the status bar.

use crate::canvas::{self, bg, bold, fg, move_to, reset, Canvas, PaintView};
use crate::cells::{self, pad_right, truncate};
use crate::color::Rgb;
use crate::git::{FileStatus, StatusEntry, StatusEntryView, TrackingInfo, TrackingView};
use crate::text;
use crate::ui::{self, Layout};
use vstd::prelude::*;

verus! {

// ---------------------------------------------------------------------------
// The list of files
// ---------------------------------------------------------------------------
/// The rows that the list of files has.
pub open spec fn file_rows(layout: Layout) -> int {
    ui::least(ui::monus(layout.diff_split_y as int, 2), ui::monus(layout.height as int, 2))
}

/// How many files the pane shows at once.
pub fn status_pane_rows(layout: &Layout) -> (r: usize)
    ensures
        r == file_rows(*layout),
{
    let above = layout.diff_split_y.saturating_sub(2);
    let inside = layout.height.saturating_sub(2);
    if above < inside {
        above as usize
    } else {
        inside as usize
    }
}

/// The sign of a status, and its colour.
pub open spec fn status_mark(status: FileStatus) -> (Seq<char>, Rgb) {
    match status {
        FileStatus::Staged => (" + "@, (120, 200, 120)),
        FileStatus::StagedDeleted => (" - "@, (120, 200, 120)),
        FileStatus::Modified => (" ~ "@, (220, 180, 60)),
        FileStatus::Untracked => (" ? "@, (180, 180, 180)),
        FileStatus::Deleted => (" - "@, (220, 100, 100)),
    }
}

/// The path of a file; behind an arrow where it came from another one.
pub open spec fn file_label(e: StatusEntryView) -> Seq<char> {
    match e.orig_path {
        Some(orig) => orig + " → "@ + e.path,
        None => e.path,
    }
}

/// The file at `scroll + i`, in the `i`-th row of the list.
pub open spec fn file_steps(
    entries: Seq<StatusEntryView>,
    selected: int,
    scroll: int,
    focused: bool,
    layout: Layout,
    i: int,
) -> Seq<PaintView> {
    let e = entries[scroll + i];
    let x0 = layout.graph_width + 1;
    let (mark, colour) = status_mark(e.status);
    seq![PaintView::MoveTo(i + 2, x0)] + if scroll + i == selected && focused {
        seq![PaintView::Bg((40, 50, 70))]
    } else {
        seq![]
    } + seq![
        PaintView::Fg(colour),
        PaintView::Text(mark),
        PaintView::Fg((220, 220, 220)),
        PaintView::Text(
            cells::cut(file_label(e), ui::monus(layout.width as int, x0 + 4) as nat),
        ),
        PaintView::Reset,
    ]
}

/// The first `n` rows of the list.
pub open spec fn files_steps(
    entries: Seq<StatusEntryView>,
    selected: int,
    scroll: int,
    focused: bool,
    layout: Layout,
    n: int,
) -> Seq<PaintView>
    decreases n,
{
    if n <= 0 {
        seq![]
    } else {
        files_steps(entries, selected, scroll, focused, layout, n - 1) + file_steps(
            entries,
            selected,
            scroll,
            focused,
            layout,
            n - 1,
        )
    }
}

/// The heading of the list, with the position in it where it does not fit.
pub open spec fn files_heading(len: int, selected: int, layout: Layout) -> Seq<PaintView> {
    seq![
        PaintView::MoveTo(0, layout.graph_width + 1),
        PaintView::Bold,
        PaintView::Fg((180, 200, 255)),
        PaintView::Text(" Working tree "@),
        PaintView::Reset,
    ] + if len > file_rows(layout) {
        seq![
            PaintView::Fg((140, 140, 150)),
            PaintView::Text(
                "("@ + text::decimal((selected + 1) as nat) + "/"@ + text::decimal(len as nat)
                    + ")"@,
            ),
            PaintView::Reset,
        ]
    } else {
        seq![]
    }
}

/// The files of the working tree from the `scroll`-th on, as many as there is
/// room for.
pub open spec fn status_pane_steps(
    entries: Seq<StatusEntryView>,
    selected: int,
    scroll: int,
    focused: bool,
    layout: Layout,
) -> Seq<PaintView> {
    files_heading(entries.len() as int, selected, layout) + if entries.len() == 0 {
        seq![
            PaintView::MoveTo(2, layout.graph_width + 1),
            PaintView::Fg((120, 160, 120)),
            PaintView::Text(" clean"@),
            PaintView::Reset,
        ]
    } else {
        files_steps(
            entries,
            selected,
            scroll,
            focused,
            layout,
            ui::least(ui::monus(entries.len() as int, scroll), file_rows(layout)),
        )
    }
}

fn draw_file(
    entries: &[StatusEntry],
    selected: usize,
    scroll: usize,
    focused: bool,
    layout: &Layout,
    i: usize,
    out: &mut Canvas,
)
    requires
        layout.wf(),
        scroll + i < entries@.len(),
        i < file_rows(*layout),
    ensures
        final(out)@ == old(out)@ + file_steps(
            entries.deep_view(),
            selected as int,
            scroll as int,
            focused,
            *layout,
            i as int,
        ),
{
    let ghost before = out@;
    let n = entries.len();
    assert(scroll + i < n);
    let e = &entries[scroll + i];
    assert(entries.deep_view()[scroll + i] == e.deep_view());
    let x0: u16 = layout.graph_width + 1;
    move_to(i as u16 + 2, x0, out);
    if scroll + i == selected && focused {
        bg((40, 50, 70), out);
    }
    let (mark, colour): (&str, Rgb) = match e.status {
        FileStatus::Staged => (" + ", (120, 200, 120)),
        FileStatus::StagedDeleted => (" - ", (120, 200, 120)),
        FileStatus::Modified => (" ~ ", (220, 180, 60)),
        FileStatus::Untracked => (" ? ", (180, 180, 180)),
        FileStatus::Deleted => (" - ", (220, 100, 100)),
    };
    fg(colour, out);
    out.write(mark);
    fg((220, 220, 220), out);
    let remaining = (layout.width as usize).saturating_sub(x0 as usize + 4);
    let label = match &e.orig_path {
        Some(orig) => {
            let mut label = orig.clone();
            label.append(" → ");
            label.append(e.path.as_str());
            label
        },
        None => e.path.clone(),
    };
    out.write(truncate(label.as_str(), remaining).as_str());
    reset(out);
    assert(out@ =~= before + file_steps(
        entries.deep_view(),
        selected as int,
        scroll as int,
        focused,
        *layout,
        i as int,
    ));
}

/// Paints the files of the working tree.
pub fn draw_status_pane(
    entries: &[StatusEntry],
    selected: usize,
    scroll: usize,
    focused: bool,
    layout: &Layout,
    out: &mut Canvas,
)
    requires
        layout.wf(),
        entries@.len() > file_rows(*layout) ==> selected < usize::MAX,
    ensures
        final(out)@ == old(out)@ + status_pane_steps(
            entries.deep_view(),
            selected as int,
            scroll as int,
            focused,
            *layout,
        ),
{
    let ghost before = out@;
    let ghost all = entries.deep_view();
    let x0: u16 = layout.graph_width + 1;
    let max_rows = status_pane_rows(layout);
    move_to(0, x0, out);
    bold(out);
    fg((180, 200, 255), out);
    out.write(" Working tree ");
    reset(out);
    if entries.len() > max_rows {
        fg((140, 140, 150), out);
        let mut place = "(".to_owned();
        text::push_number(&mut place, selected as u64 + 1);
        place.append("/");
        text::push_number(&mut place, entries.len() as u64);
        place.append(")");
        out.write(place.as_str());
        reset(out);
    }
    let ghost heading = files_heading(all.len() as int, selected as int, *layout);
    assert(out@ =~= before + heading);
    if entries.len() == 0 {
        move_to(2, x0, out);
        fg((120, 160, 120), out);
        out.write(" clean");
        reset(out);
        assert(out@ =~= before + status_pane_steps(
            all,
            selected as int,
            scroll as int,
            focused,
            *layout,
        ));
        return;
    }
    let below = entries.len().saturating_sub(scroll);
    let rows: usize = if below < max_rows {
        below
    } else {
        max_rows
    };
    let ghost headed = out@;
    assert(out@ =~= headed + files_steps(all, selected as int, scroll as int, focused, *layout, 0));
    for i in 0..rows
        invariant
            all == entries.deep_view(),
            layout.wf(),
            rows <= entries@.len() - scroll || rows == 0,
            rows <= file_rows(*layout),
            out@ == headed + files_steps(
                all,
                selected as int,
                scroll as int,
                focused,
                *layout,
                i as int,
            ),
    {
        draw_file(entries, selected, scroll, focused, layout, i, out);
        proof {
            canvas::lemma_grouping(
                headed,
                files_steps(all, selected as int, scroll as int, focused, *layout, i as int),
                file_steps(all, selected as int, scroll as int, focused, *layout, i as int),
            );
        }
    }
    proof {
        canvas::lemma_grouping(
            before,
            heading,
            files_steps(all, selected as int, scroll as int, focused, *layout, rows as int),
        );
    }
}

// ---------------------------------------------------------------------------
// The diff
// ---------------------------------------------------------------------------
/// The colour of a line of a diff.
pub open spec fn diff_colour(line: Seq<char>) -> Rgb {
    if "+++"@.is_prefix_of(line) || "---"@.is_prefix_of(line) {
        (180, 180, 180)
    } else if "+"@.is_prefix_of(line) {
        (120, 200, 120)
    } else if "-"@.is_prefix_of(line) {
        (220, 100, 100)
    } else if "@@"@.is_prefix_of(line) {
        (180, 200, 255)
    } else {
        (180, 180, 180)
    }
}

/// The line at `scroll + i`, in the `i`-th row of the diff.
pub open spec fn diff_line_steps(
    lines: Seq<Seq<char>>,
    scroll: int,
    layout: Layout,
    i: int,
) -> Seq<PaintView> {
    let line = lines[scroll + i];
    let x0 = layout.graph_width + 1;
    seq![
        PaintView::MoveTo(layout.diff_split_y + i, x0),
        PaintView::Fg(diff_colour(line)),
        PaintView::Text(cells::cut(line, ui::monus(layout.width as int, x0 + 1) as nat)),
        PaintView::Reset,
    ]
}

/// The first `n` rows of the diff.
pub open spec fn diff_lines_steps(
    lines: Seq<Seq<char>>,
    scroll: int,
    layout: Layout,
    n: int,
) -> Seq<PaintView>
    decreases n,
{
    if n <= 0 {
        seq![]
    } else {
        diff_lines_steps(lines, scroll, layout, n - 1) + diff_line_steps(
            lines,
            scroll,
            layout,
            n - 1,
        )
    }
}

/// The lines of the diff from the `scroll`-th on, as many as there is room for
/// above the status bar. Nothing where there is no room for one.
pub open spec fn diff_pane_steps(diff: Seq<char>, layout: Layout, scroll: int) -> Seq<PaintView> {
    let lines = text::lines_of(diff);
    if layout.diff_split_y + 2 >= layout.height {
        seq![]
    } else {
        seq![
            PaintView::MoveTo(
                ui::monus(layout.diff_split_y as int, 1),
                layout.graph_width + 1,
            ),
            PaintView::Bold,
            PaintView::Fg((180, 200, 255)),
            PaintView::Text(" Diff "@),
            PaintView::Reset,
        ] + diff_lines_steps(
            lines,
            scroll,
            layout,
            ui::least(
                ui::monus(lines.len() as int, scroll),
                layout.height - layout.diff_split_y - 1,
            ),
        )
    }
}

fn line_colour(line: &str) -> (r: Rgb)
    ensures
        r == diff_colour(line@),
{
    if text::starts_with(line, "+++") || text::starts_with(line, "---") {
        (180, 180, 180)
    } else if text::starts_with(line, "+") {
        (120, 200, 120)
    } else if text::starts_with(line, "-") {
        (220, 100, 100)
    } else if text::starts_with(line, "@@") {
        (180, 200, 255)
    } else {
        (180, 180, 180)
    }
}

/// Paints the diff.
pub fn draw_diff_pane(diff: &str, layout: &Layout, scroll: usize, out: &mut Canvas)
    requires
        layout.wf(),
    ensures
        final(out)@ == old(out)@ + diff_pane_steps(diff@, *layout, scroll as int),
{
    let ghost before = out@;
    let x0: u16 = layout.graph_width + 1;
    let y0: u16 = layout.diff_split_y;
    if y0 as u32 + 2 >= layout.height as u32 {
        assert(out@ =~= before + diff_pane_steps(diff@, *layout, scroll as int));
        return;
    }
    move_to(y0.saturating_sub(1), x0, out);
    bold(out);
    fg((180, 200, 255), out);
    out.write(" Diff ");
    reset(out);
    let ghost heading = seq![
        PaintView::MoveTo(ui::monus(y0 as int, 1), x0 as int),
        PaintView::Bold,
        PaintView::Fg((180, 200, 255)),
        PaintView::Text(" Diff "@),
        PaintView::Reset,
    ];
    assert(out@ =~= before + heading);
    let max_rows = (layout.height - (y0 + 1)) as usize;
    let max_cols = (layout.width as usize).saturating_sub(x0 as usize + 1);
    let lines = text::lines(diff);
    let ghost all = lines.deep_view();
    let n = lines.len();
    let below = n.saturating_sub(scroll);
    let rows: usize = if below < max_rows {
        below
    } else {
        max_rows
    };
    let ghost headed = out@;
    assert(out@ =~= headed + diff_lines_steps(all, scroll as int, *layout, 0));
    for i in 0..rows
        invariant
            all == lines.deep_view(),
            n == lines@.len(),
            rows <= n - scroll || rows == 0,
            rows <= layout.height - y0 - 1,
            x0 == layout.graph_width + 1,
            y0 == layout.diff_split_y,
            max_cols == ui::monus(layout.width as int, x0 + 1),
            out@ == headed + diff_lines_steps(all, scroll as int, *layout, i as int),
    {
        let ghost mid = out@;
        let line = lines[scroll + i].as_str();
        assert(all[scroll + i] == line@);
        move_to(y0 + i as u16, x0, out);
        fg(line_colour(line), out);
        out.write(truncate(line, max_cols).as_str());
        reset(out);
        proof {
            let row = diff_line_steps(all, scroll as int, *layout, i as int);
            assert(out@ =~= mid + row);
            canvas::lemma_grouping(
                headed,
                diff_lines_steps(all, scroll as int, *layout, i as int),
                row,
            );
        }
    }
    proof {
        canvas::lemma_grouping(
            before,
            heading,
            diff_lines_steps(all, scroll as int, *layout, rows as int),
        );
    }
}

// ---------------------------------------------------------------------------
// The status bar
// ---------------------------------------------------------------------------
/// The name that the status bar shows for the current branch, cut to half of the
/// screen.
pub open spec fn branch_label(tracking: TrackingView, width: int) -> Seq<char> {
    let name = if tracking.detached {
        "(detached)"@
    } else {
        match tracking.branch {
            Some(b) => b,
            None => "?"@,
        }
    };
    cells::cut(name, (width / 2) as nat)
}

/// The name of the current branch.
pub open spec fn name_steps(tracking: TrackingView, width: int) -> Seq<PaintView> {
    seq![
        PaintView::Text(" "@),
        PaintView::Fg((180, 200, 255)),
        PaintView::Text("⎇ "@),
        PaintView::Fg((220, 220, 220)),
        PaintView::Text(branch_label(tracking, width) + " "@),
    ]
}

/// How far the current branch is ahead of its upstream and behind it.
pub open spec fn position_steps(tracking: TrackingView) -> Seq<PaintView> {
    let ahead = if tracking.ahead > 0 {
        seq![
            PaintView::Fg((120, 200, 120)),
            PaintView::Text("↑"@ + text::decimal(tracking.ahead as nat) + " "@),
        ]
    } else {
        seq![]
    };
    let behind = if tracking.behind > 0 {
        seq![
            PaintView::Fg((220, 180, 80)),
            PaintView::Text("↓"@ + text::decimal(tracking.behind as nat) + " "@),
        ]
    } else {
        seq![]
    };
    if tracking.upstream is Some {
        if tracking.ahead == 0 && tracking.behind == 0 {
            seq![PaintView::Fg((140, 140, 150)), PaintView::Text("= "@)]
        } else {
            ahead + behind
        }
    } else if !tracking.detached {
        seq![PaintView::Fg((160, 120, 120)), PaintView::Text("(no upstream) "@)]
    } else {
        seq![]
    }
}

/// The segment of the current branch.
pub open spec fn segment_steps(tracking: TrackingView, width: int) -> Seq<PaintView> {
    name_steps(tracking, width) + position_steps(tracking)
}

/// The status bar in the last row: the segment of the current branch, then the
/// message and the hint in what is left of the row.
pub open spec fn statusbar_steps(
    layout: Layout,
    tracking: TrackingView,
    msg: Seq<char>,
    hint: Seq<char>,
) -> Seq<PaintView> {
    let segment = segment_steps(tracking, layout.width as int);
    let rest = ui::monus(layout.width as int, canvas::written(segment) as int);
    seq![
        PaintView::MoveTo(ui::monus(layout.height as int, 1), 0),
        PaintView::Bg((50, 50, 65)),
    ] + segment + seq![
        PaintView::Bg((30, 30, 40)),
        PaintView::Fg((200, 200, 200)),
        PaintView::Text(cells::padded(" "@ + msg + "  │  "@ + hint, rest as nat)),
        PaintView::Reset,
    ]
}

/// A count with its sign and a blank behind it.
fn count_text(sign: &str, n: usize) -> (r: String)
    ensures
        r@ == sign@ + text::decimal(n as nat) + " "@,
{
    let mut r = sign.to_owned();
    text::push_number(&mut r, n as u64);
    r.append(" ");
    r
}

/// Paints the name of the current branch.
fn draw_name(tracking: &TrackingInfo, screen: u16, out: &mut Canvas)
    ensures
        final(out)@ == old(out)@ + name_steps(tracking.deep_view(), screen as int),
{
    let ghost before = out@;
    let name = if tracking.detached {
        "(detached)"
    } else {
        match &tracking.branch {
            Some(b) => b.as_str(),
            None => "?",
        }
    };
    let mut label = truncate(name, (screen / 2) as usize);
    label.append(" ");
    out.write(" ");
    fg((180, 200, 255), out);
    out.write("⎇ ");
    fg((220, 220, 220), out);
    out.write(label.as_str());
    assert(out@ =~= before + name_steps(tracking.deep_view(), screen as int));
}

/// Paints how far the current branch is from its upstream.
fn draw_position(tracking: &TrackingInfo, out: &mut Canvas)
    ensures
        final(out)@ == old(out)@ + position_steps(tracking.deep_view()),
{
    let ghost before = out@;
    if tracking.upstream.is_some() {
        if tracking.ahead > 0 {
            fg((120, 200, 120), out);
            out.write(count_text("↑", tracking.ahead).as_str());
        }
        if tracking.behind > 0 {
            fg((220, 180, 80), out);
            out.write(count_text("↓", tracking.behind).as_str());
        }
        if tracking.ahead == 0 && tracking.behind == 0 {
            fg((140, 140, 150), out);
            out.write("= ");
        }
    } else if !tracking.detached {
        fg((160, 120, 120), out);
        out.write("(no upstream) ");
    }
    assert(out@ =~= before + position_steps(tracking.deep_view()));
}

/// Paints the status bar.
pub fn draw_statusbar(
    layout: &Layout,
    tracking: &TrackingInfo,
    msg: &str,
    hint: &str,
    out: &mut Canvas,
)
    ensures
        final(out)@ == old(out)@ + statusbar_steps(*layout, tracking.deep_view(), msg@, hint@),
{
    let ghost before = out@;
    let ghost segment = segment_steps(tracking.deep_view(), layout.width as int);
    move_to(layout.height.saturating_sub(1), 0, out);
    bg((50, 50, 65), out);
    let ghost opened = out@;
    let from = out.steps.len();
    draw_name(tracking, layout.width, out);
    draw_position(tracking, out);
    proof {
        canvas::lemma_grouping(
            opened,
            name_steps(tracking.deep_view(), layout.width as int),
            position_steps(tracking.deep_view()),
        );
        assert(out@.skip(from as int) =~= segment);
    }
    let width = canvas::measure(out, from);
    let remaining = (layout.width as usize).saturating_sub(width);
    assert(remaining == ui::monus(layout.width as int, canvas::written(segment) as int));
    bg((30, 30, 40), out);
    fg((200, 200, 200), out);
    let mut rest = " ".to_owned();
    rest.append(msg);
    rest.append("  │  ");
    rest.append(hint);
    out.write(pad_right(rest.as_str(), remaining).as_str());
    reset(out);
    proof {
        let a = seq![
            PaintView::MoveTo(ui::monus(layout.height as int, 1), 0),
            PaintView::Bg((50, 50, 65)),
        ];
        let c = seq![
            PaintView::Bg((30, 30, 40)),
            PaintView::Fg((200, 200, 200)),
            PaintView::Text(cells::padded(rest@, remaining as nat)),
            PaintView::Reset,
        ];
        assert(opened =~= before + a);
        assert(out@ =~= opened + segment + c);
        canvas::lemma_grouping(before, a, segment);
        canvas::lemma_grouping(before, a + segment, c);
    }
}

// ---------------------------------------------------------------------------
// Laws
// ---------------------------------------------------------------------------
/// The status bar takes no more cells than its row has, or than the segment of
/// the current branch alone takes.
pub proof fn statusbar_stays_in_its_row(
    layout: Layout,
    tracking: TrackingView,
    msg: Seq<char>,
    hint: Seq<char>,
)
    ensures
        canvas::written(statusbar_steps(layout, tracking, msg, hint)) <= ui::most(
            layout.width as int,
            canvas::written(segment_steps(tracking, layout.width as int)) as int,
        ),
{
    broadcast use {canvas::lemma_written_concat, canvas::lemma_written_two};

    let segment = segment_steps(tracking, layout.width as int);
    let rest = ui::monus(layout.width as int, canvas::written(segment) as int) as nat;
    let line = " "@ + msg + "  │  "@ + hint;
    cells::padding_fills(line, rest);
    let c = seq![
        PaintView::Bg((30, 30, 40)),
        PaintView::Fg((200, 200, 200)),
        PaintView::Text(cells::padded(line, rest)),
        PaintView::Reset,
    ];
    assert(c =~= seq![PaintView::Bg((30, 30, 40)), PaintView::Fg((200, 200, 200))] + seq![
        PaintView::Text(cells::padded(line, rest)),
        PaintView::Reset,
    ]);
}

/// The name of the current branch takes at most half of the status bar.
pub proof fn branch_label_takes_half(tracking: TrackingView, width: int)
    requires
        width >= 0,
    ensures
        cells::text_width(branch_label(tracking, width)) <= width / 2,
{
    let name = if tracking.detached {
        "(detached)"@
    } else {
        match tracking.branch {
            Some(b) => b,
            None => "?"@,
        }
    };
    cells::cut_fits(name, (width / 2) as nat);
}

/// A file does not reach past the right edge of the screen.
pub proof fn files_stay_on_the_screen(
    entries: Seq<StatusEntryView>,
    selected: int,
    scroll: int,
    focused: bool,
    layout: Layout,
    i: int,
)
    requires
        layout.graph_width + 5 <= layout.width,
    ensures
        layout.graph_width + 1 + canvas::written(
            file_steps(entries, selected, scroll, focused, layout, i),
        ) <= layout.width,
{
    broadcast use {
        canvas::lemma_written_concat,
        canvas::lemma_written_push,
        canvas::lemma_written_two,
        cells::lemma_width_concat,
        cells::lemma_width_push,
        cells::lemma_width_two,
    };

    let e = entries[scroll + i];
    let room = ui::monus(layout.width as int, layout.graph_width + 5) as nat;
    cells::cut_fits(file_label(e), room);
    let (mark, colour) = status_mark(e.status);
    reveal_strlit(" + ");
    reveal_strlit(" - ");
    reveal_strlit(" ~ ");
    reveal_strlit(" ? ");
    assert(mark =~= seq![mark[0], mark[1]].push(mark[2]));
    assert(cells::text_width(mark) == 3);
    let line = seq![
        PaintView::Fg(colour),
        PaintView::Text(mark),
        PaintView::Fg((220, 220, 220)),
        PaintView::Text(cells::cut(file_label(e), room)),
        PaintView::Reset,
    ];
    assert(line =~= seq![PaintView::Fg(colour), PaintView::Text(mark)] + seq![
        PaintView::Fg((220, 220, 220)),
        PaintView::Text(cells::cut(file_label(e), room)),
    ] + seq![PaintView::Reset]);
}

/// A line of the diff does not reach the last column of the screen.
pub proof fn diff_stays_on_the_screen(
    lines: Seq<Seq<char>>,
    scroll: int,
    layout: Layout,
    i: int,
)
    requires
        layout.graph_width + 2 <= layout.width,
    ensures
        layout.graph_width + 1 + canvas::written(diff_line_steps(lines, scroll, layout, i))
            < layout.width,
{
    broadcast use {canvas::lemma_written_concat, canvas::lemma_written_two};

    let line = lines[scroll + i];
    let room = ui::monus(layout.width as int, layout.graph_width + 2) as nat;
    cells::cut_fits(line, room);
    let steps = diff_line_steps(lines, scroll, layout, i);
    assert(steps =~= seq![steps[0], steps[1]] + seq![steps[2], steps[3]]);
}

proof fn lemma_files_stay(
    entries: Seq<StatusEntryView>,
    selected: int,
    scroll: int,
    focused: bool,
    layout: Layout,
    n: int,
)
    requires
        n <= file_rows(layout),
        layout.graph_width + 1 < layout.width,
    ensures
        canvas::stays_on(
            files_steps(entries, selected, scroll, focused, layout, n),
            layout.width as int,
            layout.height as int,
        ),
    decreases n,
{
    broadcast use canvas::lemma_stays_concat;

    if n > 0 {
        lemma_files_stay(entries, selected, scroll, focused, layout, n - 1);
    }
}

/// The cursor stays on a screen that is not too small.
pub proof fn status_pane_stays_on_the_screen(
    entries: Seq<StatusEntryView>,
    selected: int,
    scroll: int,
    focused: bool,
    layout: Layout,
)
    requires
        !layout.cramped(),
        layout.graph_width + 1 < layout.width,
    ensures
        canvas::stays_on(
            status_pane_steps(entries, selected, scroll, focused, layout),
            layout.width as int,
            layout.height as int,
        ),
{
    broadcast use canvas::lemma_stays_concat;

    lemma_files_stay(
        entries,
        selected,
        scroll,
        focused,
        layout,
        ui::least(ui::monus(entries.len() as int, scroll), file_rows(layout)),
    );
}

proof fn lemma_diff_lines_stay(lines: Seq<Seq<char>>, scroll: int, layout: Layout, n: int)
    requires
        n <= layout.height - layout.diff_split_y - 1,
        layout.graph_width + 1 < layout.width,
    ensures
        canvas::stays_on(
            diff_lines_steps(lines, scroll, layout, n),
            layout.width as int,
            layout.height as int,
        ),
    decreases n,
{
    broadcast use canvas::lemma_stays_concat;

    if n > 0 {
        lemma_diff_lines_stay(lines, scroll, layout, n - 1);
    }
}

/// The cursor stays on the screen.
pub proof fn diff_pane_stays_on_the_screen(diff: Seq<char>, layout: Layout, scroll: int)
    requires
        layout.graph_width + 1 < layout.width,
    ensures
        canvas::stays_on(
            diff_pane_steps(diff, layout, scroll),
            layout.width as int,
            layout.height as int,
        ),
{
    broadcast use canvas::lemma_stays_concat;

    let lines = text::lines_of(diff);
    lemma_diff_lines_stay(
        lines,
        scroll,
        layout,
        ui::least(
            ui::monus(lines.len() as int, scroll),
            layout.height - layout.diff_split_y - 1,
        ),
    );
}

/// The cursor stays on a screen that has a cell.
pub proof fn statusbar_stays_on_the_screen(
    layout: Layout,
    tracking: TrackingView,
    msg: Seq<char>,
    hint: Seq<char>,
)
    requires
        layout.width > 0,
        layout.height > 0,
    ensures
        canvas::stays_on(
            statusbar_steps(layout, tracking, msg, hint),
            layout.width as int,
            layout.height as int,
        ),
{
    broadcast use canvas::lemma_stays_concat;

    assert(canvas::stays_on(
        name_steps(tracking, layout.width as int),
        layout.width as int,
        layout.height as int,
    ));
}

// ---------------------------------------------------------------------------
// What the panes tell
// ---------------------------------------------------------------------------
/// The sign of a file tells what is to be committed from what is not: what is
/// staged is green, a deletion has a minus, and each kind has its own sign and
/// colour.
pub proof fn marks_tell_the_status(a: FileStatus, b: FileStatus)
    ensures
        status_mark(a).1 == (120u8, 200u8, 120u8) <==> a is Staged || a is StagedDeleted,
        status_mark(a).0 == " - "@ <==> a is StagedDeleted || a is Deleted,
        status_mark(a).0 == " + "@ <==> a is Staged,
        status_mark(a).0 == " ~ "@ <==> a is Modified,
        status_mark(a).0 == " ? "@ <==> a is Untracked,
        a is Modified ==> status_mark(a).1 == (220u8, 180u8, 60u8),
        a is Untracked ==> status_mark(a).1 == (180u8, 180u8, 180u8),
        a is Deleted ==> status_mark(a).1 == (220u8, 100u8, 100u8),
        status_mark(a) == status_mark(b) ==> a == b,
{
    reveal_strlit(" + ");
    reveal_strlit(" - ");
    reveal_strlit(" ~ ");
    reveal_strlit(" ? ");
    assert(" + "@[1] == '+' && " - "@[1] == '-' && " ~ "@[1] == '~' && " ? "@[1] == '?');
}

/// A file is listed in its own row, below the heading, by its sign and its path;
/// one that was moved by both paths, the old one first. The selected file has a
/// background where the list has the focus.
pub proof fn files_are_listed_by_path(
    entries: Seq<StatusEntryView>,
    selected: int,
    scroll: int,
    focused: bool,
    layout: Layout,
    i: int,
)
    ensures
        ({
            let steps = file_steps(entries, selected, scroll, focused, layout, i);
            let e = entries[scroll + i];
            let lit = scroll + i == selected && focused;
            let at = if lit {
                2int
            } else {
                1
            };
            let room = ui::monus(layout.width as int, layout.graph_width + 5) as nat;
            &&& steps[0] == PaintView::MoveTo(i + 2, layout.graph_width + 1)
            &&& lit ==> steps[1] == PaintView::Bg((40u8, 50u8, 70u8))
            &&& steps[at] == PaintView::Fg(status_mark(e.status).1)
            &&& steps[at + 1] == PaintView::Text(status_mark(e.status).0)
            &&& e.orig_path is None ==> steps[at + 3] == PaintView::Text(cells::cut(e.path, room))
            &&& e.orig_path matches Some(orig) ==> steps[at + 3] == PaintView::Text(
                cells::cut(orig + " → "@ + e.path, room),
            )
            &&& steps.len() == at + 5
        }),
{
}

proof fn lemma_files_prefix(
    entries: Seq<StatusEntryView>,
    selected: int,
    scroll: int,
    focused: bool,
    layout: Layout,
    m: int,
    n: int,
)
    requires
        0 <= m <= n,
    ensures
        files_steps(entries, selected, scroll, focused, layout, m).is_prefix_of(
            files_steps(entries, selected, scroll, focused, layout, n),
        ),
    decreases n - m,
{
    let short = files_steps(entries, selected, scroll, focused, layout, m);
    let all = files_steps(entries, selected, scroll, focused, layout, n);
    let k = short.len() as int;
    if m < n {
        lemma_files_prefix(entries, selected, scroll, focused, layout, m, n - 1);
        let less = files_steps(entries, selected, scroll, focused, layout, n - 1);
        assert(all.take(k) =~= less.take(k));
    } else {
        assert(short.take(k) =~= short);
    }
}

/// What stands below a heading stands in the whole.
proof fn lemma_below(part: Seq<PaintView>, heading: Seq<PaintView>, steps: Seq<PaintView>)
    requires
        canvas::painted_in(part, steps),
    ensures
        canvas::painted_in(part, heading + steps),
{
    let none = Seq::<PaintView>::empty();
    canvas::lemma_painted_within(part, heading, steps, none);
    assert(heading + steps + none =~= heading + steps);
}

/// The pane lists the files from the one that it is scrolled to on, in order, as
/// many as it has rows for, and says so where there is none; every file that is
/// in view is painted.
#[verifier::spinoff_prover]
#[verifier::rlimit(50)]
pub proof fn every_file_in_view_is_painted(
    entries: Seq<StatusEntryView>,
    selected: int,
    scroll: int,
    focused: bool,
    layout: Layout,
    i: int,
)
    requires
        scroll >= 0,
        0 <= i,
        scroll + i < entries.len(),
        i + 2 < layout.diff_split_y,
        i + 2 < layout.height,
    ensures
        ({
            let pane = status_pane_steps(entries, selected, scroll, focused, layout);
            let file = file_steps(entries, selected, scroll, focused, layout, i);
            canvas::painted_in(file, pane)
        }),
{
    let n = ui::least(ui::monus(entries.len() as int, scroll), file_rows(layout));
    lemma_files_prefix(entries, selected, scroll, focused, layout, i + 1, n);
    canvas::lemma_painted_between(
        files_steps(entries, selected, scroll, focused, layout, i),
        file_steps(entries, selected, scroll, focused, layout, i),
        files_steps(entries, selected, scroll, focused, layout, n),
    );
    lemma_below(
        file_steps(entries, selected, scroll, focused, layout, i),
        files_heading(entries.len() as int, selected, layout),
        files_steps(entries, selected, scroll, focused, layout, n),
    );
}

/// The heading counts the files where they do not all fit: the place of the
/// selected one, from one on, and how many there are. A clean working tree is
/// said to be clean.
pub proof fn heading_counts_the_files(
    entries: Seq<StatusEntryView>,
    selected: int,
    scroll: int,
    focused: bool,
    layout: Layout,
)
    requires
        selected >= 0,
    ensures
        ({
            let pane = status_pane_steps(entries, selected, scroll, focused, layout);
            let place = PaintView::Text(
                "("@ + text::decimal((selected + 1) as nat) + "/"@ + text::decimal(entries.len())
                    + ")"@,
            );
            &&& pane[0] == PaintView::MoveTo(0, layout.graph_width + 1)
            &&& pane[3] == PaintView::Text(" Working tree "@)
            &&& entries.len() > file_rows(layout) ==> pane[6] == place
            &&& entries.len() == 0 ==> pane.contains(PaintView::Text(" clean"@))
        }),
{
    let pane = status_pane_steps(entries, selected, scroll, focused, layout);
    if entries.len() == 0 {
        let heading = files_heading(0, selected, layout);
        assert(pane[heading.len() as int + 2] == PaintView::Text(" clean"@));
    }
}

/// Lines that were added are green and lines that were taken away red, the
/// places of the changes are blue, and the names of the files and all other lines
/// are grey.
pub proof fn diff_lines_have_their_colours(rest: Seq<char>)
    ensures
        diff_colour("+++"@ + rest) == (180u8, 180u8, 180u8),
        diff_colour("---"@ + rest) == (180u8, 180u8, 180u8),
        diff_colour("@@"@ + rest) == (180u8, 200u8, 255u8),
        !"++"@.is_prefix_of(rest) ==> diff_colour("+"@ + rest) == (120u8, 200u8, 120u8),
        !"--"@.is_prefix_of(rest) ==> diff_colour("-"@ + rest) == (220u8, 100u8, 100u8),
        rest.len() > 0 && rest[0] != '+' && rest[0] != '-' && rest[0] != '@' ==> diff_colour(rest)
            == (180u8, 180u8, 180u8),
        diff_colour(Seq::empty()) == (180u8, 180u8, 180u8),
{
    reveal_strlit("+++");
    reveal_strlit("---");
    reveal_strlit("@@");
    reveal_strlit("++");
    reveal_strlit("--");
    reveal_strlit("+");
    reveal_strlit("-");
    lemma_starts("+++"@, rest);
    lemma_starts("---"@, rest);
    lemma_starts("@@"@, rest);
    lemma_starts("+"@, rest);
    lemma_starts("-"@, rest);
    let places = "@@"@ + rest;
    assert(places[0] == '@');
    lemma_starts_not(places, "+++"@);
    lemma_starts_not(places, "---"@);
    lemma_starts_not(places, "+"@);
    lemma_starts_not(places, "-"@);
    let added = "+"@ + rest;
    assert(added[0] == '+');
    lemma_starts_not(added, "---"@);
    if "+++"@.is_prefix_of(added) {
        assert(added[1] == "+++"@[1] && added[2] == "+++"@[2]);
        assert(rest[0] == '+' && rest[1] == '+');
        assert(rest.take(2) =~= "++"@);
    }
    let removed = "-"@ + rest;
    assert(removed[0] == '-');
    lemma_starts_not(removed, "+++"@);
    lemma_starts_not(removed, "+"@);
    if "---"@.is_prefix_of(removed) {
        assert(removed[1] == "---"@[1] && removed[2] == "---"@[2]);
        assert(rest[0] == '-' && rest[1] == '-');
        assert(rest.take(2) =~= "--"@);
    }
    lemma_starts_not(rest, "+++"@);
    lemma_starts_not(rest, "---"@);
    lemma_starts_not(rest, "+"@);
    lemma_starts_not(rest, "-"@);
    lemma_starts_not(rest, "@@"@);
}

proof fn lemma_starts(p: Seq<char>, rest: Seq<char>)
    ensures
        p.is_prefix_of(p + rest),
{
    assert(p =~= (p + rest).take(p.len() as int));
}

proof fn lemma_starts_not(s: Seq<char>, p: Seq<char>)
    requires
        p.len() > 0,
    ensures
        s.len() > 0 && s[0] != p[0] ==> !p.is_prefix_of(s),
        s.len() == 0 ==> !p.is_prefix_of(s),
{
}

proof fn lemma_diff_prefix(lines: Seq<Seq<char>>, scroll: int, layout: Layout, m: int, n: int)
    requires
        0 <= m <= n,
    ensures
        diff_lines_steps(lines, scroll, layout, m).is_prefix_of(
            diff_lines_steps(lines, scroll, layout, n),
        ),
    decreases n - m,
{
    let short = diff_lines_steps(lines, scroll, layout, m);
    let all = diff_lines_steps(lines, scroll, layout, n);
    let k = short.len() as int;
    if m < n {
        lemma_diff_prefix(lines, scroll, layout, m, n - 1);
        let less = diff_lines_steps(lines, scroll, layout, n - 1);
        assert(all.take(k) =~= less.take(k));
    } else {
        assert(short.take(k) =~= short);
    }
}

/// A line of the diff is painted in its own row, in its colour, as much of it as
/// there is room for.
pub proof fn diff_line_is_painted_in_its_row(
    lines: Seq<Seq<char>>,
    scroll: int,
    layout: Layout,
    i: int,
)
    ensures
        ({
            let steps = diff_line_steps(lines, scroll, layout, i);
            let line = lines[scroll + i];
            let room = ui::monus(layout.width as int, layout.graph_width + 2) as nat;
            &&& steps.len() == 4
            &&& steps[0] == PaintView::MoveTo(layout.diff_split_y + i, layout.graph_width + 1)
            &&& steps[1] == PaintView::Fg(diff_colour(line))
            &&& steps[2] == PaintView::Text(cells::cut(line, room))
            &&& steps[3] == PaintView::Reset
        }),
{
}

/// The diff has a heading in the row above its first line; where there is no room
/// for a line nothing is painted.
pub proof fn diff_has_a_heading(diff: Seq<char>, layout: Layout, scroll: int)
    ensures
        layout.diff_split_y + 2 >= layout.height ==> diff_pane_steps(diff, layout, scroll).len()
            == 0,
        layout.diff_split_y + 2 < layout.height && layout.diff_split_y > 0 ==> ({
            let pane = diff_pane_steps(diff, layout, scroll);
            &&& pane[0] == PaintView::MoveTo(layout.diff_split_y - 1, layout.graph_width + 1)
            &&& pane[3] == PaintView::Text(" Diff "@)
        }),
{
}

proof fn lemma_diff_row(lines: Seq<Seq<char>>, scroll: int, layout: Layout, i: int, n: int)
    requires
        0 <= i < n,
    ensures
        canvas::painted_in(
            diff_line_steps(lines, scroll, layout, i),
            diff_lines_steps(lines, scroll, layout, n),
        ),
{
    lemma_diff_prefix(lines, scroll, layout, i + 1, n);
    canvas::lemma_painted_between(
        diff_lines_steps(lines, scroll, layout, i),
        diff_line_steps(lines, scroll, layout, i),
        diff_lines_steps(lines, scroll, layout, n),
    );
}

/// The diff is shown from the line that it is scrolled to on, in order, down to
/// the status bar: every line in view is painted.
#[verifier::spinoff_prover]
#[verifier::rlimit(50)]
pub proof fn every_diff_line_in_view_is_painted(
    diff: Seq<char>,
    scroll: int,
    layout: Layout,
    i: int,
)
    requires
        scroll >= 0,
        0 <= i,
        scroll + i < text::lines_of(diff).len(),
        layout.diff_split_y + i + 1 < layout.height,
        layout.diff_split_y + 2 < layout.height,
    ensures
        ({
            let pane = diff_pane_steps(diff, layout, scroll);
            let row = diff_line_steps(text::lines_of(diff), scroll, layout, i);
            canvas::painted_in(row, pane)
        }),
{
    let lines = text::lines_of(diff);
    let n = ui::least(
        ui::monus(lines.len() as int, scroll),
        layout.height - layout.diff_split_y - 1,
    );
    let heading = seq![
        PaintView::MoveTo(ui::monus(layout.diff_split_y as int, 1), layout.graph_width + 1),
        PaintView::Bold,
        PaintView::Fg((180, 200, 255)),
        PaintView::Text(" Diff "@),
        PaintView::Reset,
    ];
    lemma_diff_row(lines, scroll, layout, i, n);
    lemma_below(
        diff_line_steps(lines, scroll, layout, i),
        heading,
        diff_lines_steps(lines, scroll, layout, n),
    );
}

/// The status bar names the current branch, or says that there is none.
pub proof fn status_bar_names_the_branch(tracking: TrackingView, width: int)
    requires
        width >= 0,
    ensures
        tracking.detached ==> branch_label(tracking, width) == cells::cut(
            "(detached)"@,
            (width / 2) as nat,
        ),
        !tracking.detached ==> (tracking.branch matches Some(b) ==> branch_label(tracking, width)
            == cells::cut(b, (width / 2) as nat)),
        segment_steps(tracking, width)[4] == PaintView::Text(
            branch_label(tracking, width) + " "@,
        ),
{
}

/// The status bar tells how many commits the branch is ahead of its upstream and
/// how many behind, each only where there are any; that it is neither; or that it
/// has no upstream.
pub proof fn status_bar_tells_the_position(tracking: TrackingView)
    requires
        tracking.ahead >= 0,
        tracking.behind >= 0,
    ensures
        ({
            let steps = position_steps(tracking);
            let ahead = PaintView::Text("↑"@ + text::decimal(tracking.ahead as nat) + " "@);
            let behind = PaintView::Text("↓"@ + text::decimal(tracking.behind as nat) + " "@);
            &&& tracking.upstream is Some && tracking.ahead > 0 ==> steps[1] == ahead
            &&& tracking.upstream is Some && tracking.behind > 0 ==> steps.last() == behind
            &&& tracking.upstream is Some ==> steps.len() == 2 * ((if tracking.ahead > 0 {
                1int
            } else {
                0
            }) + (if tracking.behind > 0 {
                1int
            } else {
                0
            }) + (if tracking.ahead == 0 && tracking.behind == 0 {
                1int
            } else {
                0
            }))
            &&& tracking.upstream is Some && tracking.ahead == 0 && tracking.behind == 0 ==> steps[1]
                == PaintView::Text("= "@)
            &&& tracking.upstream is None && !tracking.detached ==> steps.len() == 2 && steps[1]
                == PaintView::Text("(no upstream) "@)
            &&& tracking.upstream is None && tracking.detached ==> steps.len() == 0
        }),
{
}

/// The status bar is in the last row, and shows the message and then the hint in
/// what the branch leaves of it.
pub proof fn status_bar_shows_message_and_hint(
    layout: Layout,
    tracking: TrackingView,
    msg: Seq<char>,
    hint: Seq<char>,
)
    requires
        layout.height > 0,
    ensures
        ({
            let bar = statusbar_steps(layout, tracking, msg, hint);
            let segment = segment_steps(tracking, layout.width as int);
            let n = segment.len() as int;
            let rest = ui::monus(layout.width as int, canvas::written(segment) as int) as nat;
            &&& bar[0] == PaintView::MoveTo(layout.height - 1, 0)
            &&& bar.subrange(2, 2 + n) == segment
            &&& bar[n + 4] == PaintView::Text(
                cells::padded(" "@ + msg + "  │  "@ + hint, rest),
            )
            &&& bar.last() == PaintView::Reset
            &&& bar.len() == n + 6
        }),
{
    let bar = statusbar_steps(layout, tracking, msg, hint);
    let segment = segment_steps(tracking, layout.width as int);
    let n = segment.len() as int;
    assert(bar.subrange(2, 2 + n) =~= segment);
}

} // verus!
