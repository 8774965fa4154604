//! The whole screen.

use crate::app::keys;
use crate::app::picker::{self, filtered_branches};
use crate::app::{App, AppView, Mode, ModeView};
use crate::canvas::{self, clear, fg, move_to, reset, Canvas, PaintView};
use crate::text;
use crate::ui::overlays::{self, draw_branch_picker, draw_help};
use crate::ui::panes::{self, draw_diff_pane, draw_status_pane, draw_statusbar, status_pane_rows};
use crate::ui::rows::{self, draw_graph_row, MetaView, RepoMeta};
use crate::ui::{self, draw_too_small, Focus, Layout};
use vstd::prelude::*;

verus! {

/// The first row to show so that the selected one is among `rows` rows, as near
/// to `scroll` as can be.
pub open spec fn scrolled(sel: int, scroll: int, rows: int) -> int {
    let span = ui::most(rows, 1);
    if sel >= scroll + span {
        sel + 1 - span
    } else if scroll > sel {
        sel
    } else {
        scroll
    }
}

/// The state with both selections on the screen.
pub open spec fn in_view(app: AppView, layout: Layout) -> AppView {
    AppView {
        graph_scroll: scrolled(app.graph_sel, app.graph_scroll, keys::graph_rows(layout)),
        status_scroll: scrolled(app.status_sel, app.status_scroll, panes::file_rows(layout)),
        ..app
    }
}

/// The lanes that fit into the graph.
pub open spec fn most_lanes(layout: Layout) -> int {
    ui::monus(layout.graph_width as int, 2) / 2
}

/// What the rows of the graph need to know of the repository.
pub open spec fn meta_of(app: AppView) -> MetaView {
    MetaView { remotes: app.remotes, prs: app.prs }
}

/// The `i`-th row of the graph pane.
pub open spec fn graph_line_steps(app: AppView, layout: Layout, now: int, i: int) -> Seq<
    PaintView,
> {
    rows::graph_row_steps(
        app.rows[app.graph_scroll + i],
        i,
        app.graph_scroll + i == app.graph_sel,
        app.focus == Focus::Graph,
        most_lanes(layout),
        layout.graph_width as int,
        meta_of(app),
        now,
    )
}

/// The first `n` rows of the graph pane.
pub open spec fn graph_pane_steps(app: AppView, layout: Layout, now: int, n: int) -> Seq<PaintView>
    decreases n,
{
    if n <= 0 {
        seq![]
    } else {
        graph_pane_steps(app, layout, now, n - 1) + graph_line_steps(app, layout, now, n - 1)
    }
}

/// The line between the panes, `n` rows long.
pub open spec fn separator_steps(layout: Layout, n: int) -> Seq<PaintView>
    decreases n,
{
    if n <= 0 {
        seq![]
    } else {
        separator_steps(layout, n - 1) + seq![
            PaintView::MoveTo(n - 1, layout.graph_width as int),
            PaintView::Fg((60, 60, 70)),
            PaintView::Text("│"@),
            PaintView::Reset,
        ]
    }
}

/// The message and the hint of the status bar.
pub open spec fn bar_text(app: AppView) -> (Seq<char>, Seq<char>) {
    match app.mode {
        ModeView::CommitMessage(buf) => (
            "commit message: "@ + buf + "_"@,
            "[enter] commit  [esc] cancel"@,
        ),
        ModeView::NewBranch { name, .. } => (
            "new branch: "@ + name + "_"@,
            "[enter] create  [esc] cancel"@,
        ),
        ModeView::ConfirmStashAndSwitch { target } => (
            "uncommitted changes conflict with switch to '"@ + target + "'"@,
            "[s] stash & switch  [c] cancel"@,
        ),
        _ => (
            app.message,
            if app.focus == Focus::Graph {
                "[?] help  [j/k] move  [enter] checkout  [tab] files  [q]uit"@
            } else {
                "[?] help  [j/k] move  [space] stage  [c]ommit  [tab] graph  [q]uit"@
            },
        ),
    }
}

/// The box over the panes, if there is one.
pub open spec fn overlay_steps(app: AppView, layout: Layout) -> Seq<PaintView> {
    match app.mode {
        ModeView::BranchPicker { query, sel } => overlays::picker_steps(
            layout,
            query,
            picker::filtered(app.branches, query),
            sel,
            app.remotes,
        ),
        ModeView::Help => overlays::help_steps(layout),
        _ => seq![],
    }
}

/// The panes of a state that has its selections on the screen.
pub open spec fn panes_steps(app: AppView, layout: Layout, now: int) -> Seq<PaintView> {
    let shown = ui::least(
        ui::monus(app.rows.len() as int, app.graph_scroll),
        keys::graph_rows(layout),
    );
    seq![PaintView::Clear] + graph_pane_steps(app, layout, now, shown) + separator_steps(
        layout,
        keys::graph_rows(layout),
    ) + panes::status_pane_steps(
        app.status,
        app.status_sel,
        app.status_scroll,
        app.focus == Focus::Status,
        layout,
    ) + panes::diff_pane_steps(app.diff, layout, app.diff_scroll)
}

/// The screen of a state that has its selections on it.
pub open spec fn screen_steps(app: AppView, layout: Layout, now: int) -> Seq<PaintView> {
    panes_steps(app, layout, now) + panes::statusbar_steps(
        layout,
        app.tracking,
        bar_text(app).0,
        bar_text(app).1,
    ) + overlay_steps(app, layout)
}

/// The state after painting, and what was painted.
pub open spec fn rendered(app: AppView, layout: Layout, now: int) -> (AppView, Seq<PaintView>) {
    if layout.cramped() {
        (app, ui::too_small_steps(layout.width as int, layout.height as int))
    } else {
        (in_view(app, layout), screen_steps(in_view(app, layout), layout, now))
    }
}

fn scroll_to(sel: usize, scroll: usize, rows: usize) -> (r: usize)
    ensures
        r == scrolled(sel as int, scroll as int, rows as int),
{
    let span: usize = if rows < 1 {
        1
    } else {
        rows
    };
    if sel >= scroll && sel - scroll >= span {
        sel - (span - 1)
    } else if scroll > sel {
        sel
    } else {
        scroll
    }
}

fn draw_graph_pane(app: &App, layout: &Layout, now: i64, out: &mut Canvas)
    ensures
        final(out)@ == old(out)@ + graph_pane_steps(
            app.deep_view(),
            *layout,
            now as int,
            ui::least(
                ui::monus(app.rows@.len() as int, app.graph_scroll as int),
                keys::graph_rows(*layout),
            ),
        ),
{
    let ghost view = app.deep_view();
    let ghost before = out@;
    let meta = RepoMeta { remotes: &app.remotes, prs: &app.prs };
    let max_rows = layout.height.saturating_sub(1) as usize;
    let max_lanes = (layout.graph_width as usize).saturating_sub(2) / 2;
    let n = app.rows.len();
    let below = n.saturating_sub(app.graph_scroll);
    let shown: usize = if below < max_rows {
        below
    } else {
        max_rows
    };
    assert(out@ =~= before + graph_pane_steps(view, *layout, now as int, 0));
    for i in 0..shown
        invariant
            n == app.rows@.len(),
            view == app.deep_view(),
            meta.deep_view() == meta_of(view),
            max_lanes == most_lanes(*layout),
            shown <= max_rows <= u16::MAX,
            shown <= n - app.graph_scroll || shown == 0,
            out@ == before + graph_pane_steps(view, *layout, now as int, i as int),
    {
        let idx = app.graph_scroll + i;
        assert(view.rows[idx as int] == app.rows@[idx as int].deep_view());
        draw_graph_row(
            &app.rows[idx],
            i as u16,
            idx == app.graph_sel,
            app.focus == Focus::Graph,
            max_lanes,
            layout.graph_width,
            &meta,
            now,
            out,
        );
        proof {
            canvas::lemma_grouping(
                before,
                graph_pane_steps(view, *layout, now as int, i as int),
                graph_line_steps(view, *layout, now as int, i as int),
            );
        }
    }
}

fn draw_separator(layout: &Layout, out: &mut Canvas)
    ensures
        final(out)@ == old(out)@ + separator_steps(*layout, keys::graph_rows(*layout)),
{
    let ghost before = out@;
    let n: u16 = layout.height.saturating_sub(1);
    assert(out@ =~= before + separator_steps(*layout, 0));
    for y in 0..n
        invariant
            out@ == before + separator_steps(*layout, y as int),
    {
        let ghost mid = out@;
        move_to(y, layout.graph_width, out);
        fg((60, 60, 70), out);
        out.write("│");
        reset(out);
        proof {
            let one = seq![
                PaintView::MoveTo(y as int, layout.graph_width as int),
                PaintView::Fg((60, 60, 70)),
                PaintView::Text("│"@),
                PaintView::Reset,
            ];
            assert(out@ =~= mid + one);
            canvas::lemma_grouping(before, separator_steps(*layout, y as int), one);
        }
    }
}

fn draw_bar(app: &App, layout: &Layout, out: &mut Canvas)
    ensures
        final(out)@ == old(out)@ + panes::statusbar_steps(
            *layout,
            app.deep_view().tracking,
            bar_text(app.deep_view()).0,
            bar_text(app.deep_view()).1,
        ),
{
    match &app.mode {
        Mode::CommitMessage(buf) => {
            let mut prompt = text::concat("commit message: ", buf.as_str());
            prompt.append("_");
            let hint = "[enter] commit  [esc] cancel";
            draw_statusbar(layout, &app.tracking, prompt.as_str(), hint, out);
        },
        Mode::NewBranch { name, .. } => {
            let mut prompt = text::concat("new branch: ", name.as_str());
            prompt.append("_");
            let hint = "[enter] create  [esc] cancel";
            draw_statusbar(layout, &app.tracking, prompt.as_str(), hint, out);
        },
        Mode::ConfirmStashAndSwitch { target } => {
            let mut prompt = text::concat(
                "uncommitted changes conflict with switch to '",
                target.as_str(),
            );
            prompt.append("'");
            let hint = "[s] stash & switch  [c] cancel";
            draw_statusbar(layout, &app.tracking, prompt.as_str(), hint, out);
        },
        _ => {
            let hint = match app.focus {
                Focus::Graph => "[?] help  [j/k] move  [enter] checkout  [tab] files  [q]uit",
                Focus::Status => {
                    "[?] help  [j/k] move  [space] stage  [c]ommit  [tab] graph  [q]uit"
                },
            };
            draw_statusbar(layout, &app.tracking, app.message.as_str(), hint, out);
        },
    }
}

fn draw_overlay(app: &App, layout: &Layout, out: &mut Canvas)
    requires
        !layout.cramped(),
    ensures
        final(out)@ == old(out)@ + overlay_steps(app.deep_view(), *layout),
{
    let ghost before = out@;
    match &app.mode {
        Mode::BranchPicker { query, sel } => {
            let matches = filtered_branches(&app.branches, query.as_str());
            draw_branch_picker(layout, query.as_str(), &matches, *sel, &app.remotes, out);
        },
        Mode::Help => draw_help(layout, out),
        _ => {
            assert(out@ =~= before + overlay_steps(app.deep_view(), *layout));
        },
    }
}

/// Paints the whole screen, and scrolls so that the selections are on it. `now`
/// is the time of day in seconds since 1970.
pub fn render(app: &mut App, layout: &Layout, now: i64, out: &mut Canvas)
    requires
        !layout.cramped() ==> layout.wf(),
        !layout.cramped() && old(app).status@.len() > panes::file_rows(*layout) ==> old(app).wf(),
    ensures
        ({
            let (next, steps) = rendered(old(app).deep_view(), *layout, now as int);
            final(app).deep_view() == next && final(out)@ == old(out)@ + steps
        }),
        old(app).wf() ==> final(app).wf(),
{
    if layout.too_small() {
        draw_too_small(layout, out);
        return;
    }
    let ghost before = out@;
    let max_rows = layout.height.saturating_sub(1) as usize;
    app.graph_scroll = scroll_to(app.graph_sel, app.graph_scroll, max_rows);
    app.status_scroll = scroll_to(app.status_sel, app.status_scroll, status_pane_rows(layout));
    let ghost view = app.deep_view();
    assert(view == in_view(old(app).deep_view(), *layout));
    assert(view.rows.len() == app.rows@.len());
    clear(out);
    draw_graph_pane(app, layout, now, out);
    draw_separator(layout, out);
    draw_status_pane(
        &app.status,
        app.status_sel,
        app.status_scroll,
        app.focus == Focus::Status,
        layout,
        out,
    );
    draw_diff_pane(app.diff.as_str(), layout, app.diff_scroll, out);
    draw_bar(app, layout, out);
    draw_overlay(app, layout, out);
    proof {
        let shown = ui::least(
            ui::monus(view.rows.len() as int, view.graph_scroll),
            keys::graph_rows(*layout),
        );
        let a = seq![PaintView::Clear];
        let b = graph_pane_steps(view, *layout, now as int, shown);
        let c = separator_steps(*layout, keys::graph_rows(*layout));
        let d = panes::status_pane_steps(
            view.status,
            view.status_sel,
            view.status_scroll,
            view.focus == Focus::Status,
            *layout,
        );
        let e = panes::diff_pane_steps(view.diff, *layout, view.diff_scroll);
        let f = panes::statusbar_steps(
            *layout,
            view.tracking,
            bar_text(view).0,
            bar_text(view).1,
        );
        let g = overlay_steps(view, *layout);
        assert(before.push(PaintView::Clear) =~= before + a);
        canvas::lemma_grouping(before, a, b);
        canvas::lemma_grouping(before, a + b, c);
        canvas::lemma_grouping(before, a + b + c, d);
        canvas::lemma_grouping(before, a + b + c + d, e);
        canvas::lemma_grouping(before, a + b + c + d + e, f);
        canvas::lemma_grouping(before, a + b + c + d + e + f, g);
    }
}

// ---------------------------------------------------------------------------
// Laws
// ---------------------------------------------------------------------------
/// After painting, the selected commit and the selected file are on the screen.
pub proof fn selections_are_in_view(app: AppView, layout: Layout, now: int)
    requires
        !layout.cramped(),
        layout.diff_split_y >= 3,
        0 <= app.graph_scroll,
        0 <= app.graph_sel,
        0 <= app.status_scroll,
        0 <= app.status_sel,
    ensures
        ({
            let next = rendered(app, layout, now).0;
            &&& 0 <= next.graph_scroll <= next.graph_sel < next.graph_scroll + keys::graph_rows(
                layout,
            )
            &&& 0 <= next.status_scroll <= next.status_sel < next.status_scroll + panes::file_rows(
                layout,
            )
        }),
{
}

/// Painting again scrolls no further.
pub proof fn painting_again_changes_nothing(app: AppView, layout: Layout, now: int)
    ensures
        rendered(rendered(app, layout, now).0, layout, now) == rendered(app, layout, now),
{
}

proof fn lemma_graph_pane_stays(app: AppView, layout: Layout, now: int, n: int)
    requires
        n <= layout.height,
        layout.width > 0,
    ensures
        canvas::stays_on(
            graph_pane_steps(app, layout, now, n),
            layout.width as int,
            layout.height as int,
        ),
    decreases n,
{
    broadcast use canvas::lemma_stays_concat;

    if n > 0 {
        lemma_graph_pane_stays(app, layout, now, n - 1);
        rows::graph_row_stays_on_the_screen(
            app.rows[app.graph_scroll + n - 1],
            n - 1,
            app.graph_scroll + (n - 1) == app.graph_sel,
            app.focus == Focus::Graph,
            most_lanes(layout),
            layout.graph_width as int,
            meta_of(app),
            now,
            layout.width as int,
            layout.height as int,
        );
    }
}

proof fn lemma_separator_stays(layout: Layout, n: int)
    requires
        n <= layout.height,
        layout.graph_width < layout.width,
    ensures
        canvas::stays_on(
            separator_steps(layout, n),
            layout.width as int,
            layout.height as int,
        ),
    decreases n,
{
    broadcast use canvas::lemma_stays_concat;

    if n > 0 {
        lemma_separator_stays(layout, n - 1);
    }
}

/// The cursor is never moved off the screen, whatever the state and the size of
/// the screen.
pub proof fn cursor_stays_on_the_screen(app: AppView, layout: Layout, now: int)
    requires
        layout.graph_width == ui::graph_columns(layout.width as int),
        layout.diff_split_y == ui::split_row(layout.height as int),
    ensures
        canvas::stays_on(
            rendered(app, layout, now).1,
            layout.width as int,
            layout.height as int,
        ),
{
    broadcast use canvas::lemma_stays_concat;

    if !layout.cramped() {
        ui::panes_have_room(layout);
        let next = in_view(app, layout);
        let shown = ui::least(
            ui::monus(next.rows.len() as int, next.graph_scroll),
            keys::graph_rows(layout),
        );
        lemma_graph_pane_stays(next, layout, now, shown);
        lemma_separator_stays(layout, keys::graph_rows(layout));
        panes::status_pane_stays_on_the_screen(
            next.status,
            next.status_sel,
            next.status_scroll,
            next.focus == Focus::Status,
            layout,
        );
        panes::diff_pane_stays_on_the_screen(next.diff, layout, next.diff_scroll);
        panes::statusbar_stays_on_the_screen(
            layout,
            next.tracking,
            bar_text(next).0,
            bar_text(next).1,
        );
        match next.mode {
            ModeView::BranchPicker { query, sel } => {
                overlays::picker_stays_on_the_screen(
                    layout,
                    query,
                    picker::filtered(next.branches, query),
                    sel,
                    next.remotes,
                );
            },
            ModeView::Help => {
                overlays::help_stays_on_the_screen(layout);
            },
            _ => {},
        }
    }
}

/// On a screen that is not too small no row of the graph reaches the line
/// between the panes.
pub proof fn graph_stays_in_its_pane(app: AppView, layout: Layout, now: int, i: int)
    requires
        !layout.cramped(),
        layout.graph_width == ui::graph_columns(layout.width as int),
        app.rows[app.graph_scroll + i].lane >= 0,
    ensures
        canvas::written(graph_line_steps(app, layout, now, i)) <= layout.graph_width,
{
    rows::graph_row_stays_in_its_pane(
        app.rows[app.graph_scroll + i],
        i,
        app.graph_scroll + i == app.graph_sel,
        app.focus == Focus::Graph,
        most_lanes(layout),
        layout.graph_width as int,
        meta_of(app),
        now,
    );
}

// ---------------------------------------------------------------------------
// What the screen tells
// ---------------------------------------------------------------------------
/// A prompt shows what was typed so far and which keys end it; the question
/// whether to stash names the branch; else the message is shown, and a hint for
/// the pane that has the focus.
pub proof fn status_bar_shows_the_prompt(app: AppView)
    ensures
        app.mode matches ModeView::CommitMessage(buf) ==> bar_text(app).0 == "commit message: "@
            + buf + "_"@ && bar_text(app).1 == "[enter] commit  [esc] cancel"@,
        app.mode matches ModeView::NewBranch { name, .. } ==> bar_text(app).0 == "new branch: "@
            + name + "_"@ && bar_text(app).1 == "[enter] create  [esc] cancel"@,
        app.mode matches ModeView::ConfirmStashAndSwitch { target } ==> bar_text(app).0
            == "uncommitted changes conflict with switch to '"@ + target + "'"@ && bar_text(app).1
            == "[s] stash & switch  [c] cancel"@,
        app.mode is Normal || app.mode is Help || app.mode is BranchPicker ==> bar_text(app).0
            == app.message && bar_text(app).1 == match app.focus {
            Focus::Graph => "[?] help  [j/k] move  [enter] checkout  [tab] files  [q]uit"@,
            Focus::Status => "[?] help  [j/k] move  [space] stage  [c]ommit  [tab] graph  [q]uit"@,
        },
{
}

/// A row of the graph pane is the commit at its place, counted from the one that
/// the pane is scrolled to; it is lit where it is the selected one.
pub proof fn graph_line_is_the_commit_at_its_place(
    app: AppView,
    layout: Layout,
    now: int,
    i: int,
)
    ensures
        ({
            let row = app.rows[app.graph_scroll + i];
            let selected = app.graph_scroll + i == app.graph_sel;
            graph_line_steps(app, layout, now, i) == rows::graph_row_steps(
                row,
                i,
                selected,
                app.focus == Focus::Graph,
                (if layout.graph_width >= 2 {
                    layout.graph_width - 2
                } else {
                    0
                }) / 2,
                layout.graph_width as int,
                MetaView { remotes: app.remotes, prs: app.prs },
                now,
            )
        }),
{
}

proof fn lemma_graph_prefix(app: AppView, layout: Layout, now: int, m: int, n: int)
    requires
        0 <= m <= n,
    ensures
        graph_pane_steps(app, layout, now, m).is_prefix_of(graph_pane_steps(app, layout, now, n)),
    decreases n - m,
{
    let short = graph_pane_steps(app, layout, now, m);
    let all = graph_pane_steps(app, layout, now, n);
    let k = short.len() as int;
    if m < n {
        lemma_graph_prefix(app, layout, now, m, n - 1);
        let less = graph_pane_steps(app, layout, now, n - 1);
        assert(all.take(k) =~= less.take(k));
    } else {
        assert(short.take(k) =~= short);
    }
}

/// Every commit in view is painted: on a screen that is not too small each row
/// above the status bar shows the commit at its place, as long as there are any.
#[verifier::spinoff_prover]
#[verifier::rlimit(50)]
pub proof fn every_commit_in_view_is_painted(app: AppView, layout: Layout, now: int, i: int)
    requires
        !layout.cramped(),
        0 <= i < layout.height - 1,
        ({
            let scroll = in_view(app, layout).graph_scroll;
            0 <= scroll && scroll + i < app.rows.len()
        }),
    ensures
        canvas::painted_in(
            graph_line_steps(in_view(app, layout), layout, now, i),
            rendered(app, layout, now).1,
        ),
{
    let next = in_view(app, layout);
    let shown = ui::least(
        ui::monus(next.rows.len() as int, next.graph_scroll),
        keys::graph_rows(layout),
    );
    let before = graph_pane_steps(next, layout, now, i);
    let row = graph_line_steps(next, layout, now, i);
    let pane = graph_pane_steps(next, layout, now, shown);
    lemma_graph_prefix(next, layout, now, i + 1, shown);
    canvas::lemma_painted_between(before, row, pane);
    lemma_screen_parts(next, layout, now, row);
}

/// Whatever stands in a pane, in the status bar or in a box stands on the screen.
#[verifier::spinoff_prover]
#[verifier::rlimit(50)]
proof fn lemma_screen_parts(app: AppView, layout: Layout, now: int, part: Seq<PaintView>)
    ensures
        ({
            let screen = screen_steps(app, layout, now);
            let shown = ui::least(
                ui::monus(app.rows.len() as int, app.graph_scroll),
                keys::graph_rows(layout),
            );
            let files = panes::status_pane_steps(
                app.status,
                app.status_sel,
                app.status_scroll,
                app.focus == Focus::Status,
                layout,
            );
            let diff = panes::diff_pane_steps(app.diff, layout, app.diff_scroll);
            let bar = panes::statusbar_steps(
                layout,
                app.tracking,
                bar_text(app).0,
                bar_text(app).1,
            );
            &&& canvas::painted_in(part, graph_pane_steps(app, layout, now, shown))
                ==> canvas::painted_in(part, screen)
            &&& canvas::painted_in(part, files) ==> canvas::painted_in(part, screen)
            &&& canvas::painted_in(part, diff) ==> canvas::painted_in(part, screen)
            &&& canvas::painted_in(part, bar) ==> canvas::painted_in(part, screen)
            &&& canvas::painted_in(part, overlay_steps(app, layout)) ==> canvas::painted_in(
                part,
                screen,
            )
        }),
{
    let screen = screen_steps(app, layout, now);
    let shown = ui::least(
        ui::monus(app.rows.len() as int, app.graph_scroll),
        keys::graph_rows(layout),
    );
    let a = seq![PaintView::Clear];
    let b = graph_pane_steps(app, layout, now, shown);
    let c = separator_steps(layout, keys::graph_rows(layout));
    let d = panes::status_pane_steps(
        app.status,
        app.status_sel,
        app.status_scroll,
        app.focus == Focus::Status,
        layout,
    );
    let e = panes::diff_pane_steps(app.diff, layout, app.diff_scroll);
    let f = panes::statusbar_steps(layout, app.tracking, bar_text(app).0, bar_text(app).1);
    let g = overlay_steps(app, layout);
    let none = Seq::<PaintView>::empty();
    if canvas::painted_in(part, b) {
        canvas::lemma_painted_within(part, a, b, c + d + e + f + g);
        assert(a + b + (c + d + e + f + g) =~= screen);
    }
    if canvas::painted_in(part, d) {
        canvas::lemma_painted_within(part, a + b + c, d, e + f + g);
        assert(a + b + c + d + (e + f + g) =~= screen);
    }
    if canvas::painted_in(part, e) {
        canvas::lemma_painted_within(part, a + b + c + d, e, f + g);
        assert(a + b + c + d + e + (f + g) =~= screen);
    }
    if canvas::painted_in(part, f) {
        canvas::lemma_painted_within(part, a + b + c + d + e, f, g);
        assert(a + b + c + d + e + f + g =~= screen);
    }
    if canvas::painted_in(part, g) {
        canvas::lemma_painted_within(part, a + b + c + d + e + f, g, none);
        assert(a + b + c + d + e + f + g + none =~= screen);
    }
}

proof fn lemma_separator_prefix(layout: Layout, m: int, n: int)
    requires
        0 <= m <= n,
    ensures
        separator_steps(layout, m).is_prefix_of(separator_steps(layout, n)),
    decreases n - m,
{
    let short = separator_steps(layout, m);
    let all = separator_steps(layout, n);
    let k = short.len() as int;
    if m < n {
        lemma_separator_prefix(layout, m, n - 1);
        let less = separator_steps(layout, n - 1);
        assert(all.take(k) =~= less.take(k));
    } else {
        assert(short.take(k) =~= short);
    }
}

/// A line stands between the panes in every row above the status bar.
pub proof fn line_stands_between_the_panes(layout: Layout, y: int)
    requires
        0 <= y < layout.height - 1,
    ensures
        canvas::painted_in(
            seq![
                PaintView::MoveTo(y, layout.graph_width as int),
                PaintView::Fg((60, 60, 70)),
                PaintView::Text("│"@),
                PaintView::Reset,
            ],
            separator_steps(layout, layout.height - 1),
        ),
{
    let one = seq![
        PaintView::MoveTo(y, layout.graph_width as int),
        PaintView::Fg((60, 60, 70)),
        PaintView::Text("│"@),
        PaintView::Reset,
    ];
    lemma_separator_prefix(layout, y + 1, layout.height - 1);
    assert(separator_steps(layout, y + 1) =~= separator_steps(layout, y) + one);
    canvas::lemma_painted_between(
        separator_steps(layout, y),
        one,
        separator_steps(layout, layout.height - 1),
    );
}

/// On a screen that is not too small the working tree, the diff from the line
/// that it is scrolled to on, and the status bar with the message are shown; a
/// selection is marked in the pane that has the focus.
pub proof fn screen_shows_every_pane(app: AppView, layout: Layout, now: int, part: Seq<PaintView>)
    requires
        !layout.cramped(),
    ensures
        ({
            let next = rendered(app, layout, now).0;
            let screen = rendered(app, layout, now).1;
            &&& canvas::painted_in(
                part,
                panes::status_pane_steps(
                    app.status,
                    app.status_sel,
                    next.status_scroll,
                    app.focus == Focus::Status,
                    layout,
                ),
            ) ==> canvas::painted_in(part, screen)
            &&& canvas::painted_in(
                part,
                panes::diff_pane_steps(app.diff, layout, app.diff_scroll),
            ) ==> canvas::painted_in(part, screen)
            &&& canvas::painted_in(
                part,
                panes::statusbar_steps(
                    layout,
                    app.tracking,
                    bar_text(app).0,
                    bar_text(app).1,
                ),
            ) ==> canvas::painted_in(part, screen)
            &&& screen.len() > 0 && screen[0] == PaintView::Clear
        }),
{
    lemma_screen_parts(in_view(app, layout), layout, now, part);
}

/// While a branch is chosen the picker shows the branches that match the query;
/// the help shows its lines.
pub proof fn boxes_are_shown_over_the_panes(
    app: AppView,
    layout: Layout,
    now: int,
    part: Seq<PaintView>,
)
    requires
        !layout.cramped(),
    ensures
        app.mode matches ModeView::BranchPicker { query, sel } ==> (canvas::painted_in(
            part,
            overlays::picker_steps(
                layout,
                query,
                picker::filtered(app.branches, query),
                sel,
                app.remotes,
            ),
        ) ==> canvas::painted_in(part, rendered(app, layout, now).1)),
        app.mode is Help ==> (canvas::painted_in(part, overlays::help_steps(layout))
            ==> canvas::painted_in(part, rendered(app, layout, now).1)),
{
    lemma_screen_parts(in_view(app, layout), layout, now, part);
}

/// Painting changes nothing of the state but where the lists are scrolled to: the
/// graph by the rows above the status bar, the files by those above the diff.
pub proof fn painting_keeps_the_state(app: AppView, layout: Layout, now: int)
    ensures
        !layout.cramped() && layout.diff_split_y >= 2 && layout.diff_split_y <= layout.height ==> {
            let next = rendered(app, layout, now).0;
            &&& next.graph_scroll == scrolled(
                app.graph_sel,
                app.graph_scroll,
                layout.height - 1,
            )
            &&& next.status_scroll == scrolled(
                app.status_sel,
                app.status_scroll,
                layout.diff_split_y - 2,
            )
        },
        rendered(app, layout, now).0 == (AppView {
            graph_scroll: rendered(app, layout, now).0.graph_scroll,
            status_scroll: rendered(app, layout, now).0.status_scroll,
            ..app
        }),
        layout.cramped() ==> rendered(app, layout, now).0 == app,
{
}

/// A list is scrolled no further than its selection needs: where that is in view
/// already, it is not scrolled at all, and else the selected row comes to the
/// first or the last row of the list.
pub proof fn lists_scroll_as_little_as_needed(sel: int, scroll: int, rows: int)
    requires
        rows >= 1,
        sel >= 0,
        scroll >= 0,
    ensures
        scroll <= sel < scroll + rows ==> scrolled(sel, scroll, rows) == scroll,
        sel < scroll ==> scrolled(sel, scroll, rows) == sel,
        sel >= scroll + rows ==> scrolled(sel, scroll, rows) + rows - 1 == sel,
{
}

} // verus!
