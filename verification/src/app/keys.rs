//! What the keys do. A key changes the state at once, and may call for work
//! whose outcome changes it again.

use crate::app::picker::{self, filtered_branches};
use crate::app::{Action, ActionView, App, AppView, KeyCode, KeyEvent, Mode, ModeView};
use crate::text;
use crate::ui::{self, Focus, Layout};
use vstd::prelude::*;

verus! {

// ---------------------------------------------------------------------------
// Definitions
// ---------------------------------------------------------------------------
/// The state with another message.
pub open spec fn said(app: AppView, message: Seq<char>) -> AppView {
    AppView { message, ..app }
}

/// The state in another mode.
pub open spec fn in_mode(app: AppView, mode: ModeView) -> AppView {
    AppView { mode, ..app }
}

/// The refs that are no tags.
pub open spec fn branch_refs(refs: Seq<Seq<char>>) -> Seq<Seq<char>>
    decreases refs.len(),
{
    if refs.len() == 0 {
        seq![]
    } else if "tag:"@.is_prefix_of(refs.last()) {
        branch_refs(refs.drop_last())
    } else {
        branch_refs(refs.drop_last()).push(refs.last())
    }
}

/// Check out the branch at the selected commit; where there are several, let one
/// be chosen.
pub open spec fn checkout_here(app: AppView) -> (AppView, ActionView) {
    if !(0 <= app.graph_sel < app.rows.len()) {
        (app, ActionView::Idle)
    } else {
        let refs = branch_refs(app.rows[app.graph_sel].commit.refs);
        if refs.len() == 0 {
            (
                said(app, "no branch here — [n] to create one, [b] to pick another"@),
                ActionView::Idle,
            )
        } else if refs.len() == 1 {
            (app, ActionView::Checkout(refs[0]))
        } else {
            (app, ActionView::ListBranches { query: refs[0] })
        }
    }
}

/// The rows of the graph that the screen shows.
pub open spec fn graph_rows(layout: Layout) -> int {
    ui::monus(layout.height as int, 1)
}

/// A key while the graph has the focus.
pub open spec fn graph_key(app: AppView, key: KeyEvent, layout: Layout) -> (AppView, ActionView) {
    let sel = app.graph_sel;
    if key.code == KeyCode::Char('j') || key.code == KeyCode::Down {
        if sel + 1 < app.rows.len() {
            let scroll = if sel + 1 >= app.graph_scroll + graph_rows(layout) {
                app.graph_scroll + 1
            } else {
                app.graph_scroll
            };
            (AppView { graph_sel: sel + 1, graph_scroll: scroll, ..app }, ActionView::LoadDiff)
        } else {
            (app, ActionView::Idle)
        }
    } else if key.code == KeyCode::Char('k') || key.code == KeyCode::Up {
        if sel > 0 {
            let scroll = if sel - 1 < app.graph_scroll {
                ui::monus(app.graph_scroll, 1)
            } else {
                app.graph_scroll
            };
            (AppView { graph_sel: sel - 1, graph_scroll: scroll, ..app }, ActionView::LoadDiff)
        } else {
            (app, ActionView::Idle)
        }
    } else if key.code == KeyCode::Char('J') {
        (AppView { diff_scroll: app.diff_scroll + 1, ..app }, ActionView::Idle)
    } else if key.code == KeyCode::Char('K') {
        (AppView { diff_scroll: ui::monus(app.diff_scroll, 1), ..app }, ActionView::Idle)
    } else if key.code == KeyCode::Enter || key.code == KeyCode::Char('o') {
        checkout_here(app)
    } else if key.code == KeyCode::Char('n') && 0 <= sel < app.rows.len() {
        (
            in_mode(
                app,
                ModeView::NewBranch { name: seq![], target_sha: app.rows[sel].commit.hash },
            ),
            ActionView::Idle,
        )
    } else {
        (app, ActionView::Idle)
    }
}

/// A key while the list of files has the focus.
pub open spec fn status_key(app: AppView, key: KeyEvent) -> (AppView, ActionView) {
    let sel = app.status_sel;
    if key.code == KeyCode::Char('j') || key.code == KeyCode::Down {
        if sel + 1 < app.status.len() {
            (AppView { status_sel: sel + 1, ..app }, ActionView::LoadDiff)
        } else {
            (app, ActionView::Idle)
        }
    } else if key.code == KeyCode::Char('k') || key.code == KeyCode::Up {
        if sel > 0 {
            (AppView { status_sel: sel - 1, ..app }, ActionView::LoadDiff)
        } else {
            (app, ActionView::Idle)
        }
    } else if key.code == KeyCode::Char(' ') {
        if 0 <= sel < app.status.len() {
            (app, ActionView::Toggle(app.status[sel]))
        } else {
            (app, ActionView::Idle)
        }
    } else if key.code == KeyCode::Char('c') {
        (in_mode(app, ModeView::CommitMessage(seq![])), ActionView::Idle)
    } else {
        (app, ActionView::Idle)
    }
}

/// What `p` says first where the branch is behind its upstream.
pub open spec fn behind_warning(behind: int) -> Seq<char> {
    "behind by "@ + text::decimal(behind as nat)
        + " — pull first ([P]), or press [p] again to force-push intent"@
}

/// A key outside of prompts and boxes.
pub open spec fn normal_key(app: AppView, key: KeyEvent, layout: Layout) -> (AppView, ActionView) {
    if key.code == KeyCode::Char('q') || key.code == KeyCode::Char('c') && key.control {
        (AppView { quit: true, ..app }, ActionView::Idle)
    } else if key.code == KeyCode::Char('?') {
        (in_mode(app, ModeView::Help), ActionView::Idle)
    } else if key.code == KeyCode::Tab {
        let focus = if app.focus == Focus::Graph {
            Focus::Status
        } else {
            Focus::Graph
        };
        (AppView { focus, ..app }, ActionView::LoadDiff)
    } else if key.code == KeyCode::Char('r') {
        (app, ActionView::Refresh { message: Some("refreshed"@) })
    } else if key.code == KeyCode::Char('b') {
        (app, ActionView::ListBranches { query: seq![] })
    } else if key.code == KeyCode::Char('R') {
        (app, ActionView::OpenRequest)
    } else if key.code == KeyCode::Char('P') {
        (app, ActionView::Pull)
    } else if key.code == KeyCode::Char('p') {
        if app.tracking.behind > 0 {
            let tracking = crate::git::TrackingView { behind: 0, ..app.tracking };
            (
                AppView { message: behind_warning(app.tracking.behind), tracking, ..app },
                ActionView::Idle,
            )
        } else {
            (app, ActionView::Push)
        }
    } else if app.focus == Focus::Graph {
        graph_key(app, key, layout)
    } else {
        status_key(app, key)
    }
}

/// A key while a commit message is typed.
pub open spec fn commit_message_key(app: AppView, key: KeyEvent) -> (AppView, ActionView) {
    match app.mode {
        ModeView::CommitMessage(buf) => match key.code {
            KeyCode::Esc => (
                said(in_mode(app, ModeView::Normal), "commit cancelled"@),
                ActionView::Idle,
            ),
            KeyCode::Enter => if text::trimmed(buf).len() == 0 {
                (
                    said(in_mode(app, ModeView::Normal), "empty message, cancelled"@),
                    ActionView::Idle,
                )
            } else {
                (in_mode(app, ModeView::Normal), ActionView::Commit(buf))
            },
            KeyCode::Backspace => (
                in_mode(app, ModeView::CommitMessage(text::shortened(buf))),
                ActionView::Idle,
            ),
            KeyCode::Char(c) => (
                in_mode(app, ModeView::CommitMessage(buf.push(c))),
                ActionView::Idle,
            ),
            _ => (app, ActionView::Idle),
        },
        _ => (app, ActionView::Idle),
    }
}

/// A key while the name of a new branch is typed.
pub open spec fn new_branch_key(app: AppView, key: KeyEvent) -> (AppView, ActionView) {
    match app.mode {
        ModeView::NewBranch { name, target_sha } => match key.code {
            KeyCode::Esc => (
                said(in_mode(app, ModeView::Normal), "cancelled"@),
                ActionView::Idle,
            ),
            KeyCode::Enter => if text::trimmed(name).len() == 0 {
                (
                    said(in_mode(app, ModeView::Normal), "empty name, cancelled"@),
                    ActionView::Idle,
                )
            } else {
                (
                    in_mode(app, ModeView::Normal),
                    ActionView::CreateBranch { name, sha: target_sha },
                )
            },
            KeyCode::Backspace => (
                in_mode(app, ModeView::NewBranch { name: text::shortened(name), target_sha }),
                ActionView::Idle,
            ),
            KeyCode::Char(c) => (
                in_mode(app, ModeView::NewBranch { name: name.push(c), target_sha }),
                ActionView::Idle,
            ),
            _ => (app, ActionView::Idle),
        },
        _ => (app, ActionView::Idle),
    }
}

/// A key while a branch is chosen.
pub open spec fn picker_key(app: AppView, key: KeyEvent) -> (AppView, ActionView) {
    match app.mode {
        ModeView::BranchPicker { query, sel } => {
            let matches = picker::filtered(app.branches, query);
            match key.code {
                KeyCode::Esc => (in_mode(app, ModeView::Normal), ActionView::Idle),
                KeyCode::Enter => if 0 <= sel < matches.len() {
                    (in_mode(app, ModeView::Normal), ActionView::Checkout(matches[sel].name))
                } else {
                    (app, ActionView::Idle)
                },
                KeyCode::Down => if sel + 1 < matches.len() {
                    (
                        in_mode(app, ModeView::BranchPicker { query, sel: sel + 1 }),
                        ActionView::Idle,
                    )
                } else {
                    (app, ActionView::Idle)
                },
                KeyCode::Up => (
                    in_mode(app, ModeView::BranchPicker { query, sel: ui::monus(sel, 1) }),
                    ActionView::Idle,
                ),
                KeyCode::Backspace => (
                    in_mode(
                        app,
                        ModeView::BranchPicker { query: text::shortened(query), sel: 0 },
                    ),
                    ActionView::Idle,
                ),
                KeyCode::Char(c) => (
                    in_mode(app, ModeView::BranchPicker { query: query.push(c), sel: 0 }),
                    ActionView::Idle,
                ),
                _ => (app, ActionView::Idle),
            }
        },
        _ => (app, ActionView::Idle),
    }
}

/// A key while the program asks whether to stash.
pub open spec fn stash_key(app: AppView, key: KeyEvent) -> (AppView, ActionView) {
    match app.mode {
        ModeView::ConfirmStashAndSwitch { target } => if key.code == KeyCode::Char('s') {
            (in_mode(app, ModeView::Normal), ActionView::StashAndSwitch(target))
        } else if key.code == KeyCode::Char('c') || key.code == KeyCode::Esc {
            (said(in_mode(app, ModeView::Normal), "cancelled"@), ActionView::Idle)
        } else {
            (app, ActionView::Idle)
        },
        _ => (app, ActionView::Idle),
    }
}

/// A key while the help is shown: Ctrl-C quits, any other key takes it away.
pub open spec fn help_key(app: AppView, key: KeyEvent) -> AppView {
    if key.code == KeyCode::Char('c') && key.control {
        AppView { quit: true, ..app }
    } else {
        in_mode(app, ModeView::Normal)
    }
}

/// The state after a key, and what is to be done.
pub open spec fn pressed(app: AppView, key: KeyEvent, layout: Layout) -> (AppView, ActionView) {
    match app.mode {
        ModeView::Normal => normal_key(app, key, layout),
        ModeView::CommitMessage(_) => commit_message_key(app, key),
        ModeView::NewBranch { .. } => new_branch_key(app, key),
        ModeView::BranchPicker { .. } => picker_key(app, key),
        ModeView::ConfirmStashAndSwitch { .. } => stash_key(app, key),
        ModeView::Help => (help_key(app, key), ActionView::Idle),
    }
}

// ---------------------------------------------------------------------------
// Handlers
// ---------------------------------------------------------------------------
fn keep_branches(refs: &[String]) -> (r: Vec<String>)
    ensures
        r.deep_view() == branch_refs(refs.deep_view()),
{
    let ghost all = refs.deep_view();
    let mut kept: Vec<String> = Vec::new();
    assert(kept.deep_view() =~= branch_refs(all.take(0)));
    for i in 0..refs.len()
        invariant
            all == refs.deep_view(),
            kept.deep_view() == branch_refs(all.take(i as int)),
    {
        let ghost before = kept.deep_view();
        proof {
            assert(all.take(i + 1).drop_last() =~= all.take(i as int));
            assert(all.take(i + 1).last() == refs@[i as int]@);
        }
        if !text::starts_with(refs[i].as_str(), "tag:") {
            kept.push(refs[i].clone());
            assert(kept.deep_view() =~= before.push(refs@[i as int]@));
        }
    }
    assert(all.take(refs@.len() as int) =~= all);
    kept
}

/// Checks out the branch at the selected commit.
pub fn checkout_at_selection(app: &mut App) -> (action: Action)
    ensures
        (final(app).deep_view(), action.deep_view()) == checkout_here(old(app).deep_view()),
        old(app).wf() ==> final(app).wf(),
{
    if app.graph_sel >= app.rows.len() {
        return Action::Idle;
    }
    assert(app.deep_view().rows[app.graph_sel as int]
        == app.rows@[app.graph_sel as int].deep_view());
    let refs = keep_branches(&app.rows[app.graph_sel].commit.refs);
    assert(refs.deep_view().len() == refs@.len());
    if refs.len() == 0 {
        app.message = "no branch here — [n] to create one, [b] to pick another".to_owned();
        Action::Idle
    } else if refs.len() == 1 {
        Action::Checkout(refs[0].clone())
    } else {
        Action::ListBranches { query: refs[0].clone() }
    }
}

/// Handles a key while the graph has the focus.
pub fn handle_graph_key(app: &mut App, key: KeyEvent, layout: &Layout) -> (action: Action)
    requires
        key.code == KeyCode::Char('J') ==> old(app).diff_scroll < usize::MAX,
    ensures
        (final(app).deep_view(), action.deep_view()) == graph_key(
            old(app).deep_view(),
            key,
            *layout,
        ),
        old(app).wf() ==> final(app).wf(),
{
    let max_rows = layout.height.saturating_sub(1) as usize;
    if key.code == KeyCode::Char('j') || key.code == KeyCode::Down {
        if app.graph_sel.saturating_add(1) < app.rows.len() {
            app.graph_sel += 1;
            if app.graph_sel >= app.graph_scroll.saturating_add(max_rows) {
                app.graph_scroll += 1;
            }
            return Action::LoadDiff;
        }
    } else if key.code == KeyCode::Char('k') || key.code == KeyCode::Up {
        if app.graph_sel > 0 {
            app.graph_sel -= 1;
            if app.graph_sel < app.graph_scroll {
                app.graph_scroll = app.graph_scroll.saturating_sub(1);
            }
            return Action::LoadDiff;
        }
    } else if key.code == KeyCode::Char('J') {
        app.diff_scroll += 1;
    } else if key.code == KeyCode::Char('K') {
        app.diff_scroll = app.diff_scroll.saturating_sub(1);
    } else if key.code == KeyCode::Enter || key.code == KeyCode::Char('o') {
        return checkout_at_selection(app);
    } else if key.code == KeyCode::Char('n') {
        if app.graph_sel < app.rows.len() {
            assert(app.deep_view().rows[app.graph_sel as int]
                == app.rows@[app.graph_sel as int].deep_view());
            let target_sha = app.rows[app.graph_sel].commit.hash.clone();
            app.mode = Mode::NewBranch { name: String::new(), target_sha };
        }
    }
    Action::Idle
}

/// Handles a key while the list of files has the focus.
pub fn handle_status_key(app: &mut App, key: KeyEvent) -> (action: Action)
    ensures
        (final(app).deep_view(), action.deep_view()) == status_key(old(app).deep_view(), key),
        old(app).wf() ==> final(app).wf(),
{
    if key.code == KeyCode::Char('j') || key.code == KeyCode::Down {
        if app.status_sel.saturating_add(1) < app.status.len() {
            app.status_sel += 1;
            return Action::LoadDiff;
        }
    } else if key.code == KeyCode::Char('k') || key.code == KeyCode::Up {
        if app.status_sel > 0 {
            app.status_sel -= 1;
            return Action::LoadDiff;
        }
    } else if key.code == KeyCode::Char(' ') {
        if app.status_sel < app.status.len() {
            assert(app.deep_view().status[app.status_sel as int]
                == app.status@[app.status_sel as int].deep_view());
            return Action::Toggle(app.status[app.status_sel].clone());
        }
    } else if key.code == KeyCode::Char('c') {
        app.mode = Mode::CommitMessage(String::new());
    }
    Action::Idle
}

/// Handles a key while a commit message is typed.
pub fn handle_commit_message_key(app: &mut App, key: KeyEvent) -> (action: Action)
    ensures
        (final(app).deep_view(), action.deep_view()) == commit_message_key(
            old(app).deep_view(),
            key,
        ),
        old(app).wf() ==> final(app).wf(),
{
    let buf = match &app.mode {
        Mode::CommitMessage(buf) => buf.clone(),
        _ => return Action::Idle,
    };
    match key.code {
        KeyCode::Esc => {
            app.mode = Mode::Normal;
            app.message = "commit cancelled".to_owned();
        },
        KeyCode::Enter => {
            app.mode = Mode::Normal;
            if text::trim(buf.as_str()).unicode_len() == 0 {
                app.message = "empty message, cancelled".to_owned();
            } else {
                return Action::Commit(buf);
            }
        },
        KeyCode::Backspace => {
            app.mode = Mode::CommitMessage(text::without_last(buf.as_str()));
        },
        KeyCode::Char(c) => {
            app.mode = Mode::CommitMessage(text::with_char(buf.as_str(), c));
        },
        _ => {},
    }
    Action::Idle
}

/// Handles a key while the name of a new branch is typed.
pub fn handle_new_branch_key(app: &mut App, key: KeyEvent) -> (action: Action)
    ensures
        (final(app).deep_view(), action.deep_view()) == new_branch_key(old(app).deep_view(), key),
        old(app).wf() ==> final(app).wf(),
{
    let (name, target_sha) = match &app.mode {
        Mode::NewBranch { name, target_sha } => (name.clone(), target_sha.clone()),
        _ => return Action::Idle,
    };
    match key.code {
        KeyCode::Esc => {
            app.mode = Mode::Normal;
            app.message = "cancelled".to_owned();
        },
        KeyCode::Enter => {
            app.mode = Mode::Normal;
            if text::trim(name.as_str()).unicode_len() == 0 {
                app.message = "empty name, cancelled".to_owned();
            } else {
                return Action::CreateBranch { name, sha: target_sha };
            }
        },
        KeyCode::Backspace => {
            app.mode = Mode::NewBranch { name: text::without_last(name.as_str()), target_sha };
        },
        KeyCode::Char(c) => {
            app.mode = Mode::NewBranch { name: text::with_char(name.as_str(), c), target_sha };
        },
        _ => {},
    }
    Action::Idle
}

/// Handles a key while a branch is chosen.
pub fn handle_picker_key(app: &mut App, key: KeyEvent) -> (action: Action)
    ensures
        (final(app).deep_view(), action.deep_view()) == picker_key(old(app).deep_view(), key),
        old(app).wf() ==> final(app).wf(),
{
    let (query, sel) = match &app.mode {
        Mode::BranchPicker { query, sel } => (query.clone(), *sel),
        _ => return Action::Idle,
    };
    match key.code {
        KeyCode::Esc => {
            app.mode = Mode::Normal;
        },
        KeyCode::Enter => {
            let chosen = {
                let matches = filtered_branches(&app.branches, query.as_str());
                assert(matches.deep_view().len() == matches@.len());
                if sel < matches.len() {
                    assert(matches.deep_view()[sel as int] == matches@[sel as int].deep_view());
                    Some(matches[sel].name.clone())
                } else {
                    None
                }
            };
            if let Some(name) = chosen {
                app.mode = Mode::Normal;
                return Action::Checkout(name);
            }
        },
        KeyCode::Down => {
            let count = {
                let matches = filtered_branches(&app.branches, query.as_str());
                assert(matches.deep_view().len() == matches@.len());
                matches.len()
            };
            if sel.saturating_add(1) < count {
                app.mode = Mode::BranchPicker { query, sel: sel + 1 };
            }
        },
        KeyCode::Up => {
            app.mode = Mode::BranchPicker { query, sel: sel.saturating_sub(1) };
        },
        KeyCode::Backspace => {
            app.mode = Mode::BranchPicker { query: text::without_last(query.as_str()), sel: 0 };
        },
        KeyCode::Char(c) => {
            app.mode = Mode::BranchPicker { query: text::with_char(query.as_str(), c), sel: 0 };
        },
        _ => {},
    }
    Action::Idle
}

/// Handles a key while the help is shown.
pub fn handle_help_key(app: &mut App, key: KeyEvent)
    ensures
        final(app).deep_view() == help_key(old(app).deep_view(), key),
        old(app).wf() ==> final(app).wf(),
{
    if key.code == KeyCode::Char('c') && key.control {
        app.quit = true;
    } else {
        app.mode = Mode::Normal;
    }
}

/// Handles a key while the program asks whether to stash.
pub fn handle_stash_confirm_key(app: &mut App, key: KeyEvent) -> (action: Action)
    ensures
        (final(app).deep_view(), action.deep_view()) == stash_key(old(app).deep_view(), key),
        old(app).wf() ==> final(app).wf(),
{
    let target = match &app.mode {
        Mode::ConfirmStashAndSwitch { target } => target.clone(),
        _ => return Action::Idle,
    };
    if key.code == KeyCode::Char('s') {
        app.mode = Mode::Normal;
        return Action::StashAndSwitch(target);
    }
    if key.code == KeyCode::Char('c') || key.code == KeyCode::Esc {
        app.mode = Mode::Normal;
        app.message = "cancelled".to_owned();
    }
    Action::Idle
}

/// Handles a key outside of prompts and boxes.
fn handle_normal_key(app: &mut App, key: KeyEvent, layout: &Layout) -> (action: Action)
    requires
        key.code == KeyCode::Char('J') && old(app).focus == Focus::Graph ==> old(app).diff_scroll
            < usize::MAX,
    ensures
        (final(app).deep_view(), action.deep_view()) == normal_key(
            old(app).deep_view(),
            key,
            *layout,
        ),
        old(app).wf() ==> final(app).wf(),
{
    if key.code == KeyCode::Char('q') || key.code == KeyCode::Char('c') && key.control {
        app.quit = true;
        Action::Idle
    } else if key.code == KeyCode::Char('?') {
        app.mode = Mode::Help;
        Action::Idle
    } else if key.code == KeyCode::Tab {
        app.focus = if app.focus == Focus::Graph {
            Focus::Status
        } else {
            Focus::Graph
        };
        Action::LoadDiff
    } else if key.code == KeyCode::Char('r') {
        Action::Refresh { message: Some("refreshed".to_owned()) }
    } else if key.code == KeyCode::Char('b') {
        Action::ListBranches { query: String::new() }
    } else if key.code == KeyCode::Char('R') {
        Action::OpenRequest
    } else if key.code == KeyCode::Char('P') {
        Action::Pull
    } else if key.code == KeyCode::Char('p') {
        if app.tracking.behind > 0 {
            let mut warning = "behind by ".to_owned();
            text::push_number(&mut warning, app.tracking.behind as u64);
            warning.append(" — pull first ([P]), or press [p] again to force-push intent");
            app.message = warning;
            app.tracking.behind = 0;
            Action::Idle
        } else {
            Action::Push
        }
    } else if app.focus == Focus::Graph {
        handle_graph_key(app, key, layout)
    } else {
        handle_status_key(app, key)
    }
}

/// Handles a key: changes the state, and tells what is to be done.
pub fn handle_key(app: &mut App, key: KeyEvent, layout: &Layout) -> (action: Action)
    requires
        old(app).mode is Normal && old(app).focus == Focus::Graph && key.code == KeyCode::Char('J')
            ==> old(app).diff_scroll < usize::MAX,
    ensures
        (final(app).deep_view(), action.deep_view()) == pressed(
            old(app).deep_view(),
            key,
            *layout,
        ),
        old(app).wf() ==> final(app).wf(),
{
    match &app.mode {
        Mode::Normal => handle_normal_key(app, key, layout),
        Mode::CommitMessage(_) => handle_commit_message_key(app, key),
        Mode::NewBranch { .. } => handle_new_branch_key(app, key),
        Mode::BranchPicker { .. } => handle_picker_key(app, key),
        Mode::ConfirmStashAndSwitch { .. } => handle_stash_confirm_key(app, key),
        Mode::Help => {
            handle_help_key(app, key);
            Action::Idle
        },
    }
}

// ---------------------------------------------------------------------------
// Laws
// ---------------------------------------------------------------------------
/// Ctrl-C.
pub open spec fn is_ctrl_c(key: KeyEvent) -> bool {
    key.code == KeyCode::Char('c') && key.control
}

/// Nothing quits but `q` and Ctrl-C outside of prompts and boxes, and Ctrl-C in
/// the help; there they always do.
pub proof fn only_quit_keys_quit(app: AppView, key: KeyEvent, layout: Layout)
    requires
        !app.quit,
    ensures
        pressed(app, key, layout).0.quit <==> match app.mode {
            ModeView::Normal => key.code == KeyCode::Char('q') || is_ctrl_c(key),
            ModeView::Help => is_ctrl_c(key),
            _ => false,
        },
{
}

/// A key by itself changes nothing of what git told: commits, files, branches,
/// remotes, pull requests and the diff stay as they are.
pub proof fn keys_keep_what_git_told(app: AppView, key: KeyEvent, layout: Layout)
    ensures
        ({
            let next = pressed(app, key, layout).0;
            &&& next.rows == app.rows
            &&& next.status == app.status
            &&& next.branches == app.branches
            &&& next.remotes == app.remotes
            &&& next.prs == app.prs
            &&& next.diff == app.diff
            &&& next.tracking.branch == app.tracking.branch
            &&& next.tracking.upstream == app.tracking.upstream
        }),
{
}

/// Prompts and boxes take every key: the selection and the focus stay, and no
/// key but Enter and `s` makes anything happen.
pub proof fn modes_intercept_keys(app: AppView, key: KeyEvent, layout: Layout)
    requires
        app.mode !is Normal,
    ensures
        ({
            let (next, action) = pressed(app, key, layout);
            &&& next.graph_sel == app.graph_sel
            &&& next.status_sel == app.status_sel
            &&& next.focus == app.focus
            &&& next.diff_scroll == app.diff_scroll
            &&& next.tracking == app.tracking
            &&& action !is Idle ==> key.code == KeyCode::Enter || key.code == KeyCode::Char('s')
        }),
{
}

/// Esc leaves every prompt and box, and does nothing else but say so.
pub proof fn esc_leaves_every_mode(app: AppView, key: KeyEvent, layout: Layout)
    requires
        key.code == KeyCode::Esc,
    ensures
        pressed(app, key, layout).1 is Idle,
        pressed(app, key, layout).0 == (AppView {
            mode: ModeView::Normal,
            message: pressed(app, key, layout).0.message,
            ..app
        }),
{
}

/// A selection that is in the graph stays in it, and one that is in the list of
/// files stays there.
pub proof fn keys_keep_the_selection_inside(app: AppView, key: KeyEvent, layout: Layout)
    ensures
        ({
            let next = pressed(app, key, layout).0;
            &&& 0 <= app.graph_sel < app.rows.len() ==> 0 <= next.graph_sel < next.rows.len()
            &&& 0 <= app.status_sel < app.status.len() ==> 0 <= next.status_sel < next.status.len()
        }),
{
}

/// The selected commit stays on the screen when the selection moves.
pub proof fn keys_keep_the_selection_in_view(app: AppView, key: KeyEvent, layout: Layout)
    requires
        0 <= app.graph_scroll <= app.graph_sel < app.graph_scroll + graph_rows(layout),
    ensures
        ({
            let next = pressed(app, key, layout).0;
            next.graph_scroll <= next.graph_sel < next.graph_scroll + graph_rows(layout)
        }),
{
}

/// A character that is typed and deleted again leaves a prompt as it was.
pub proof fn backspace_undoes_typing(
    app: AppView,
    c: char,
    typed: KeyEvent,
    del: KeyEvent,
    layout: Layout,
)
    requires
        app.mode is CommitMessage || app.mode is NewBranch,
        typed.code == KeyCode::Char(c),
        del.code == KeyCode::Backspace,
    ensures
        pressed(pressed(app, typed, layout).0, del, layout).0 == app,
{
    match app.mode {
        ModeView::CommitMessage(buf) => {
            assert(buf.push(c).drop_last() =~= buf);
        },
        ModeView::NewBranch { name, target_sha } => {
            assert(name.push(c).drop_last() =~= name);
        },
        _ => {},
    }
}

/// Tab twice gives the focus back.
pub proof fn tab_twice_changes_nothing(app: AppView, key: KeyEvent, layout: Layout)
    requires
        app.mode is Normal,
        key.code == KeyCode::Tab,
    ensures
        pressed(app, key, layout).0.focus != app.focus,
        pressed(pressed(app, key, layout).0, key, layout).0 == app,
{
}

/// Down and up again selects the same commit, and the same file.
pub proof fn up_undoes_down(app: AppView, down: KeyEvent, up: KeyEvent, layout: Layout)
    requires
        app.mode is Normal,
        down.code == KeyCode::Down,
        up.code == KeyCode::Up,
        app.focus == Focus::Graph ==> 0 <= app.graph_sel && app.graph_sel + 1 < app.rows.len(),
        app.focus == Focus::Status ==> 0 <= app.status_sel && app.status_sel + 1
            < app.status.len(),
    ensures
        ({
            let there = pressed(app, down, layout).0;
            let back = pressed(there, up, layout).0;
            &&& back.graph_sel == app.graph_sel && back.status_sel == app.status_sel
            &&& app.focus == Focus::Graph ==> there.graph_sel == app.graph_sel + 1
            &&& app.focus == Focus::Status ==> there.status_sel == app.status_sel + 1
        }),
{
}

/// Where the branch is behind its upstream, `p` warns the first time and pushes
/// the second time.
pub proof fn second_push_goes_through(app: AppView, key: KeyEvent, layout: Layout)
    requires
        app.mode is Normal,
        key.code == KeyCode::Char('p'),
        app.tracking.behind > 0,
    ensures
        ({
            let (warned, first) = pressed(app, key, layout);
            let (_, second) = pressed(warned, key, layout);
            &&& first is Idle
            &&& warned.message == behind_warning(app.tracking.behind)
            &&& second is Push
        }),
{
}

// ---------------------------------------------------------------------------
// Checking out at the selected commit
// ---------------------------------------------------------------------------
/// The refs are gone through one by one: the branches among two stretches of
/// refs are those of the first and then those of the second.
proof fn lemma_branch_refs_concat(a: Seq<Seq<char>>, b: Seq<Seq<char>>)
    ensures
        branch_refs(a + b) == branch_refs(a) + branch_refs(b),
    decreases b.len(),
{
    if b.len() > 0 {
        assert((a + b).drop_last() =~= a + b.drop_last());
        assert((a + b).last() == b.last());
        lemma_branch_refs_concat(a, b.drop_last());
        assert(branch_refs(a + b) =~= branch_refs(a) + branch_refs(b));
    } else {
        assert(a + b =~= a);
        assert(branch_refs(a) + branch_refs(b) =~= branch_refs(a));
    }
}

proof fn lemma_tags_alone(refs: Seq<Seq<char>>)
    requires
        forall|j: int| 0 <= j < refs.len() ==> "tag:"@.is_prefix_of(#[trigger] refs[j]),
    ensures
        branch_refs(refs).len() == 0,
    decreases refs.len(),
{
    if refs.len() > 0 {
        let less = refs.drop_last();
        assert forall|j: int| 0 <= j < less.len() implies "tag:"@.is_prefix_of(
            #[trigger] less[j],
        ) by {
            assert(less[j] == refs[j]);
        }
        assert("tag:"@.is_prefix_of(refs[refs.len() - 1]));
        lemma_tags_alone(less);
    }
}

proof fn lemma_branch_among(refs: Seq<Seq<char>>, k: int)
    requires
        0 <= k < refs.len(),
        !"tag:"@.is_prefix_of(refs[k]),
    ensures
        branch_refs(refs) == branch_refs(refs.take(k)) + (seq![refs[k]] + branch_refs(
            refs.skip(k + 1),
        )),
{
    let one = seq![refs[k]];
    assert(one.drop_last() =~= Seq::<Seq<char>>::empty());
    assert(branch_refs(one.drop_last()) =~= Seq::<Seq<char>>::empty());
    assert(branch_refs(one) =~= one);
    lemma_branch_refs_concat(one, refs.skip(k + 1));
    lemma_branch_refs_concat(refs.take(k), one + refs.skip(k + 1));
    assert(refs =~= refs.take(k) + (one + refs.skip(k + 1)));
}

/// The branches at a commit are its refs that are no tags, all of them, in their
/// order, wherever the tags stand.
pub proof fn branches_are_the_refs_but_the_tags(refs: Seq<Seq<char>>)
    ensures
        branch_refs(refs) == refs.filter(|r: Seq<char>| !"tag:"@.is_prefix_of(r)),
        forall|r: Seq<char>|
            #[trigger] branch_refs(refs).contains(r) <==> refs.contains(r) && !"tag:"@.is_prefix_of(
                r,
            ),
    decreases refs.len(),
{
    reveal(Seq::filter);
    let keep = |r: Seq<char>| !"tag:"@.is_prefix_of(r);
    let before = branch_refs(refs.drop_last());
    if refs.len() > 0 {
        branches_are_the_refs_but_the_tags(refs.drop_last());
        assert(refs =~= refs.drop_last().push(refs.last()));
        assert forall|r: Seq<char>| #[trigger] branch_refs(refs).contains(r) <==> refs.contains(r)
            && !"tag:"@.is_prefix_of(r) by {
            let all = branch_refs(refs);
            let less = refs.drop_last();
            if refs.contains(r) && !"tag:"@.is_prefix_of(r) {
                let k = choose|k: int| 0 <= k < refs.len() && refs[k] == r;
                if k < refs.len() - 1 {
                    assert(less[k] == r);
                    assert(before.contains(r));
                    let m = choose|m: int| 0 <= m < before.len() && before[m] == r;
                    assert(all[m] == r);
                } else {
                    assert(all.last() == r);
                }
            }
            if all.contains(r) {
                let m = choose|m: int| 0 <= m < all.len() && all[m] == r;
                if m < before.len() {
                    assert(before[m] == r);
                    assert(before.contains(r));
                    let k = choose|k: int| 0 <= k < less.len() && less[k] == r;
                    assert(refs[k] == r);
                } else {
                    assert(refs[refs.len() - 1] == r);
                }
            }
        }
    }
}

/// Enter and `o` check out the branch at the selected commit where it has one
/// only, whatever tags stand around it; nothing else changes.
pub proof fn only_branch_is_checked_out(app: AppView, key: KeyEvent, layout: Layout, k: int)
    requires
        app.mode is Normal,
        app.focus == Focus::Graph,
        key.code == KeyCode::Enter || key.code == KeyCode::Char('o'),
        0 <= app.graph_sel < app.rows.len(),
        ({
            let refs = app.rows[app.graph_sel].commit.refs;
            &&& 0 <= k < refs.len()
            &&& !"tag:"@.is_prefix_of(refs[k])
            &&& forall|j: int|
                0 <= j < refs.len() && j != k ==> "tag:"@.is_prefix_of(#[trigger] refs[j])
        }),
    ensures
        pressed(app, key, layout) == (
            app,
            ActionView::Checkout(app.rows[app.graph_sel].commit.refs[k]),
        ),
{
    let refs = app.rows[app.graph_sel].commit.refs;
    lemma_branch_among(refs, k);
    let before = refs.take(k);
    let after = refs.skip(k + 1);
    assert forall|j: int| 0 <= j < before.len() implies "tag:"@.is_prefix_of(
        #[trigger] before[j],
    ) by {
        assert(before[j] == refs[j]);
    }
    assert forall|j: int| 0 <= j < after.len() implies "tag:"@.is_prefix_of(#[trigger] after[j]) by {
        assert(after[j] == refs[j + k + 1]);
    }
    lemma_tags_alone(before);
    lemma_tags_alone(after);
    assert(branch_refs(refs) =~= seq![refs[k]]);
}

/// Where the selected commit has several branches, one is to be chosen, among
/// those that match the first.
pub proof fn several_branches_are_offered(
    app: AppView,
    key: KeyEvent,
    layout: Layout,
    j: int,
    k: int,
)
    requires
        app.mode is Normal,
        app.focus == Focus::Graph,
        key.code == KeyCode::Enter || key.code == KeyCode::Char('o'),
        0 <= app.graph_sel < app.rows.len(),
        ({
            let refs = app.rows[app.graph_sel].commit.refs;
            &&& 0 <= j < k < refs.len()
            &&& !"tag:"@.is_prefix_of(refs[j])
            &&& !"tag:"@.is_prefix_of(refs[k])
            &&& forall|i: int| 0 <= i < j ==> "tag:"@.is_prefix_of(#[trigger] refs[i])
        }),
    ensures
        pressed(app, key, layout) == (
            app,
            ActionView::ListBranches { query: app.rows[app.graph_sel].commit.refs[j] },
        ),
{
    let refs = app.rows[app.graph_sel].commit.refs;
    lemma_branch_among(refs, j);
    let before = refs.take(j);
    let after = refs.skip(j + 1);
    assert forall|i: int| 0 <= i < before.len() implies "tag:"@.is_prefix_of(
        #[trigger] before[i],
    ) by {
        assert(before[i] == refs[i]);
    }
    lemma_tags_alone(before);
    assert(after[k - j - 1] == refs[k]);
    lemma_branch_among(after, k - j - 1);
    assert(branch_refs(refs)[0] == refs[j]);
    assert(branch_refs(refs).len() >= 2);
}

/// Where the selected commit has no branch, that is said and nothing is done.
pub proof fn commit_without_a_branch_is_not_checked_out(
    app: AppView,
    key: KeyEvent,
    layout: Layout,
)
    requires
        app.mode is Normal,
        app.focus == Focus::Graph,
        key.code == KeyCode::Enter || key.code == KeyCode::Char('o'),
        0 <= app.graph_sel < app.rows.len(),
        forall|j: int|
            0 <= j < app.rows[app.graph_sel].commit.refs.len() ==> "tag:"@.is_prefix_of(
                #[trigger] app.rows[app.graph_sel].commit.refs[j],
            ),
    ensures
        pressed(app, key, layout) == (
            AppView {
                message: "no branch here — [n] to create one, [b] to pick another"@,
                ..app
            },
            ActionView::Idle,
        ),
{
    lemma_tags_alone(app.rows[app.graph_sel].commit.refs);
}

// ---------------------------------------------------------------------------
// What each key is for
// ---------------------------------------------------------------------------
/// Down and `j` select the next commit or file, up and `k` the one before, and
/// its changes are loaded; at the ends nothing happens. The other list stays.
pub proof fn arrows_move_the_selection(app: AppView, key: KeyEvent, layout: Layout)
    requires
        app.mode is Normal,
        app.graph_sel >= 0,
        app.status_sel >= 0,
    ensures
        ({
            let (next, action) = pressed(app, key, layout);
            let down = key.code == KeyCode::Down || key.code == KeyCode::Char('j');
            let up = key.code == KeyCode::Up || key.code == KeyCode::Char('k');
            let graph = app.focus == Focus::Graph;
            let sel = if graph {
                app.graph_sel
            } else {
                app.status_sel
            };
            let len = if graph {
                app.rows.len() as int
            } else {
                app.status.len() as int
            };
            let moved = if graph {
                next.graph_sel
            } else {
                next.status_sel
            };
            let kept = if graph {
                next.status_sel == app.status_sel
            } else {
                next.graph_sel == app.graph_sel && next.graph_scroll == app.graph_scroll
            };
            &&& down && sel + 1 < len ==> moved == sel + 1 && action is LoadDiff && kept
            &&& up && sel > 0 ==> moved == sel - 1 && action is LoadDiff && kept
            &&& down && sel + 1 >= len ==> next == app && action is Idle
            &&& up && sel == 0 ==> next == app && action is Idle
            &&& down || up ==> next.message == app.message && next.diff_scroll == app.diff_scroll
                && next.focus == app.focus && next.mode == app.mode && next.rows == app.rows
                && next.status == app.status && next.quit == app.quit
        }),
{
}

/// Moving the selection scrolls by one row at most, and only where the selected
/// row would leave the screen.
pub proof fn selection_scrolls_by_one_row(app: AppView, key: KeyEvent, layout: Layout)
    requires
        app.mode is Normal,
        app.focus == Focus::Graph,
        0 <= app.graph_scroll,
        0 <= app.graph_sel,
    ensures
        ({
            let next = pressed(app, key, layout).0;
            let rows = layout.height - 1;
            &&& next.graph_scroll == app.graph_scroll || next.graph_scroll == app.graph_scroll + 1
                || next.graph_scroll == app.graph_scroll - 1
            &&& layout.height >= 1 && app.graph_scroll <= next.graph_sel < app.graph_scroll + rows
                ==> next.graph_scroll == app.graph_scroll
        }),
{
}

/// `J` scrolls the diff down by a line and `K` up, not above its first line.
pub proof fn diff_scrolls_by_one_line(app: AppView, key: KeyEvent, layout: Layout)
    requires
        app.mode is Normal,
        app.focus == Focus::Graph,
        app.diff_scroll >= 0,
    ensures
        key.code == KeyCode::Char('J') ==> pressed(app, key, layout) == (
            AppView { diff_scroll: app.diff_scroll + 1, ..app },
            ActionView::Idle,
        ),
        key.code == KeyCode::Char('K') && app.diff_scroll > 0 ==> pressed(app, key, layout) == (
            AppView { diff_scroll: app.diff_scroll - 1, ..app },
            ActionView::Idle,
        ),
        key.code == KeyCode::Char('K') && app.diff_scroll == 0 ==> pressed(app, key, layout) == (
            app,
            ActionView::Idle,
        ),
{
}

/// `n` asks for the name of a branch at the selected commit.
pub proof fn new_branch_starts_at_the_selected_commit(
    app: AppView,
    key: KeyEvent,
    layout: Layout,
)
    requires
        app.mode is Normal,
        app.focus == Focus::Graph,
        key.code == KeyCode::Char('n'),
    ensures
        0 <= app.graph_sel < app.rows.len() ==> pressed(app, key, layout) == (
            AppView {
                mode: ModeView::NewBranch {
                    name: Seq::empty(),
                    target_sha: app.rows[app.graph_sel].commit.hash,
                },
                ..app
            },
            ActionView::Idle,
        ),
        !(0 <= app.graph_sel < app.rows.len()) ==> pressed(app, key, layout) == (
            app,
            ActionView::Idle,
        ),
{
}

/// Space stages or unstages the selected file, and `c` asks for the message of a
/// commit.
pub proof fn file_keys_act_on_the_selected_file(app: AppView, key: KeyEvent, layout: Layout)
    requires
        app.mode is Normal,
        app.focus == Focus::Status,
    ensures
        key.code == KeyCode::Char(' ') && 0 <= app.status_sel < app.status.len() ==> pressed(
            app,
            key,
            layout,
        ) == (app, ActionView::Toggle(app.status[app.status_sel])),
        key.code == KeyCode::Char(' ') && !(0 <= app.status_sel < app.status.len()) ==> pressed(
            app,
            key,
            layout,
        ) == (app, ActionView::Idle),
        key.code == KeyCode::Char('c') && !key.control ==> pressed(app, key, layout) == (
            AppView { mode: ModeView::CommitMessage(Seq::empty()), ..app },
            ActionView::Idle,
        ),
{
}

/// The keys that do the same in both panes: help, the other pane, asking for
/// everything again, the branches, a request, pulling and pushing.
pub proof fn keys_for_both_panes(app: AppView, key: KeyEvent, layout: Layout)
    requires
        app.mode is Normal,
    ensures
        key.code == KeyCode::Char('?') ==> pressed(app, key, layout) == (
            AppView { mode: ModeView::Help, ..app },
            ActionView::Idle,
        ),
        key.code == KeyCode::Tab ==> pressed(app, key, layout) == (
            AppView {
                focus: match app.focus {
                    Focus::Graph => Focus::Status,
                    Focus::Status => Focus::Graph,
                },
                ..app
            },
            ActionView::LoadDiff,
        ),
        key.code == KeyCode::Char('r') ==> pressed(app, key, layout) == (
            app,
            ActionView::Refresh { message: Some("refreshed"@) },
        ),
        key.code == KeyCode::Char('b') ==> pressed(app, key, layout) == (
            app,
            ActionView::ListBranches { query: Seq::empty() },
        ),
        key.code == KeyCode::Char('R') ==> pressed(app, key, layout) == (
            app,
            ActionView::OpenRequest,
        ),
        key.code == KeyCode::Char('P') ==> pressed(app, key, layout) == (app, ActionView::Pull),
        key.code == KeyCode::Char('p') && app.tracking.behind <= 0 ==> pressed(app, key, layout)
            == (app, ActionView::Push),
{
}

/// A branch that is behind its upstream is not pushed at once: the first `p` says
/// by how many commits, in decimal, and changes nothing else but that the next
/// one pushes.
pub proof fn branch_behind_is_warned_of(app: AppView, key: KeyEvent, layout: Layout)
    requires
        app.mode is Normal,
        key.code == KeyCode::Char('p'),
        app.tracking.behind > 0,
    ensures
        ({
            let (next, action) = pressed(app, key, layout);
            &&& action is Idle
            &&& next.tracking.behind == 0
            &&& next.tracking.ahead == app.tracking.ahead
            &&& next.tracking.branch == app.tracking.branch
            &&& next.tracking.upstream == app.tracking.upstream
            &&& next.tracking.detached == app.tracking.detached
            &&& next == (AppView { message: next.message, tracking: next.tracking, ..app })
            &&& next.message == "behind by "@ + text::decimal(app.tracking.behind as nat)
                + " — pull first ([P]), or press [p] again to force-push intent"@
        }),
{
}

/// The state after typing the characters one by one.
pub open spec fn after_typing(app: AppView, typed: Seq<char>, layout: Layout) -> AppView
    decreases typed.len(),
{
    if typed.len() == 0 {
        app
    } else {
        pressed(
            after_typing(app, typed.drop_last(), layout),
            KeyEvent { code: KeyCode::Char(typed.last()), control: false },
            layout,
        ).0
    }
}

/// What is typed as the message of a commit is committed with Enter, every
/// character of it in order; a message of blanks alone is not.
pub proof fn typed_message_is_committed(app: AppView, typed: Seq<char>, layout: Layout)
    requires
        app.mode == ModeView::CommitMessage(Seq::empty()),
    ensures
        ({
            let enter = KeyEvent { code: KeyCode::Enter, control: false };
            let ready = after_typing(app, typed, layout);
            let (next, action) = pressed(ready, enter, layout);
            &&& ready == (AppView { mode: ModeView::CommitMessage(typed), ..app })
            &&& next.mode is Normal
            &&& text::trimmed(typed).len() > 0 ==> action == ActionView::Commit(typed) && next
                == (AppView { mode: ModeView::Normal, ..app })
            &&& text::trimmed(typed).len() == 0 ==> action is Idle
        }),
    decreases typed.len(),
{
    if typed.len() > 0 {
        typed_message_is_committed(app, typed.drop_last(), layout);
        assert(typed.drop_last().push(typed.last()) =~= typed);
    } else {
        assert(typed =~= Seq::<char>::empty());
    }
}

/// What is typed as the name of a branch is created with Enter, at the commit
/// that the prompt was opened for; a name of blanks alone is not.
pub proof fn typed_branch_is_created(
    app: AppView,
    sha: Seq<char>,
    typed: Seq<char>,
    layout: Layout,
)
    requires
        app.mode == (ModeView::NewBranch { name: Seq::empty(), target_sha: sha }),
    ensures
        ({
            let enter = KeyEvent { code: KeyCode::Enter, control: false };
            let ready = after_typing(app, typed, layout);
            let (next, action) = pressed(ready, enter, layout);
            &&& ready == (AppView {
                mode: ModeView::NewBranch { name: typed, target_sha: sha },
                ..app
            })
            &&& next.mode is Normal
            &&& text::trimmed(typed).len() > 0 ==> action == (ActionView::CreateBranch {
                name: typed,
                sha,
            }) && next == (AppView { mode: ModeView::Normal, ..app })
            &&& text::trimmed(typed).len() == 0 ==> action is Idle
        }),
    decreases typed.len(),
{
    if typed.len() > 0 {
        typed_branch_is_created(app, sha, typed.drop_last(), layout);
        assert(typed.drop_last().push(typed.last()) =~= typed);
    } else {
        assert(typed =~= Seq::<char>::empty());
    }
}

/// Prompts take every character, with or without Ctrl; Esc leaves them, and so
/// does Enter where nothing was typed but blanks, and each says so.
pub proof fn prompts_take_every_character(
    app: AppView,
    typed: Seq<char>,
    sha: Seq<char>,
    key: KeyEvent,
    layout: Layout,
)
    ensures
        ({
            let prompt = AppView { mode: ModeView::CommitMessage(typed), ..app };
            let left = |message: Seq<char>|
                AppView { mode: ModeView::Normal, message, ..app };
            &&& key.code matches KeyCode::Char(c) ==> pressed(prompt, key, layout) == (
                AppView { mode: ModeView::CommitMessage(typed.push(c)), ..app },
                ActionView::Idle,
            )
            &&& key.code == KeyCode::Esc ==> pressed(prompt, key, layout) == (
                left("commit cancelled"@),
                ActionView::Idle,
            )
            &&& key.code == KeyCode::Enter && text::trimmed(typed).len() == 0 ==> pressed(
                prompt,
                key,
                layout,
            ) == (left("empty message, cancelled"@), ActionView::Idle)
        }),
        ({
            let prompt = AppView {
                mode: ModeView::NewBranch { name: typed, target_sha: sha },
                ..app
            };
            let left = |message: Seq<char>|
                AppView { mode: ModeView::Normal, message, ..app };
            &&& key.code matches KeyCode::Char(c) ==> pressed(prompt, key, layout) == (
                AppView {
                    mode: ModeView::NewBranch { name: typed.push(c), target_sha: sha },
                    ..app
                },
                ActionView::Idle,
            )
            &&& key.code == KeyCode::Esc ==> pressed(prompt, key, layout) == (
                left("cancelled"@),
                ActionView::Idle,
            )
            &&& key.code == KeyCode::Enter && text::trimmed(typed).len() == 0 ==> pressed(
                prompt,
                key,
                layout,
            ) == (left("empty name, cancelled"@), ActionView::Idle)
        }),
{
}

/// In a prompt and in the picker the keys that are not for it do nothing.
pub proof fn prompts_ignore_other_keys(app: AppView, key: KeyEvent, layout: Layout)
    requires
        app.mode is CommitMessage || app.mode is NewBranch || app.mode is BranchPicker,
        key.code == KeyCode::Tab || key.code == KeyCode::Other || (app.mode !is BranchPicker && (
        key.code == KeyCode::Up || key.code == KeyCode::Down)),
    ensures
        pressed(app, key, layout) == (app, ActionView::Idle),
{
}

/// What is typed while a branch is chosen goes to the end of the query, and the
/// first match is selected again.
pub proof fn typed_query_filters(
    app: AppView,
    query: Seq<char>,
    sel: int,
    typed: Seq<char>,
    layout: Layout,
)
    requires
        app.mode == (ModeView::BranchPicker { query, sel }),
        typed.len() > 0,
    ensures
        after_typing(app, typed, layout) == (AppView {
            mode: ModeView::BranchPicker { query: query + typed, sel: 0 },
            ..app
        }),
    decreases typed.len(),
{
    let less = typed.drop_last();
    assert(query + typed =~= (query + less).push(typed.last()));
    if less.len() > 0 {
        typed_query_filters(app, query, sel, less, layout);
    } else {
        assert(query + less =~= query);
    }
}

/// Enter checks out the selected one of the branches that match; the arrows
/// select another match, inside the list, and backspace takes the last character
/// of the query back.
pub proof fn picker_keys_choose_among_the_matches(
    app: AppView,
    query: Seq<char>,
    sel: int,
    key: KeyEvent,
    layout: Layout,
)
    requires
        app.mode == (ModeView::BranchPicker { query, sel }),
        sel >= 0,
    ensures
        ({
            let matches = picker::filtered(app.branches, query);
            let (next, action) = pressed(app, key, layout);
            let at = |s: int|
                AppView { mode: ModeView::BranchPicker { query, sel: s }, ..app };
            &&& key.code == KeyCode::Enter && sel < matches.len() ==> action == ActionView::Checkout(
                matches[sel].name,
            ) && next == (AppView { mode: ModeView::Normal, ..app })
            &&& key.code == KeyCode::Enter && sel >= matches.len() ==> action is Idle && next == app
            &&& key.code == KeyCode::Down && sel + 1 < matches.len() ==> action is Idle && next
                == at(sel + 1)
            &&& key.code == KeyCode::Down && sel + 1 >= matches.len() ==> action is Idle && next
                == app
            &&& key.code == KeyCode::Up && sel > 0 ==> action is Idle && next == at(sel - 1)
            &&& key.code == KeyCode::Up && sel == 0 ==> action is Idle && next == app
            &&& key.code == KeyCode::Backspace && query.len() > 0 ==> action is Idle && next == (
            AppView { mode: ModeView::BranchPicker { query: query.drop_last(), sel: 0 }, ..app })
            &&& key.code == KeyCode::Esc ==> action is Idle && next == (AppView {
                mode: ModeView::Normal,
                ..app
            })
        }),
{
}

/// Where the working tree blocks a switch, `s` stashes and switches to the branch
/// that was asked for, `c` and Esc do not; no other key does anything.
pub proof fn stash_prompt_is_answered(
    app: AppView,
    target: Seq<char>,
    key: KeyEvent,
    layout: Layout,
)
    requires
        app.mode == (ModeView::ConfirmStashAndSwitch { target }),
    ensures
        key.code == KeyCode::Char('s') ==> pressed(app, key, layout) == (
            AppView { mode: ModeView::Normal, ..app },
            ActionView::StashAndSwitch(target),
        ),
        key.code == KeyCode::Char('c') || key.code == KeyCode::Esc ==> pressed(app, key, layout)
            == (
            AppView { mode: ModeView::Normal, message: "cancelled"@, ..app },
            ActionView::Idle,
        ),
        key.code != KeyCode::Char('s') && key.code != KeyCode::Char('c') && key.code != KeyCode::Esc
            ==> pressed(app, key, layout) == (app, ActionView::Idle),
{
}

/// Every key takes the help away and does nothing else, but Ctrl-C quits.
pub proof fn any_key_leaves_the_help(app: AppView, key: KeyEvent, layout: Layout)
    requires
        app.mode is Help,
    ensures
        pressed(app, key, layout).1 is Idle,
        !is_ctrl_c(key) ==> pressed(app, key, layout).0 == (AppView {
            mode: ModeView::Normal,
            ..app
        }),
        key.code == KeyCode::Char('c') && key.control ==> pressed(app, key, layout).0.quit,
{
}

/// Keys that nothing is said of do nothing.
pub proof fn other_keys_do_nothing(app: AppView, key: KeyEvent, layout: Layout)
    requires
        app.mode is Normal,
        ({
            ||| key.code == KeyCode::Esc
            ||| key.code == KeyCode::Backspace
            ||| key.code == KeyCode::Other
            ||| app.focus == Focus::Status && key.code == KeyCode::Enter
            ||| key.code matches KeyCode::Char(c) && !seq![
                'q',
                'c',
                '?',
                'r',
                'b',
                'R',
                'P',
                'p',
                'j',
                'k',
                'J',
                'K',
                'o',
                'n',
                ' ',
            ].contains(c)
        }),
    ensures
        pressed(app, key, layout) == (app, ActionView::Idle),
{
    if let KeyCode::Char(c) = key.code {
        let known = seq!['q', 'c', '?', 'r', 'b', 'R', 'P', 'p', 'j', 'k', 'J', 'K', 'o', 'n', ' '];
        assert(known[0] == 'q' && known[1] == 'c' && known[2] == '?' && known[3] == 'r' && known[4]
            == 'b' && known[5] == 'R' && known[6] == 'P' && known[7] == 'p' && known[8] == 'j'
            && known[9] == 'k' && known[10] == 'J' && known[11] == 'K' && known[12] == 'o'
            && known[13] == 'n' && known[14] == ' ');
    }
}

} // verus!
