//! The work that keys call for. It is done by commands, one after the other:
//! while replies are missing the state stays as it is and the next command is
//! named; with the last reply the state changes, and more work may follow.

use crate::app::keys;
use crate::app::picker::{self, order_branches};
use crate::app::{Action, ActionView, App, AppView, Mode, ModeView};
use crate::command::{self, CommandView, Reply, Step, StepView};
use crate::git::{
    self, Commit, CommitView, StatusEntry, StatusEntryView, TrackingInfo, TrackingView,
};
use crate::graph::{self, assign_lanes, chain_set, GraphRow, GraphRowView};
use crate::remote::{self, PrInfo};
use crate::text;
use crate::ui::rows;
use crate::ui::Focus;
use vstd::hash_map::StringHashMap;
use vstd::prelude::*;

verus! {

/// The commits that are shown, at most.
pub const LOG_LIMIT: usize = 2000;

// ---------------------------------------------------------------------------
// Asking for everything that is shown
// ---------------------------------------------------------------------------
/// What the graph is drawn from.
pub struct History {
    /// Newest first.
    pub commits: Vec<Commit>,
    /// The hashes of the first-parent chain of the main branch.
    pub chain: Vec<String>,
}

/// The same as contracts speak of it.
pub struct HistoryView {
    pub commits: Seq<CommitView>,
    pub chain: Seq<Seq<char>>,
}

impl DeepView for History {
    type V = HistoryView;

    open spec fn deep_view(&self) -> HistoryView {
        HistoryView { commits: self.commits.deep_view(), chain: self.chain.deep_view() }
    }
}

impl HistoryView {
    /// The rows of the graph, where these are the remotes.
    pub open spec fn rows(self, remotes: Seq<Seq<char>>) -> Seq<GraphRowView> {
        graph::graph_of(self.commits, self.chain.to_set(), remotes)
    }
}

impl History {
    /// The rows of the graph, where these are the remotes.
    pub fn rows(&self, remotes: &[String]) -> (r: Vec<GraphRow>)
        ensures
            r.deep_view() == self.deep_view().rows(remotes.deep_view()),
    {
        assign_lanes(&self.commits, &chain_set(&self.chain), remotes)
    }
}

/// The commits and the chain of the main branch, or why the log cannot be read.
/// Where the main branch cannot be followed, that is an error if `strict`, and
/// else no commit is on it.
pub open spec fn history_step(strict: bool, replies: Seq<Reply>) -> StepView<
    Result<HistoryView, Seq<char>>,
> {
    match git::log_step(LOG_LIMIT as nat, replies) {
        StepView::Run(c) => StepView::Run(c),
        StepView::Done(Err(e), n) => StepView::Done(Err(e), n),
        StepView::Done(Ok(commits), n) => match git::chain_step(replies.skip(n)) {
            StepView::Run(c) => StepView::Run(c),
            StepView::Done(Ok(chain), m) => StepView::Done(
                Ok(HistoryView { commits, chain }),
                n + m,
            ),
            StepView::Done(Err(e), m) => if strict {
                StepView::Done(Err(e), n + m)
            } else {
                StepView::Done(Ok(HistoryView { commits, chain: seq![] }), n + m)
            },
        },
    }
}

/// Loads what the graph is drawn from.
pub fn history(strict: bool, replies: &[Reply]) -> (r: Step<Result<History, String>>)
    ensures
        command::step_view(r) == history_step(strict, replies@),
        r matches Step::Done(_, n) ==> n <= replies@.len(),
{
    let (commits, n) = match git::log_all(LOG_LIMIT, replies) {
        Step::Run(c) => return Step::Run(c),
        Step::Done(Err(e), n) => return Step::Done(Err(e), n),
        Step::Done(Ok(commits), n) => (commits, n),
    };
    let total = replies.len();
    let rest = vstd::slice::slice_subrange(replies, n, total);
    proof {
        assert(rest@ =~= replies@.skip(n as int));
        git::lemma_chain_used(rest@);
    }
    match git::main_chain(rest) {
        Step::Run(c) => Step::Run(c),
        Step::Done(Ok(chain), m) => {
            assert(n + m <= total);
            Step::Done(Ok(History { commits, chain }), n + m)
        },
        Step::Done(Err(e), m) => {
            assert(n + m <= total);
            if strict {
                Step::Done(Err(e), n + m)
            } else {
                let chain: Vec<String> = Vec::new();
                assert(chain.deep_view() =~= Seq::<Seq<char>>::empty());
                Step::Done(Ok(History { commits, chain }), n + m)
            }
        },
    }
}

/// The files of the working tree; none where git fails, and `None` where a
/// record cannot be read.
pub open spec fn files_step(replies: Seq<Reply>) -> StepView<Option<Seq<StatusEntryView>>> {
    match git::status_step(replies) {
        StepView::Run(c) => StepView::Run(c),
        StepView::Done(r, n) => StepView::Done(
            if !git::status_reply_readable(replies) {
                None
            } else {
                match r {
                    Ok(files) => Some(files),
                    Err(_) => Some(seq![]),
                }
            },
            n,
        ),
    }
}

/// Loads the files of the working tree.
pub fn files(replies: &[Reply]) -> (r: Step<Option<Vec<StatusEntry>>>)
    ensures
        r.deep_view() == files_step(replies@),
{
    match git::try_status(replies) {
        None => Step::Done(None, 1),
        Some(Step::Run(c)) => Step::Run(c),
        Some(Step::Done(Ok(files), n)) => Step::Done(Some(files), n),
        Some(Step::Done(Err(_), n)) => {
            let none: Vec<StatusEntry> = Vec::new();
            assert(none.deep_view() =~= Seq::<StatusEntryView>::empty());
            Step::Done(Some(none), n)
        },
    }
}

/// What is shown beside the graph.
pub struct Surroundings {
    /// `None` where a record could not be read.
    pub status: Option<Vec<StatusEntry>>,
    pub tracking: TrackingInfo,
    pub remotes: Vec<String>,
}

/// The same as contracts speak of it.
pub struct SurroundingsView {
    pub status: Option<Seq<StatusEntryView>>,
    pub tracking: TrackingView,
    pub remotes: Seq<Seq<char>>,
}

impl DeepView for Surroundings {
    type V = SurroundingsView;

    open spec fn deep_view(&self) -> SurroundingsView {
        SurroundingsView {
            status: self.status.deep_view(),
            tracking: self.tracking.deep_view(),
            remotes: self.remotes.deep_view(),
        }
    }
}

/// The files of the working tree, the position of the current branch and the
/// remotes. What git cannot tell is taken as empty.
pub open spec fn surroundings_step(replies: Seq<Reply>) -> StepView<SurroundingsView> {
    match files_step(replies) {
        StepView::Run(c) => StepView::Run(c),
        StepView::Done(status, n) => match git::tracking_step(replies.skip(n)) {
            StepView::Run(c) => StepView::Run(c),
            StepView::Done(t, m) => match git::remotes_step(replies.skip(n + m)) {
                StepView::Run(c) => StepView::Run(c),
                StepView::Done(remotes, k) => StepView::Done(
                    SurroundingsView {
                        status,
                        tracking: match t {
                            Ok(tracking) => tracking,
                            Err(_) => git::untracked(),
                        },
                        remotes,
                    },
                    n + m + k,
                ),
            },
        },
    }
}

/// Loads what is shown beside the graph.
pub fn surroundings(replies: &[Reply]) -> (r: Step<Surroundings>)
    ensures
        r.deep_view() == surroundings_step(replies@),
        r matches Step::Done(_, n) ==> n <= replies@.len(),
{
    let total = replies.len();
    let (status, n) = match files(replies) {
        Step::Run(c) => return Step::Run(c),
        Step::Done(status, n) => (status, n),
    };
    let rest = vstd::slice::slice_subrange(replies, n, total);
    assert(rest@ =~= replies@.skip(n as int));
    let (tracking, m) = match git::tracking(rest) {
        Step::Run(c) => return Step::Run(c),
        Step::Done(Ok(tracking), m) => (tracking, m),
        Step::Done(Err(_), m) => (TrackingInfo::default(), m),
    };
    let rest = vstd::slice::slice_subrange(replies, n + m, total);
    assert(rest@ =~= replies@.skip(n + m));
    match git::remotes(rest) {
        Step::Run(c) => Step::Run(c),
        Step::Done(remotes, k) => Step::Done(
            Surroundings { status, tracking, remotes },
            n + m + k,
        ),
    }
}

// ---------------------------------------------------------------------------
// The first state
// ---------------------------------------------------------------------------
/// The state before any key, from what git told.
pub open spec fn first_state(history: HistoryView, around: SurroundingsView) -> AppView {
    AppView {
        rows: history.rows(around.remotes),
        status: match around.status {
            Some(files) => files,
            None => seq![],
        },
        tracking: around.tracking,
        branches: seq![],
        remotes: around.remotes,
        prs: Map::empty(),
        graph_sel: 0,
        status_sel: 0,
        graph_scroll: 0,
        status_scroll: 0,
        diff_scroll: 0,
        focus: Focus::Graph,
        diff: seq![],
        message: "ready"@,
        quit: false,
        mode: ModeView::Normal,
    }
}

/// The first state, or why the log or the main branch cannot be read.
pub open spec fn start_step(replies: Seq<Reply>) -> StepView<Result<AppView, Seq<char>>> {
    match history_step(true, replies) {
        StepView::Run(c) => StepView::Run(c),
        StepView::Done(Err(e), n) => StepView::Done(Err(e), n),
        StepView::Done(Ok(history), n) => match surroundings_step(replies.skip(n)) {
            StepView::Run(c) => StepView::Run(c),
            StepView::Done(around, m) => StepView::Done(Ok(first_state(history, around)), n + m),
        },
    }
}

/// The state after everything was asked for again. A selection past the end
/// goes to the end; where the files cannot be read, the old ones stay.
pub open spec fn refreshed(
    app: AppView,
    history: Result<HistoryView, Seq<char>>,
    around: SurroundingsView,
    message: Option<Seq<char>>,
) -> AppView {
    let rows = match history {
        Ok(h) => h.rows(around.remotes),
        Err(_) => app.rows,
    };
    let status = match around.status {
        Some(files) => files,
        None => app.status,
    };
    AppView {
        rows,
        status,
        tracking: around.tracking,
        remotes: around.remotes,
        graph_sel: if app.graph_sel >= rows.len() && rows.len() > 0 {
            rows.len() - 1
        } else {
            app.graph_sel
        },
        status_sel: if app.status_sel >= status.len() && status.len() > 0 {
            status.len() - 1
        } else {
            app.status_sel
        },
        message: match message {
            Some(m) => m,
            None => match history {
                Ok(_) => app.message,
                Err(e) => "log error: "@ + e,
            },
        },
        ..app
    }
}

impl App {
    /// Loads the first state.
    pub fn new(replies: &[Reply]) -> (r: Step<Result<App, String>>)
        ensures
            command::step_view(r) == start_step(replies@),
            r matches Step::Done(Ok(app), _) ==> app.wf(),
    {
        let total = replies.len();
        let (told, n) = match history(true, replies) {
            Step::Run(c) => return Step::Run(c),
            Step::Done(Err(e), n) => return Step::Done(Err(e), n),
            Step::Done(Ok(told), n) => (told, n),
        };
        let rest = vstd::slice::slice_subrange(replies, n, total);
        assert(rest@ =~= replies@.skip(n as int));
        let (around, m) = match surroundings(rest) {
            Step::Run(c) => return Step::Run(c),
            Step::Done(around, m) => (around, m),
        };
        assert(n + m <= total);
        let status = match around.status {
            Some(files) => files,
            None => {
                let none: Vec<StatusEntry> = Vec::new();
                assert(none.deep_view() =~= Seq::<StatusEntryView>::empty());
                none
            },
        };
        let app = App {
            rows: told.rows(&around.remotes),
            status,
            tracking: around.tracking,
            branches: Vec::new(),
            remotes: around.remotes,
            prs: StringHashMap::new(),
            graph_sel: 0,
            status_sel: 0,
            graph_scroll: 0,
            status_scroll: 0,
            diff_scroll: 0,
            focus: Focus::Graph,
            diff: String::new(),
            message: "ready".to_owned(),
            quit: false,
            mode: Mode::Normal,
        };
        proof {
            assert(app.branches.deep_view() =~= Seq::<crate::git::BranchView>::empty());
            assert(rows::pr_views(app.prs@) =~= Map::empty());
            assert(app.deep_view() == first_state(told.deep_view(), around.deep_view()));
        }
        Step::Done(Ok(app), n + m)
    }

    /// Takes the open pull requests.
    pub fn set_prs(&mut self, prs: &[PrInfo])
        ensures
            final(self).deep_view() == (AppView {
                prs: rows::by_branch(prs.deep_view()),
                ..old(self).deep_view()
            }),
            old(self).wf() ==> final(self).wf(),
    {
        self.prs = rows::pr_map(prs);
    }

    /// Takes what git told again.
    fn take(
        &mut self,
        history: Result<History, String>,
        around: Surroundings,
        message: &Option<String>,
    )
        ensures
            final(self).deep_view() == refreshed(
                old(self).deep_view(),
                command::result_view(history),
                around.deep_view(),
                message.deep_view(),
            ),
            old(self).wf() ==> final(self).wf(),
    {
        match history {
            Ok(h) => {
                self.rows = h.rows(&around.remotes);
            },
            Err(e) => {
                self.message = text::concat("log error: ", e.as_str());
            },
        }
        if let Some(files) = around.status {
            self.status = files;
        }
        self.tracking = around.tracking;
        self.remotes = around.remotes;
        assert(self.rows.deep_view().len() == self.rows@.len());
        assert(self.status.deep_view().len() == self.status@.len());
        if self.graph_sel >= self.rows.len() && self.rows.len() > 0 {
            self.graph_sel = self.rows.len() - 1;
        }
        if self.status_sel >= self.status.len() && self.status.len() > 0 {
            self.status_sel = self.status.len() - 1;
        }
        if let Some(m) = message {
            self.message = m.clone();
        }
    }
}

// ---------------------------------------------------------------------------
// Work
// ---------------------------------------------------------------------------
/// Ask for everything that is shown, then load the diff.
pub open spec fn refresh_step(
    app: AppView,
    message: Option<Seq<char>>,
    replies: Seq<Reply>,
) -> (AppView, StepView<ActionView>) {
    match history_step(false, replies) {
        StepView::Run(c) => (app, StepView::Run(c)),
        StepView::Done(history, n) => match surroundings_step(replies.skip(n)) {
            StepView::Run(c) => (app, StepView::Run(c)),
            StepView::Done(around, m) => (
                refreshed(app, history, around, message),
                StepView::Done(ActionView::LoadDiff, n + m),
            ),
        },
    }
}

/// The command that shows the changes of what is selected, if anything is.
pub open spec fn diff_command(app: AppView) -> Option<CommandView> {
    if app.focus == Focus::Graph {
        if 0 <= app.graph_sel < app.rows.len() {
            Some(git::diff_commit_command(app.rows[app.graph_sel].commit.hash))
        } else {
            None
        }
    } else {
        if 0 <= app.status_sel < app.status.len() {
            let e = app.status[app.status_sel];
            Some(git::diff_file_command(e.path, e.status.in_index()))
        } else {
            None
        }
    }
}

/// Load the diff of what is selected; it is empty where nothing is, or where git
/// fails.
pub open spec fn diff_step(app: AppView, replies: Seq<Reply>) -> (AppView, StepView<ActionView>) {
    match diff_command(app) {
        None => (
            AppView { diff: seq![], diff_scroll: 0, ..app },
            StepView::Done(ActionView::Idle, 0),
        ),
        Some(c) => match command::asked(c, replies) {
            StepView::Run(c) => (app, StepView::Run(c)),
            StepView::Done(r, n) => (
                AppView {
                    diff: match r {
                        Ok(out) => out,
                        Err(_) => seq![],
                    },
                    diff_scroll: 0,
                    ..app
                },
                StepView::Done(ActionView::Idle, n),
            ),
        },
    }
}

/// Work that was done, or not: where it was, `done` is said and everything is
/// asked for again; where it was not, `failed` is said and the error.
pub open spec fn worked(
    app: AppView,
    work: StepView<Result<(), Seq<char>>>,
    done: Seq<char>,
    failed: Seq<char>,
) -> (AppView, StepView<ActionView>) {
    match work {
        StepView::Run(c) => (app, StepView::Run(c)),
        StepView::Done(Ok(_), n) => (
            keys::said(app, done),
            StepView::Done(ActionView::Refresh { message: None }, n),
        ),
        StepView::Done(Err(e), n) => (
            keys::said(app, failed + text::headline(e)),
            StepView::Done(ActionView::Idle, n),
        ),
    }
}

/// Pull, and say the first line of what git says.
pub open spec fn pull_step(app: AppView, replies: Seq<Reply>) -> (AppView, StepView<ActionView>) {
    match command::asked(command::git_command(seq!["pull"@, "--ff-only"@]), replies) {
        StepView::Run(c) => (app, StepView::Run(c)),
        StepView::Done(Ok(out), n) => {
            let first = if text::lines_of(out).len() > 0 {
                text::lines_of(out)[0]
            } else {
                "ok"@
            };
            (
                keys::said(app, "pulled: "@ + first),
                StepView::Done(ActionView::Refresh { message: None }, n),
            )
        },
        StepView::Done(Err(e), n) => (
            keys::said(app, "pull failed: "@ + text::headline(e)),
            StepView::Done(ActionView::Idle, n),
        ),
    }
}

/// Stage an entry, or unstage it where it lives in the index, a deletion too.
pub open spec fn toggle_step(app: AppView, entry: StatusEntryView, replies: Seq<Reply>) -> (
    AppView,
    StepView<ActionView>,
) {
    let command = if entry.status.in_index() {
        git::unstage_command(entry)
    } else {
        command::git_command(seq!["add"@, "--"@, entry.path])
    };
    match command::done(command, replies) {
        StepView::Run(c) => (app, StepView::Run(c)),
        StepView::Done(Ok(_), n) => (
            keys::said(app, "toggled "@ + entry.path),
            StepView::Done(ActionView::Refresh { message: None }, n),
        ),
        StepView::Done(Err(e), n) => (
            keys::said(app, "stage failed: "@ + e),
            StepView::Done(ActionView::Idle, n),
        ),
    }
}

/// List the branches, put them in order and let one be chosen.
pub open spec fn list_step(app: AppView, query: Seq<char>, replies: Seq<Reply>) -> (
    AppView,
    StepView<ActionView>,
) {
    match git::branches_step(replies) {
        StepView::Run(c) => (app, StepView::Run(c)),
        StepView::Done(Ok(branches), n) => (
            AppView {
                branches: picker::ordered(branches),
                mode: ModeView::BranchPicker { query, sel: 0 },
                ..app
            },
            StepView::Done(ActionView::Idle, n),
        ),
        StepView::Done(Err(e), n) => (
            keys::said(app, "list branches failed: "@ + e),
            StepView::Done(ActionView::Idle, n),
        ),
    }
}

/// Switch to a branch; where the working tree is in the way, ask whether to
/// stash.
pub open spec fn switch_step(app: AppView, name: Seq<char>, replies: Seq<Reply>) -> (
    AppView,
    StepView<ActionView>,
) {
    match git::checkout_step(name, replies) {
        StepView::Run(c) => (app, StepView::Run(c)),
        StepView::Done(Ok(_), n) => (
            keys::said(app, "switched to "@ + name),
            StepView::Done(ActionView::Refresh { message: None }, n),
        ),
        StepView::Done(Err(e), n) => (
            if git::blocked_by_worktree(e) {
                keys::in_mode(app, ModeView::ConfirmStashAndSwitch { target: name })
            } else {
                keys::said(app, "switch failed: "@ + text::headline(e))
            },
            StepView::Done(ActionView::Idle, n),
        ),
    }
}

/// The command that stashes all changes.
pub open spec fn stash_command() -> CommandView {
    command::git_command(seq!["stash"@, "push"@, "-u"@, "-m"@, "spor-auto-stash"@])
}

/// Stash all changes, then switch to a branch.
pub open spec fn stash_step(app: AppView, target: Seq<char>, replies: Seq<Reply>) -> (
    AppView,
    StepView<ActionView>,
) {
    match command::done(stash_command(), replies) {
        StepView::Run(c) => (app, StepView::Run(c)),
        StepView::Done(Err(e), n) => (
            keys::said(app, "stash failed: "@ + text::headline(e)),
            StepView::Done(ActionView::Idle, n),
        ),
        StepView::Done(Ok(_), n) => {
            let (next, step) = worked(
                app,
                git::checkout_step(target, replies.skip(n)),
                "stashed and switched to "@ + target,
                "switch still failed: "@,
            );
            match step {
                StepView::Run(c) => (next, StepView::Run(c)),
                StepView::Done(action, m) => (next, StepView::Done(action, n + m)),
            }
        },
    }
}

/// Say something, and be done.
pub open spec fn answered(app: AppView, message: Seq<char>, n: int) -> (
    AppView,
    StepView<ActionView>,
) {
    (keys::said(app, message), StepView::Done(ActionView::Idle, n))
}

/// Open a request for the current branch. That takes a branch, a host that is
/// known, a base that is another branch, and an upstream. The host's own tool
/// creates it where it is installed; else the page that does is named.
pub open spec fn request_step(app: AppView, replies: Seq<Reply>) -> (
    AppView,
    StepView<ActionView>,
) {
    match app.tracking.branch {
        None => answered(app, "detached HEAD — switch to a branch first"@, 0),
        Some(head) => match remote::detect_step(replies) {
            StepView::Run(c) => (app, StepView::Run(c)),
            StepView::Done(None, n) => answered(app, "couldn't detect remote host"@, n),
            StepView::Done(Some(info), n) => match git::base_step(replies.skip(n)) {
                StepView::Run(c) => (app, StepView::Run(c)),
                StepView::Done(found, m) => {
                    let base = match found {
                        Some(b) => b,
                        None => "main"@,
                    };
                    if base == head {
                        answered(
                            app,
                            "you're on "@ + base + " — switch to a feature branch first"@,
                            n + m,
                        )
                    } else if app.tracking.upstream is None {
                        answered(
                            app,
                            "no upstream — push first ([p]) so the branch exists on the remote"@,
                            n + m,
                        )
                    } else {
                        match remote::tool_step(info.host, replies.skip(n + m)) {
                            StepView::Run(c) => (app, StepView::Run(c)),
                            StepView::Done(Some(tool), k) => (
                                app,
                                StepView::Done(
                                    ActionView::RunAttached {
                                        program: tool,
                                        args: remote::create_args(info.host, base),
                                    },
                                    n + m + k,
                                ),
                            ),
                            StepView::Done(None, k) => answered(
                                app,
                                "open: "@ + remote::compare_page(info, base, head),
                                n + m + k,
                            ),
                        }
                    }
                },
            },
        },
    }
}

/// The state and the next step of an action, from the replies so far.
pub open spec fn advanced(app: AppView, action: ActionView, replies: Seq<Reply>) -> (
    AppView,
    StepView<ActionView>,
) {
    match action {
        ActionView::Idle => (app, StepView::Done(ActionView::Idle, 0)),
        ActionView::RunAttached { .. } => (app, StepView::Done(ActionView::Idle, 0)),
        ActionView::LoadDiff => diff_step(app, replies),
        ActionView::Refresh { message } => refresh_step(app, message, replies),
        ActionView::ListBranches { query } => list_step(app, query, replies),
        ActionView::OpenRequest => request_step(app, replies),
        ActionView::Pull => pull_step(app, replies),
        ActionView::Push => worked(
            app,
            git::pushed_step(replies),
            "pushed"@,
            "push failed: "@,
        ),
        ActionView::Toggle(entry) => toggle_step(app, entry, replies),
        ActionView::Commit(message) => worked(
            app,
            command::done(command::git_command(seq!["commit"@, "-m"@, message]), replies),
            "committed: "@ + message,
            "commit failed: "@,
        ),
        ActionView::CreateBranch { name, sha } => worked(
            app,
            command::done(
                command::git_command(seq!["switch"@, "-c"@, text::trimmed(name), sha]),
                replies,
            ),
            "created and switched to "@ + name,
            "create failed: "@,
        ),
        ActionView::Checkout(name) => switch_step(app, name, replies),
        ActionView::StashAndSwitch(target) => stash_step(app, target, replies),
    }
}

impl App {
    /// Says something.
    fn say(&mut self, message: String)
        ensures
            final(self).deep_view() == keys::said(old(self).deep_view(), message@),
            old(self).wf() ==> final(self).wf(),
    {
        self.message = message;
    }

    /// Asks for everything that is shown.
    pub fn refresh(&mut self, message: &Option<String>, replies: &[Reply]) -> (r: Step<Action>)
        ensures
            (final(self).deep_view(), r.deep_view()) == refresh_step(
                old(self).deep_view(),
                message.deep_view(),
                replies@,
            ),
            old(self).wf() ==> final(self).wf(),
    {
        let total = replies.len();
        let (told, n) = match history(false, replies) {
            Step::Run(c) => return Step::Run(c),
            Step::Done(told, n) => (told, n),
        };
        let rest = vstd::slice::slice_subrange(replies, n, total);
        assert(rest@ =~= replies@.skip(n as int));
        match surroundings(rest) {
            Step::Run(c) => Step::Run(c),
            Step::Done(around, m) => {
                assert(n + m <= total);
                self.take(told, around, message);
                Step::Done(Action::LoadDiff, n + m)
            },
        }
    }

    /// Loads the diff of what is selected.
    pub fn update_diff(&mut self, replies: &[Reply]) -> (r: Step<Action>)
        ensures
            (final(self).deep_view(), r.deep_view()) == diff_step(old(self).deep_view(), replies@),
            old(self).wf() ==> final(self).wf(),
    {
        let loaded = match self.focus {
            Focus::Graph => {
                if self.graph_sel < self.rows.len() {
                    assert(self.deep_view().rows[self.graph_sel as int]
                        == self.rows@[self.graph_sel as int].deep_view());
                    git::diff_commit(self.rows[self.graph_sel].commit.hash.as_str(), replies)
                } else {
                    Step::Done(Ok(String::new()), 0)
                }
            },
            Focus::Status => {
                if self.status_sel < self.status.len() {
                    let e = &self.status[self.status_sel];
                    assert(self.deep_view().status[self.status_sel as int] == e.deep_view());
                    git::diff_file(e.path.as_str(), e.status.is_staged(), replies)
                } else {
                    Step::Done(Ok(String::new()), 0)
                }
            },
        };
        match loaded {
            Step::Run(c) => Step::Run(c),
            Step::Done(diff, n) => {
                self.diff_scroll = 0;
                self.diff = match diff {
                    Ok(diff) => diff,
                    Err(_) => String::new(),
                };
                Step::Done(Action::Idle, n)
            },
        }
    }

    /// Takes the outcome of work.
    fn report(&mut self, work: Step<Result<(), String>>, done: String, failed: &str) -> (r: Step<
        Action,
    >)
        ensures
            (final(self).deep_view(), r.deep_view()) == worked(
                old(self).deep_view(),
                command::step_view(work),
                done@,
                failed@,
            ),
            old(self).wf() ==> final(self).wf(),
    {
        match work {
            Step::Run(c) => Step::Run(c),
            Step::Done(Ok(_), n) => {
                self.say(done);
                Step::Done(Action::Refresh { message: None }, n)
            },
            Step::Done(Err(e), n) => {
                let why = text::first_line(e.as_str());
                self.say(text::concat(failed, why.as_str()));
                Step::Done(Action::Idle, n)
            },
        }
    }

    fn pull(&mut self, replies: &[Reply]) -> (r: Step<Action>)
        ensures
            (final(self).deep_view(), r.deep_view()) == pull_step(old(self).deep_view(), replies@),
            old(self).wf() ==> final(self).wf(),
    {
        match git::pull(replies) {
            Step::Run(c) => Step::Run(c),
            Step::Done(Ok(out), n) => {
                let lines = text::lines(out.as_str());
                assert(lines.deep_view().len() == lines@.len());
                let first = if lines.len() > 0 {
                    assert(lines.deep_view()[0] == lines@[0]@);
                    lines[0].as_str()
                } else {
                    "ok"
                };
                self.say(text::concat("pulled: ", first));
                Step::Done(Action::Refresh { message: None }, n)
            },
            Step::Done(Err(e), n) => {
                let why = text::first_line(e.as_str());
                self.say(text::concat("pull failed: ", why.as_str()));
                Step::Done(Action::Idle, n)
            },
        }
    }

    fn toggle(&mut self, entry: &StatusEntry, replies: &[Reply]) -> (r: Step<Action>)
        ensures
            (final(self).deep_view(), r.deep_view()) == toggle_step(
                old(self).deep_view(),
                entry.deep_view(),
                replies@,
            ),
            old(self).wf() ==> final(self).wf(),
    {
        let work = if entry.status.is_staged() {
            git::unstage(entry, replies)
        } else {
            git::stage(entry.path.as_str(), replies)
        };
        match work {
            Step::Run(c) => Step::Run(c),
            Step::Done(Ok(_), n) => {
                self.say(text::concat("toggled ", entry.path.as_str()));
                Step::Done(Action::Refresh { message: None }, n)
            },
            Step::Done(Err(e), n) => {
                self.say(text::concat("stage failed: ", e.as_str()));
                Step::Done(Action::Idle, n)
            },
        }
    }
}

/// Lists the branches and lets one be chosen among those that match.
pub fn open_branch_picker(app: &mut App, query: &str, replies: &[Reply]) -> (r: Step<Action>)
    ensures
        (final(app).deep_view(), r.deep_view()) == list_step(
            old(app).deep_view(),
            query@,
            replies@,
        ),
        old(app).wf() ==> final(app).wf(),
{
    match git::list_branches(replies) {
        Step::Run(c) => Step::Run(c),
        Step::Done(Ok(branches), n) => {
            app.branches = order_branches(branches);
            app.mode = Mode::BranchPicker { query: query.to_owned(), sel: 0 };
            Step::Done(Action::Idle, n)
        },
        Step::Done(Err(e), n) => {
            app.say(text::concat("list branches failed: ", e.as_str()));
            Step::Done(Action::Idle, n)
        },
    }
}

/// Tries to switch to a branch.
pub fn attempt_checkout(app: &mut App, name: &str, replies: &[Reply]) -> (r: Step<Action>)
    ensures
        (final(app).deep_view(), r.deep_view()) == switch_step(
            old(app).deep_view(),
            name@,
            replies@,
        ),
        old(app).wf() ==> final(app).wf(),
{
    match git::checkout_branch(name, replies) {
        Step::Run(c) => Step::Run(c),
        Step::Done(Ok(_), n) => {
            app.say(text::concat("switched to ", name));
            Step::Done(Action::Refresh { message: None }, n)
        },
        Step::Done(Err(e), n) => {
            if git::is_worktree_conflict(e.as_str()) {
                app.mode = Mode::ConfirmStashAndSwitch { target: name.to_owned() };
            } else {
                let why = text::first_line(e.as_str());
                app.say(text::concat("switch failed: ", why.as_str()));
            }
            Step::Done(Action::Idle, n)
        },
    }
}

/// Stashes all changes, then switches to a branch.
pub fn stash_and_switch(app: &mut App, target: &str, replies: &[Reply]) -> (r: Step<Action>)
    ensures
        (final(app).deep_view(), r.deep_view()) == stash_step(
            old(app).deep_view(),
            target@,
            replies@,
        ),
        old(app).wf() ==> final(app).wf(),
{
    let total = replies.len();
    match git::stash_push(replies) {
        Step::Run(c) => Step::Run(c),
        Step::Done(Err(e), n) => {
            let why = text::first_line(e.as_str());
            app.say(text::concat("stash failed: ", why.as_str()));
            Step::Done(Action::Idle, n)
        },
        Step::Done(Ok(_), n) => {
            let rest = vstd::slice::slice_subrange(replies, n, total);
            assert(rest@ =~= replies@.skip(n as int));
            let work = git::checkout_branch(target, rest);
            let done = text::concat("stashed and switched to ", target);
            match app.report(work, done, "switch still failed: ") {
                Step::Run(c) => Step::Run(c),
                Step::Done(action, m) => Step::Done(action, n + m),
            }
        },
    }
}

/// Opens a pull or merge request for the current branch.
pub fn open_pull_request(app: &mut App, replies: &[Reply]) -> (r: Step<Action>)
    ensures
        (final(app).deep_view(), r.deep_view()) == request_step(old(app).deep_view(), replies@),
        old(app).wf() ==> final(app).wf(),
{
    let total = replies.len();
    let head = match &app.tracking.branch {
        Some(b) => b.clone(),
        None => {
            app.say("detached HEAD — switch to a branch first".to_owned());
            return Step::Done(Action::Idle, 0);
        },
    };
    let (info, n) = match remote::detect(replies) {
        Step::Run(c) => return Step::Run(c),
        Step::Done(None, n) => {
            app.say("couldn't detect remote host".to_owned());
            return Step::Done(Action::Idle, n);
        },
        Step::Done(Some(info), n) => (info, n),
    };
    let rest = vstd::slice::slice_subrange(replies, n, total);
    proof {
        assert(rest@ =~= replies@.skip(n as int));
        git::lemma_base_used(rest@);
    }
    let (found, m) = match git::default_base_branch(rest) {
        Step::Run(c) => return Step::Run(c),
        Step::Done(found, m) => (found, m),
    };
    assert(n + m <= total && n + m <= 5);
    let base = match found {
        Some(b) => b,
        None => "main".to_owned(),
    };
    if text::same(base.as_str(), head.as_str()) {
        let mut message = text::concat("you're on ", base.as_str());
        message.append(" — switch to a feature branch first");
        app.say(message);
        return Step::Done(Action::Idle, n + m);
    }
    if app.tracking.upstream.is_none() {
        app.say("no upstream — push first ([p]) so the branch exists on the remote".to_owned());
        return Step::Done(Action::Idle, n + m);
    }
    let rest = vstd::slice::slice_subrange(replies, n + m, total);
    assert(rest@ =~= replies@.skip(n + m));
    match remote::cli_tool(&info.host, rest) {
        Step::Run(c) => Step::Run(c),
        Step::Done(Some(tool), k) => {
            let args = remote::pr_create_args(&info.host, base.as_str());
            Step::Done(Action::RunAttached { program: tool.to_owned(), args }, n + m + k)
        },
        Step::Done(None, k) => {
            let url = remote::compare_url(&info, base.as_str(), head.as_str());
            app.say(text::concat("open: ", url.as_str()));
            Step::Done(Action::Idle, n + m + k)
        },
    }
}

/// Goes on with an action, from the replies to its commands so far: names the
/// next command, or changes the state and tells what is to be done next.
pub fn advance(app: &mut App, action: &Action, replies: &[Reply]) -> (r: Step<Action>)
    ensures
        (final(app).deep_view(), r.deep_view()) == advanced(
            old(app).deep_view(),
            action.deep_view(),
            replies@,
        ),
        old(app).wf() ==> final(app).wf(),
{
    match action {
        Action::Idle => Step::Done(Action::Idle, 0),
        Action::RunAttached { .. } => Step::Done(Action::Idle, 0),
        Action::LoadDiff => app.update_diff(replies),
        Action::Refresh { message } => app.refresh(message, replies),
        Action::ListBranches { query } => open_branch_picker(app, query.as_str(), replies),
        Action::OpenRequest => open_pull_request(app, replies),
        Action::Pull => app.pull(replies),
        Action::Push => app.report(git::push(replies), "pushed".to_owned(), "push failed: "),
        Action::Toggle(entry) => app.toggle(entry, replies),
        Action::Commit(message) => {
            let done = text::concat("committed: ", message.as_str());
            app.report(git::commit(message.as_str(), replies), done, "commit failed: ")
        },
        Action::CreateBranch { name, sha } => {
            let done = text::concat("created and switched to ", name.as_str());
            let work = git::create_branch_at(
                text::trim(name.as_str()),
                sha.as_str(),
                replies,
            );
            app.report(work, done, "create failed: ")
        },
        Action::Checkout(name) => attempt_checkout(app, name.as_str(), replies),
        Action::StashAndSwitch(target) => stash_and_switch(app, target.as_str(), replies),
    }
}

/// The state after a program ran on the terminal.
pub open spec fn attached(app: AppView, program: Seq<char>, result: Result<(), Seq<char>>) -> (
    AppView,
    ActionView,
) {
    match result {
        Ok(_) => (
            keys::said(app, "PR opened via "@ + program),
            ActionView::Refresh { message: None },
        ),
        Err(e) => (keys::said(app, program + " failed: "@ + e), ActionView::Idle),
    }
}

/// Takes the outcome of a program that ran on the terminal.
pub fn finish_attached(app: &mut App, program: &str, result: Result<(), String>) -> (action: Action)
    ensures
        (final(app).deep_view(), action.deep_view()) == attached(
            old(app).deep_view(),
            program@,
            command::result_view(result),
        ),
        old(app).wf() ==> final(app).wf(),
{
    match result {
        Ok(_) => {
            app.say(text::concat("PR opened via ", program));
            Action::Refresh { message: None }
        },
        Err(e) => {
            let mut message = text::concat(program, " failed: ");
            message.append(e.as_str());
            app.say(message);
            Action::Idle
        },
    }
}

/// The error for a program that could not be started.
pub fn spawn_failure(program: &str, why: &str) -> (r: String)
    ensures
        r@ == "failed to spawn "@ + program@ + ": "@ + why@,
{
    let mut r = text::concat("failed to spawn ", program);
    r.append(": ");
    r.append(why);
    r
}

/// The error for a program that ended with this status.
pub fn exit_failure(program: &str, status: &str) -> (r: String)
    ensures
        r@ == program@ + " exited with "@ + status@,
{
    let mut r = text::concat(program, " exited with ");
    r.append(status);
    r
}

// ---------------------------------------------------------------------------
// Laws
// ---------------------------------------------------------------------------
/// As long as a command is to be run, the state stays as it is.
pub proof fn state_waits_for_replies(app: AppView, action: ActionView, replies: Seq<Reply>)
    requires
        advanced(app, action, replies).1 is Run,
    ensures
        advanced(app, action, replies).0 == app,
{
}

/// Every action is done after eight replies at most.
pub proof fn work_ends(app: AppView, action: ActionView, replies: Seq<Reply>)
    requires
        replies.len() >= 8,
    ensures
        advanced(app, action, replies).1 is Done,
{
    git::main_chain_is_settled(replies.skip(1));
    git::lemma_chain_used(replies.skip(1));
    git::base_branch_is_settled(replies.skip(1));
    git::lemma_base_used(replies.skip(1));
}

/// How many actions can follow an action at most.
pub open spec fn actions_left(action: ActionView) -> nat {
    match action {
        ActionView::Idle => 0,
        ActionView::LoadDiff => 1,
        ActionView::Refresh { .. } => 2,
        ActionView::RunAttached { .. } => 3,
        ActionView::OpenRequest => 4,
        _ => 3,
    }
}

/// Work comes to rest: what follows an action has fewer actions left.
pub proof fn actions_run_out(app: AppView, action: ActionView, replies: Seq<Reply>)
    requires
        action !is Idle,
    ensures
        advanced(app, action, replies).1 matches StepView::Done(next, _) ==> actions_left(next)
            < actions_left(action),
{
}

/// What follows a program that ran on the terminal has fewer actions left too.
pub proof fn attached_programs_run_out(
    app: AppView,
    program: Seq<char>,
    args: Seq<Seq<char>>,
    result: Result<(), Seq<char>>,
)
    ensures
        actions_left(attached(app, program, result).1) < actions_left(
            ActionView::RunAttached { program, args },
        ),
{
}

/// Asking for everything again puts the selections inside, where there is
/// anything to select, and moves none that is inside already.
pub proof fn refresh_keeps_selections_inside(
    app: AppView,
    history: Result<HistoryView, Seq<char>>,
    around: SurroundingsView,
    message: Option<Seq<char>>,
)
    requires
        app.graph_sel >= 0,
        app.status_sel >= 0,
    ensures
        ({
            let next = refreshed(app, history, around, message);
            &&& next.rows.len() > 0 ==> next.graph_sel < next.rows.len()
            &&& next.status.len() > 0 ==> next.status_sel < next.status.len()
            &&& app.graph_sel < next.rows.len() ==> next.graph_sel == app.graph_sel
            &&& app.status_sel < next.status.len() ==> next.status_sel == app.status_sel
        }),
{
}

/// Where the log cannot be read, the graph that is shown stays.
pub proof fn graph_outlives_a_failed_log(
    app: AppView,
    e: Seq<char>,
    around: SurroundingsView,
    message: Option<Seq<char>>,
)
    ensures
        refreshed(app, Err(e), around, message).rows == app.rows,
        refreshed(app, Err(e), around, None).message == "log error: "@ + e,
{
}

/// Where the working tree blocks a switch, the program offers to stash, and `s`
/// then stashes and switches to that branch.
pub proof fn blocked_switch_offers_to_stash(
    app: AppView,
    name: Seq<char>,
    replies: Seq<Reply>,
    key: crate::app::KeyEvent,
    layout: crate::ui::Layout,
)
    requires
        key.code == crate::app::KeyCode::Char('s'),
        git::checkout_step(name, replies) matches StepView::Done(Err(e), _)
            && git::blocked_by_worktree(e),
    ensures
        ({
            let asked = advanced(app, ActionView::Checkout(name), replies).0;
            &&& asked.mode == ModeView::ConfirmStashAndSwitch { target: name }
            &&& keys::pressed(asked, key, layout).1 == ActionView::StashAndSwitch(name)
        }),
{
}

/// Where git refuses to commit, to push or to create a branch, nothing changes
/// but the message.
pub proof fn refused_work_changes_the_message_only(
    app: AppView,
    action: ActionView,
    replies: Seq<Reply>,
)
    requires
        action is Commit || action is Push || action is CreateBranch || action is Pull
            || action is Toggle,
        advanced(app, action, replies).1 matches StepView::Done(next, _) && next is Idle,
    ensures
        advanced(app, action, replies).0 == keys::said(
            app,
            advanced(app, action, replies).0.message,
        ),
{
}

/// A request is never opened from the base branch, nor without an upstream, nor
/// where HEAD is on no branch.
pub proof fn requests_need_a_pushed_branch(app: AppView, replies: Seq<Reply>)
    requires
        advanced(app, ActionView::OpenRequest, replies).1 matches StepView::Done(
            ActionView::RunAttached { .. },
            _,
        ),
    ensures
        app.tracking.branch is Some,
        app.tracking.upstream is Some,
        git::base_step(replies.skip(1)) matches StepView::Done(base, _) && base
            != app.tracking.branch,
{
}

// ---------------------------------------------------------------------------
// What each action is for
// ---------------------------------------------------------------------------
/// The step that runs git with these arguments.
pub open spec fn runs(args: Seq<Seq<char>>) -> StepView<ActionView> {
    StepView::Run(CommandView { program: "git"@, args })
}

/// Staging and unstaging name the selected file and nothing else: a file in the
/// index is restored there, with the path that it was moved from, and any other
/// is added. Where git does it, that is said and everything is asked for again;
/// where it does not, the error is said.
pub proof fn toggling_stages_or_unstages(
    app: AppView,
    entry: StatusEntryView,
    replies: Seq<Reply>,
)
    requires
        replies.len() > 0,
    ensures
        ({
            let (same, first) = advanced(app, ActionView::Toggle(entry), seq![]);
            let (next, step) = advanced(app, ActionView::Toggle(entry), replies);
            let staged = entry.status is Staged || entry.status is StagedDeleted;
            &&& same == app
            &&& !staged ==> first == runs(seq!["add"@, "--"@, entry.path])
            &&& staged && entry.orig_path is None ==> first == runs(
                seq!["restore"@, "--staged"@, "--"@, entry.path],
            )
            &&& staged ==> (entry.orig_path matches Some(orig) ==> first == runs(
                seq!["restore"@, "--staged"@, "--"@, entry.path, orig],
            ))
            &&& command::answer(replies[0]) is Ok ==> next == (AppView {
                message: "toggled "@ + entry.path,
                ..app
            }) && step == StepView::Done(ActionView::Refresh { message: None }, 1)
            &&& command::answer(replies[0]) matches Err(e) ==> next == (AppView {
                message: "stage failed: "@ + e,
                ..app
            }) && step == StepView::Done(ActionView::Idle, 1)
        }),
{
    if let Some(orig) = entry.orig_path {
        assert(seq!["restore"@, "--staged"@, "--"@, entry.path].push(orig) =~= seq![
            "restore"@,
            "--staged"@,
            "--"@,
            entry.path,
            orig,
        ]);
    }
}

/// A commit has the message that was given, whole. Where git makes it, that is
/// said and everything is asked for again; where not, the first line of the error
/// is said.
pub proof fn committing_passes_the_message_on(
    app: AppView,
    message: Seq<char>,
    replies: Seq<Reply>,
)
    requires
        replies.len() > 0,
    ensures
        ({
            let (next, step) = advanced(app, ActionView::Commit(message), replies);
            &&& advanced(app, ActionView::Commit(message), seq![]) == (
                app,
                runs(seq!["commit"@, "-m"@, message]),
            )
            &&& command::answer(replies[0]) is Ok ==> next == (AppView {
                message: "committed: "@ + message,
                ..app
            }) && step == StepView::Done(ActionView::Refresh { message: None }, 1)
            &&& command::answer(replies[0]) matches Err(e) ==> next == (AppView {
                message: "commit failed: "@ + text::headline(e),
                ..app
            }) && step == StepView::Done(ActionView::Idle, 1)
        }),
{
}

/// A branch is created at the commit that was given, under the name without the
/// blanks around it, and switched to.
pub proof fn branch_is_created_at_the_commit(
    app: AppView,
    name: Seq<char>,
    sha: Seq<char>,
    replies: Seq<Reply>,
)
    requires
        replies.len() > 0,
    ensures
        ({
            let action = ActionView::CreateBranch { name, sha };
            let (next, step) = advanced(app, action, replies);
            &&& advanced(app, action, seq![]) == (
                app,
                runs(seq!["switch"@, "-c"@, text::trimmed(name), sha]),
            )
            &&& command::answer(replies[0]) is Ok ==> next == (AppView {
                message: "created and switched to "@ + name,
                ..app
            }) && step == StepView::Done(ActionView::Refresh { message: None }, 1)
            &&& command::answer(replies[0]) matches Err(e) ==> next == (AppView {
                message: "create failed: "@ + text::headline(e),
                ..app
            }) && step == StepView::Done(ActionView::Idle, 1)
        }),
{
}

/// Pulling never merges: git is told to go forward only. The first line of what
/// it says is said.
pub proof fn pulling_goes_forward_only(app: AppView, replies: Seq<Reply>)
    requires
        replies.len() > 0,
    ensures
        ({
            let (next, step) = advanced(app, ActionView::Pull, replies);
            &&& advanced(app, ActionView::Pull, seq![]) == (app, runs(seq!["pull"@, "--ff-only"@]))
            &&& command::answer(replies[0]) matches Ok(out) ==> next == (AppView {
                message: "pulled: "@ + if text::lines_of(out).len() > 0 {
                    text::lines_of(out)[0]
                } else {
                    "ok"@
                },
                ..app
            }) && step == StepView::Done(ActionView::Refresh { message: None }, 1)
            &&& command::answer(replies[0]) matches Err(e) ==> next == (AppView {
                message: "pull failed: "@ + text::headline(e),
                ..app
            }) && step == StepView::Done(ActionView::Idle, 1)
        }),
{
}

/// Pushing does what git needs for it, says that it was done, and asks for
/// everything again; where it fails, the first line of the error is said.
pub proof fn pushing_is_reported(app: AppView, replies: Seq<Reply>)
    ensures
        ({
            let (next, step) = advanced(app, ActionView::Push, replies);
            match git::pushed_step(replies) {
                StepView::Run(c) => next == app && step == StepView::<ActionView>::Run(c),
                StepView::Done(Ok(_), n) => next == (AppView { message: "pushed"@, ..app }) && step
                    == StepView::Done(ActionView::Refresh { message: None }, n),
                StepView::Done(Err(e), n) => next == (AppView {
                    message: "push failed: "@ + text::headline(e),
                    ..app
                }) && step == StepView::Done(ActionView::Idle, n),
            }
        }),
        advanced(app, ActionView::Push, seq![]) == (
            app,
            runs(seq!["rev-parse"@, "--abbrev-ref"@, "--symbolic-full-name"@, "@{u}"@]),
        ),
{
}

/// A switch that git makes is said and everything is asked for again. One that
/// the working tree blocks asks whether to stash, for the same branch; any other
/// failure is said.
pub proof fn switching_is_reported(app: AppView, name: Seq<char>, replies: Seq<Reply>)
    ensures
        ({
            let (next, step) = advanced(app, ActionView::Checkout(name), replies);
            match git::checkout_step(name, replies) {
                StepView::Run(c) => next == app && step == StepView::<ActionView>::Run(c),
                StepView::Done(Ok(_), n) => next == (AppView {
                    message: "switched to "@ + name,
                    ..app
                }) && step == StepView::Done(ActionView::Refresh { message: None }, n),
                StepView::Done(Err(e), n) => step == StepView::Done(ActionView::Idle, n) && next
                    == if git::blocked_by_worktree(e) {
                    AppView { mode: ModeView::ConfirmStashAndSwitch { target: name }, ..app }
                } else {
                    AppView { message: "switch failed: "@ + text::headline(e), ..app }
                },
            }
        }),
{
}

/// Everything is stashed, untracked files too, before the switch; where that
/// fails there is no switch, and where it does not, the branch that was asked for
/// is switched to.
pub proof fn stash_comes_before_the_switch(app: AppView, target: Seq<char>, replies: Seq<Reply>)
    requires
        replies.len() > 0,
    ensures
        ({
            let action = ActionView::StashAndSwitch(target);
            let (next, step) = advanced(app, action, replies);
            &&& advanced(app, action, seq![]) == (
                app,
                runs(seq!["stash"@, "push"@, "-u"@, "-m"@, "spor-auto-stash"@]),
            )
            &&& command::answer(replies[0]) matches Err(e) ==> next == (AppView {
                message: "stash failed: "@ + text::headline(e),
                ..app
            }) && step == StepView::Done(ActionView::Idle, 1)
            &&& command::answer(replies[0]) is Ok ==> match git::checkout_step(
                target,
                replies.skip(1),
            ) {
                StepView::Run(c) => next == app && step == StepView::<ActionView>::Run(c),
                StepView::Done(Ok(_), n) => next == (AppView {
                    message: "stashed and switched to "@ + target,
                    ..app
                }) && step == StepView::Done(ActionView::Refresh { message: None }, n + 1),
                StepView::Done(Err(e), n) => next == (AppView {
                    message: "switch still failed: "@ + text::headline(e),
                    ..app
                }) && step == StepView::Done(ActionView::Idle, n + 1),
            }
        }),
{
}

/// The branches that git lists are offered, in their order, with the query that
/// was given and the first of them selected; where git fails that is said.
pub proof fn listed_branches_are_offered(app: AppView, query: Seq<char>, replies: Seq<Reply>)
    ensures
        ({
            let (next, step) = advanced(app, ActionView::ListBranches { query }, replies);
            match git::branches_step(replies) {
                StepView::Run(c) => next == app && step == StepView::<ActionView>::Run(c),
                StepView::Done(Ok(branches), n) => next == (AppView {
                    branches: picker::ordered(branches),
                    mode: ModeView::BranchPicker { query, sel: 0 },
                    ..app
                }) && step == StepView::Done(ActionView::Idle, n),
                StepView::Done(Err(e), n) => next == (AppView {
                    message: "list branches failed: "@ + e,
                    ..app
                }) && step == StepView::Done(ActionView::Idle, n),
            }
        }),
{
}

/// The diff is of the commit that is selected where the graph has the focus, and
/// of the file that is selected where the list of files has it, from the index
/// where the file lives there. It starts at its first line.
pub proof fn diff_is_of_the_selection(app: AppView, replies: Seq<Reply>)
    ensures
        app.focus == Focus::Graph && 0 <= app.graph_sel < app.rows.len() ==> advanced(
            app,
            ActionView::LoadDiff,
            seq![],
        ) == (
            app,
            runs(seq!["show"@, "--stat"@, "--patch"@, app.rows[app.graph_sel].commit.hash]),
        ),
        app.focus == Focus::Status && 0 <= app.status_sel < app.status.len() ==> ({
            let entry = app.status[app.status_sel];
            let staged = entry.status is Staged || entry.status is StagedDeleted;
            advanced(app, ActionView::LoadDiff, seq![]) == (
                app,
                runs(
                    if staged {
                        seq!["diff"@, "--cached"@, "--"@, entry.path]
                    } else {
                        seq!["diff"@, "--"@, entry.path]
                    },
                ),
            )
        }),
        ({
            let selected = if app.focus == Focus::Graph {
                0 <= app.graph_sel < app.rows.len()
            } else {
                0 <= app.status_sel < app.status.len()
            };
            &&& selected && replies.len() > 0 ==> advanced(app, ActionView::LoadDiff, replies) == (
                AppView {
                    diff: match command::answer(replies[0]) {
                        Ok(out) => out,
                        Err(_) => seq![],
                    },
                    diff_scroll: 0,
                    ..app
                },
                StepView::Done(ActionView::Idle, 1),
            )
            &&& !selected ==> advanced(app, ActionView::LoadDiff, replies) == (
                AppView { diff: seq![], diff_scroll: 0, ..app },
                StepView::Done(ActionView::Idle, 0),
            )
        }),
{
}

/// Asking for everything again shows what git told: the graph of its commits with
/// the main chain leftmost and the families by the remotes, the files, the
/// position and the remotes. The message that was to be said is said, and nothing
/// else of the state changes but a selection past the end.
pub proof fn refresh_shows_what_git_told(
    app: AppView,
    message: Option<Seq<char>>,
    replies: Seq<Reply>,
    n: int,
    m: int,
    commits: Seq<CommitView>,
    chain: Seq<Seq<char>>,
    around: SurroundingsView,
)
    requires
        git::log_step(2000, replies) == StepView::<Result<Seq<CommitView>, Seq<char>>>::Done(
            Ok(commits),
            n,
        ),
        git::chain_step(replies.skip(n)) == StepView::<Result<Seq<Seq<char>>, Seq<char>>>::Done(
            Ok(chain),
            m,
        ),
        surroundings_step(replies.skip(n + m)) matches StepView::Done(a, _) && a == around,
        around.status is Some,
    ensures
        ({
            let (next, step) = advanced(app, ActionView::Refresh { message }, replies);
            &&& step matches StepView::Done(action, _) && action is LoadDiff
            &&& next.rows == graph::graph_of(commits, chain.to_set(), around.remotes)
            &&& next.status == around.status->0
            &&& next.tracking == around.tracking
            &&& next.remotes == around.remotes
            &&& message matches Some(text) ==> next.message == text
            &&& message is None ==> next.message == app.message
            &&& next == (AppView {
                rows: next.rows,
                status: next.status,
                tracking: next.tracking,
                remotes: next.remotes,
                message: next.message,
                graph_sel: next.graph_sel,
                status_sel: next.status_sel,
                ..app
            })
        }),
{
}

/// What is shown beside the graph is what git tells, each reply for its own part:
/// first the files, then the position of the branch, then the remotes.
pub proof fn surroundings_are_what_git_told(replies: Seq<Reply>)
    requires
        replies.len() >= 3,
    ensures
        surroundings_step(replies) matches StepView::Done(around, n) && n == 3 && {
            &&& command::answer(replies[0]) matches Ok(out) ==> (if git::records_readable(
                text::pieces(out, '\0'),
            ) {
                around.status == Some(git::entries_of(text::pieces(out, '\0')))
            } else {
                around.status is None
            })
            &&& command::answer(replies[0]) is Err ==> (around.status matches Some(files)
                && files.len() == 0)
            &&& command::answer(replies[1]) matches Ok(out) ==> around.tracking == git::tracking_of(
                text::lines_of(out),
            )
            &&& command::answer(replies[1]) is Err ==> around.tracking == git::tracking_of(
                Seq::<Seq<char>>::empty(),
            )
            &&& command::answer(replies[2]) matches Ok(out) ==> around.remotes == text::lines_of(
                out,
            )
            &&& command::answer(replies[2]) is Err ==> around.remotes.len() == 0
        },
{
    assert(replies.skip(1)[0] == replies[1]);
    assert(replies.skip(2)[0] == replies[2]);
}

/// At the start the program shows what git told, with the first commit selected
/// and the graph focused; where the log cannot be read, or the main branch not be
/// followed, it does not start and tells why.
pub proof fn start_shows_what_git_told(
    replies: Seq<Reply>,
    n: int,
    m: int,
    commits: Seq<CommitView>,
    chain: Seq<Seq<char>>,
    e: Seq<char>,
)
    ensures
        git::log_step(2000, replies) == StepView::<Result<Seq<CommitView>, Seq<char>>>::Done(
            Err(e),
            n,
        ) ==> start_step(replies) == StepView::<Result<AppView, Seq<char>>>::Done(Err(e), n),
        git::log_step(2000, replies) == StepView::<Result<Seq<CommitView>, Seq<char>>>::Done(
            Ok(commits),
            n,
        ) && git::chain_step(replies.skip(n)) == StepView::<
            Result<Seq<Seq<char>>, Seq<char>>,
        >::Done(Err(e), m) ==> start_step(replies) == StepView::<
            Result<AppView, Seq<char>>,
        >::Done(Err(e), n + m),
        git::log_step(2000, replies) == StepView::<Result<Seq<CommitView>, Seq<char>>>::Done(
            Ok(commits),
            n,
        ) && git::chain_step(replies.skip(n)) == StepView::<
            Result<Seq<Seq<char>>, Seq<char>>,
        >::Done(Ok(chain), m) ==> (surroundings_step(replies.skip(n + m)) matches StepView::Done(
            around,
            k,
        ) ==> (start_step(replies) matches StepView::Done(Ok(app), used) && used == n + m + k && {
            &&& app.rows == graph::graph_of(commits, chain.to_set(), around.remotes)
            &&& around.status matches Some(files) ==> app.status == files
            &&& app.tracking == around.tracking
            &&& app.remotes == around.remotes
            &&& app.graph_sel == 0 && app.status_sel == 0
            &&& app.graph_scroll == 0 && app.status_scroll == 0 && app.diff_scroll == 0
            &&& app.focus == Focus::Graph
            &&& app.mode is Normal
            &&& !app.quit
            &&& app.message == "ready"@
            &&& around.status is None ==> app.status.len() == 0
            &&& app.branches.len() == 0 && app.diff.len() == 0
            &&& app.prs == Map::<Seq<char>, remote::PrInfoView>::empty()
        })),
{
}

/// A request needs a branch, a host that is known by its URL, a base that is
/// another branch, and an upstream; what is missing is said, in this order, and
/// nothing is created.
pub proof fn request_says_what_is_missing(
    app: AppView,
    replies: Seq<Reply>,
    m: int,
    base: Option<Seq<char>>,
)
    requires
        replies.len() >= 1,
    ensures
        ({
            let (next, step) = advanced(app, ActionView::OpenRequest, replies);
            let info = match command::answer(replies[0]) {
                Ok(url) => remote::remote_of(text::trimmed(url)),
                Err(_) => None,
            };
            let found = git::base_step(replies.skip(1)) == StepView::Done(base, m);
            let to = match base {
                Some(b) => b,
                None => "main"@,
            };
            &&& app.tracking.branch is None ==> next == (AppView {
                message: "detached HEAD — switch to a branch first"@,
                ..app
            }) && step == StepView::Done(ActionView::Idle, 0)
            &&& app.tracking.branch is Some && info is None ==> next == (AppView {
                message: "couldn't detect remote host"@,
                ..app
            }) && step == StepView::Done(ActionView::Idle, 1)
            &&& app.tracking.branch == Some(to) && info is Some && found ==> next == (AppView {
                message: "you're on "@ + to + " — switch to a feature branch first"@,
                ..app
            }) && step == StepView::Done(ActionView::Idle, 1 + m)
            &&& app.tracking.branch is Some && app.tracking.branch != Some(to) && info is Some
                && found && app.tracking.upstream is None ==> next == (AppView {
                message: "no upstream — push first ([p]) so the branch exists on the remote"@,
                ..app
            }) && step == StepView::Done(ActionView::Idle, 1 + m)
        }),
{
}

/// A request is created by the host's own tool where that is installed: gh or
/// glab, told the base. Else the page that creates it is named, from the current
/// branch to the base, both in full.
pub proof fn request_is_for_the_current_branch(
    app: AppView,
    replies: Seq<Reply>,
    info: remote::RemoteInfoView,
    m: int,
    base: Option<Seq<char>>,
    head: Seq<char>,
)
    requires
        replies.len() >= 1,
        app.tracking.branch == Some(head),
        app.tracking.upstream is Some,
        command::answer(replies[0]) matches Ok(url) && remote::remote_of(text::trimmed(url))
            == Some(info),
        git::base_step(replies.skip(1)) == StepView::Done(base, m),
        0 <= m < replies.len(),
        head != (match base {
            Some(b) => b,
            None => "main"@,
        }),
    ensures
        ({
            let (next, step) = advanced(app, ActionView::OpenRequest, replies);
            let to = match base {
                Some(b) => b,
                None => "main"@,
            };
            let tool = replies[1 + m] matches Ok(out) && out.success && out.stdout@.len() > 0;
            let github = info.host == remote::Host::GitHub;
            let gitlab = info.host == remote::Host::GitLab;
            &&& replies.len() == 1 + m && github ==> next == app && step == StepView::<
                ActionView,
            >::Run(CommandView { program: "which"@, args: seq!["gh"@] })
            &&& replies.len() == 1 + m && gitlab ==> next == app && step == StepView::<
                ActionView,
            >::Run(CommandView { program: "which"@, args: seq!["glab"@] })
            &&& replies.len() > 1 + m && tool && github ==> next == app && step == StepView::Done(
                ActionView::RunAttached {
                    program: "gh"@,
                    args: seq!["pr"@, "create"@, "--base"@, to],
                },
                2 + m,
            )
            &&& replies.len() > 1 + m && tool && gitlab ==> next == app && step == StepView::Done(
                ActionView::RunAttached {
                    program: "glab"@,
                    args: seq!["mr"@, "create"@, "--target-branch"@, to],
                },
                2 + m,
            )
            &&& !github && !gitlab || replies.len() > 1 + m && !tool ==> next == (AppView {
                message: "open: "@ + remote::compare_page(info, to, head),
                ..app
            }) && (step matches StepView::Done(action, _) && action is Idle)
        }),
{
    let rest = replies.skip(1 + m);
    if replies.len() > 1 + m {
        assert(rest[0] == replies[1 + m]);
    } else {
        assert(rest.len() == 0);
    }
}

/// A program that ran well on the terminal is named, and everything is asked for
/// again; one that failed is named with its error.
pub proof fn attached_program_is_reported(
    app: AppView,
    program: Seq<char>,
    result: Result<(), Seq<char>>,
)
    ensures
        result is Ok ==> attached(app, program, result) == (
            AppView { message: "PR opened via "@ + program, ..app },
            ActionView::Refresh { message: None },
        ),
        result matches Err(e) ==> attached(app, program, result) == (
            AppView { message: program + " failed: "@ + e, ..app },
            ActionView::Idle,
        ),
{
}

/// A selection past the end goes to the last that there is, and stays where there
/// is nothing to select; files that cannot be read are those that were shown; a
/// message that was to be said is said even where the log fails.
pub proof fn refresh_keeps_what_it_can(
    app: AppView,
    history: Result<HistoryView, Seq<char>>,
    around: SurroundingsView,
    message: Option<Seq<char>>,
)
    ensures
        ({
            let next = refreshed(app, history, around, message);
            &&& next.rows.len() > 0 && app.graph_sel >= next.rows.len() ==> next.graph_sel
                == next.rows.len() - 1
            &&& next.rows.len() == 0 ==> next.graph_sel == app.graph_sel
            &&& next.status.len() > 0 && app.status_sel >= next.status.len() ==> next.status_sel
                == next.status.len() - 1
            &&& next.status.len() == 0 ==> next.status_sel == app.status_sel
            &&& around.status is None ==> next.status == app.status
            &&& message matches Some(m) ==> next.message == m
        }),
{
}

/// Where the main branch cannot be followed, asking again goes on as if no commit
/// were on it.
pub proof fn refresh_goes_on_without_the_main_branch(
    app: AppView,
    message: Option<Seq<char>>,
    replies: Seq<Reply>,
    n: int,
    m: int,
    commits: Seq<CommitView>,
    e: Seq<char>,
    around: SurroundingsView,
)
    requires
        git::log_step(2000, replies) == StepView::<Result<Seq<CommitView>, Seq<char>>>::Done(
            Ok(commits),
            n,
        ),
        git::chain_step(replies.skip(n)) == StepView::<Result<Seq<Seq<char>>, Seq<char>>>::Done(
            Err(e),
            m,
        ),
        surroundings_step(replies.skip(n + m)) matches StepView::Done(a, _) && a == around,
    ensures
        advanced(app, ActionView::Refresh { message }, replies).0.rows == graph::graph_of(
            commits,
            Set::empty(),
            around.remotes,
        ),
{
    assert(Seq::<Seq<char>>::empty().to_set() =~= Set::<Seq<char>>::empty());
}

} // verus!
