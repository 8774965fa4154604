//! The state of the program, and how keys and replies of commands change it.

use crate::git::{Branch, BranchView, StatusEntry, StatusEntryView, TrackingInfo, TrackingView};
use crate::graph::{GraphRow, GraphRowView};
use crate::remote::{PrInfo, PrInfoView};
use crate::ui::rows;
use crate::ui::Focus;
use vstd::hash_map::StringHashMap;
use vstd::prelude::*;

pub mod keys;
pub mod picker;
pub mod screen;
pub mod work;

verus! {

/// What the keys are for.
#[derive(Debug)]
pub enum Mode {
    Normal,
    /// A commit message is typed.
    CommitMessage(String),
    /// The name of a new branch is typed.
    NewBranch { name: String, target_sha: String },
    /// A branch is chosen.
    BranchPicker { query: String, sel: usize },
    /// The working tree blocked a switch.
    ConfirmStashAndSwitch { target: String },
    Help,
}

/// A mode as contracts speak of it.
pub enum ModeView {
    Normal,
    CommitMessage(Seq<char>),
    NewBranch { name: Seq<char>, target_sha: Seq<char> },
    BranchPicker { query: Seq<char>, sel: int },
    ConfirmStashAndSwitch { target: Seq<char> },
    Help,
}

impl DeepView for Mode {
    type V = ModeView;

    open spec fn deep_view(&self) -> ModeView {
        match self {
            Mode::Normal => ModeView::Normal,
            Mode::CommitMessage(buf) => ModeView::CommitMessage(buf@),
            Mode::NewBranch { name, target_sha } => ModeView::NewBranch {
                name: name@,
                target_sha: target_sha@,
            },
            Mode::BranchPicker { query, sel } => ModeView::BranchPicker {
                query: query@,
                sel: *sel as int,
            },
            Mode::ConfirmStashAndSwitch { target } => ModeView::ConfirmStashAndSwitch {
                target: target@,
            },
            Mode::Help => ModeView::Help,
        }
    }
}

/// The keys that are told apart.
#[derive(Debug, Clone, Copy, PartialEq, Eq, Structural)]
pub enum KeyCode {
    Char(char),
    Enter,
    Esc,
    Backspace,
    Tab,
    Up,
    Down,
    Other,
}

/// A key that was pressed.
#[derive(Debug, Clone, Copy, PartialEq, Eq, Structural)]
pub struct KeyEvent {
    pub code: KeyCode,
    /// Ctrl was held, and no other modifier.
    pub control: bool,
}

/// What the program has to do next.
#[derive(Debug)]
pub enum Action {
    /// Wait for a key.
    Idle,
    /// Load the diff of what is selected.
    LoadDiff,
    /// Ask git for everything that is shown, then show the message.
    Refresh { message: Option<String> },
    /// List the branches, and let one be chosen among those that match.
    ListBranches { query: String },
    /// Open a pull or merge request for the current branch.
    OpenRequest,
    Pull,
    Push,
    /// Stage the entry, or unstage it.
    Toggle(StatusEntry),
    Commit(String),
    CreateBranch { name: String, sha: String },
    Checkout(String),
    StashAndSwitch(String),
    /// Run a program on the terminal itself.
    RunAttached { program: String, args: Vec<String> },
}

/// An action as contracts speak of it.
pub enum ActionView {
    Idle,
    LoadDiff,
    Refresh { message: Option<Seq<char>> },
    ListBranches { query: Seq<char> },
    OpenRequest,
    Pull,
    Push,
    Toggle(StatusEntryView),
    Commit(Seq<char>),
    CreateBranch { name: Seq<char>, sha: Seq<char> },
    Checkout(Seq<char>),
    StashAndSwitch(Seq<char>),
    RunAttached { program: Seq<char>, args: Seq<Seq<char>> },
}

impl DeepView for Action {
    type V = ActionView;

    open spec fn deep_view(&self) -> ActionView {
        match self {
            Action::Idle => ActionView::Idle,
            Action::LoadDiff => ActionView::LoadDiff,
            Action::Refresh { message } => ActionView::Refresh { message: message.deep_view() },
            Action::ListBranches { query } => ActionView::ListBranches { query: query@ },
            Action::OpenRequest => ActionView::OpenRequest,
            Action::Pull => ActionView::Pull,
            Action::Push => ActionView::Push,
            Action::Toggle(entry) => ActionView::Toggle(entry.deep_view()),
            Action::Commit(message) => ActionView::Commit(message@),
            Action::CreateBranch { name, sha } => ActionView::CreateBranch {
                name: name@,
                sha: sha@,
            },
            Action::Checkout(name) => ActionView::Checkout(name@),
            Action::StashAndSwitch(target) => ActionView::StashAndSwitch(target@),
            Action::RunAttached { program, args } => ActionView::RunAttached {
                program: program@,
                args: args.deep_view(),
            },
        }
    }
}

/// The state of the program.
pub struct App {
    pub rows: Vec<GraphRow>,
    pub status: Vec<StatusEntry>,
    pub tracking: TrackingInfo,
    /// The branches that the picker offers, as of when it was opened.
    pub branches: Vec<Branch>,
    pub remotes: Vec<String>,
    /// The open pull requests by their head branch.
    pub prs: StringHashMap<PrInfo>,
    pub graph_sel: usize,
    pub status_sel: usize,
    pub graph_scroll: usize,
    pub status_scroll: usize,
    pub diff_scroll: usize,
    pub focus: Focus,
    pub diff: String,
    pub message: String,
    pub quit: bool,
    pub mode: Mode,
}

/// The state of the program as contracts speak of it.
pub struct AppView {
    pub rows: Seq<GraphRowView>,
    pub status: Seq<StatusEntryView>,
    pub tracking: TrackingView,
    pub branches: Seq<BranchView>,
    pub remotes: Seq<Seq<char>>,
    pub prs: Map<Seq<char>, PrInfoView>,
    pub graph_sel: int,
    pub status_sel: int,
    pub graph_scroll: int,
    pub status_scroll: int,
    pub diff_scroll: int,
    pub focus: Focus,
    pub diff: Seq<char>,
    pub message: Seq<char>,
    pub quit: bool,
    pub mode: ModeView,
}

impl DeepView for App {
    type V = AppView;

    open spec fn deep_view(&self) -> AppView {
        AppView {
            rows: self.rows.deep_view(),
            status: self.status.deep_view(),
            tracking: self.tracking.deep_view(),
            branches: self.branches.deep_view(),
            remotes: self.remotes.deep_view(),
            prs: rows::pr_views(self.prs@),
            graph_sel: self.graph_sel as int,
            status_sel: self.status_sel as int,
            graph_scroll: self.graph_scroll as int,
            status_scroll: self.status_scroll as int,
            diff_scroll: self.diff_scroll as int,
            focus: self.focus,
            diff: self.diff@,
            message: self.message@,
            quit: self.quit,
            mode: self.mode.deep_view(),
        }
    }
}

impl App {
    /// The place of the selected file can be counted from one.
    pub open spec fn wf(self) -> bool {
        self.status_sel < usize::MAX
    }
}

} // verus!
