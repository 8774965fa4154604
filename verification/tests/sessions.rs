//! Keys, work and the whole screen.

use spor::app::keys::handle_key;
use spor::app::picker::{branches_holding, filtered_branches, order_branches};
use spor::app::screen::render;
use spor::app::work::{advance, exit_failure, finish_attached, spawn_failure};
use spor::app::{Action, App, KeyCode, KeyEvent, Mode};
use spor::canvas::{Canvas, Paint};
use spor::command::{Output, Reply, Step};
use spor::git::{Branch, FileStatus};
use spor::ui::{Focus, Layout};

fn ok(out: &str) -> Reply {
    Ok(Output {
        success: true,
        stdout: out.as_bytes().to_vec(),
        stderr: Vec::new(),
    })
}

fn failed(err: &str) -> Reply {
    Ok(Output {
        success: false,
        stdout: Vec::new(),
        stderr: err.as_bytes().to_vec(),
    })
}

/// A record of the log.
fn record(hash: &str, parents: &str, refs: &str) -> String {
    format!("{hash}\x1f{hash}\x1f{parents}\x1f{refs}\x1fsubject {hash}\x1fAda\x1f0\x1e\n")
}

/// Answers commands like a repository of three commits with two files.
fn repository(args: &[String]) -> Reply {
    let line = args.join(" ");
    if line.starts_with("log --all") {
        let log = record("c", "b", "HEAD -> main, origin/main")
            + &record("b", "a", "tag: v1")
            + &record("a", "", "dev");
        ok(&log)
    } else if line == "rev-parse --verify main" {
        ok("c")
    } else if line.starts_with("log --first-parent") {
        ok("c\nb\na\n")
    } else if line.starts_with("status --porcelain=v1") {
        ok("M  staged.rs\0 M edited.rs\0")
    } else if line.starts_with("status --porcelain=v2") {
        ok("# branch.head main\n# branch.upstream origin/main\n# branch.ab +1 -2\n")
    } else if line == "remote" {
        ok("origin\n")
    } else if line.starts_with("show") || line.starts_with("diff") {
        ok(&format!("diff of {line}"))
    } else {
        failed("unknown command")
    }
}

/// Runs one action with the answers of a function.
fn run(app: &mut App, action: &Action, answer: &dyn Fn(&str, &[String]) -> Reply) -> Action {
    let mut replies: Vec<Reply> = Vec::new();
    loop {
        match advance(app, action, &replies) {
            Step::Run(c) => replies.push(answer(&c.program, &c.args)),
            Step::Done(next, n) => {
                assert_eq!(n, replies.len());
                return next;
            }
        }
    }
}

/// Runs an action and what follows.
fn settle(app: &mut App, action: Action, answer: &dyn Fn(&str, &[String]) -> Reply) {
    let mut action = action;
    while !matches!(action, Action::Idle) {
        action = run(app, &action, answer);
    }
}

fn fresh() -> App {
    let mut replies: Vec<Reply> = Vec::new();
    loop {
        match App::new(&replies) {
            Step::Run(c) => replies.push(repository(&c.args)),
            Step::Done(app, n) => {
                assert_eq!(n, replies.len());
                let mut app = app.unwrap();
                settle(&mut app, Action::LoadDiff, &|_, args| repository(args));
                return app;
            }
        }
    }
}

fn layout() -> Layout {
    Layout::new(80, 24)
}

fn key(code: KeyCode) -> KeyEvent {
    KeyEvent {
        code,
        control: false,
    }
}

fn press(app: &mut App, code: KeyCode) -> Action {
    handle_key(app, key(code), &layout())
}

fn char(app: &mut App, c: char) -> Action {
    press(app, KeyCode::Char(c))
}

#[test]
fn first_state_shows_the_repository() {
    let app = fresh();
    assert_eq!(app.rows.len(), 3);
    assert!(app.rows.iter().all(|r| r.lane == 0));
    assert_eq!(app.status.len(), 2);
    assert_eq!(app.tracking.behind, 2);
    assert_eq!(app.remotes, vec!["origin"]);
    assert_eq!(app.message, "ready");
    assert_eq!(app.diff, "diff of show --stat --patch c");
    assert!(!app.quit);
}

#[test]
fn start_fails_without_a_log() {
    let step = App::new(&[failed("fatal: not a git repository")]);
    match step {
        Step::Done(Err(e), 1) => assert_eq!(e, "fatal: not a git repository"),
        _ => panic!("no error"),
    }
    match App::new(&[ok(""), ok(""), failed("bad chain")]) {
        Step::Done(Err(e), 3) => assert_eq!(e, "bad chain"),
        _ => panic!("no error"),
    }
}

#[test]
fn quit_keys_quit() {
    let mut app = fresh();
    assert!(matches!(char(&mut app, 'q'), Action::Idle));
    assert!(app.quit);
    let mut app = fresh();
    let ctrl_c = KeyEvent {
        code: KeyCode::Char('c'),
        control: true,
    };
    handle_key(&mut app, ctrl_c, &layout());
    assert!(app.quit);
    let mut app = fresh();
    app.mode = Mode::CommitMessage(String::new());
    handle_key(&mut app, ctrl_c, &layout());
    char(&mut app, 'q');
    assert!(!app.quit);
    assert!(matches!(&app.mode, Mode::CommitMessage(m) if m == "cq"));
    app.mode = Mode::Help;
    handle_key(&mut app, ctrl_c, &layout());
    assert!(app.quit);
    assert!(matches!(app.mode, Mode::Help));
}

#[test]
fn selection_moves_and_loads_diffs() {
    let mut app = fresh();
    assert!(matches!(press(&mut app, KeyCode::Up), Action::Idle));
    assert!(matches!(char(&mut app, 'j'), Action::LoadDiff));
    assert_eq!(app.graph_sel, 1);
    app.diff_scroll = 5;
    settle(&mut app, Action::LoadDiff, &|_, args| repository(args));
    assert_eq!(app.diff, "diff of show --stat --patch b");
    assert_eq!(app.diff_scroll, 0);
    assert!(matches!(press(&mut app, KeyCode::Down), Action::LoadDiff));
    assert!(matches!(press(&mut app, KeyCode::Down), Action::Idle));
    assert_eq!(app.graph_sel, 2);
    char(&mut app, 'k');
    assert_eq!(app.graph_sel, 1);
    char(&mut app, 'J');
    char(&mut app, 'J');
    char(&mut app, 'K');
    assert_eq!(app.diff_scroll, 1);
}

#[test]
fn selection_scrolls_on_low_screens() {
    let mut app = fresh();
    let low = Layout::new(80, 3);
    handle_key(&mut app, key(KeyCode::Down), &low);
    assert_eq!(app.graph_scroll, 0);
    handle_key(&mut app, key(KeyCode::Down), &low);
    assert_eq!((app.graph_sel, app.graph_scroll), (2, 1));
    handle_key(&mut app, key(KeyCode::Up), &low);
    handle_key(&mut app, key(KeyCode::Up), &low);
    assert_eq!((app.graph_sel, app.graph_scroll), (0, 0));
}

#[test]
fn tab_switches_the_focus() {
    let mut app = fresh();
    let action = press(&mut app, KeyCode::Tab);
    assert_eq!(app.focus, Focus::Status);
    settle(&mut app, action, &|_, args| repository(args));
    assert_eq!(app.diff, "diff of diff --cached -- staged.rs");
    let action = char(&mut app, 'j');
    settle(&mut app, action, &|_, args| repository(args));
    assert_eq!(app.diff, "diff of diff -- edited.rs");
    press(&mut app, KeyCode::Tab);
    assert_eq!(app.focus, Focus::Graph);
}

#[test]
fn space_stages_and_unstages() {
    let mut app = fresh();
    press(&mut app, KeyCode::Tab);
    let action = char(&mut app, ' ');
    match advance(&mut app, &action, &[]) {
        Step::Run(c) => assert_eq!(c.args.join(" "), "restore --staged -- staged.rs"),
        _ => panic!("no command"),
    }
    assert_eq!(app.message, "ready");
    settle(&mut app, action, &|_, args| {
        if args[0] == "restore" {
            ok("")
        } else {
            repository(args)
        }
    });
    assert_eq!(app.message, "toggled staged.rs");
    char(&mut app, 'j');
    let action = char(&mut app, ' ');
    match advance(&mut app, &action, &[]) {
        Step::Run(c) => assert_eq!(c.args.join(" "), "add -- edited.rs"),
        _ => panic!("no command"),
    }
    let next = run(&mut app, &action, &|_, _| failed("two\nlines"));
    assert!(matches!(next, Action::Idle));
    assert_eq!(app.message, "stage failed: two\nlines");
    assert_eq!(app.status[0].status, FileStatus::Staged);
}

#[test]
fn space_unstages_a_staged_deletion() {
    let mut app = fresh();
    app.status[0].status = FileStatus::StagedDeleted;
    app.status[1].status = FileStatus::Deleted;
    press(&mut app, KeyCode::Tab);
    let first_command = |app: &mut App, action: &Action| match advance(app, action, &[]) {
        Step::Run(c) => c.args.join(" "),
        _ => panic!("no command"),
    };
    assert_eq!(
        first_command(&mut app, &Action::LoadDiff),
        "diff --cached -- staged.rs"
    );
    let action = char(&mut app, ' ');
    assert_eq!(
        first_command(&mut app, &action),
        "restore --staged -- staged.rs"
    );
    char(&mut app, 'j');
    assert_eq!(
        first_command(&mut app, &Action::LoadDiff),
        "diff -- edited.rs"
    );
    let action = char(&mut app, ' ');
    assert_eq!(first_command(&mut app, &action), "add -- edited.rs");
}

#[test]
fn lanes_take_families_by_the_remotes() {
    let answer = |remotes: &'static str| {
        move |_: &str, args: &[String]| {
            let line = args.join(" ");
            if line.starts_with("log --all") {
                ok(&(record("f", "c", "feat/login") + &record("c", "", "main")))
            } else if line == "remote" {
                ok(remotes)
            } else {
                repository(args)
            }
        }
    };
    let mut app = fresh();
    settle(&mut app, Action::Refresh { message: None }, &answer("origin\n"));
    assert_eq!(app.rows[0].branch_family, "feat");
    settle(&mut app, Action::Refresh { message: None }, &answer("feat\n"));
    assert_eq!(app.rows[0].branch_family, "login");
    assert_eq!(app.rows[1].branch_family, "main");
}

#[test]
fn large_diff_scroll_stops_no_key_but_the_one_that_scrolls() {
    let mut app = fresh();
    app.diff_scroll = usize::MAX;
    press(&mut app, KeyCode::Tab);
    char(&mut app, 'J');
    char(&mut app, 'c');
    char(&mut app, 'J');
    assert!(matches!(&app.mode, Mode::CommitMessage(buf) if buf == "J"));
    assert_eq!(app.diff_scroll, usize::MAX);
}

#[test]
fn commits_are_typed_and_made() {
    let mut app = fresh();
    press(&mut app, KeyCode::Tab);
    char(&mut app, 'c');
    assert!(matches!(press(&mut app, KeyCode::Enter), Action::Idle));
    assert_eq!(app.message, "empty message, cancelled");
    char(&mut app, 'c');
    for c in "fix x".chars() {
        char(&mut app, c);
    }
    press(&mut app, KeyCode::Backspace);
    char(&mut app, 'ß');
    press(&mut app, KeyCode::Tab);
    assert!(matches!(&app.mode, Mode::CommitMessage(m) if m == "fix ß"));
    let action = press(&mut app, KeyCode::Enter);
    assert!(matches!(app.mode, Mode::Normal));
    match &action {
        Action::Commit(m) => assert_eq!(m, "fix ß"),
        _ => panic!("no commit"),
    }
    settle(&mut app, action, &|_, args| {
        if args[0] == "commit" {
            ok("")
        } else {
            repository(args)
        }
    });
    assert_eq!(app.message, "committed: fix ß");
    char(&mut app, 'c');
    press(&mut app, KeyCode::Backspace);
    press(&mut app, KeyCode::Esc);
    assert_eq!(app.message, "commit cancelled");
    let next = run(&mut app, &Action::Commit("m".to_string()), &|_, _| {
        failed("hook failed\nmore")
    });
    assert!(matches!(next, Action::Idle));
    assert_eq!(app.message, "commit failed: hook failed");
}

#[test]
fn branches_are_created_from_the_selected_commit() {
    let mut app = fresh();
    char(&mut app, 'j');
    char(&mut app, 'n');
    press(&mut app, KeyCode::Enter);
    assert_eq!(app.message, "empty name, cancelled");
    char(&mut app, 'n');
    for c in " x ".chars() {
        char(&mut app, c);
    }
    let action = press(&mut app, KeyCode::Enter);
    match advance(&mut app, &action, &[]) {
        Step::Run(c) => assert_eq!(c.args, vec!["switch", "-c", "x", "b"]),
        _ => panic!("no command"),
    }
    let next = run(&mut app, &action, &|_, _| ok(""));
    assert!(matches!(next, Action::Refresh { message: None }));
    assert_eq!(app.message, "created and switched to  x ");
    run(&mut app, &action, &|_, _| failed("exists"));
    assert_eq!(app.message, "create failed: exists");
    char(&mut app, 'n');
    press(&mut app, KeyCode::Esc);
    assert_eq!(app.message, "cancelled");
}

#[test]
fn checkout_at_the_selected_commit() {
    let mut app = fresh();
    // Two branches here: the picker opens with the first as the query.
    match press(&mut app, KeyCode::Enter) {
        Action::ListBranches { query } => assert_eq!(query, "main"),
        _ => panic!("no picker"),
    }
    char(&mut app, 'j');
    // Only a tag here.
    assert!(matches!(char(&mut app, 'o'), Action::Idle));
    assert_eq!(
        app.message,
        "no branch here — [n] to create one, [b] to pick another"
    );
    char(&mut app, 'j');
    let action = char(&mut app, 'o');
    match &action {
        Action::Checkout(name) => assert_eq!(name, "dev"),
        _ => panic!("no checkout"),
    }
    let next = run(&mut app, &action, &|_, _| ok(""));
    assert!(matches!(next, Action::Refresh { message: None }));
    assert_eq!(app.message, "switched to dev");
    run(&mut app, &action, &|_, _| failed("fatal: no\nx"));
    assert_eq!(app.message, "switch failed: fatal: no");
}

#[test]
fn blocked_switch_asks_and_stashes() {
    let mut app = fresh();
    let action = Action::Checkout("dev".to_string());
    let next = run(&mut app, &action, &|_, _| {
        failed("error: Your local changes would be overwritten")
    });
    assert!(matches!(next, Action::Idle));
    assert!(matches!(&app.mode, Mode::ConfirmStashAndSwitch { target } if target == "dev"));
    char(&mut app, 'x');
    assert!(matches!(&app.mode, Mode::ConfirmStashAndSwitch { .. }));
    let action = char(&mut app, 's');
    assert!(matches!(app.mode, Mode::Normal));
    let next = run(&mut app, &action, &|_, _| ok(""));
    assert!(matches!(next, Action::Refresh { message: None }));
    assert_eq!(app.message, "stashed and switched to dev");
    run(&mut app, &action, &|_, _| failed("no stash\n"));
    assert_eq!(app.message, "stash failed: no stash");
    run(&mut app, &action, &|_, args| {
        if args[0] == "stash" {
            ok("")
        } else {
            failed("still\n")
        }
    });
    assert_eq!(app.message, "switch still failed: still");
    app.mode = Mode::ConfirmStashAndSwitch {
        target: "dev".to_string(),
    };
    char(&mut app, 'c');
    assert!(matches!(app.mode, Mode::Normal));
    assert_eq!(app.message, "cancelled");
}

#[test]
fn push_warns_once_when_behind() {
    let mut app = fresh();
    assert!(matches!(char(&mut app, 'p'), Action::Idle));
    assert_eq!(
        app.message,
        "behind by 2 — pull first ([P]), or press [p] again to force-push intent"
    );
    assert!(matches!(char(&mut app, 'p'), Action::Push));
    let next = run(&mut app, &Action::Push, &|_, _| ok(""));
    assert!(matches!(next, Action::Refresh { message: None }));
    assert_eq!(app.message, "pushed");
    run(&mut app, &Action::Push, &|_, _| failed("rejected\nhint"));
    assert_eq!(app.message, "push failed: rejected");
}

#[test]
fn pull_says_the_first_line() {
    let mut app = fresh();
    assert!(matches!(char(&mut app, 'P'), Action::Pull));
    run(&mut app, &Action::Pull, &|_, _| ok("Updating a..b\nFast-forward\n"));
    assert_eq!(app.message, "pulled: Updating a..b");
    run(&mut app, &Action::Pull, &|_, _| ok(""));
    assert_eq!(app.message, "pulled: ok");
    run(&mut app, &Action::Pull, &|_, _| failed("fatal: x\ny"));
    assert_eq!(app.message, "pull failed: fatal: x");
    run(&mut app, &Action::Pull, &|_, _| failed(""));
    assert_eq!(app.message, "pull failed: ");
}

#[test]
fn refresh_keeps_the_selection_inside() {
    let mut app = fresh();
    app.graph_sel = 2;
    app.status_sel = 1;
    let action = char(&mut app, 'r');
    settle(&mut app, action, &|_, args| {
        let line = args.join(" ");
        if line.starts_with("log --all") {
            ok(&record("z", "", ""))
        } else if line.starts_with("status --porcelain=v1") {
            failed("")
        } else {
            repository(args)
        }
    });
    assert_eq!(app.message, "refreshed");
    assert_eq!(app.rows.len(), 1);
    assert_eq!(app.graph_sel, 0);
    assert!(app.status.is_empty());
    assert_eq!(app.status_sel, 1);
    // A log that fails leaves the graph.
    settle(
        &mut app,
        Action::Refresh { message: None },
        &|_, _| failed("broken"),
    );
    assert_eq!(app.message, "log error: broken");
    assert_eq!(app.rows.len(), 1);
    assert_eq!(app.tracking.branch, None);
    assert!(app.remotes.is_empty());
    assert_eq!(app.diff, "");
}

#[test]
fn refresh_goes_on_without_a_main_branch() {
    let mut app = fresh();
    settle(&mut app, Action::Refresh { message: None }, &|_, args| {
        if args[0] == "log" && args[1] == "--first-parent" {
            failed("gone")
        } else {
            repository(args)
        }
    });
    assert_eq!(app.message, "ready");
    assert_eq!(app.rows.len(), 3);
    assert!(app.rows.iter().all(|r| r.lane == 1));
}

#[test]
fn unreadable_status_leaves_the_files() {
    let mut app = fresh();
    settle(&mut app, Action::Refresh { message: None }, &|_, args| {
        if args[0] == "status" && args[1] == "--porcelain=v1" {
            ok("M\u{20ac}x\0")
        } else {
            repository(args)
        }
    });
    assert_eq!(app.status.len(), 2);
}

fn branch(name: &str, current: bool, remote: bool) -> Branch {
    Branch {
        name: name.to_string(),
        is_current: current,
        is_remote: remote,
    }
}

fn names(branches: &[Branch]) -> Vec<&str> {
    branches.iter().map(|b| b.name.as_str()).collect()
}

#[test]
fn picker_orders_branches() {
    let sorted = order_branches(vec![
        branch("origin/a", false, true),
        branch("zeta", false, false),
        branch("alpha", false, false),
        branch("work", true, false),
        branch("Alpha", false, false),
        branch("alp", false, false),
    ]);
    assert_eq!(
        names(&sorted),
        vec!["work", "Alpha", "alp", "alpha", "zeta", "origin/a"]
    );
    assert!(order_branches(Vec::new()).is_empty());
}

#[test]
fn picker_filters_without_regard_to_case() {
    let all = vec![
        branch("Feat/Login", false, false),
        branch("fix/GRÜN", false, false),
        branch("main", false, false),
    ];
    let found = |q: &str| -> Vec<String> {
        filtered_branches(&all, q)
            .iter()
            .map(|b| b.name.clone())
            .collect()
    };
    assert_eq!(found(""), vec!["Feat/Login", "fix/GRÜN", "main"]);
    assert_eq!(found("LOG"), vec!["Feat/Login"]);
    assert_eq!(found("f"), vec!["Feat/Login", "fix/GRÜN"]);
    assert_eq!(found("grün"), vec!["fix/GRÜN"]);
    assert!(found("zzz").is_empty());
    let texts = vec!["a".to_string(), "ab".to_string(), "b".to_string()];
    let held: Vec<&str> = branches_holding(&all, &texts, "b")
        .iter()
        .map(|b| b.name.as_str())
        .collect();
    assert_eq!(held, vec!["fix/GRÜN", "main"]);
}

#[test]
fn picker_is_driven_by_keys() {
    let mut app = fresh();
    let action = char(&mut app, 'b');
    let list = "*\trefs/heads/main\n \trefs/heads/dev\n \trefs/remotes/origin/dev\n";
    let next = run(&mut app, &action, &|_, _| ok(list));
    assert!(matches!(next, Action::Idle));
    assert!(matches!(&app.mode, Mode::BranchPicker { query, sel: 0 } if query.is_empty()));
    assert_eq!(names(&app.branches), vec!["main", "dev", "origin/dev"]);
    press(&mut app, KeyCode::Down);
    press(&mut app, KeyCode::Down);
    press(&mut app, KeyCode::Down);
    assert!(matches!(app.mode, Mode::BranchPicker { sel: 2, .. }));
    press(&mut app, KeyCode::Up);
    assert!(matches!(app.mode, Mode::BranchPicker { sel: 1, .. }));
    char(&mut app, 'D');
    assert!(matches!(&app.mode, Mode::BranchPicker { query, sel: 0 } if query == "D"));
    press(&mut app, KeyCode::Down);
    match press(&mut app, KeyCode::Enter) {
        Action::Checkout(name) => assert_eq!(name, "origin/dev"),
        _ => panic!("no checkout"),
    }
    assert!(matches!(app.mode, Mode::Normal));
    app.mode = Mode::BranchPicker {
        query: "zz".to_string(),
        sel: 0,
    };
    assert!(matches!(press(&mut app, KeyCode::Enter), Action::Idle));
    press(&mut app, KeyCode::Backspace);
    assert!(matches!(&app.mode, Mode::BranchPicker { query, .. } if query == "z"));
    press(&mut app, KeyCode::Esc);
    assert!(matches!(app.mode, Mode::Normal));
    let next = run(&mut app, &action, &|_, _| failed("no\nlist"));
    assert!(matches!(next, Action::Idle));
    assert_eq!(app.message, "list branches failed: no\nlist");
}

#[test]
fn help_goes_away_on_any_key() {
    let mut app = fresh();
    char(&mut app, '?');
    assert!(matches!(app.mode, Mode::Help));
    char(&mut app, 'q');
    assert!(matches!(app.mode, Mode::Normal));
    assert!(!app.quit);
}

#[test]
fn requests_are_refused_step_by_step() {
    let origin = "git@github.com:a/b.git";
    let mut app = fresh();
    let ask = |app: &mut App, answer: &dyn Fn(&str, &[String]) -> Reply| {
        run(app, &Action::OpenRequest, answer)
    };
    app.tracking.branch = None;
    ask(&mut app, &|_, _| panic!("no command expected"));
    assert_eq!(app.message, "detached HEAD — switch to a branch first");
    app.tracking.branch = Some("feat/x".to_string());
    ask(&mut app, &|_, _| failed(""));
    assert_eq!(app.message, "couldn't detect remote host");
    let hosted = |args: &[String], base: &str| -> Reply {
        if args[0] == "remote" {
            ok(origin)
        } else if args[0] == "symbolic-ref" {
            ok(&format!("refs/remotes/origin/{base}\n"))
        } else {
            failed("")
        }
    };
    ask(&mut app, &|_, args| hosted(args, "feat/x"));
    assert_eq!(
        app.message,
        "you're on feat/x — switch to a feature branch first"
    );
    app.tracking.upstream = None;
    ask(&mut app, &|_, args| hosted(args, "dev"));
    assert_eq!(
        app.message,
        "no upstream — push first ([p]) so the branch exists on the remote"
    );
    app.tracking.upstream = Some("origin/feat/x".to_string());
    ask(&mut app, &|_, args| hosted(args, "dev"));
    assert_eq!(
        app.message,
        "open: https://github.com/a/b/compare/dev...feat/x?expand=1"
    );
    let next = ask(&mut app, &|program, args| {
        if program == "which" {
            ok("/bin/gh")
        } else {
            hosted(args, "dev")
        }
    });
    match next {
        Action::RunAttached { program, args } => {
            assert_eq!(program, "gh");
            assert_eq!(args, vec!["pr", "create", "--base", "dev"]);
        }
        _ => panic!("no program"),
    }
    // Without a default branch of the remote the base is main.
    ask(&mut app, &|_, args| {
        if args[0] == "remote" {
            ok(origin)
        } else {
            failed("")
        }
    });
    assert_eq!(
        app.message,
        "open: https://github.com/a/b/compare/main...feat/x?expand=1"
    );
}

#[test]
fn attached_programs_are_reported() {
    let mut app = fresh();
    let next = finish_attached(&mut app, "gh", Ok(()));
    assert!(matches!(next, Action::Refresh { message: None }));
    assert_eq!(app.message, "PR opened via gh");
    let next = finish_attached(&mut app, "gh", Err(exit_failure("gh", "exit status: 1")));
    assert!(matches!(next, Action::Idle));
    assert_eq!(app.message, "gh failed: gh exited with exit status: 1");
    assert_eq!(
        spawn_failure("glab", "not found"),
        "failed to spawn glab: not found"
    );
    let attached = Action::RunAttached {
        program: "gh".to_string(),
        args: Vec::new(),
    };
    assert!(matches!(
        advance(&mut app, &attached, &[]),
        Step::Done(Action::Idle, 0)
    ));
}

fn texts(canvas: &Canvas) -> Vec<String> {
    canvas
        .steps
        .iter()
        .filter_map(|s| match s {
            Paint::Text(t) => Some(t.clone()),
            _ => None,
        })
        .collect()
}

#[test]
fn screen_shows_panes_and_prompts() {
    let mut app = fresh();
    let mut out = Canvas::new();
    render(&mut app, &layout(), 0, &mut out);
    let seen = texts(&out).concat();
    assert!(seen.contains("(▶main) (origin/main) subject c"));
    assert!(seen.contains(" Working tree "));
    assert!(seen.contains("diff of show"));
    assert!(seen.contains("[?] help  [j/k] move  [enter]"));
    for (mode, prompt) in [
        (
            Mode::CommitMessage("m".to_string()),
            "commit message: m_  │  [enter] commit  [esc] cancel",
        ),
        (
            Mode::NewBranch {
                name: "n".to_string(),
                target_sha: "x".to_string(),
            },
            "new branch: n_  │  [enter] create  [esc] cancel",
        ),
        (
            Mode::ConfirmStashAndSwitch {
                target: "t".to_string(),
            },
            "uncommitted changes conflict with switch to 't'",
        ),
        (Mode::Help, " Keyboard shortcuts "),
        (
            Mode::BranchPicker {
                query: "que".to_string(),
                sel: 0,
            },
            "que_",
        ),
    ] {
        app.mode = mode;
        let mut out = Canvas::new();
        render(&mut app, &Layout::new(120, 24), 0, &mut out);
        assert!(texts(&out).concat().contains(prompt), "{prompt}");
    }
}

#[test]
fn screen_scrolls_to_the_selection() {
    let mut app = fresh();
    let template = app.status[1].clone();
    for i in 0..30 {
        let mut e = template.clone();
        e.path = format!("file-{i}");
        app.status.push(e);
    }
    app.status_sel = 20;
    app.graph_sel = 2;
    app.graph_scroll = 7;
    let mut out = Canvas::new();
    render(&mut app, &layout(), 0, &mut out);
    assert_eq!(app.graph_scroll, 2);
    assert_eq!(app.status_scroll, 14);
    assert!(texts(&out).iter().any(|t| t == "file-18"));
    let mut out = Canvas::new();
    render(&mut app, &layout(), 0, &mut out);
    assert_eq!((app.graph_scroll, app.status_scroll), (2, 14));
    app.graph_scroll = 9;
    let mut out = Canvas::new();
    render(&mut app, &Layout::new(40, 8), 0, &mut out);
    assert_eq!(app.graph_scroll, 9);
    assert!(texts(&out).concat().contains("spor needs"));
}

#[test]
fn cursor_never_leaves_the_screen() {
    for (w, h) in [(60, 12), (61, 13), (80, 24), (200, 60), (60, 200), (10, 4), (1, 1)] {
        let layout = Layout::new(w, h);
        for mode in [
            Mode::Normal,
            Mode::Help,
            Mode::BranchPicker {
                query: String::new(),
                sel: 0,
            },
        ] {
            let mut app = fresh();
            app.diff = "x\n".repeat(500);
            app.mode = mode;
            let mut out = Canvas::new();
            render(&mut app, &layout, 0, &mut out);
            for step in &out.steps {
                if let Paint::MoveTo(row, col) = step {
                    assert!(*row < h && *col < w, "{w}x{h}: {row},{col}");
                }
            }
        }
    }
}

#[test]
fn pull_requests_are_taken() {
    let mut app = fresh();
    let prs = spor::remote::parse_pr_lines("7\tmain\topen\t\tSUCCESS\n");
    app.set_prs(&prs);
    let mut out = Canvas::new();
    render(&mut app, &Layout::new(120, 24), 0, &mut out);
    assert!(texts(&out).concat().contains("(▶main #7✓) (origin/main) "));
}

#[test]
fn keys_alone_keep_what_git_told() {
    for code in [
        KeyCode::Char('r'),
        KeyCode::Char('b'),
        KeyCode::Char('P'),
        KeyCode::Char('p'),
        KeyCode::Char('R'),
        KeyCode::Enter,
        KeyCode::Other,
        KeyCode::Esc,
        KeyCode::Backspace,
    ] {
        let mut app = fresh();
        let before = (app.rows.len(), app.status.len(), app.diff.clone());
        press(&mut app, code);
        assert_eq!((app.rows.len(), app.status.len(), app.diff.clone()), before);
        assert_eq!((app.graph_sel, app.status_sel), (0, 0));
        assert!(!app.quit);
    }
}

#[test]
fn esc_leaves_prompts_and_boxes() {
    for mode in [
        Mode::CommitMessage("m".to_string()),
        Mode::NewBranch {
            name: "n".to_string(),
            target_sha: "x".to_string(),
        },
        Mode::BranchPicker {
            query: "q".to_string(),
            sel: 3,
        },
        Mode::ConfirmStashAndSwitch {
            target: "t".to_string(),
        },
        Mode::Help,
        Mode::Normal,
    ] {
        let mut app = fresh();
        app.mode = mode;
        assert!(matches!(press(&mut app, KeyCode::Esc), Action::Idle));
        assert!(matches!(app.mode, Mode::Normal));
    }
}

#[test]
fn typing_is_undone_by_backspace() {
    let mut app = fresh();
    app.mode = Mode::NewBranch {
        name: "ab".to_string(),
        target_sha: "x".to_string(),
    };
    char(&mut app, '日');
    press(&mut app, KeyCode::Backspace);
    assert!(matches!(&app.mode, Mode::NewBranch { name, .. } if name == "ab"));
    press(&mut app, KeyCode::Backspace);
    press(&mut app, KeyCode::Backspace);
    press(&mut app, KeyCode::Backspace);
    assert!(matches!(&app.mode, Mode::NewBranch { name, .. } if name.is_empty()));
}
