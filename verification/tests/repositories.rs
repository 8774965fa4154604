//! What git is asked, and how its answers are read.

use spor::command::{launch_failure, run_ok, succeeded, Command, Output, Reply, Step};
use spor::git::{
    checkout_branch, commit, create_branch_at, default_base_branch, diff_commit, diff_file,
    discard_worktree, is_worktree_conflict, list_branches, log_all, main_branch, main_chain,
    parse_log, parse_refs, parse_status, parse_tracking, pull, push, push_args, remotes,
    remove_untracked, stage, stash_push, status, status_readable, tracking, try_status, unstage,
    FileStatus, StatusEntry,
};

fn ok(out: &str) -> Reply {
    Ok(Output {
        success: true,
        stdout: out.as_bytes().to_vec(),
        stderr: Vec::new(),
    })
}

fn failed(err: &str) -> Reply {
    Ok(Output {
        success: false,
        stdout: Vec::new(),
        stderr: err.as_bytes().to_vec(),
    })
}

fn line(c: &Command) -> String {
    let mut words = vec![c.program.clone()];
    words.extend(c.args.iter().cloned());
    words.join(" ")
}

fn asks<T>(step: Step<T>) -> String {
    match step {
        Step::Run(c) => line(&c),
        Step::Done(_, _) => panic!("done"),
    }
}

fn done<T>(step: Step<T>) -> (T, usize) {
    match step {
        Step::Run(c) => panic!("asks {}", line(&c)),
        Step::Done(t, n) => (t, n),
    }
}

#[test]
fn parse_status_untracked_and_modified() {
    let entries = parse_status("?? new.txt\0 M lib.rs\0");
    assert_eq!(entries.len(), 2);
    assert_eq!(entries[0].status, FileStatus::Untracked);
    assert_eq!(entries[0].path, "new.txt");
    assert_eq!(entries[1].status, FileStatus::Modified);
    assert_eq!(entries[1].path, "lib.rs");
}

#[test]
fn parse_status_staged_and_modified_same_file() {
    // "MM" = staged changes plus further unstaged edits → two entries.
    let entries = parse_status("MM src/main.rs\0");
    assert_eq!(entries.len(), 2);
    assert_eq!(entries[0].status, FileStatus::Staged);
    assert_eq!(entries[1].status, FileStatus::Modified);
}

#[test]
fn parse_status_deletions_carry_stagedness() {
    let entries = parse_status("D  gone-staged.rs\0 D gone-worktree.rs\0");
    assert_eq!(entries[0].status, FileStatus::StagedDeleted);
    assert!(entries[0].status.is_staged());
    assert_eq!(entries[1].status, FileStatus::Deleted);
    assert!(!entries[1].status.is_staged());
}

#[test]
fn parse_status_rename_keeps_both_paths() {
    let entries = parse_status("R  new-name.rs\0old-name.rs\0");
    assert_eq!(entries.len(), 1);
    assert_eq!(entries[0].status, FileStatus::Staged);
    assert_eq!(entries[0].path, "new-name.rs");
    assert_eq!(entries[0].orig_path.as_deref(), Some("old-name.rs"));
}

#[test]
fn parse_status_path_with_spaces_and_quotes() {
    // -z output is unquoted, so odd paths come through verbatim.
    let entries = parse_status("?? path with \"quotes\".txt\0");
    assert_eq!(entries[0].path, "path with \"quotes\".txt");
}

#[test]
fn parse_refs_head_and_tags() {
    let (refs, head) = parse_refs("HEAD -> main, origin/main, tag: v1.0");
    assert_eq!(refs, vec!["main", "origin/main", "tag:v1.0"]);
    assert_eq!(head.as_deref(), Some("main"));
}

#[test]
fn parse_refs_empty() {
    let (refs, head) = parse_refs("");
    assert!(refs.is_empty());
    assert!(head.is_none());
}

#[test]
fn parse_tracking_ahead_behind() {
    let out = "# branch.oid abc\n# branch.head feat/x\n\
               # branch.upstream origin/feat/x\n# branch.ab +2 -3\n";
    let info = parse_tracking(out);
    assert_eq!(info.branch.as_deref(), Some("feat/x"));
    assert_eq!(info.upstream.as_deref(), Some("origin/feat/x"));
    assert_eq!(info.ahead, 2);
    assert_eq!(info.behind, 3);
    assert!(!info.detached);
}

#[test]
fn parse_tracking_detached() {
    let info = parse_tracking("# branch.oid abc\n# branch.head (detached)\n");
    assert!(info.detached);
    assert!(info.branch.is_none());
}

#[test]
fn status_skips_short_fields_and_reads_wide_paths() {
    let entries = parse_status("\0?\0?? \0 M grüße.txt\0");
    assert_eq!(entries.len(), 2);
    assert_eq!(entries[0].path, "");
    assert_eq!(entries[1].path, "grüße.txt");
}

#[test]
fn status_copy_without_source_is_read() {
    let entries = parse_status("C  copy.rs");
    assert_eq!(entries.len(), 1);
    assert_eq!(entries[0].orig_path, None);
}

#[test]
fn status_of_a_copy_that_was_changed() {
    let entries = parse_status("CM b.rs\0a.rs\0?? c\0");
    assert_eq!(entries.len(), 3);
    assert_eq!(entries[0].orig_path.as_deref(), Some("a.rs"));
    assert_eq!(entries[1].status, FileStatus::Modified);
    assert_eq!(entries[1].orig_path, None);
    assert_eq!(entries[2].status, FileStatus::Untracked);
}

#[test]
fn unreadable_status_is_told_apart() {
    assert!(status_readable("?? a\0"));
    assert!(status_readable("Mé\0"));
    // The path would start inside of a character.
    assert!(!status_readable("M\u{20ac}x\0"));
    assert!(try_status(&[ok("M\u{20ac}x\0")]).is_none());
    assert_eq!(asks(try_status(&[]).unwrap()), "git status --porcelain=v1 -z -uall");
    let (entries, n) = done(try_status(&[ok(" M a\0")]).unwrap());
    assert_eq!(entries.unwrap().len(), 1);
    assert_eq!(n, 1);
}

#[test]
fn tracking_counts_that_are_no_numbers_are_zero() {
    let info = parse_tracking("# branch.ab +x -99999999999999999999999\n");
    assert_eq!((info.ahead, info.behind), (0, 0));
    let info = parse_tracking("# branch.ab ++2 -03\r\n");
    assert_eq!((info.ahead, info.behind), (2, 3));
}

#[test]
fn log_is_read() {
    let out = "h1\x1fh\x1fp1 p2\x1fHEAD -> main, tag: v1\x1fsubject, with comma\x1fA U Thor\x1f1700000000\x1e\n\
               h2\x1fs\x1f\x1f\x1froot\x1fB\x1fnot a time\x1e\nbroken\x1e\n";
    let commits = parse_log(out);
    assert_eq!(commits.len(), 2);
    assert_eq!(commits[0].hash, "h1");
    assert_eq!(commits[0].parents, vec!["p1", "p2"]);
    assert_eq!(commits[0].refs, vec!["main", "tag:v1"]);
    assert_eq!(commits[0].head_ref.as_deref(), Some("main"));
    assert_eq!(commits[0].subject, "subject, with comma");
    assert_eq!(commits[0].author, "A U Thor");
    assert_eq!(commits[0].timestamp, 1700000000);
    assert_eq!(commits[1].hash, "h2");
    assert!(commits[1].parents.is_empty());
    assert_eq!(commits[1].timestamp, 0);
}

#[test]
fn log_is_asked_for_with_a_limit() {
    assert_eq!(
        asks(log_all(2000, &[])),
        "git log --all --date-order -n2000 \
         --pretty=format:%H%x1f%h%x1f%P%x1f%D%x1f%s%x1f%an%x1f%at%x1e"
    );
    let (commits, n) = done(log_all(2000, &[failed("fatal: bad\n")]));
    assert_eq!(commits.unwrap_err(), "fatal: bad\n");
    assert_eq!(n, 1);
}

#[test]
fn replies_are_read_lossily() {
    let reply: Reply = Ok(Output {
        success: true,
        stdout: vec![b'a', 0xff, b'b'],
        stderr: Vec::new(),
    });
    assert_eq!(run_ok(&reply).unwrap(), "a\u{fffd}b");
    assert!(succeeded(&reply));
    assert_eq!(run_ok(&ok("grüße")).unwrap(), "grüße");
    assert_eq!(run_ok(&failed("why")).unwrap_err(), "why");
    let missing: Reply = Err(launch_failure("no such file"));
    assert_eq!(
        run_ok(&missing).unwrap_err(),
        "failed to run git: no such file"
    );
    assert!(!succeeded(&missing));
}

#[test]
fn files_are_staged_and_unstaged() {
    assert_eq!(asks(stage("a b", &[])), "git add -- a b");
    let entry = StatusEntry {
        status: FileStatus::Staged,
        path: "new".to_string(),
        orig_path: Some("old".to_string()),
    };
    assert_eq!(asks(unstage(&entry, &[])), "git restore --staged -- new old");
    let entry = StatusEntry {
        orig_path: None,
        ..entry
    };
    assert_eq!(asks(unstage(&entry, &[])), "git restore --staged -- new");
    assert_eq!(asks(discard_worktree("x", &[])), "git restore -- x");
    assert_eq!(asks(remove_untracked("x", &[])), "git clean -f -- x");
    assert_eq!(asks(commit("msg", &[])), "git commit -m msg");
    assert_eq!(done(commit("msg", &[ok("done")])).0, Ok(()));
    assert_eq!(
        done(commit("msg", &[failed("nothing")])).0,
        Err("nothing".to_string())
    );
}

#[test]
fn diffs_are_asked_for() {
    assert_eq!(asks(diff_file("x", true, &[])), "git diff --cached -- x");
    assert_eq!(asks(diff_file("x", false, &[])), "git diff -- x");
    assert_eq!(asks(diff_commit("abc", &[])), "git show --stat --patch abc");
    assert_eq!(done(diff_commit("abc", &[ok("+x")])).0.unwrap(), "+x");
}

#[test]
fn push_sets_a_missing_upstream() {
    assert_eq!(
        asks(push_args(&[])),
        "git rev-parse --abbrev-ref --symbolic-full-name @{u}"
    );
    assert_eq!(done(push_args(&[ok("origin/x")])).0.unwrap(), vec!["push"]);
    assert_eq!(
        asks(push_args(&[failed("")])),
        "git rev-parse --abbrev-ref HEAD"
    );
    let (args, n) = done(push_args(&[failed(""), ok("feat/x\n")]));
    assert_eq!(
        args.unwrap(),
        vec!["push", "--set-upstream", "origin", "feat/x"]
    );
    assert_eq!(n, 2);
    assert_eq!(
        asks(push(&[failed(""), ok("feat/x\n")])),
        "git push --set-upstream origin feat/x"
    );
    assert_eq!(done(push(&[ok(""), ok("")])), (Ok(()), 2));
    assert_eq!(
        done(push(&[failed(""), failed("bad")])),
        (Err("bad".to_string()), 2)
    );
    assert_eq!(asks(pull(&[])), "git pull --ff-only");
}

#[test]
fn main_branch_is_found_by_name() {
    assert_eq!(asks(main_branch(&[])), "git rev-parse --verify main");
    assert_eq!(
        asks(main_branch(&[failed("")])),
        "git rev-parse --verify master"
    );
    assert_eq!(
        asks(main_branch(&[failed(""), failed("")])),
        "git rev-parse --verify trunk"
    );
    assert_eq!(
        done(main_branch(&[failed(""), ok("")])),
        (Some("master".to_string()), 2)
    );
    assert_eq!(
        done(main_branch(&[failed(""), failed(""), failed("")])),
        (None, 3)
    );
}

#[test]
fn main_chain_follows_first_parents() {
    assert_eq!(
        asks(main_chain(&[ok("")])),
        "git log --first-parent --format=%H main"
    );
    assert_eq!(
        done(main_chain(&[ok(""), ok("a\nb\n")])),
        (Ok(vec!["a".to_string(), "b".to_string()]), 2)
    );
    assert_eq!(
        done(main_chain(&[failed(""), failed(""), failed("")])),
        (Ok(vec![]), 3)
    );
    assert_eq!(
        done(main_chain(&[ok(""), failed("e")])),
        (Err("e".to_string()), 2)
    );
}

#[test]
fn base_branch_is_the_remotes_default() {
    assert_eq!(
        asks(default_base_branch(&[])),
        "git symbolic-ref refs/remotes/origin/HEAD"
    );
    assert_eq!(
        done(default_base_branch(&[ok("refs/remotes/origin/dev\n")])),
        (Some("dev".to_string()), 1)
    );
    assert_eq!(
        done(default_base_branch(&[ok("odd"), ok("")])),
        (Some("main".to_string()), 2)
    );
    assert_eq!(
        done(default_base_branch(&[
            failed(""),
            failed(""),
            failed(""),
            failed("")
        ])),
        (None, 4)
    );
}

#[test]
fn branches_are_listed() {
    assert_eq!(
        asks(list_branches(&[])),
        "git for-each-ref --format=%(HEAD)%09%(refname) refs/heads refs/remotes"
    );
    let out = "*\trefs/heads/main\n \trefs/heads/feat/x\n \trefs/remotes/origin/HEAD\n \
               \trefs/remotes/origin/main\n \trefs/tags/v1\nodd\n";
    let branches = done(list_branches(&[ok(out)])).0.unwrap();
    let seen: Vec<(&str, bool, bool)> = branches
        .iter()
        .map(|b| (b.name.as_str(), b.is_current, b.is_remote))
        .collect();
    assert_eq!(
        seen,
        vec![
            ("main", true, false),
            ("feat/x", false, false),
            ("origin/main", false, true)
        ]
    );
}

#[test]
fn remote_branches_are_switched_to_by_local_name() {
    assert_eq!(asks(checkout_branch("main", &[])), "git switch main");
    assert_eq!(asks(checkout_branch("origin/feat/x", &[])), "git remote");
    assert_eq!(
        asks(checkout_branch("origin/feat/x", &[ok("origin\nfork\n")])),
        "git switch feat/x"
    );
    assert_eq!(
        asks(checkout_branch("feat/x", &[ok("origin\n")])),
        "git switch feat/x"
    );
    assert_eq!(
        asks(checkout_branch("origin/x", &[failed("no")])),
        "git switch origin/x"
    );
    assert_eq!(
        done(checkout_branch("feat/x", &[ok(""), failed("e")])),
        (Err("e".to_string()), 2)
    );
    assert_eq!(done(remotes(&[failed("no")])), (vec![], 1));
}

#[test]
fn branches_are_created_and_changes_stashed() {
    assert_eq!(asks(create_branch_at("n", "abc", &[])), "git switch -c n abc");
    assert_eq!(
        asks(stash_push(&[])),
        "git stash push -u -m spor-auto-stash"
    );
}

#[test]
fn blocked_switches_are_recognized() {
    assert!(is_worktree_conflict(
        "error: Your local changes to the following files would be overwritten by checkout"
    ));
    assert!(is_worktree_conflict("commit your local changes"));
    assert!(is_worktree_conflict(
        "untracked files would be overwritten"
    ));
    assert!(!is_worktree_conflict("fatal: invalid reference: x"));
    assert!(!is_worktree_conflict(""));
}

#[test]
fn status_and_tracking_are_asked_for() {
    assert_eq!(asks(status(&[])), "git status --porcelain=v1 -z -uall");
    assert_eq!(
        asks(tracking(&[])),
        "git status --porcelain=v2 --branch"
    );
    let (info, n) = done(tracking(&[ok("# branch.head main\n")]));
    assert_eq!(info.unwrap().branch.as_deref(), Some("main"));
    assert_eq!(n, 1);
}
