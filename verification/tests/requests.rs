//! Hosts, and pull requests on them.

use spor::command::{Command, Output, Reply, Step};
use spor::remote::{
    cli_tool, compare_url, detect, fetch_prs, parse_pr_line, parse_pr_lines, parse_url,
    pr_create_args, rollup_checks, ChecksState, Host, ReviewState, PR_LIST_JQ,
};

fn ok(out: &str) -> Reply {
    Ok(Output {
        success: true,
        stdout: out.as_bytes().to_vec(),
        stderr: Vec::new(),
    })
}

fn failed() -> Reply {
    Ok(Output {
        success: false,
        stdout: b"x".to_vec(),
        stderr: Vec::new(),
    })
}

fn asks<T>(step: Step<T>) -> Command {
    match step {
        Step::Run(c) => c,
        Step::Done(_, _) => panic!("done"),
    }
}

fn done<T>(step: Step<T>) -> (T, usize) {
    match step {
        Step::Run(c) => panic!("asks {}", c.program),
        Step::Done(t, n) => (t, n),
    }
}

#[test]
fn parse_github_ssh() {
    let r = parse_url("git@github.com:oyvindandreassen/spor.git").unwrap();
    assert_eq!(r.host, Host::GitHub);
    assert_eq!(r.owner, "oyvindandreassen");
    assert_eq!(r.repo, "spor");
    assert_eq!(r.web_url, "https://github.com/oyvindandreassen/spor");
}

#[test]
fn parse_github_https() {
    let r = parse_url("https://github.com/oyvindandreassen/spor.git").unwrap();
    assert_eq!(r.host, Host::GitHub);
    assert_eq!(r.repo, "spor");
}

#[test]
fn parse_gitlab_subgroup() {
    let r = parse_url("git@gitlab.com:group/subgroup/proj.git").unwrap();
    assert_eq!(r.host, Host::GitLab);
    assert_eq!(r.owner, "group/subgroup");
    assert_eq!(r.repo, "proj");
}

#[test]
fn host_matched_on_host_part_only() {
    // "gitlab" in the repo name must not override the actual host.
    let r = parse_url("https://example.com/team/gitlab-mirror.git").unwrap();
    assert_eq!(r.host, Host::Unknown);
    assert_eq!(r.repo, "gitlab-mirror");
}

#[test]
fn enterprise_host_still_detected() {
    let r = parse_url("git@github.mycorp.com:team/proj.git").unwrap();
    assert_eq!(r.host, Host::GitHub);
}

#[test]
fn parse_pr_line_full() {
    let pr = parse_pr_line("42\tfeat/login\topen\tAPPROVED\tSUCCESS,SKIPPED").unwrap();
    assert_eq!(pr.number, 42);
    assert_eq!(pr.head_branch, "feat/login");
    assert!(!pr.draft);
    assert_eq!(pr.review, ReviewState::Approved);
    assert_eq!(pr.checks, ChecksState::Passing);
}

#[test]
fn parse_pr_line_draft_no_review_no_checks() {
    let pr = parse_pr_line("7\twip\tdraft\t\t").unwrap();
    assert!(pr.draft);
    assert_eq!(pr.review, ReviewState::Undecided);
    assert_eq!(pr.checks, ChecksState::NoChecks);
}

#[test]
fn parse_pr_lines_skips_garbage() {
    let prs = parse_pr_lines("1\ta\topen\t\tSUCCESS\nnot a record\n\n2\tb\topen\t\t\n");
    assert_eq!(prs.len(), 2);
    assert_eq!(prs[1].head_branch, "b");
}

#[test]
fn rollup_failure_beats_pending() {
    assert_eq!(
        rollup_checks("SUCCESS,PENDING,FAILURE"),
        ChecksState::Failing
    );
    assert_eq!(rollup_checks("SUCCESS,IN_PROGRESS"), ChecksState::Pending);
    assert_eq!(rollup_checks("SUCCESS,NEUTRAL"), ChecksState::Passing);
    assert_eq!(rollup_checks(""), ChecksState::NoChecks);
}

#[test]
fn review_changes_requested() {
    let pr = parse_pr_line("3\tfix/y\topen\tCHANGES_REQUESTED\tFAILURE").unwrap();
    assert_eq!(pr.review, ReviewState::ChangesRequested);
    assert_eq!(pr.checks, ChecksState::Failing);
}

#[test]
fn compare_url_github() {
    let r = parse_url("git@github.com:foo/bar.git").unwrap();
    assert_eq!(
        compare_url(&r, "main", "feat/x"),
        "https://github.com/foo/bar/compare/main...feat/x?expand=1"
    );
}

#[test]
fn compare_urls_of_other_hosts() {
    let r = parse_url("git@gitlab.com:a/b.git").unwrap();
    assert_eq!(
        compare_url(&r, "main", "x"),
        "https://gitlab.com/a/b/-/merge_requests/new\
         ?merge_request%5Bsource_branch%5D=x&merge_request%5Btarget_branch%5D=main"
    );
    let r = parse_url("https://bitbucket.org/a/b").unwrap();
    assert_eq!(r.host, Host::Bitbucket);
    assert_eq!(
        compare_url(&r, "main", "x"),
        "https://bitbucket.org/a/b/pull-requests/new?source=x&dest=main"
    );
    let r = parse_url("https://git.example.org/a/b").unwrap();
    assert_eq!(compare_url(&r, "main", "x"), "https://git.example.org/a/b");
}

#[test]
fn urls_of_one_repository_agree() {
    let https = parse_url("https://github.com/a/b").unwrap();
    for url in [
        "https://github.com/a/b.git",
        "https://github.com/a/b/",
        "https://github.com/a/b.git.git",
        "git@github.com:a/b.git",
        "git@github.com:a/b",
        "ssh://git@github.com/a/b.git",
    ] {
        let r = parse_url(url).unwrap();
        assert_eq!(r.host, https.host, "{url}");
        assert_eq!(r.web_url, https.web_url, "{url}");
        assert_eq!(r.owner, https.owner, "{url}");
        assert_eq!(r.repo, https.repo, "{url}");
    }
}

#[test]
fn odd_urls() {
    assert!(parse_url("").is_none());
    assert!(parse_url("git@github.com").is_none());
    assert!(parse_url("https://github.com/only").is_none());
    assert!(parse_url("https://github.com").is_none());
    assert!(parse_url("https://github.com//x//").is_none());
    // Empty segments do not count.
    assert_eq!(parse_url("https://h//a//b").unwrap().web_url, "https://h/a/b");
    assert_eq!(parse_url("http://h/a/b").unwrap().web_url, "http://h/a/b");
    // No scheme at all.
    assert_eq!(parse_url("h/a/b").unwrap().web_url, "https://h/a/b");
    // A slash behind `.git` keeps it.
    assert_eq!(parse_url("https://h/a/b.git/").unwrap().repo, "b.git");
    // Another user than git stays where it is.
    assert_eq!(
        parse_url("ssh://me@h/a/b").unwrap().web_url,
        "https://me@h/a/b"
    );
}

#[test]
fn pr_lines_of_wrong_form() {
    assert!(parse_pr_line("x\ta\topen\t\t").is_none());
    assert!(parse_pr_line("1\ta\topen\t").is_none());
    assert!(parse_pr_line("18446744073709551616\ta\topen\t\t").is_none());
    assert_eq!(
        parse_pr_line("18446744073709551615\ta\topen\t\t\textra")
            .unwrap()
            .number,
        u64::MAX
    );
}

#[test]
fn every_check_word_counts() {
    for w in [
        "FAILURE",
        "ERROR",
        "TIMED_OUT",
        "CANCELLED",
        "ACTION_REQUIRED",
        "STARTUP_FAILURE",
    ] {
        assert_eq!(rollup_checks(w), ChecksState::Failing);
    }
    for w in [
        "PENDING",
        "EXPECTED",
        "QUEUED",
        "IN_PROGRESS",
        "WAITING",
        "REQUESTED",
    ] {
        assert_eq!(rollup_checks(w), ChecksState::Pending);
        let mixed = format!("{w},ERROR");
        assert_eq!(rollup_checks(&mixed), ChecksState::Failing);
    }
    assert_eq!(rollup_checks("failure"), ChecksState::Passing);
    assert_eq!(rollup_checks(","), ChecksState::Passing);
}

#[test]
fn origin_is_detected() {
    let c = asks(detect(&[]));
    assert_eq!(c.program, "git");
    assert_eq!(c.args, vec!["remote", "get-url", "origin"]);
    let (info, n) = done(detect(&[ok(" git@github.com:a/b.git\n")]));
    assert_eq!(info.unwrap().web_url, "https://github.com/a/b");
    assert_eq!(n, 1);
    assert!(done(detect(&[failed()])).0.is_none());
}

#[test]
fn tools_are_looked_for() {
    let c = asks(cli_tool(&Host::GitHub, &[]));
    assert_eq!((c.program.as_str(), c.args[0].as_str()), ("which", "gh"));
    assert_eq!(asks(cli_tool(&Host::GitLab, &[])).args, vec!["glab"]);
    assert_eq!(
        done(cli_tool(&Host::GitLab, &[ok("/usr/bin/glab\n")])),
        (Some("glab"), 1)
    );
    assert_eq!(done(cli_tool(&Host::GitHub, &[ok("")])), (None, 1));
    assert_eq!(done(cli_tool(&Host::GitHub, &[failed()])), (None, 1));
    assert_eq!(done(cli_tool(&Host::Unknown, &[])), (None, 0));
    assert_eq!(done(cli_tool(&Host::Bitbucket, &[])), (None, 0));
}

#[test]
fn pull_requests_are_fetched_from_github_only() {
    let origin = "git@github.com:a/b.git\n";
    assert_eq!(asks(fetch_prs(&[])).program, "git");
    assert_eq!(asks(fetch_prs(&[ok(origin)])).program, "which");
    let c = asks(fetch_prs(&[ok(origin), ok("/bin/gh")]));
    assert_eq!(c.program, "gh");
    assert_eq!(
        c.args,
        vec![
            "pr",
            "list",
            "--state",
            "open",
            "--limit",
            "200",
            "--json",
            "number,headRefName,isDraft,reviewDecision,statusCheckRollup",
            "--jq",
            PR_LIST_JQ
        ]
    );
    let (prs, n) = done(fetch_prs(&[
        ok(origin),
        ok("/bin/gh"),
        ok("5\tx\topen\t\t\n"),
    ]));
    assert_eq!(prs.unwrap()[0].number, 5);
    assert_eq!(n, 3);
    assert!(done(fetch_prs(&[ok("git@gitlab.com:a/b.git")])).0.is_none());
    assert!(done(fetch_prs(&[ok(origin), failed()])).0.is_none());
    assert!(done(fetch_prs(&[ok(origin), ok("x"), failed()])).0.is_none());
}

#[test]
fn create_arguments() {
    assert_eq!(
        pr_create_args(&Host::GitHub, "dev"),
        vec!["pr", "create", "--base", "dev"]
    );
    assert_eq!(
        pr_create_args(&Host::GitLab, "dev"),
        vec!["mr", "create", "--target-branch", "dev"]
    );
    assert!(pr_create_args(&Host::Unknown, "dev").is_empty());
}
