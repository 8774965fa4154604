//! Remote hosts, and the pull or merge requests on them.
//!
//! The URL of `origin` tells which service hosts it. A request is then created
//! with that host's own command-line tool, or by a URL that can be opened in a
//! browser.

use crate::command::{
    self, arg, ask, git, run_ok, with, Command, CommandView, Reply, Step, StepView,
};
use crate::text;
use vstd::prelude::*;

verus! {

/// The services that are told apart.
#[derive(Debug, Clone, Copy, PartialEq, Eq, Structural)]
pub enum Host {
    GitHub,
    GitLab,
    Bitbucket,
    Unknown,
}

impl DeepView for Host {
    type V = Host;

    open spec fn deep_view(&self) -> Host {
        *self
    }
}

/// Where a repository is hosted.
#[derive(Debug)]
pub struct RemoteInfo {
    pub host: Host,
    /// Web address of the repository, for example https://github.com/owner/repo.
    pub web_url: String,
    pub owner: String,
    pub repo: String,
}

/// Where a repository is hosted, as contracts speak of it.
pub struct RemoteInfoView {
    pub host: Host,
    pub web_url: Seq<char>,
    pub owner: Seq<char>,
    pub repo: Seq<char>,
}

impl DeepView for RemoteInfo {
    type V = RemoteInfoView;

    open spec fn deep_view(&self) -> RemoteInfoView {
        RemoteInfoView {
            host: self.host,
            web_url: self.web_url@,
            owner: self.owner@,
            repo: self.repo@,
        }
    }
}

impl Clone for RemoteInfo {
    fn clone(&self) -> (r: RemoteInfo)
        ensures
            r.deep_view() == self.deep_view(),
    {
        RemoteInfo {
            host: self.host,
            web_url: self.web_url.clone(),
            owner: self.owner.clone(),
            repo: self.repo.clone(),
        }
    }
}

// ---------------------------------------------------------------------------
// Reading the URL of a remote
// ---------------------------------------------------------------------------
/// The URL in the form `https://host/path`: `git@host:path` and
/// `ssh://git@host/path` are brought to it, others are taken as they are.
/// `None` for `git@` without a colon after it.
pub open spec fn normalized(url: Seq<char>) -> Option<Seq<char>> {
    if "git@"@.is_prefix_of(url) {
        let rest = url.skip("git@"@.len() as int);
        let i = text::first_at(rest, ':');
        if i < rest.len() {
            Some("https://"@ + rest.take(i) + "/"@ + rest.skip(i + 1))
        } else {
            None
        }
    } else if "ssh://"@.is_prefix_of(url) {
        Some(text::replaced(url, "ssh://git@"@, "https://"@))
    } else {
        Some(url)
    }
}

/// The URL without `.git` and without slashes at its end.
pub open spec fn bare(url: Seq<char>) -> Seq<char> {
    text::without_ends(text::without_ends(url, ".git"@), "/"@)
}

/// What follows the scheme of a URL.
pub open spec fn after_scheme(url: Seq<char>) -> Seq<char> {
    let i = text::first_of(url, "://"@);
    if i < url.len() {
        url.skip(i + "://"@.len())
    } else {
        url
    }
}

/// The host, by a word in its name: `github.mycorp.com` is GitHub too.
pub open spec fn host_kind(host: Seq<char>) -> Host {
    if text::occurs(host, "github"@) {
        Host::GitHub
    } else if text::occurs(host, "gitlab"@) {
        Host::GitLab
    } else if text::occurs(host, "bitbucket"@) {
        Host::Bitbucket
    } else {
        Host::Unknown
    }
}

/// The pieces that are not empty.
pub open spec fn nonempty(parts: Seq<Seq<char>>) -> Seq<Seq<char>>
    decreases parts.len(),
{
    if parts.len() == 0 {
        seq![]
    } else if parts.last().len() == 0 {
        nonempty(parts.drop_last())
    } else {
        nonempty(parts.drop_last()).push(parts.last())
    }
}

/// The host in what follows a scheme.
pub open spec fn host_of(s: Seq<char>) -> Seq<char> {
    s.take(text::first_at(s, '/'))
}

/// The segments of the path in what follows a scheme.
pub open spec fn segments(s: Seq<char>) -> Seq<Seq<char>> {
    let i = text::first_at(s, '/');
    if i < s.len() {
        nonempty(text::pieces(s.skip(i + 1), '/'))
    } else {
        seq![]
    }
}

/// Where the repository of a bare URL is hosted: the last segment of the path is
/// the repository, those before it are the owner.
pub open spec fn hosted(url: Seq<char>) -> Option<RemoteInfoView> {
    let rest = after_scheme(url);
    let all = segments(rest);
    if all.len() < 2 {
        None
    } else {
        let owner = text::joined(all.drop_last(), "/"@);
        let repo = all.last();
        let scheme = if "http://"@.is_prefix_of(url) {
            "http"@
        } else {
            "https"@
        };
        Some(
            RemoteInfoView {
                host: host_kind(host_of(rest)),
                web_url: scheme + "://"@ + host_of(rest) + "/"@ + owner + "/"@ + repo,
                owner,
                repo,
            },
        )
    }
}

/// Where the repository of a remote's URL is hosted.
pub open spec fn remote_of(url: Seq<char>) -> Option<RemoteInfoView> {
    match normalized(url) {
        Some(n) => hosted(bare(n)),
        None => None,
    }
}

fn keep_nonempty(parts: &[String]) -> (r: Vec<String>)
    ensures
        r.deep_view() == nonempty(parts.deep_view()),
{
    let mut kept: Vec<String> = Vec::new();
    let ghost all = parts.deep_view();
    assert(kept.deep_view() =~= nonempty(all.take(0)));
    for i in 0..parts.len()
        invariant
            all == parts.deep_view(),
            kept.deep_view() == nonempty(all.take(i as int)),
    {
        let ghost before = kept.deep_view();
        proof {
            assert(all.take(i + 1).drop_last() =~= all.take(i as int));
            assert(all.take(i + 1).last() == parts@[i as int]@);
        }
        if parts[i].as_str().unicode_len() > 0 {
            kept.push(parts[i].clone());
            assert(kept.deep_view() =~= before.push(parts@[i as int]@));
        }
    }
    assert(all.take(parts@.len() as int) =~= all);
    kept
}

fn normalize(url: &str) -> (r: Option<String>)
    ensures
        r.deep_view() == normalized(url@),
{
    if let Some(rest) = text::strip_prefix(url, "git@") {
        match text::split_once(rest, ':') {
            Some((host, path)) => {
                let mut n = "https://".to_owned();
                n.append(host);
                n.append("/");
                n.append(path);
                Some(n)
            },
            None => None,
        }
    } else if text::starts_with(url, "ssh://") {
        Some(text::replace(url, "ssh://git@", "https://"))
    } else {
        Some(url.to_owned())
    }
}

/// Reads the URL of a remote. `None` if its path has fewer than two segments.
pub fn parse_url(url: &str) -> (r: Option<RemoteInfo>)
    ensures
        r.deep_view() == remote_of(url@),
{
    let whole = match normalize(url) {
        Some(n) => n,
        None => return None,
    };
    let url = text::trim_ends(text::trim_ends(whole.as_str(), ".git"), "/");
    proof {
        reveal_strlit("://");
    }
    let rest = match text::after_first(url, "://") {
        Some(r) => r,
        None => url,
    };
    let (host_part, path) = match text::split_once(rest, '/') {
        Some((h, p)) => (h, p),
        None => return None,
    };
    let host = if text::contains(host_part, "github") {
        Host::GitHub
    } else if text::contains(host_part, "gitlab") {
        Host::GitLab
    } else if text::contains(host_part, "bitbucket") {
        Host::Bitbucket
    } else {
        Host::Unknown
    };
    let mut parts = keep_nonempty(&text::split(path, '/'));
    let ghost all = parts.deep_view();
    if parts.len() < 2 {
        return None;
    }
    assert(parts@.last()@ == all.last());
    let ghost earlier = parts@.drop_last();
    let repo = match parts.pop() {
        Some(p) => p,
        None => return None,
    };
    assert(parts@ == earlier);
    assert(parts.deep_view() =~= all.drop_last());
    let owner = text::join(&parts, "/");
    let mut web_url = if text::starts_with(url, "http://") {
        "http".to_owned()
    } else {
        "https".to_owned()
    };
    web_url.append("://");
    web_url.append(host_part);
    web_url.append("/");
    web_url.append(owner.as_str());
    web_url.append("/");
    web_url.append(repo.as_str());
    Some(RemoteInfo { host, web_url, owner, repo })
}

/// Where `origin` is hosted.
pub open spec fn detect_step(replies: Seq<Reply>) -> StepView<Option<RemoteInfoView>> {
    if replies.len() == 0 {
        StepView::Run(command::git_command(seq!["remote"@, "get-url"@, "origin"@]))
    } else {
        StepView::Done(
            match command::answer(replies[0]) {
                Ok(out) => remote_of(text::trimmed(out)),
                Err(_) => None,
            },
            1,
        )
    }
}

/// Finds out where `origin` is hosted.
pub fn detect(replies: &[Reply]) -> (r: Step<Option<RemoteInfo>>)
    ensures
        r.deep_view() == detect_step(replies@),
{
    if replies.len() == 0 {
        let args = with(with(arg("remote"), "get-url"), "origin");
        assert(args.deep_view() =~= seq!["remote"@, "get-url"@, "origin"@]);
        return Step::Run(git(args));
    }
    match run_ok(&replies[0]) {
        Ok(out) => Step::Done(parse_url(text::trim(out.as_str())), 1),
        Err(_) => Step::Done(None, 1),
    }
}

// ---------------------------------------------------------------------------
// Creating a request
// ---------------------------------------------------------------------------
/// The web page on which a request from `head` to `base` is created.
pub open spec fn compare_page(info: RemoteInfoView, base: Seq<char>, head: Seq<char>) -> Seq<char> {
    match info.host {
        Host::GitHub => info.web_url + "/compare/"@ + base + "..."@ + head + "?expand=1"@,
        Host::GitLab => info.web_url
            + "/-/merge_requests/new?merge_request%5Bsource_branch%5D="@ + head
            + "&merge_request%5Btarget_branch%5D="@ + base,
        Host::Bitbucket => info.web_url + "/pull-requests/new?source="@ + head + "&dest="@ + base,
        Host::Unknown => info.web_url,
    }
}

/// The web page on which a request from `head` to `base` is created.
pub fn compare_url(info: &RemoteInfo, base: &str, head: &str) -> (r: String)
    ensures
        r@ == compare_page(info.deep_view(), base@, head@),
{
    let mut url = info.web_url.clone();
    match info.host {
        Host::GitHub => {
            url.append("/compare/");
            url.append(base);
            url.append("...");
            url.append(head);
            url.append("?expand=1");
        },
        Host::GitLab => {
            url.append("/-/merge_requests/new?merge_request%5Bsource_branch%5D=");
            url.append(head);
            url.append("&merge_request%5Btarget_branch%5D=");
            url.append(base);
        },
        Host::Bitbucket => {
            url.append("/pull-requests/new?source=");
            url.append(head);
            url.append("&dest=");
            url.append(base);
        },
        Host::Unknown => {},
    }
    url
}

/// The name of the command-line tool for a host.
pub open spec fn tool_of(host: Host) -> Option<Seq<char>> {
    match host {
        Host::GitHub => Some("gh"@),
        Host::GitLab => Some("glab"@),
        _ => None,
    }
}

/// The tool for the host, if it has one and `which` finds it.
pub open spec fn tool_step(host: Host, replies: Seq<Reply>) -> StepView<Option<Seq<char>>> {
    match tool_of(host) {
        None => StepView::Done(None, 0),
        Some(tool) => if replies.len() == 0 {
            StepView::Run(CommandView { program: "which"@, args: seq![tool] })
        } else {
            let found = replies[0] matches Ok(out) && out.success && out.stdout@.len() > 0;
            StepView::Done(
                if found {
                    Some(tool)
                } else {
                    None
                },
                1,
            )
        },
    }
}

/// Which tool, if any, is installed for this host?
pub fn cli_tool(host: &Host, replies: &[Reply]) -> (r: Step<Option<&'static str>>)
    ensures
        r.deep_view() == tool_step(*host, replies@),
{
    let tool = match host {
        Host::GitHub => "gh",
        Host::GitLab => "glab",
        _ => return Step::Done(None, 0),
    };
    if replies.len() == 0 {
        return Step::Run(Command { program: "which".to_owned(), args: arg(tool) });
    }
    if let Ok(out) = &replies[0] {
        if out.success && out.stdout.len() > 0 {
            return Step::Done(Some(tool), 1);
        }
    }
    Step::Done(None, 1)
}

/// The arguments with which the tool of a host creates a request to `base`.
pub open spec fn create_args(host: Host, base: Seq<char>) -> Seq<Seq<char>> {
    match host {
        Host::GitHub => seq!["pr"@, "create"@, "--base"@, base],
        Host::GitLab => seq!["mr"@, "create"@, "--target-branch"@, base],
        _ => seq![],
    }
}

/// The arguments with which the tool of a host creates a request to `base`.
pub fn pr_create_args(host: &Host, base: &str) -> (r: Vec<String>)
    ensures
        r.deep_view() == create_args(*host, base@),
{
    let args = match host {
        Host::GitHub => with(with(with(arg("pr"), "create"), "--base"), base),
        Host::GitLab => with(with(with(arg("mr"), "create"), "--target-branch"), base),
        _ => Vec::new(),
    };
    assert(args.deep_view() =~= create_args(*host, base@));
    args
}

// ---------------------------------------------------------------------------
// Open pull requests
// ---------------------------------------------------------------------------
/// The checks of a pull request's last commit, taken together.
#[derive(Debug, Clone, Copy, PartialEq, Eq, Structural)]
pub enum ChecksState {
    /// There are none.
    NoChecks,
    Pending,
    Passing,
    Failing,
}

/// The decision on a pull request.
#[derive(Debug, Clone, Copy, PartialEq, Eq, Structural)]
pub enum ReviewState {
    /// Nothing yet.
    Undecided,
    Approved,
    ChangesRequested,
}

/// An open pull request.
#[derive(Debug)]
pub struct PrInfo {
    pub number: u64,
    pub head_branch: String,
    pub draft: bool,
    pub review: ReviewState,
    pub checks: ChecksState,
}

/// An open pull request as contracts speak of it.
pub struct PrInfoView {
    pub number: nat,
    pub head_branch: Seq<char>,
    pub draft: bool,
    pub review: ReviewState,
    pub checks: ChecksState,
}

impl DeepView for PrInfo {
    type V = PrInfoView;

    open spec fn deep_view(&self) -> PrInfoView {
        PrInfoView {
            number: self.number as nat,
            head_branch: self.head_branch@,
            draft: self.draft,
            review: self.review,
            checks: self.checks,
        }
    }
}

impl Clone for PrInfo {
    fn clone(&self) -> (r: PrInfo)
        ensures
            r.deep_view() == self.deep_view(),
    {
        PrInfo {
            number: self.number,
            head_branch: self.head_branch.clone(),
            draft: self.draft,
            review: self.review,
            checks: self.checks,
        }
    }
}

/// The filter that turns gh's list into one line for each pull request: number,
/// head branch, `draft` or `open`, review decision and checks, with tabs between
/// them and commas between the checks. A check without a conclusion still runs.
pub const PR_LIST_JQ: &'static str = r#".[] | [(.number|tostring), .headRefName, (if .isDraft then "draft" else "open" end), (.reviewDecision // ""), ([.statusCheckRollup[]? | ((.conclusion // .state // "") | if . == "" then "PENDING" else . end)] | join(","))] | @tsv"#;

/// The check went wrong.
pub open spec fn is_failure(check: Seq<char>) -> bool {
    ||| check == "FAILURE"@
    ||| check == "ERROR"@
    ||| check == "TIMED_OUT"@
    ||| check == "CANCELLED"@
    ||| check == "ACTION_REQUIRED"@
    ||| check == "STARTUP_FAILURE"@
}

/// The check is not done.
pub open spec fn is_pending(check: Seq<char>) -> bool {
    ||| check == "PENDING"@
    ||| check == "EXPECTED"@
    ||| check == "QUEUED"@
    ||| check == "IN_PROGRESS"@
    ||| check == "WAITING"@
    ||| check == "REQUESTED"@
}

/// The checks taken together: one that failed outweighs one that is pending,
/// which outweighs those that passed.
pub open spec fn rollup(list: Seq<char>) -> ChecksState {
    let checks = text::pieces(list, ',');
    if list.len() == 0 {
        ChecksState::NoChecks
    } else if exists|i: int| 0 <= i < checks.len() && is_failure(#[trigger] checks[i]) {
        ChecksState::Failing
    } else if exists|i: int| 0 <= i < checks.len() && is_pending(#[trigger] checks[i]) {
        ChecksState::Pending
    } else {
        ChecksState::Passing
    }
}

fn failed(check: &str) -> (r: bool)
    ensures
        r == is_failure(check@),
{
    text::same(check, "FAILURE") || text::same(check, "ERROR") || text::same(check, "TIMED_OUT")
        || text::same(check, "CANCELLED") || text::same(check, "ACTION_REQUIRED") || text::same(
        check,
        "STARTUP_FAILURE",
    )
}

fn waits(check: &str) -> (r: bool)
    ensures
        r == is_pending(check@),
{
    text::same(check, "PENDING") || text::same(check, "EXPECTED") || text::same(check, "QUEUED")
        || text::same(check, "IN_PROGRESS") || text::same(check, "WAITING") || text::same(
        check,
        "REQUESTED",
    )
}

/// Takes the checks of a list together.
pub fn rollup_checks(list: &str) -> (r: ChecksState)
    ensures
        r == rollup(list@),
{
    if list.unicode_len() == 0 {
        return ChecksState::NoChecks;
    }
    let checks = text::split(list, ',');
    let ghost all = checks.deep_view();
    let mut pending = false;
    for i in 0..checks.len()
        invariant
            all == checks.deep_view(),
            all == text::pieces(list@, ','),
            list@.len() > 0,
            forall|j: int| 0 <= j < i ==> !is_failure(#[trigger] all[j]),
            pending == exists|j: int| 0 <= j < i && is_pending(#[trigger] all[j]),
    {
        assert(all[i as int] == checks@[i as int]@);
        if failed(checks[i].as_str()) {
            return ChecksState::Failing;
        }
        if waits(checks[i].as_str()) {
            pending = true;
        }
    }
    if pending {
        ChecksState::Pending
    } else {
        ChecksState::Passing
    }
}

/// The pull request of one line, if the line is one.
pub open spec fn pr_of(line: Seq<char>) -> Option<PrInfoView> {
    let fields = text::pieces(line, '\t');
    if fields.len() < 5 {
        None
    } else {
        match text::unsigned(fields[0], u64::MAX as nat) {
            None => None,
            Some(number) => Some(
                PrInfoView {
                    number,
                    head_branch: fields[1],
                    draft: fields[2] == "draft"@,
                    review: if fields[3] == "APPROVED"@ {
                        ReviewState::Approved
                    } else if fields[3] == "CHANGES_REQUESTED"@ {
                        ReviewState::ChangesRequested
                    } else {
                        ReviewState::Undecided
                    },
                    checks: rollup(fields[4]),
                },
            ),
        }
    }
}

/// Reads the line of one pull request.
pub fn parse_pr_line(line: &str) -> (r: Option<PrInfo>)
    ensures
        r.deep_view() == pr_of(line@),
{
    let fields = text::split(line, '\t');
    let ghost all = fields.deep_view();
    if fields.len() < 5 {
        return None;
    }
    assert(forall|i: int| 0 <= i < 5 ==> all[i] == #[trigger] fields@[i]@);
    let number = match text::parse_unsigned(fields[0].as_str(), u64::MAX) {
        Some(n) => n,
        None => return None,
    };
    let review = if text::same(fields[3].as_str(), "APPROVED") {
        ReviewState::Approved
    } else if text::same(fields[3].as_str(), "CHANGES_REQUESTED") {
        ReviewState::ChangesRequested
    } else {
        ReviewState::Undecided
    };
    Some(
        PrInfo {
            number,
            head_branch: fields[1].clone(),
            draft: text::same(fields[2].as_str(), "draft"),
            review,
            checks: rollup_checks(fields[4].as_str()),
        },
    )
}

/// The pull requests among the lines, in order.
pub open spec fn prs_of(lines: Seq<Seq<char>>) -> Seq<PrInfoView>
    decreases lines.len(),
{
    if lines.len() == 0 {
        seq![]
    } else {
        match pr_of(lines.last()) {
            Some(pr) => prs_of(lines.drop_last()).push(pr),
            None => prs_of(lines.drop_last()),
        }
    }
}

/// Reads the list of pull requests; lines of another form are skipped.
pub fn parse_pr_lines(out: &str) -> (r: Vec<PrInfo>)
    ensures
        r.deep_view() == prs_of(text::lines_of(out@)),
{
    let lines = text::lines(out);
    let ghost all = lines.deep_view();
    let mut prs: Vec<PrInfo> = Vec::new();
    assert(prs.deep_view() =~= prs_of(all.take(0)));
    for i in 0..lines.len()
        invariant
            all == lines.deep_view(),
            prs.deep_view() == prs_of(all.take(i as int)),
    {
        let ghost before = prs.deep_view();
        proof {
            assert(all.take(i + 1).drop_last() =~= all.take(i as int));
            assert(all.take(i + 1).last() == lines@[i as int]@);
        }
        if let Some(pr) = parse_pr_line(lines[i].as_str()) {
            let ghost v = pr.deep_view();
            prs.push(pr);
            assert(prs.deep_view() =~= before.push(v));
        }
    }
    assert(all.take(lines@.len() as int) =~= all);
    prs
}

/// The command that lists the open pull requests.
pub open spec fn pr_list_command() -> CommandView {
    CommandView {
        program: "gh"@,
        args: seq![
            "pr"@,
            "list"@,
            "--state"@,
            "open"@,
            "--limit"@,
            "200"@,
            "--json"@,
            "number,headRefName,isDraft,reviewDecision,statusCheckRollup"@,
            "--jq"@,
            PR_LIST_JQ@,
        ],
    }
}

/// The open pull requests, where `origin` is on GitHub and gh is installed.
pub open spec fn prs_step(replies: Seq<Reply>) -> StepView<Option<Seq<PrInfoView>>> {
    match detect_step(replies) {
        StepView::Run(c) => StepView::Run(c),
        StepView::Done(None, n) => StepView::Done(None, n),
        StepView::Done(Some(info), n) => if info.host != Host::GitHub {
            StepView::Done(None, n)
        } else {
            match tool_step(info.host, replies.skip(n)) {
                StepView::Run(c) => StepView::Run(c),
                StepView::Done(None, m) => StepView::Done(None, n + m),
                StepView::Done(Some(_), m) => match command::asked(
                    pr_list_command(),
                    replies.skip(n + m),
                ) {
                    StepView::Run(c) => StepView::Run(c),
                    StepView::Done(Ok(out), k) => StepView::Done(
                        Some(prs_of(text::lines_of(out))),
                        n + m + k,
                    ),
                    StepView::Done(Err(_), k) => StepView::Done(None, n + m + k),
                },
            }
        },
    }
}

/// Lists the open pull requests of the repository. `None` where it is not on
/// GitHub, or gh is not installed or fails.
pub fn fetch_prs(replies: &[Reply]) -> (r: Step<Option<Vec<PrInfo>>>)
    ensures
        r.deep_view() == prs_step(replies@),
{
    let (info, n) = match detect(replies) {
        Step::Run(c) => return Step::Run(c),
        Step::Done(None, n) => return Step::Done(None, n),
        Step::Done(Some(info), n) => (info, n),
    };
    if info.host != Host::GitHub {
        return Step::Done(None, n);
    }
    let rest = vstd::slice::slice_subrange(replies, n, replies.len());
    assert(rest@ =~= replies@.skip(n as int));
    let m = match cli_tool(&info.host, rest) {
        Step::Run(c) => return Step::Run(c),
        Step::Done(None, m) => return Step::Done(None, n + m),
        Step::Done(Some(_), m) => m,
    };
    let rest = vstd::slice::slice_subrange(replies, n + m, replies.len());
    assert(rest@ =~= replies@.skip(n + m));
    let args = with(with(with(with(arg("pr"), "list"), "--state"), "open"), "--limit");
    let args = with(with(args, "200"), "--json");
    let args = with(args, "number,headRefName,isDraft,reviewDecision,statusCheckRollup");
    let args = with(with(args, "--jq"), PR_LIST_JQ);
    assert(args.deep_view() =~= pr_list_command().args);
    match ask(Command { program: "gh".to_owned(), args }, rest) {
        Step::Run(c) => Step::Run(c),
        Step::Done(Ok(out), k) => Step::Done(Some(parse_pr_lines(out.as_str())), n + m + k),
        Step::Done(Err(_), k) => Step::Done(None, n + m + k),
    }
}

// ---------------------------------------------------------------------------
// Laws
// ---------------------------------------------------------------------------
proof fn lemma_https(rest: Seq<char>)
    ensures
        normalized("https://"@ + rest) == Some("https://"@ + rest),
{
    reveal_strlit("https://");
    reveal_strlit("git@");
    reveal_strlit("ssh://");
    let url = "https://"@ + rest;
    assert(url[0] == 'h');
    if "git@"@.is_prefix_of(url) {
        assert(url[0] == "git@"@[0]);
    }
    if "ssh://"@.is_prefix_of(url) {
        assert(url[0] == "ssh://"@[0]);
    }
}

/// `git@host:path` and `https://host/path` name the same repository.
pub proof fn scp_form_is_https_form(host: Seq<char>, path: Seq<char>)
    requires
        !host.contains(':'),
    ensures
        remote_of("git@"@ + host + ":"@ + path) == remote_of("https://"@ + host + "/"@ + path),
{
    reveal_strlit(":");
    let url = "git@"@ + host + ":"@ + path;
    let rest = url.skip("git@"@.len() as int);
    assert(url.take("git@"@.len() as int) =~= "git@"@);
    assert(rest =~= host + ":"@ + path);
    assert forall|j: int| 0 <= j < host.len() implies rest[j] != ':' by {
        assert(rest[j] == host[j]);
    }
    text::lemma_first_at_is(rest, ':', host.len() as int);
    assert(rest.take(host.len() as int) =~= host);
    assert(rest.skip(host.len() as int + 1) =~= path);
    assert("https://"@ + host + "/"@ + path =~= "https://"@ + (host + "/"@ + path));
    lemma_https(host + "/"@ + path);
}

/// `ssh://git@rest` and `https://rest` name the same repository, where `rest`
/// does not itself hold the beginning of the former.
pub proof fn ssh_form_is_https_form(rest: Seq<char>)
    requires
        !text::occurs(rest, "ssh://git@"@),
    ensures
        remote_of("ssh://git@"@ + rest) == remote_of("https://"@ + rest),
{
    reveal_strlit("ssh://git@");
    reveal_strlit("ssh://");
    reveal_strlit("git@");
    let p = "ssh://git@"@;
    let url = p + rest;
    if "git@"@.is_prefix_of(url) {
        assert(url[0] == "git@"@[0]);
    }
    assert("ssh://"@ =~= url.take(6));
    assert(p =~= url.take(p.len() as int));
    assert(url.skip(p.len() as int) =~= rest);
    text::lemma_nothing_replaced(rest, p, "https://"@);
    lemma_https(rest);
}

/// A URL names the same repository with and without `.git` at its end.
pub proof fn git_suffix_is_dropped(url: Seq<char>)
    ensures
        remote_of(url + ".git"@) == remote_of(url),
{
    reveal_strlit(".git");
    reveal_strlit("git@");
    reveal_strlit("ssh://");
    reveal_strlit("ssh://git@");
    let end = ".git"@;
    let full = url + end;
    lemma_prefix_of_longer(url, end, "git@"@);
    lemma_prefix_of_longer(url, end, "ssh://"@);
    if "git@"@.is_prefix_of(url) {
        let rest = url.skip(4);
        let longer = full.skip(4);
        assert(longer =~= rest + end);
        text::lemma_first_at(rest, ':');
        let i = text::first_at(rest, ':');
        if i < rest.len() {
            assert forall|j: int| 0 <= j < i implies longer[j] != ':' by {
                assert(longer[j] == rest[j]);
            }
            assert(longer[i] == rest[i]);
            text::lemma_first_at_is(longer, ':', i);
            assert(longer.take(i) =~= rest.take(i));
            assert(longer.skip(i + 1) =~= rest.skip(i + 1) + end);
            assert(normalized(full)->0 =~= normalized(url)->0 + end);
        } else {
            assert forall|j: int| 0 <= j < longer.len() implies longer[j] != ':' by {
                if j < rest.len() {
                    assert(longer[j] == rest[j]);
                } else {
                    assert(longer[j] == end[j - rest.len()]);
                }
            }
            text::lemma_first_at_is(longer, ':', longer.len() as int);
        }
    } else if "ssh://"@.is_prefix_of(url) {
        text::lemma_end_not_replaced(url, end, "ssh://git@"@, "https://"@);
    }
    if let Some(n) = normalized(url) {
        assert((n + end).skip((n + end).len() - end.len()) =~= end);
        assert((n + end).take((n + end).len() - end.len()) =~= n);
        assert(text::without_ends(n + end, end) == text::without_ends(n, end));
    }
}

proof fn lemma_prefix_of_longer(url: Seq<char>, end: Seq<char>, p: Seq<char>)
    requires
        end.len() > 0,
        !p.contains(end[0]),
    ensures
        p.is_prefix_of(url + end) == p.is_prefix_of(url),
{
    let full = url + end;
    if p.is_prefix_of(full) {
        if p.len() > url.len() {
            assert(full[url.len() as int] == end[0]);
            assert(p[url.len() as int] == end[0]);
        }
        assert(p =~= url.take(p.len() as int));
    } else if p.is_prefix_of(url) {
        assert(p =~= full.take(p.len() as int));
    }
}

/// The host alone decides which service it is, whatever the path holds, and the
/// web address of the repository is on that host.
pub proof fn host_alone_decides(host: Seq<char>, path: Seq<char>)
    requires
        !host.contains('/'),
    ensures
        remote_of("https://"@ + host + "/"@ + path) matches Some(info) ==> info.host == host_kind(
            host,
        ) && info.web_url == "https"@ + "://"@ + host + "/"@ + info.owner + "/"@ + info.repo,
{
    reveal_strlit("https://");
    reveal_strlit("http://");
    reveal_strlit("://");
    reveal_strlit("/");
    reveal_strlit(".git");
    let tail = host + "/"@ + path;
    let url = "https://"@ + tail;
    assert("https://"@ + host + "/"@ + path =~= url);
    lemma_https(tail);
    let n = bare(url);
    text::lemma_without_ends(url, ".git"@);
    text::lemma_without_ends(text::without_ends(url, ".git"@), "/"@);
    assert(n.is_prefix_of(url));
    assert forall|i: int| 0 <= i < n.len() implies n[i] == url[i] by {
        assert(n =~= url.take(n.len() as int));
    }
    if n.len() > 0 && n.last() == '/' {
        assert(n.skip(n.len() - 1) =~= "/"@);
    }
    let rest = after_scheme(n);
    if n.len() < 9 {
        assert(n.len() <= 6) by {
            assert(url[6] == '/' && url[7] == '/');
        }
        assert forall|i: int| 0 <= i < n.len() implies n[i] != '/' by {
            assert(n[i] == url[i] && url[i] == "https://"@[i]);
        }
        text::lemma_first_of(n, "://"@);
        let k = text::first_of(n, "://"@);
        if k < n.len() {
            assert(n.subrange(k, k + 3)[1] == n[k + 1]);
        }
        assert(rest == n);
        text::lemma_first_at_is(rest, '/', rest.len() as int);
    } else {
        assert(n.subrange(5, 8) =~= "://"@);
        text::lemma_first_of_is(n, "://"@, 5);
        assert(rest =~= n.skip(8));
        assert forall|i: int| 0 <= i < rest.len() && i < host.len() implies rest[i] != '/' by {
            assert(rest[i] == url[i + 8] && url[i + 8] == host[i]);
        }
        if rest.len() > host.len() {
            assert(rest[host.len() as int] == '/') by {
                assert(url[host.len() as int + 8] == tail[host.len() as int]);
            }
            text::lemma_first_at_is(rest, '/', host.len() as int);
            assert(host_of(rest) =~= host) by {
                assert forall|i: int| 0 <= i < host.len() implies rest[i] == host[i] by {
                    assert(rest[i] == url[i + 8] && url[i + 8] == host[i]);
                }
            }
        } else {
            text::lemma_first_at_is(rest, '/', rest.len() as int);
        }
        if "http://"@.is_prefix_of(n) {
            assert("http://"@ =~= n.take(7));
            assert("http://"@[4] == n[4]);
        }
    }
}

/// The line of a pull request gives it back.
pub proof fn pr_line_is_read_back(
    number: nat,
    branch: Seq<char>,
    state: Seq<char>,
    review: Seq<char>,
    checks: Seq<char>,
)
    requires
        number <= u64::MAX,
        !branch.contains('\t'),
        !state.contains('\t'),
        !review.contains('\t'),
        !checks.contains('\t'),
    ensures
        ({
            let line = text::joined(
                seq![text::decimal(number), branch, state, review, checks],
                seq!['\t'],
            );
            &&& pr_of(line) is Some
            &&& pr_of(line)->0.number == number
            &&& pr_of(line)->0.head_branch == branch
            &&& pr_of(line)->0.draft <==> state == "draft"@
            &&& pr_of(line)->0.checks == rollup(checks)
        }),
{
    let fields = seq![text::decimal(number), branch, state, review, checks];
    text::numbers_are_read_back(number, u64::MAX as nat);
    text::lemma_decimal_digits(number);
    assert(!text::decimal(number).contains('\t')) by {
        if text::decimal(number).contains('\t') {
            let i = choose|i: int|
                0 <= i < text::decimal(number).len() && text::decimal(number)[i] == '\t';
            assert(text::is_digit(text::decimal(number)[i]));
        }
    }
    text::splitting_undoes_joining(fields, '\t');
}

/// A check that failed makes the whole fail, wherever it stands in the list.
pub proof fn failure_outweighs(checks: Seq<Seq<char>>, i: int)
    requires
        0 <= i < checks.len(),
        is_failure(checks[i]),
        forall|j: int| 0 <= j < checks.len() ==> !(#[trigger] checks[j]).contains(','),
    ensures
        rollup(text::joined(checks, seq![','])) == ChecksState::Failing,
{
    reveal_strlit("FAILURE");
    reveal_strlit("ERROR");
    reveal_strlit("TIMED_OUT");
    reveal_strlit("CANCELLED");
    reveal_strlit("ACTION_REQUIRED");
    reveal_strlit("STARTUP_FAILURE");
    let list = text::joined(checks, seq![',']);
    text::splitting_undoes_joining(checks, ',');
    if list.len() == 0 {
        text::lemma_first_at_is(list, ',', 0);
        assert(text::pieces(list, ',') =~= seq![list]);
        assert(checks[i].len() > 0);
    }
}

/// `page` is `before`, then the first text, then `between`, then the second text,
/// then `after`, both texts in full.
pub open spec fn holds_both(
    page: Seq<char>,
    before: Seq<char>,
    first: Seq<char>,
    between: Seq<char>,
    second: Seq<char>,
    after: Seq<char>,
) -> bool {
    let i = before.len() as int;
    let j = i + first.len();
    let k = j + between.len();
    let l = k + second.len();
    &&& page.len() == l + after.len()
    &&& page.subrange(0, i) == before
    &&& page.subrange(i, j) == first
    &&& page.subrange(j, k) == between
    &&& page.subrange(k, l) == second
    &&& page.subrange(l, page.len() as int) == after
}

/// The page on which a request is created is on the web address of the
/// repository and names both branches in full, slashes included: on GitHub the
/// base and then the head, on GitLab and Bitbucket the head as the source and
/// then the base as the target. Of an unknown host there is the repository only.
#[verifier::spinoff_prover]
#[verifier::rlimit(50)]
pub proof fn compare_page_names_both_branches(
    info: RemoteInfoView,
    base: Seq<char>,
    head: Seq<char>,
)
    ensures
        info.host == Host::GitHub ==> holds_both(
            compare_page(info, base, head),
            info.web_url + "/compare/"@,
            base,
            "..."@,
            head,
            "?expand=1"@,
        ),
        info.host == Host::GitLab ==> holds_both(
            compare_page(info, base, head),
            info.web_url + "/-/merge_requests/new?merge_request%5Bsource_branch%5D="@,
            head,
            "&merge_request%5Btarget_branch%5D="@,
            base,
            ""@,
        ),
        info.host == Host::Bitbucket ==> holds_both(
            compare_page(info, base, head),
            info.web_url + "/pull-requests/new?source="@,
            head,
            "&dest="@,
            base,
            ""@,
        ),
        info.host == Host::Unknown ==> compare_page(info, base, head) == info.web_url,
{
    reveal_strlit("");
    let page = compare_page(info, base, head);
    if info.host == Host::GitHub {
        let before = info.web_url + "/compare/"@;
        let i = before.len() as int;
        let j = i + base.len();
        let k = j + "..."@.len();
        let l = k + head.len();
        assert(page.subrange(0, i) =~= before);
        assert(page.subrange(i, j) =~= base);
        assert(page.subrange(j, k) =~= "..."@);
        assert(page.subrange(k, l) =~= head);
        assert(page.subrange(l, page.len() as int) =~= "?expand=1"@);
    } else if info.host == Host::GitLab {
        let before = info.web_url + "/-/merge_requests/new?merge_request%5Bsource_branch%5D="@;
        let between = "&merge_request%5Btarget_branch%5D="@;
        let i = before.len() as int;
        let j = i + head.len();
        let k = j + between.len();
        let l = k + base.len();
        assert(page.subrange(0, i) =~= before);
        assert(page.subrange(i, j) =~= head);
        assert(page.subrange(j, k) =~= between);
        assert(page.subrange(k, l) =~= base);
        assert(page.subrange(l, page.len() as int) =~= ""@);
    } else if info.host == Host::Bitbucket {
        let before = info.web_url + "/pull-requests/new?source="@;
        let i = before.len() as int;
        let j = i + head.len();
        let k = j + "&dest="@.len();
        let l = k + base.len();
        assert(page.subrange(0, i) =~= before);
        assert(page.subrange(i, j) =~= head);
        assert(page.subrange(j, k) =~= "&dest="@);
        assert(page.subrange(k, l) =~= base);
        assert(page.subrange(l, page.len() as int) =~= ""@);
    }
}

/// On a known host two heads never share a page for one base, nor two bases for
/// one head.
pub proof fn compare_pages_tell_branches_apart(
    info: RemoteInfoView,
    base: Seq<char>,
    other_base: Seq<char>,
    head: Seq<char>,
    other_head: Seq<char>,
)
    requires
        info.host != Host::Unknown,
    ensures
        compare_page(info, base, head) == compare_page(info, base, other_head) ==> head
            == other_head,
        compare_page(info, base, head) == compare_page(info, other_base, head) ==> base
            == other_base,
{
    compare_page_names_both_branches(info, base, head);
    compare_page_names_both_branches(info, base, other_head);
    compare_page_names_both_branches(info, other_base, head);
    let page = compare_page(info, base, head);
    if page == compare_page(info, base, other_head) {
        assert(head.len() == other_head.len());
        assert(head =~= other_head);
    }
    if page == compare_page(info, other_base, head) {
        assert(base.len() == other_base.len());
        assert(base =~= other_base);
    }
}

/// GitHub's tool is gh and GitLab's is glab; it is used where `which` finds it,
/// and no other host has one.
pub proof fn hosts_have_their_tools(replies: Seq<Reply>)
    ensures
        tool_step(Host::GitHub, seq![]) == StepView::<Option<Seq<char>>>::Run(
            CommandView { program: "which"@, args: seq!["gh"@] },
        ),
        tool_step(Host::GitLab, seq![]) == StepView::<Option<Seq<char>>>::Run(
            CommandView { program: "which"@, args: seq!["glab"@] },
        ),
        tool_step(Host::Bitbucket, replies) == StepView::Done(None::<Seq<char>>, 0),
        tool_step(Host::Unknown, replies) == StepView::Done(None::<Seq<char>>, 0),
        replies.len() > 0 ==> ({
            let found = replies[0] matches Ok(out) && out.success && out.stdout@.len() > 0;
            &&& tool_step(Host::GitHub, replies) == StepView::Done(
                if found {
                    Some("gh"@)
                } else {
                    None
                },
                1,
            )
            &&& tool_step(Host::GitLab, replies) == StepView::Done(
                if found {
                    Some("glab"@)
                } else {
                    None
                },
                1,
            )
        }),
{
}

/// The tool is told to create a request, and the base comes last, behind the
/// option of that tool that takes it.
pub proof fn tools_are_told_the_base(base: Seq<char>)
    ensures
        create_args(Host::GitHub, base) == seq!["pr"@, "create"@].push("--base"@).push(base),
        create_args(Host::GitLab, base) == seq!["mr"@, "create"@].push("--target-branch"@).push(
            base,
        ),
        create_args(Host::Bitbucket, base).len() == 0,
        create_args(Host::Unknown, base).len() == 0,
{
    assert(create_args(Host::GitHub, base) =~= seq!["pr"@, "create"@].push("--base"@).push(base));
    assert(create_args(Host::GitLab, base) =~= seq!["mr"@, "create"@].push("--target-branch"@).push(
        base,
    ));
}

/// A host is the service whose name stands in it; GitHub's is looked for first,
/// then GitLab's, then Bitbucket's.
pub proof fn hosts_are_known_by_name(before: Seq<char>, after: Seq<char>, host: Seq<char>)
    ensures
        host_kind(before + "github"@ + after) == Host::GitHub,
        !text::occurs(before + "gitlab"@ + after, "github"@) ==> host_kind(
            before + "gitlab"@ + after,
        ) == Host::GitLab,
        !text::occurs(before + "bitbucket"@ + after, "github"@) && !text::occurs(
            before + "bitbucket"@ + after,
            "gitlab"@,
        ) ==> host_kind(before + "bitbucket"@ + after) == Host::Bitbucket,
        !text::occurs(host, "github"@) && !text::occurs(host, "gitlab"@) && !text::occurs(
            host,
            "bitbucket"@,
        ) ==> host_kind(host) == Host::Unknown,
{
    lemma_stands(before, "github"@, after);
    lemma_stands(before, "gitlab"@, after);
    lemma_stands(before, "bitbucket"@, after);
}

proof fn lemma_stands(before: Seq<char>, p: Seq<char>, after: Seq<char>)
    ensures
        text::occurs(before + p + after, p),
{
    let n = before.len() as int;
    assert((before + p + after).subrange(n, n + p.len()) =~= p);
    assert(text::stands_at(before + p + after, p, n));
}

proof fn lemma_nonempty_kept(parts: Seq<Seq<char>>)
    requires
        forall|i: int| 0 <= i < parts.len() ==> (#[trigger] parts[i]).len() > 0,
    ensures
        nonempty(parts) == parts,
    decreases parts.len(),
{
    if parts.len() > 0 {
        let less = parts.drop_last();
        assert forall|i: int| 0 <= i < less.len() implies (#[trigger] less[i]).len() > 0 by {
            assert(less[i] == parts[i]);
        }
        lemma_nonempty_kept(less);
        assert(parts[parts.len() - 1].len() > 0);
        assert(less.push(parts.last()) =~= parts);
    } else {
        assert(nonempty(parts) =~= parts);
    }
}

/// A web address is in no other form, and nothing is cut from the end of one that
/// ends in a segment without `.git`.
proof fn lemma_plain_end(url: Seq<char>, lead: Seq<char>, last: Seq<char>)
    requires
        url == lead + last,
        lead.len() > 0,
        lead.last() == '/',
        lead[0] == 'h',
        last.len() > 0,
        !last.contains('/'),
        !text::ends(last, ".git"@),
    ensures
        normalized(url) == Some(url),
        bare(url) == url,
{
    reveal_strlit("/");
    reveal_strlit(".git");
    reveal_strlit("git@");
    reveal_strlit("ssh://");
    assert(url[0] == 'h');
    if "git@"@.is_prefix_of(url) {
        assert(url[0] == "git@"@[0]);
    }
    if "ssh://"@.is_prefix_of(url) {
        assert(url[0] == "ssh://"@[0]);
    }
    let n = url.len() as int;
    let m = last.len() as int;
    if text::ends(url, ".git"@) {
        let end = url.skip(n - 4);
        if m < 4 {
            assert(end[3 - m] == lead.last());
            assert(end[3 - m] == ".git"@[3 - m]);
        } else {
            assert(end =~= last.skip(m - 4));
        }
    }
    if text::ends(url, "/"@) {
        assert(url.skip(n - 1)[0] == last[m - 1]);
        assert(last.contains(last[m - 1]));
    }
}

/// What follows the scheme of a web address is its host and its path.
proof fn lemma_plain_parts(scheme: Seq<char>, host: Seq<char>, path: Seq<char>)
    requires
        scheme == "https"@ || scheme == "http"@,
        !host.contains('/'),
    ensures
        ({
            let rest = after_scheme(scheme + "://"@ + (host + "/"@ + path));
            &&& host_of(rest) == host
            &&& segments(rest) == nonempty(text::pieces(path, '/'))
        }),
{
    reveal_strlit("https");
    reveal_strlit("http");
    reveal_strlit("://");
    reveal_strlit("/");
    let tail = host + "/"@ + path;
    let url = scheme + "://"@ + tail;
    let n = scheme.len() as int;
    assert(url.subrange(n, n + 3) =~= "://"@);
    assert forall|j: int| 0 <= j < n implies url[j] != "://"@[0] by {
        assert(url[j] == scheme[j]);
    }
    text::lemma_first_of_is(url, "://"@, n);
    let rest = after_scheme(url);
    assert(rest =~= tail);
    let h = host.len() as int;
    assert forall|j: int| 0 <= j < h implies rest[j] != '/' by {
        assert(rest[j] == host[j]);
    }
    assert(rest[h] == '/');
    text::lemma_first_at_is(rest, '/', h);
    assert(host_of(rest) =~= host);
    assert(rest.skip(h + 1) =~= path);
}

/// The web address of a repository gives the repository back: the last segment
/// is its name, those before it are its owner, the host is what stands before
/// the first slash, and the address is the repository's own. Fewer than two
/// segments name no repository.
#[verifier::spinoff_prover]
#[verifier::rlimit(50)]
pub proof fn web_address_is_read_back(host: Seq<char>, parts: Seq<Seq<char>>, scheme: Seq<char>)
    requires
        scheme == "https"@ || scheme == "http"@,
        !host.contains('/'),
        parts.len() >= 1,
        forall|i: int|
            0 <= i < parts.len() ==> (#[trigger] parts[i]).len() > 0 && !parts[i].contains('/'),
        !text::ends(parts.last(), ".git"@),
    ensures
        ({
            let url = scheme + "://"@ + (host + "/"@ + text::joined(parts, "/"@));
            &&& parts.len() >= 2 ==> remote_of(url) == Some(
                RemoteInfoView {
                    host: host_kind(host),
                    web_url: url,
                    owner: text::joined(parts.drop_last(), "/"@),
                    repo: parts.last(),
                },
            )
            &&& parts.len() < 2 ==> remote_of(url) is None
        }),
{
    reveal_strlit("/");
    let path = text::joined(parts, "/"@);
    let url = scheme + "://"@ + (host + "/"@ + path);
    let last = parts.last();
    assert(parts[parts.len() - 1] == last);
    let owner = text::joined(parts.drop_last(), "/"@);
    let lead = if parts.len() >= 2 {
        scheme + "://"@ + (host + "/"@ + owner + "/"@)
    } else {
        scheme + "://"@ + (host + "/"@)
    };
    assert(url =~= lead + last);
    assert(lead[0] == 'h') by {
        reveal_strlit("https");
        reveal_strlit("http");
    }
    lemma_plain_end(url, lead, last);
    lemma_plain_parts(scheme, host, path);
    assert("/"@ =~= seq!['/']);
    assert forall|i: int| 0 <= i < parts.len() implies !(#[trigger] parts[i]).contains('/') by {
        assert(parts[i].len() > 0);
    }
    text::splitting_undoes_joining(parts, '/');
    lemma_nonempty_kept(parts);
    if parts.len() >= 2 {
        lemma_scheme(scheme, host + "/"@ + path);
        assert(scheme + "://"@ + host + "/"@ + owner + "/"@ + last =~= url);
    }
}

proof fn lemma_scheme(scheme: Seq<char>, rest: Seq<char>)
    requires
        scheme == "https"@ || scheme == "http"@,
    ensures
        "http://"@.is_prefix_of(scheme + "://"@ + rest) <==> scheme == "http"@,
{
    reveal_strlit("https");
    reveal_strlit("http");
    reveal_strlit("http://");
    reveal_strlit("://");
    let url = scheme + "://"@ + rest;
    if scheme == "http"@ {
        assert("http://"@ =~= url.take(7));
    } else if "http://"@.is_prefix_of(url) {
        assert("http://"@[4] == url[4]);
    }
    assert("https"@.len() != "http"@.len());
}

/// `git@` without a colon behind it names no repository.
pub proof fn scp_form_needs_a_colon(rest: Seq<char>)
    requires
        !rest.contains(':'),
    ensures
        remote_of("git@"@ + rest) is None,
{
    let url = "git@"@ + rest;
    let n = "git@"@.len() as int;
    assert(url.take(n) =~= "git@"@);
    assert(url.skip(n) =~= rest);
    text::lemma_first_at(rest, ':');
    let i = text::first_at(rest, ':');
    if i < rest.len() {
        assert(rest.contains(rest[i]));
    }
}

/// Slashes at the end of a web address say nothing.
pub proof fn slash_at_the_end_is_dropped(url: Seq<char>)
    requires
        !"git@"@.is_prefix_of(url),
        !"ssh://"@.is_prefix_of(url),
        url.len() >= 6,
        !text::ends(url, ".git"@),
    ensures
        remote_of(url + "/"@) == remote_of(url),
{
    reveal_strlit("/");
    reveal_strlit(".git");
    reveal_strlit("git@");
    reveal_strlit("ssh://");
    let full = url + "/"@;
    if "git@"@.is_prefix_of(full) {
        assert("git@"@ =~= url.take(4));
    }
    if "ssh://"@.is_prefix_of(full) {
        assert("ssh://"@ =~= url.take(6));
    }
    if text::ends(full, ".git"@) {
        assert(full.skip(full.len() - 4)[3] == '/');
    }
    assert(full.skip(full.len() - 1) =~= "/"@);
    assert(full.take(full.len() - 1) =~= url);
    assert(bare(full) == text::without_ends(full, "/"@));
    assert(text::without_ends(full, "/"@) == text::without_ends(url, "/"@));
}

/// `origin` is asked for, and its URL read without the blanks around it.
pub proof fn origin_is_detected(replies: Seq<Reply>)
    ensures
        detect_step(seq![]) == StepView::<Option<RemoteInfoView>>::Run(
            CommandView { program: "git"@, args: seq!["remote"@, "get-url"@, "origin"@] },
        ),
        replies.len() > 0 ==> (command::answer(replies[0]) matches Ok(url) ==> detect_step(replies)
            == StepView::Done(remote_of(text::trimmed(url)), 1)),
        replies.len() > 0 ==> (command::answer(replies[0]) is Err ==> detect_step(replies)
            == StepView::Done(None::<RemoteInfoView>, 1)),
{
}

/// The decision on a pull request is read by its word; where there is no word
/// for it there is none yet.
pub proof fn review_is_read_back(
    number: nat,
    branch: Seq<char>,
    state: Seq<char>,
    review: Seq<char>,
    checks: Seq<char>,
)
    requires
        number <= u64::MAX,
        !branch.contains('\t'),
        !state.contains('\t'),
        !review.contains('\t'),
        !checks.contains('\t'),
    ensures
        ({
            let line = text::joined(
                seq![text::decimal(number), branch, state, review, checks],
                seq!['\t'],
            );
            &&& pr_of(line) is Some
            &&& pr_of(line)->0.review == ReviewState::Approved <==> review == "APPROVED"@
            &&& pr_of(line)->0.review == ReviewState::ChangesRequested <==> review
                == "CHANGES_REQUESTED"@
        }),
{
    reveal_strlit("APPROVED");
    reveal_strlit("CHANGES_REQUESTED");
    let fields = seq![text::decimal(number), branch, state, review, checks];
    pr_line_is_read_back(number, branch, state, review, checks);
    text::lemma_decimal_digits(number);
    assert(!text::decimal(number).contains('\t')) by {
        if text::decimal(number).contains('\t') {
            let i = choose|i: int|
                0 <= i < text::decimal(number).len() && text::decimal(number)[i] == '\t';
            assert(text::is_digit(text::decimal(number)[i]));
        }
    }
    text::splitting_undoes_joining(fields, '\t');
    assert("APPROVED"@[0] != "CHANGES_REQUESTED"@[0]);
}

/// A line with fewer than five fields, or whose first is no number, is no pull
/// request.
pub proof fn other_lines_are_no_pull_requests(fields: Seq<Seq<char>>)
    requires
        fields.len() >= 1,
        forall|i: int| 0 <= i < fields.len() ==> !(#[trigger] fields[i]).contains('\t'),
        fields.len() < 5 || fields[0].len() == 0 || !text::is_digit(fields[0].last()),
    ensures
        pr_of(text::joined(fields, seq!['\t'])) is None,
{
    text::splitting_undoes_joining(fields, '\t');
    if fields.len() >= 5 && fields[0].len() > 0 {
        let s = fields[0];
        if s.len() == 1 && (s[0] == '+' || s[0] == '-') {
            assert(s.drop_first().len() == 0);
        } else {
            text::other_characters_make_no_number(s, s.len() - 1, u64::MAX as nat);
        }
    }
}

/// Pull requests are read line by line, in order.
pub proof fn pull_requests_are_read_in_order(a: Seq<Seq<char>>, b: Seq<Seq<char>>, line: Seq<char>)
    ensures
        prs_of(a + b) == prs_of(a) + prs_of(b),
        prs_of(seq![line]) == match pr_of(line) {
            Some(pr) => seq![pr],
            None => seq![],
        },
    decreases b.len(),
{
    if b.len() > 0 {
        assert((a + b).drop_last() =~= a + b.drop_last());
        assert((a + b).last() == b.last());
        pull_requests_are_read_in_order(a, b.drop_last(), line);
        assert(prs_of(a + b) =~= prs_of(a) + prs_of(b));
    } else {
        assert(a + b =~= a);
        assert(prs_of(a) + prs_of(b) =~= prs_of(a));
    }
    assert(seq![line].drop_last() =~= Seq::<Seq<char>>::empty());
    assert(prs_of(Seq::<Seq<char>>::empty()) =~= Seq::<PrInfoView>::empty());
    assert(prs_of(seq![line]) =~= match pr_of(line) {
        Some(pr) => seq![pr],
        None => seq![],
    });
}

/// Checks are taken together by their words: where one went wrong, all did; else
/// where one is not done, all are not; else they passed. Without a check there
/// is nothing to tell.
pub proof fn checks_are_taken_together(checks: Seq<Seq<char>>)
    requires
        checks.len() > 0,
        forall|j: int|
            0 <= j < checks.len() ==> (#[trigger] checks[j]).len() > 0 && !checks[j].contains(','),
    ensures
        ({
            let all = rollup(text::joined(checks, seq![',']));
            let failures = set![
                "FAILURE"@,
                "ERROR"@,
                "TIMED_OUT"@,
                "CANCELLED"@,
                "ACTION_REQUIRED"@,
                "STARTUP_FAILURE"@,
            ];
            let pendings = set![
                "PENDING"@,
                "EXPECTED"@,
                "QUEUED"@,
                "IN_PROGRESS"@,
                "WAITING"@,
                "REQUESTED"@,
            ];
            let wrong = exists|i: int|
                0 <= i < checks.len() && failures.contains(#[trigger] checks[i]);
            let waiting = exists|i: int|
                0 <= i < checks.len() && pendings.contains(#[trigger] checks[i]);
            &&& all == ChecksState::Failing <==> wrong
            &&& all == ChecksState::Pending <==> !wrong && waiting
            &&& all == ChecksState::Passing <==> !wrong && !waiting
        }),
        rollup(Seq::<char>::empty()) == ChecksState::NoChecks,
{
    let list = text::joined(checks, seq![',']);
    assert forall|j: int| 0 <= j < checks.len() implies !(#[trigger] checks[j]).contains(',') by {
        assert(checks[j].len() > 0);
    }
    text::splitting_undoes_joining(checks, ',');
    let failures = set![
        "FAILURE"@,
        "ERROR"@,
        "TIMED_OUT"@,
        "CANCELLED"@,
        "ACTION_REQUIRED"@,
        "STARTUP_FAILURE"@,
    ];
    let pendings = set![
        "PENDING"@,
        "EXPECTED"@,
        "QUEUED"@,
        "IN_PROGRESS"@,
        "WAITING"@,
        "REQUESTED"@,
    ];
    assert forall|i: int| 0 <= i < checks.len() implies is_failure(#[trigger] checks[i])
        == failures.contains(checks[i]) by {}
    assert forall|i: int| 0 <= i < checks.len() implies is_pending(#[trigger] checks[i])
        == pendings.contains(checks[i]) by {}
    if list.len() == 0 {
        text::lemma_first_at_is(list, ',', 0);
        assert(text::pieces(list, ',') =~= seq![list]);
        assert(checks[0].len() > 0);
    }
}

/// Pull requests are listed only where `origin` is on GitHub and gh is found:
/// else there are none to tell of, and nothing more is asked.
pub proof fn pull_requests_need_github_and_gh(replies: Seq<Reply>)
    requires
        replies.len() >= 1,
    ensures
        ({
            let info = match command::answer(replies[0]) {
                Ok(url) => remote_of(text::trimmed(url)),
                Err(_) => None,
            };
            &&& !(info matches Some(i) && i.host == Host::GitHub) ==> prs_step(replies)
                == StepView::Done(None::<Seq<PrInfoView>>, 1)
            &&& (info matches Some(i) && i.host == Host::GitHub) && replies.len() >= 2 ==> {
                let found = replies[1] matches Ok(out) && out.success && out.stdout@.len() > 0;
                &&& !found ==> prs_step(replies) == StepView::Done(None::<Seq<PrInfoView>>, 2)
                &&& found && replies.len() == 2 ==> (prs_step(replies) matches StepView::Run(c)
                    && c.program == "gh"@ && c.args[0] == "pr"@ && c.args[1] == "list"@
                    && c.args[2] == "--state"@ && c.args[3] == "open"@ && c.args.skip(4) == seq![
                    "--limit"@,
                    "200"@,
                    "--json"@,
                    "number,headRefName,isDraft,reviewDecision,statusCheckRollup"@,
                    "--jq"@,
                    PR_LIST_JQ@,
                ])
                &&& found && replies.len() >= 3 ==> match command::answer(replies[2]) {
                    Ok(out) => prs_step(replies) == StepView::Done(
                        Some(prs_of(text::lines_of(out))),
                        3,
                    ),
                    Err(_) => prs_step(replies) == StepView::Done(None::<Seq<PrInfoView>>, 3),
                }
            }
        }),
{
    if replies.len() >= 2 {
        assert(replies.skip(1)[0] == replies[1]);
    }
    if replies.len() >= 3 {
        assert(replies.skip(2)[0] == replies[2]);
    }
    assert(pr_list_command().args.skip(4) =~= seq![
        "--limit"@,
        "200"@,
        "--json"@,
        "number,headRefName,isDraft,reviewDecision,statusCheckRollup"@,
        "--jq"@,
        PR_LIST_JQ@,
    ]);
}

} // verus!
