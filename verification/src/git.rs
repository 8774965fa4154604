//! What git is asked and what its answers mean: commits, working-tree status,
//! branches and the position of the current branch against its upstream.

use crate::command::{
    self, arg, ask, git, perform, run_ok, succeeded, with, CommandView, Reply, Step, StepView,
};
use crate::text;
use vstd::prelude::*;
use vstd::utf8;

verus! {

/// A commit of the log.
#[derive(Debug)]
pub struct Commit {
    pub hash: String,
    pub short: String,
    pub parents: Vec<String>,
    /// Branch names and tags that point here.
    pub refs: Vec<String>,
    /// The branch that HEAD is on, if it is on one and that one points here.
    pub head_ref: Option<String>,
    pub subject: String,
    pub author: String,
    pub timestamp: i64,
}

/// A commit as contracts speak of it.
pub struct CommitView {
    pub hash: Seq<char>,
    pub short: Seq<char>,
    pub parents: Seq<Seq<char>>,
    pub refs: Seq<Seq<char>>,
    pub head_ref: Option<Seq<char>>,
    pub subject: Seq<char>,
    pub author: Seq<char>,
    pub timestamp: int,
}

impl DeepView for Commit {
    type V = CommitView;

    open spec fn deep_view(&self) -> CommitView {
        CommitView {
            hash: self.hash@,
            short: self.short@,
            parents: self.parents.deep_view(),
            refs: self.refs.deep_view(),
            head_ref: self.head_ref.deep_view(),
            subject: self.subject@,
            author: self.author@,
            timestamp: self.timestamp as int,
        }
    }
}

impl Clone for Commit {
    fn clone(&self) -> (r: Commit)
        ensures
            r.deep_view() == self.deep_view(),
    {
        Commit {
            hash: self.hash.clone(),
            short: self.short.clone(),
            parents: text::copy_all(&self.parents),
            refs: text::copy_all(&self.refs),
            head_ref: text::copy_some(&self.head_ref),
            subject: self.subject.clone(),
            author: self.author.clone(),
            timestamp: self.timestamp,
        }
    }
}

/// How a file of the working tree differs from what is recorded.
#[derive(Debug, Clone, Copy, PartialEq, Eq, Structural)]
pub enum FileStatus {
    /// Staged addition, modification, rename or copy.
    Staged,
    /// Deletion recorded in the index.
    StagedDeleted,
    /// Modification that is not staged.
    Modified,
    /// Deleted in the working tree, not staged.
    Deleted,
    Untracked,
}

impl FileStatus {
    /// The entry lives in the index.
    pub open spec fn in_index(self) -> bool {
        self is Staged || self is StagedDeleted
    }

    /// Does this entry live in the index (vs the working tree)?
    pub fn is_staged(&self) -> (r: bool)
        ensures
            r == self.in_index(),
    {
        match self {
            FileStatus::Staged => true,
            FileStatus::StagedDeleted => true,
            _ => false,
        }
    }
}

/// One line of the working-tree list.
#[derive(Debug)]
pub struct StatusEntry {
    pub status: FileStatus,
    pub path: String,
    /// For staged renames and copies: the path that the file came from.
    pub orig_path: Option<String>,
}

/// A line of the working-tree list as contracts speak of it.
pub struct StatusEntryView {
    pub status: FileStatus,
    pub path: Seq<char>,
    pub orig_path: Option<Seq<char>>,
}

impl DeepView for StatusEntry {
    type V = StatusEntryView;

    open spec fn deep_view(&self) -> StatusEntryView {
        StatusEntryView {
            status: self.status,
            path: self.path@,
            orig_path: self.orig_path.deep_view(),
        }
    }
}

impl Clone for StatusEntry {
    fn clone(&self) -> (r: StatusEntry)
        ensures
            r.deep_view() == self.deep_view(),
    {
        StatusEntry {
            status: self.status,
            path: self.path.clone(),
            orig_path: text::copy_some(&self.orig_path),
        }
    }
}

/// Where the current branch sits relative to its upstream.
#[derive(Debug)]
pub struct TrackingInfo {
    /// The current branch, if HEAD is on one.
    pub branch: Option<String>,
    /// For example "origin/main".
    pub upstream: Option<String>,
    /// Commits that we have and upstream does not.
    pub ahead: usize,
    /// Commits that upstream has and we do not.
    pub behind: usize,
    pub detached: bool,
}

/// The position of the current branch as contracts speak of it.
pub struct TrackingView {
    pub branch: Option<Seq<char>>,
    pub upstream: Option<Seq<char>>,
    pub ahead: int,
    pub behind: int,
    pub detached: bool,
}

impl DeepView for TrackingInfo {
    type V = TrackingView;

    open spec fn deep_view(&self) -> TrackingView {
        TrackingView {
            branch: self.branch.deep_view(),
            upstream: self.upstream.deep_view(),
            ahead: self.ahead as int,
            behind: self.behind as int,
            detached: self.detached,
        }
    }
}

/// Nothing known of the current branch.
pub open spec fn untracked() -> TrackingView {
    TrackingView { branch: None, upstream: None, ahead: 0, behind: 0, detached: false }
}

impl Default for TrackingInfo {
    fn default() -> (r: TrackingInfo)
        ensures
            r.deep_view() == untracked(),
    {
        TrackingInfo { branch: None, upstream: None, ahead: 0, behind: 0, detached: false }
    }
}

impl Clone for TrackingInfo {
    fn clone(&self) -> (r: TrackingInfo)
        ensures
            r.deep_view() == self.deep_view(),
    {
        TrackingInfo {
            branch: text::copy_some(&self.branch),
            upstream: text::copy_some(&self.upstream),
            ahead: self.ahead,
            behind: self.behind,
            detached: self.detached,
        }
    }
}

/// A branch, local or remote-tracking.
#[derive(Debug)]
pub struct Branch {
    /// For example "main" or "origin/feat/x".
    pub name: String,
    pub is_current: bool,
    pub is_remote: bool,
}

/// A branch as contracts speak of it.
pub struct BranchView {
    pub name: Seq<char>,
    pub is_current: bool,
    pub is_remote: bool,
}

impl DeepView for Branch {
    type V = BranchView;

    open spec fn deep_view(&self) -> BranchView {
        BranchView { name: self.name@, is_current: self.is_current, is_remote: self.is_remote }
    }
}

impl Clone for Branch {
    fn clone(&self) -> (r: Branch)
        ensures
            r.deep_view() == self.deep_view(),
    {
        Branch {
            name: self.name.clone(),
            is_current: self.is_current,
            is_remote: self.is_remote,
        }
    }
}

// ---------------------------------------------------------------------------
// The log
// ---------------------------------------------------------------------------
/// One decoration of a commit: a branch by its name, also where HEAD is on it, a
/// tag as `tag:` and its name.
pub open spec fn ref_name(r: Seq<char>) -> Seq<char> {
    if "HEAD -> "@.is_prefix_of(r) {
        r.skip("HEAD -> "@.len() as int)
    } else if "tag: "@.is_prefix_of(r) {
        "tag:"@ + r.skip("tag: "@.len() as int)
    } else {
        r
    }
}

/// The names among the pieces of a decoration list, the empty pieces left out.
pub open spec fn ref_names(parts: Seq<Seq<char>>) -> Seq<Seq<char>>
    decreases parts.len(),
{
    if parts.len() == 0 {
        seq![]
    } else {
        let r = text::trimmed(parts.last());
        if r.len() == 0 {
            ref_names(parts.drop_last())
        } else {
            ref_names(parts.drop_last()).push(ref_name(r))
        }
    }
}

/// The branch that HEAD is on, going by the last piece that says so.
pub open spec fn head_branch(parts: Seq<Seq<char>>) -> Option<Seq<char>>
    decreases parts.len(),
{
    if parts.len() == 0 {
        None
    } else {
        let r = text::trimmed(parts.last());
        if "HEAD -> "@.is_prefix_of(r) {
            Some(r.skip("HEAD -> "@.len() as int))
        } else {
            head_branch(parts.drop_last())
        }
    }
}

/// Reads decorations like "HEAD -> main, origin/main, tag: v1.0". Returns the
/// refs and the branch that HEAD points to.
pub fn parse_refs(s: &str) -> (r: (Vec<String>, Option<String>))
    ensures
        r.0.deep_view() == ref_names(text::pieces(s@, ',')),
        r.1.deep_view() == head_branch(text::pieces(s@, ',')),
{
    let parts = text::split(s, ',');
    let ghost all = parts.deep_view();
    let mut refs: Vec<String> = Vec::new();
    let mut head: Option<String> = None;
    assert(refs.deep_view() =~= ref_names(all.take(0)));
    proof {
        reveal_strlit("HEAD -> ");
    }
    for i in 0..parts.len()
        invariant
            all == parts.deep_view(),
            "HEAD -> "@.len() > 0,
            refs.deep_view() == ref_names(all.take(i as int)),
            head.deep_view() == head_branch(all.take(i as int)),
    {
        let r = text::trim(parts[i].as_str());
        let ghost before = refs.deep_view();
        proof {
            assert(all.take(i + 1).drop_last() =~= all.take(i as int));
            assert(all.take(i + 1).last() == parts@[i as int]@);
        }
        if !r.is_empty() {
            if let Some(rest) = text::strip_prefix(r, "HEAD -> ") {
                head = Some(rest.to_owned());
                refs.push(rest.to_owned());
            } else if let Some(rest) = text::strip_prefix(r, "tag: ") {
                let mut tag = "tag:".to_owned();
                tag.append(rest);
                refs.push(tag);
            } else {
                refs.push(r.to_owned());
            }
            assert(refs.deep_view() =~= before.push(ref_name(r@)));
        }
    }
    assert(all.take(parts@.len() as int) =~= all);
    (refs, head)
}

/// The commit that a record of the log holds: seven fields between unit
/// separators, line feeds before them left aside. A time that is no number
/// counts as 0.
pub open spec fn commit_of(record: Seq<char>) -> Option<CommitView> {
    let fields = text::pieces(text::without_lead(record, '\n'), '\x1f');
    if fields.len() < 7 {
        None
    } else {
        Some(
            CommitView {
                hash: fields[0],
                short: fields[1],
                parents: text::words_of(fields[2]),
                refs: ref_names(text::pieces(fields[3], ',')),
                head_ref: head_branch(text::pieces(fields[3], ',')),
                subject: fields[4],
                author: fields[5],
                timestamp: match text::signed(text::trimmed(fields[6])) {
                    Some(n) => n,
                    None => 0,
                },
            },
        )
    }
}

/// The commits among the records, in order.
pub open spec fn commits_of(records: Seq<Seq<char>>) -> Seq<CommitView>
    decreases records.len(),
{
    if records.len() == 0 {
        seq![]
    } else {
        match commit_of(records.last()) {
            Some(c) => commits_of(records.drop_last()).push(c),
            None => commits_of(records.drop_last()),
        }
    }
}

/// Reads one record of the log.
fn parse_record(record: &str) -> (r: Option<Commit>)
    ensures
        r.deep_view() == commit_of(record@),
{
    let fields = text::split(text::trim_start_char(record, '\n'), '\x1f');
    if fields.len() < 7 {
        return None;
    }
    let ghost f = fields.deep_view();
    assert(f[0] == fields@[0]@ && f[1] == fields@[1]@ && f[2] == fields@[2]@ && f[3] == fields@[3]@
        && f[4] == fields@[4]@ && f[5] == fields@[5]@ && f[6] == fields@[6]@);
    let (refs, head_ref) = parse_refs(fields[3].as_str());
    let timestamp: i64 = match text::parse_signed(text::trim(fields[6].as_str())) {
        Some(n) => n,
        None => 0,
    };
    Some(
        Commit {
            hash: fields[0].clone(),
            short: fields[1].clone(),
            parents: text::words(fields[2].as_str()),
            refs,
            head_ref,
            subject: fields[4].clone(),
            author: fields[5].clone(),
            timestamp,
        },
    )
}

/// Reads the commits of a log whose records end in record separators.
pub fn parse_log(out: &str) -> (r: Vec<Commit>)
    ensures
        r.deep_view() == commits_of(text::pieces(out@, '\x1e')),
{
    let records = text::split(out, '\x1e');
    let ghost all = records.deep_view();
    let mut commits: Vec<Commit> = Vec::new();
    assert(commits.deep_view() =~= commits_of(all.take(0)));
    for i in 0..records.len()
        invariant
            all == records.deep_view(),
            commits.deep_view() == commits_of(all.take(i as int)),
    {
        let ghost before = commits.deep_view();
        proof {
            assert(all.take(i + 1).drop_last() =~= all.take(i as int));
            assert(all.take(i + 1).last() == records@[i as int]@);
        }
        if let Some(c) = parse_record(records[i].as_str()) {
            let ghost v = c.deep_view();
            commits.push(c);
            assert(commits.deep_view() =~= before.push(v));
        }
    }
    assert(all.take(records@.len() as int) =~= all);
    commits
}

/// The command that prints the newest `limit` commits of all branches. Unit and
/// record separators survive odd subjects.
pub open spec fn log_command(limit: nat) -> CommandView {
    command::git_command(
        seq![
            "log"@,
            "--all"@,
            "--date-order"@,
            "-n"@ + text::decimal(limit),
            "--pretty=format:%H%x1f%h%x1f%P%x1f%D%x1f%s%x1f%an%x1f%at%x1e"@,
        ],
    )
}

/// The newest `limit` commits of all branches.
pub open spec fn log_step(limit: nat, replies: Seq<Reply>) -> StepView<
    Result<Seq<CommitView>, Seq<char>>,
> {
    match command::asked(log_command(limit), replies) {
        StepView::Run(c) => StepView::Run(c),
        StepView::Done(Ok(out), n) => StepView::Done(
            Ok(commits_of(text::pieces(out, '\x1e'))),
            n,
        ),
        StepView::Done(Err(e), n) => StepView::Done(Err(e), n),
    }
}

/// Loads the newest `limit` commits of all branches.
pub fn log_all(limit: usize, replies: &[Reply]) -> (r: Step<Result<Vec<Commit>, String>>)
    ensures
        command::step_view(r) == log_step(limit as nat, replies@),
{
    let mut n = "-n".to_owned();
    text::push_number(&mut n, limit as u64);
    let args = with(with(with(arg("log"), "--all"), "--date-order"), n.as_str());
    let args = with(args, "--pretty=format:%H%x1f%h%x1f%P%x1f%D%x1f%s%x1f%an%x1f%at%x1e");
    assert(args.deep_view() =~= log_command(limit as nat).args);
    match ask(git(args), replies) {
        Step::Run(c) => Step::Run(c),
        Step::Done(Ok(out), n) => Step::Done(Ok(parse_log(out.as_str())), n),
        Step::Done(Err(e), n) => Step::Done(Err(e), n),
    }
}

// ---------------------------------------------------------------------------
// Working-tree status
// ---------------------------------------------------------------------------
/// What one record says: `x` is the letter of the index column, `y` that of the
/// working-tree column. A file with changes in both gives two entries.
pub open spec fn record_entries(
    x: u8,
    y: u8,
    path: Seq<char>,
    orig: Option<Seq<char>>,
) -> Seq<StatusEntryView> {
    if x == 0x3F && y == 0x3F {
        seq![StatusEntryView { status: FileStatus::Untracked, path, orig_path: None }]
    } else {
        let index = if x != 0x20 && x != 0x3F {
            let status = if x == 0x44 {
                FileStatus::StagedDeleted
            } else {
                FileStatus::Staged
            };
            seq![StatusEntryView { status, path, orig_path: orig }]
        } else {
            seq![]
        };
        let tree = if y != 0x20 && y != 0x3F {
            let status = if y == 0x44 {
                FileStatus::Deleted
            } else {
                FileStatus::Modified
            };
            seq![StatusEntryView { status, path, orig_path: None }]
        } else {
            seq![]
        };
        index + tree
    }
}

/// The record tells of a rename or a copy: the next field is where it came from.
pub open spec fn is_move(x: u8) -> bool {
    x == 0x52 || x == 0x43
}

/// The entries of the fields. A record is two letters, a blank and a path; one
/// of fewer than three bytes is skipped.
pub open spec fn entries_of(fields: Seq<Seq<char>>) -> Seq<StatusEntryView>
    decreases fields.len(),
{
    if fields.len() == 0 {
        seq![]
    } else {
        let bytes = utf8::encode_utf8(fields[0]);
        let rest = fields.drop_first();
        if bytes.len() < 3 {
            entries_of(rest)
        } else {
            let path = utf8::decode_utf8(bytes.subrange(3, bytes.len() as int));
            if is_move(bytes[0]) && rest.len() > 0 {
                record_entries(bytes[0], bytes[1], path, Some(rest[0])) + entries_of(
                    rest.drop_first(),
                )
            } else {
                record_entries(bytes[0], bytes[1], path, None) + entries_of(rest)
            }
        }
    }
}

/// The path of every record starts where a character starts.
pub open spec fn records_readable(fields: Seq<Seq<char>>) -> bool
    decreases fields.len(),
{
    if fields.len() == 0 {
        true
    } else {
        let bytes = utf8::encode_utf8(fields[0]);
        let rest = fields.drop_first();
        if bytes.len() < 3 {
            records_readable(rest)
        } else {
            utf8::is_char_boundary(bytes, 3) && (if is_move(bytes[0]) && rest.len() > 0 {
                records_readable(rest.drop_first())
            } else {
                records_readable(rest)
            })
        }
    }
}

/// Does the path of every record start where a character starts? Git's own
/// output always does.
pub fn status_readable(out: &str) -> (r: bool)
    ensures
        r == records_readable(text::pieces(out@, '\0')),
{
    let fields = text::split(out, '\0');
    let ghost all = fields.deep_view();
    let mut i: usize = 0;
    assert(all.skip(0) =~= all);
    while i < fields.len()
        invariant
            all == fields.deep_view(),
            all == text::pieces(out@, '\0'),
            i <= fields@.len(),
            records_readable(all.skip(i as int)) == records_readable(all),
        decreases fields@.len() - i,
    {
        let record = fields[i].as_str();
        let bytes = record.as_bytes();
        let ghost rest = all.skip(i as int);
        proof {
            assert(rest[0] == record@);
            assert(rest.drop_first() =~= all.skip(i + 1));
            if i + 1 < all.len() {
                assert(rest.drop_first().drop_first() =~= all.skip(i + 2));
            }
        }
        i += 1;
        if bytes.len() >= 3 {
            if !record.is_char_boundary(3) {
                return false;
            }
            if (bytes[0] == 0x52 || bytes[0] == 0x43) && i < fields.len() {
                i += 1;
            }
        }
    }
    assert(all.skip(i as int) =~= Seq::<Seq<char>>::empty());
    true
}

/// Appends what one record says.
fn push_record(
    entries: &mut Vec<StatusEntry>,
    x: u8,
    y: u8,
    path: &str,
    orig: Option<String>,
)
    ensures
        final(entries).deep_view() == old(entries).deep_view() + record_entries(
            x,
            y,
            path@,
            orig.deep_view(),
        ),
{
    let ghost before = entries.deep_view();
    if x == 0x3F && y == 0x3F {
        entries.push(
            StatusEntry { status: FileStatus::Untracked, path: path.to_owned(), orig_path: None },
        );
        assert(entries.deep_view() =~= before + record_entries(x, y, path@, orig.deep_view()));
        return;
    }
    let ghost o = orig.deep_view();
    if x != 0x20 && x != 0x3F {
        let status = if x == 0x44 {
            FileStatus::StagedDeleted
        } else {
            FileStatus::Staged
        };
        entries.push(StatusEntry { status, path: path.to_owned(), orig_path: orig });
    }
    if y != 0x20 && y != 0x3F {
        let status = if y == 0x44 {
            FileStatus::Deleted
        } else {
            FileStatus::Modified
        };
        entries.push(StatusEntry { status, path: path.to_owned(), orig_path: None });
    }
    assert(entries.deep_view() =~= before + record_entries(x, y, path@, o));
}

/// Reads the output of `git status --porcelain=v1 -z`: records end in NUL and
/// paths are not quoted, so odd paths survive, and the origin of a rename comes
/// as a field of its own.
pub fn parse_status(out: &str) -> (r: Vec<StatusEntry>)
    requires
        records_readable(text::pieces(out@, '\0')),
    ensures
        r.deep_view() == entries_of(text::pieces(out@, '\0')),
{
    let fields = text::split(out, '\0');
    let ghost all = fields.deep_view();
    let mut entries: Vec<StatusEntry> = Vec::new();
    let mut i: usize = 0;
    assert(all.skip(0) =~= all);
    assert(entries.deep_view() + entries_of(all) =~= entries_of(all));
    while i < fields.len()
        invariant
            all == fields.deep_view(),
            i <= fields@.len(),
            records_readable(all.skip(i as int)),
            entries.deep_view() + entries_of(all.skip(i as int)) == entries_of(all),
        decreases fields@.len() - i,
    {
        let record = fields[i].as_str();
        let bytes = record.as_bytes();
        let ghost rest = all.skip(i as int);
        let ghost before = entries.deep_view();
        proof {
            assert(rest[0] == record@);
            assert(rest.drop_first() =~= all.skip(i + 1));
            if i + 1 < all.len() {
                assert(rest.drop_first()[0] == fields@[i + 1]@);
                assert(rest.drop_first().drop_first() =~= all.skip(i + 2));
            }
        }
        i += 1;
        if bytes.len() >= 3 {
            let path = record.split_at(3).1;
            proof {
                utf8::encode_utf8_decode_utf8(path@);
            }
            let orig: Option<String> = if (bytes[0] == 0x52 || bytes[0] == 0x43) && i
                < fields.len() {
                i += 1;
                Some(fields[i - 1].clone())
            } else {
                None
            };
            let ghost o = orig.deep_view();
            push_record(&mut entries, bytes[0], bytes[1], path, orig);
            assert(entries.deep_view() + entries_of(all.skip(i as int)) =~= before + (
            record_entries(bytes@[0], bytes@[1], path@, o) + entries_of(all.skip(i as int))));
        }
    }
    assert(all.skip(i as int) =~= Seq::<Seq<char>>::empty());
    assert(entries.deep_view() + entries_of(all.skip(i as int)) =~= entries.deep_view());
    entries
}

/// The working-tree status.
pub open spec fn status_step(replies: Seq<Reply>) -> StepView<
    Result<Seq<StatusEntryView>, Seq<char>>,
> {
    let command = command::git_command(
        seq!["status"@, "--porcelain=v1"@, "-z"@, "-uall"@],
    );
    match command::asked(command, replies) {
        StepView::Run(c) => StepView::Run(c),
        StepView::Done(Ok(out), n) => StepView::Done(
            Ok(entries_of(text::pieces(out, '\0'))),
            n,
        ),
        StepView::Done(Err(e), n) => StepView::Done(Err(e), n),
    }
}

/// The working-tree status.
pub fn status(replies: &[Reply]) -> (r: Step<Result<Vec<StatusEntry>, String>>)
    requires
        status_reply_readable(replies@),
    ensures
        command::step_view(r) == status_step(replies@),
{
    let args = with(with(with(arg("status"), "--porcelain=v1"), "-z"), "-uall");
    assert(args.deep_view() =~= seq!["status"@, "--porcelain=v1"@, "-z"@, "-uall"@]);
    match ask(git(args), replies) {
        Step::Run(c) => Step::Run(c),
        Step::Done(Ok(out), n) => Step::Done(Ok(parse_status(out.as_str())), n),
        Step::Done(Err(e), n) => Step::Done(Err(e), n),
    }
}

/// The output of `git status`, if it came, has readable records.
pub open spec fn status_reply_readable(replies: Seq<Reply>) -> bool {
    replies.len() > 0 ==> (command::answer(replies[0]) matches Ok(out) ==> records_readable(
        text::pieces(out, '\0'),
    ))
}

/// The working-tree status, or `None` where the path of a record does not start
/// where a character starts.
pub fn try_status(replies: &[Reply]) -> (r: Option<Step<Result<Vec<StatusEntry>, String>>>)
    ensures
        match r {
            Some(step) => status_reply_readable(replies@) && command::step_view(step)
                == status_step(replies@),
            None => !status_reply_readable(replies@),
        },
{
    if replies.len() > 0 {
        if let Ok(out) = run_ok(&replies[0]) {
            if !status_readable(out.as_str()) {
                return None;
            }
        }
    }
    Some(status(replies))
}

// ---------------------------------------------------------------------------
// Tracking
// ---------------------------------------------------------------------------
/// The count that a token of the ahead/behind header writes after its sign; one
/// that is no number counts as 0.
pub open spec fn count(token: Seq<char>) -> int {
    match text::unsigned(token.drop_first(), usize::MAX as nat) {
        Some(n) => n as int,
        None => 0,
    }
}

/// `info` after the tokens of an ahead/behind header like "+2 -3".
pub open spec fn counted(info: TrackingView, tokens: Seq<Seq<char>>) -> TrackingView
    decreases tokens.len(),
{
    if tokens.len() == 0 {
        info
    } else {
        let before = counted(info, tokens.drop_last());
        let t = tokens.last();
        if t.len() > 0 && t[0] == '+' {
            TrackingView { ahead: count(t), ..before }
        } else if t.len() > 0 && t[0] == '-' {
            TrackingView { behind: count(t), ..before }
        } else {
            before
        }
    }
}

/// What follows `header` in a header line.
pub open spec fn after_header(line: Seq<char>, header: Seq<char>) -> Option<Seq<char>> {
    if header.is_prefix_of(line) {
        Some(line.skip(header.len() as int))
    } else {
        None
    }
}

/// `info` after one line.
pub open spec fn tracked_line(info: TrackingView, line: Seq<char>) -> TrackingView {
    match after_header(line, "# "@) {
        None => info,
        Some(rest) => {
            if let Some(head) = after_header(rest, "branch.head "@) {
                if head == "(detached)"@ {
                    TrackingView { detached: true, ..info }
                } else {
                    TrackingView { branch: Some(head), ..info }
                }
            } else if let Some(up) = after_header(rest, "branch.upstream "@) {
                TrackingView { upstream: Some(up), ..info }
            } else if let Some(ab) = after_header(rest, "branch.ab "@) {
                counted(info, text::words_of(ab))
            } else {
                info
            }
        },
    }
}

/// What the lines say, a later header overriding an earlier one.
pub open spec fn tracking_of(lines: Seq<Seq<char>>) -> TrackingView
    decreases lines.len(),
{
    if lines.len() == 0 {
        untracked()
    } else {
        tracked_line(tracking_of(lines.drop_last()), lines.last())
    }
}

/// Reads the tokens of an ahead/behind header.
fn count_tokens(info: &mut TrackingInfo, ab: &str)
    ensures
        final(info).deep_view() == counted(old(info).deep_view(), text::words_of(ab@)),
{
    let tokens = text::words(ab);
    let ghost all = tokens.deep_view();
    let ghost start = info.deep_view();
    assert(all.take(0) =~= Seq::<Seq<char>>::empty());
    proof {
        reveal_strlit("+");
        reveal_strlit("-");
    }
    for i in 0..tokens.len()
        invariant
            all == tokens.deep_view(),
            info.deep_view() == counted(start, all.take(i as int)),
            "+"@.len() == 1 && "+"@[0] == '+',
            "-"@.len() == 1 && "-"@[0] == '-',
    {
        let t = tokens[i].as_str();
        proof {
            assert(all.take(i + 1).drop_last() =~= all.take(i as int));
            assert(all.take(i + 1).last() == t@);
            if t@.len() > 0 {
                assert("+"@.is_prefix_of(t@) == (t@.subrange(0, 1) =~= "+"@));
                assert("-"@.is_prefix_of(t@) == (t@.subrange(0, 1) =~= "-"@));
                assert(t@.skip(1) =~= t@.drop_first());
            }
        }
        if let Some(n) = text::strip_prefix(t, "+") {
            info.ahead = match text::parse_unsigned(n, usize::MAX as u64) {
                Some(k) => k as usize,
                None => 0,
            };
        } else if let Some(n) = text::strip_prefix(t, "-") {
            info.behind = match text::parse_unsigned(n, usize::MAX as u64) {
                Some(k) => k as usize,
                None => 0,
            };
        }
    }
    assert(all.take(tokens@.len() as int) =~= all);
}

/// Reads the branch headers of `git status --porcelain=v2 --branch`.
pub fn parse_tracking(out: &str) -> (r: TrackingInfo)
    ensures
        r.deep_view() == tracking_of(text::lines_of(out@)),
{
    let lines = text::lines(out);
    let ghost all = lines.deep_view();
    let mut info = TrackingInfo::default();
    assert(all.take(0) =~= Seq::<Seq<char>>::empty());
    for i in 0..lines.len()
        invariant
            all == lines.deep_view(),
            info.deep_view() == tracking_of(all.take(i as int)),
    {
        proof {
            assert(all.take(i + 1).drop_last() =~= all.take(i as int));
            assert(all.take(i + 1).last() == lines@[i as int]@);
        }
        if let Some(rest) = text::strip_prefix(lines[i].as_str(), "# ") {
            if let Some(head) = text::strip_prefix(rest, "branch.head ") {
                if text::same(head, "(detached)") {
                    info.detached = true;
                } else {
                    info.branch = Some(head.to_owned());
                }
            } else if let Some(up) = text::strip_prefix(rest, "branch.upstream ") {
                info.upstream = Some(up.to_owned());
            } else if let Some(ab) = text::strip_prefix(rest, "branch.ab ") {
                count_tokens(&mut info, ab);
            }
        }
    }
    assert(all.take(lines@.len() as int) =~= all);
    info
}

/// The position of the current branch against its upstream.
pub open spec fn tracking_step(replies: Seq<Reply>) -> StepView<Result<TrackingView, Seq<char>>> {
    let command = command::git_command(seq!["status"@, "--porcelain=v2"@, "--branch"@]);
    match command::asked(command, replies) {
        StepView::Run(c) => StepView::Run(c),
        StepView::Done(Ok(out), n) => StepView::Done(Ok(tracking_of(text::lines_of(out))), n),
        StepView::Done(Err(e), n) => StepView::Done(Err(e), n),
    }
}

/// The position of the current branch against its upstream.
pub fn tracking(replies: &[Reply]) -> (r: Step<Result<TrackingInfo, String>>)
    ensures
        command::step_view(r) == tracking_step(replies@),
{
    let args = with(with(arg("status"), "--porcelain=v2"), "--branch");
    assert(args.deep_view() =~= seq!["status"@, "--porcelain=v2"@, "--branch"@]);
    match ask(git(args), replies) {
        Step::Run(c) => Step::Run(c),
        Step::Done(Ok(out), n) => Step::Done(Ok(parse_tracking(out.as_str())), n),
        Step::Done(Err(e), n) => Step::Done(Err(e), n),
    }
}

// ---------------------------------------------------------------------------
// Staging, committing, diffs
// ---------------------------------------------------------------------------
/// Stages a path.
pub fn stage(path: &str, replies: &[Reply]) -> (r: Step<Result<(), String>>)
    ensures
        command::step_view(r) == command::done(
            command::git_command(seq!["add"@, "--"@, path@]),
            replies@,
        ),
{
    let args = with(with(arg("add"), "--"), path);
    assert(args.deep_view() =~= seq!["add"@, "--"@, path@]);
    perform(git(args), replies)
}

/// The command that takes an entry out of the index. A staged rename is a
/// deletion at the old path and an addition at the new one, so both paths are
/// restored.
pub open spec fn unstage_command(entry: StatusEntryView) -> CommandView {
    let one = seq!["restore"@, "--staged"@, "--"@, entry.path];
    command::git_command(
        match entry.orig_path {
            Some(orig) => one.push(orig),
            None => one,
        },
    )
}

/// Takes an entry out of the index.
pub fn unstage(entry: &StatusEntry, replies: &[Reply]) -> (r: Step<Result<(), String>>)
    ensures
        command::step_view(r) == command::done(unstage_command(entry.deep_view()), replies@),
{
    let args = with(with(with(arg("restore"), "--staged"), "--"), entry.path.as_str());
    assert(args.deep_view() =~= seq!["restore"@, "--staged"@, "--"@, entry.path@]);
    let args = match &entry.orig_path {
        Some(orig) => with(args, orig.as_str()),
        None => args,
    };
    perform(git(args), replies)
}

/// Throws away unstaged changes to a tracked file; the index stays as it is.
pub fn discard_worktree(path: &str, replies: &[Reply]) -> (r: Step<Result<(), String>>)
    ensures
        command::step_view(r) == command::done(
            command::git_command(seq!["restore"@, "--"@, path@]),
            replies@,
        ),
{
    let args = with(with(arg("restore"), "--"), path);
    assert(args.deep_view() =~= seq!["restore"@, "--"@, path@]);
    perform(git(args), replies)
}

/// Deletes an untracked file from the working tree.
pub fn remove_untracked(path: &str, replies: &[Reply]) -> (r: Step<Result<(), String>>)
    ensures
        command::step_view(r) == command::done(
            command::git_command(seq!["clean"@, "-f"@, "--"@, path@]),
            replies@,
        ),
{
    let args = with(with(with(arg("clean"), "-f"), "--"), path);
    assert(args.deep_view() =~= seq!["clean"@, "-f"@, "--"@, path@]);
    perform(git(args), replies)
}

/// Commits what is staged.
pub fn commit(message: &str, replies: &[Reply]) -> (r: Step<Result<(), String>>)
    ensures
        command::step_view(r) == command::done(
            command::git_command(seq!["commit"@, "-m"@, message@]),
            replies@,
        ),
{
    let args = with(with(arg("commit"), "-m"), message);
    assert(args.deep_view() =~= seq!["commit"@, "-m"@, message@]);
    perform(git(args), replies)
}

/// The command that shows the changes of a file, in the index or in the working
/// tree.
pub open spec fn diff_file_command(path: Seq<char>, staged: bool) -> CommandView {
    command::git_command(
        if staged {
            seq!["diff"@, "--cached"@, "--"@, path]
        } else {
            seq!["diff"@, "--"@, path]
        },
    )
}

/// The changes of a file.
pub fn diff_file(path: &str, staged: bool, replies: &[Reply]) -> (r: Step<Result<String, String>>)
    ensures
        command::step_view(r) == command::asked(diff_file_command(path@, staged), replies@),
{
    let args = if staged {
        with(with(with(arg("diff"), "--cached"), "--"), path)
    } else {
        with(with(arg("diff"), "--"), path)
    };
    assert(args.deep_view() =~= diff_file_command(path@, staged).args);
    ask(git(args), replies)
}

/// The command that shows a commit.
pub open spec fn diff_commit_command(hash: Seq<char>) -> CommandView {
    command::git_command(seq!["show"@, "--stat"@, "--patch"@, hash])
}

/// The changes of a commit.
pub fn diff_commit(hash: &str, replies: &[Reply]) -> (r: Step<Result<String, String>>)
    ensures
        command::step_view(r) == command::asked(diff_commit_command(hash@), replies@),
{
    let args = with(with(with(arg("show"), "--stat"), "--patch"), hash);
    assert(args.deep_view() =~= diff_commit_command(hash@).args);
    ask(git(args), replies)
}

// ---------------------------------------------------------------------------
// Pushing
// ---------------------------------------------------------------------------
/// The arguments of the push: a branch without an upstream gets `origin`'s
/// branch of the same name as its upstream.
pub open spec fn push_step(replies: Seq<Reply>) -> StepView<
    Result<Seq<Seq<char>>, Seq<char>>,
> {
    if replies.len() == 0 {
        StepView::Run(
            command::git_command(
                seq!["rev-parse"@, "--abbrev-ref"@, "--symbolic-full-name"@, "@{u}"@],
            ),
        )
    } else if command::went_well(replies[0]) {
        StepView::Done(Ok(seq!["push"@]), 1)
    } else if replies.len() == 1 {
        StepView::Run(command::git_command(seq!["rev-parse"@, "--abbrev-ref"@, "HEAD"@]))
    } else {
        match command::answer(replies[1]) {
            Ok(out) => StepView::Done(
                Ok(seq!["push"@, "--set-upstream"@, "origin"@, text::trimmed(out)]),
                2,
            ),
            Err(e) => StepView::Done(Err(e), 2),
        }
    }
}

/// The arguments of the push.
pub fn push_args(replies: &[Reply]) -> (r: Step<Result<Vec<String>, String>>)
    ensures
        command::step_view(r) == push_step(replies@),
{
    if replies.len() == 0 {
        let args = with(
            with(with(arg("rev-parse"), "--abbrev-ref"), "--symbolic-full-name"),
            "@{u}",
        );
        assert(args.deep_view() =~= seq![
            "rev-parse"@,
            "--abbrev-ref"@,
            "--symbolic-full-name"@,
            "@{u}"@,
        ]);
        return Step::Run(git(args));
    }
    if succeeded(&replies[0]) {
        return Step::Done(Ok(arg("push")), 1);
    }
    if replies.len() == 1 {
        let args = with(with(arg("rev-parse"), "--abbrev-ref"), "HEAD");
        assert(args.deep_view() =~= seq!["rev-parse"@, "--abbrev-ref"@, "HEAD"@]);
        return Step::Run(git(args));
    }
    match run_ok(&replies[1]) {
        Ok(out) => {
            let branch = text::trim(out.as_str());
            let args = with(with(with(arg("push"), "--set-upstream"), "origin"), branch);
            assert(args.deep_view() =~= seq![
                "push"@,
                "--set-upstream"@,
                "origin"@,
                branch@,
            ]);
            Step::Done(Ok(args), 2)
        },
        Err(e) => Step::Done(Err(e), 2),
    }
}

/// Push with the arguments that the branch needs.
pub open spec fn pushed_step(replies: Seq<Reply>) -> StepView<Result<(), Seq<char>>> {
    match push_step(replies) {
        StepView::Run(c) => StepView::Run(c),
        StepView::Done(Err(e), n) => StepView::Done(Err(e), n),
        StepView::Done(Ok(args), n) => match command::done(
            command::git_command(args),
            replies.skip(n),
        ) {
            StepView::Run(c) => StepView::Run(c),
            StepView::Done(r, m) => StepView::Done(r, n + m),
        },
    }
}

/// Pushes the current branch.
pub fn push(replies: &[Reply]) -> (r: Step<Result<(), String>>)
    ensures
        command::step_view(r) == pushed_step(replies@),
{
    match push_args(replies) {
        Step::Run(c) => Step::Run(c),
        Step::Done(Err(e), n) => Step::Done(Err(e), n),
        Step::Done(Ok(args), n) => {
            let rest = vstd::slice::slice_subrange(replies, n, replies.len());
            assert(rest@ =~= replies@.skip(n as int));
            match perform(git(args), rest) {
                Step::Run(c) => Step::Run(c),
                Step::Done(r, m) => Step::Done(r, n + m),
            }
        },
    }
}

/// Pulls, where that needs no merge.
pub fn pull(replies: &[Reply]) -> (r: Step<Result<String, String>>)
    ensures
        command::step_view(r) == command::asked(
            command::git_command(seq!["pull"@, "--ff-only"@]),
            replies@,
        ),
{
    let args = with(arg("pull"), "--ff-only");
    assert(args.deep_view() =~= seq!["pull"@, "--ff-only"@]);
    ask(git(args), replies)
}

// ---------------------------------------------------------------------------
// The main branch
// ---------------------------------------------------------------------------
/// The names that a main branch may have, in the order in which they are tried.
pub open spec fn main_names() -> Seq<Seq<char>> {
    seq!["main"@, "master"@, "trunk"@]
}

/// Try the names from the `k`-th on, the replies to the ones before being read:
/// the first that exists is the main branch.
pub open spec fn main_from(k: int, replies: Seq<Reply>) -> StepView<Option<Seq<char>>>
    decreases 3 - k,
{
    if k >= 3 {
        StepView::Done(None, 3)
    } else if replies.len() <= k {
        StepView::Run(
            command::git_command(seq!["rev-parse"@, "--verify"@, main_names()[k]]),
        )
    } else if command::went_well(replies[k]) {
        StepView::Done(Some(main_names()[k]), k + 1)
    } else {
        main_from(k + 1, replies)
    }
}

/// The name of the main branch, if the repository has one of the usual names.
pub open spec fn main_step(replies: Seq<Reply>) -> StepView<Option<Seq<char>>> {
    main_from(0, replies)
}

/// Finds the repository's main branch by the usual names.
pub fn main_branch(replies: &[Reply]) -> (r: Step<Option<String>>)
    ensures
        r.deep_view() == main_step(replies@),
{
    let mut k: usize = 0;
    while k < 3
        invariant
            k <= 3,
            main_from(k as int, replies@) == main_step(replies@),
        decreases 3 - k,
    {
        let name = if k == 0 {
            "main"
        } else if k == 1 {
            "master"
        } else {
            "trunk"
        };
        assert(name@ == main_names()[k as int]);
        if replies.len() <= k {
            let args = with(with(arg("rev-parse"), "--verify"), name);
            assert(args.deep_view() =~= seq!["rev-parse"@, "--verify"@, name@]);
            return Step::Run(git(args));
        }
        if succeeded(&replies[k]) {
            return Step::Done(Some(name.to_owned()), k + 1);
        }
        k += 1;
    }
    Step::Done(None, 3)
}

/// Three replies settle which branch is the main one.
pub proof fn main_branch_is_settled(replies: Seq<Reply>)
    requires
        replies.len() >= 3,
    ensures
        main_step(replies) is Done,
{
    reveal_with_fuel(main_from, 4);
}

/// The hashes on the main branch's first-parent chain; none without a main
/// branch.
pub open spec fn chain_step(replies: Seq<Reply>) -> StepView<
    Result<Seq<Seq<char>>, Seq<char>>,
> {
    match main_step(replies) {
        StepView::Run(c) => StepView::Run(c),
        StepView::Done(None, n) => StepView::Done(Ok(seq![]), n),
        StepView::Done(Some(main), n) => {
            let command = command::git_command(
                seq!["log"@, "--first-parent"@, "--format=%H"@, main],
            );
            match command::asked(command, replies.skip(n)) {
                StepView::Run(c) => StepView::Run(c),
                StepView::Done(Ok(out), m) => StepView::Done(Ok(text::lines_of(out)), n + m),
                StepView::Done(Err(e), m) => StepView::Done(Err(e), n + m),
            }
        },
    }
}

proof fn lemma_main_used(k: int, replies: Seq<Reply>)
    requires
        0 <= k <= 3,
        k <= replies.len(),
    ensures
        main_from(k, replies) matches StepView::Done(_, n) ==> 0 <= n <= replies.len() && n <= 3,
    decreases 3 - k,
{
    if k < 3 && replies.len() > k {
        lemma_main_used(k + 1, replies);
    }
}

/// The hashes on the main branch's first-parent chain, which are pinned to the
/// leftmost lane.
pub fn main_chain(replies: &[Reply]) -> (r: Step<Result<Vec<String>, String>>)
    ensures
        command::step_view(r) == chain_step(replies@),
{
    proof {
        lemma_main_used(0, replies@);
    }
    match main_branch(replies) {
        Step::Run(c) => Step::Run(c),
        Step::Done(None, n) => {
            let none: Vec<String> = Vec::new();
            assert(none.deep_view() =~= Seq::<Seq<char>>::empty());
            Step::Done(Ok(none), n)
        },
        Step::Done(Some(main), n) => {
            let args = with(
                with(with(arg("log"), "--first-parent"), "--format=%H"),
                main.as_str(),
            );
            assert(args.deep_view() =~= seq![
                "log"@,
                "--first-parent"@,
                "--format=%H"@,
                main@,
            ]);
            let rest = vstd::slice::slice_subrange(replies, n, replies.len());
            assert(rest@ =~= replies@.skip(n as int));
            match ask(git(args), rest) {
                Step::Run(c) => Step::Run(c),
                Step::Done(Ok(out), m) => Step::Done(Ok(text::lines(out.as_str())), n + m),
                Step::Done(Err(e), m) => Step::Done(Err(e), n + m),
            }
        },
    }
}

/// No more replies are read than there are, and at most four.
pub proof fn lemma_chain_used(replies: Seq<Reply>)
    ensures
        chain_step(replies) matches StepView::Done(_, n) ==> 0 <= n <= replies.len() && n <= 4,
{
    lemma_main_used(0, replies);
}

/// Four replies settle the chain.
pub proof fn main_chain_is_settled(replies: Seq<Reply>)
    requires
        replies.len() >= 4,
    ensures
        chain_step(replies) is Done,
{
    main_branch_is_settled(replies);
    lemma_main_used(0, replies);
}

/// The branch that the remote takes as its default, else the main branch.
pub open spec fn base_step(replies: Seq<Reply>) -> StepView<Option<Seq<char>>> {
    if replies.len() == 0 {
        StepView::Run(command::git_command(seq!["symbolic-ref"@, "refs/remotes/origin/HEAD"@]))
    } else {
        let named = match command::answer(replies[0]) {
            Ok(out) => after_header(text::trimmed(out), "refs/remotes/origin/"@),
            Err(_) => None,
        };
        match named {
            Some(name) => StepView::Done(Some(name), 1),
            None => match main_step(replies.skip(1)) {
                StepView::Run(c) => StepView::Run(c),
                StepView::Done(b, n) => StepView::Done(b, n + 1),
            },
        }
    }
}

/// What the remote considers its default branch. Falls back to the main branch.
pub fn default_base_branch(replies: &[Reply]) -> (r: Step<Option<String>>)
    ensures
        r.deep_view() == base_step(replies@),
{
    if replies.len() == 0 {
        let args = with(arg("symbolic-ref"), "refs/remotes/origin/HEAD");
        assert(args.deep_view() =~= seq!["symbolic-ref"@, "refs/remotes/origin/HEAD"@]);
        return Step::Run(git(args));
    }
    if let Ok(out) = run_ok(&replies[0]) {
        let full = text::trim(out.as_str());
        if let Some(name) = text::strip_prefix(full, "refs/remotes/origin/") {
            return Step::Done(Some(name.to_owned()), 1);
        }
    }
    let rest = vstd::slice::slice_subrange(replies, 1, replies.len());
    assert(rest@ =~= replies@.skip(1));
    proof {
        lemma_main_used(0, rest@);
    }
    match main_branch(rest) {
        Step::Run(c) => Step::Run(c),
        Step::Done(b, n) => Step::Done(b, n + 1),
    }
}

/// No more replies are read than there are, and at most four.
pub proof fn lemma_base_used(replies: Seq<Reply>)
    ensures
        base_step(replies) matches StepView::Done(_, n) ==> 0 <= n <= replies.len() && n <= 4,
{
    if replies.len() > 0 {
        lemma_main_used(0, replies.skip(1));
    }
}

/// Four replies settle the base branch.
pub proof fn base_branch_is_settled(replies: Seq<Reply>)
    requires
        replies.len() >= 4,
    ensures
        base_step(replies) is Done,
{
    main_branch_is_settled(replies.skip(1));
}

// ---------------------------------------------------------------------------
// Branches
// ---------------------------------------------------------------------------
/// The branch of one line of the ref list: HEAD's marker, a tab and the name of
/// the ref. The `HEAD` of a remote is no branch.
pub open spec fn branch_of(line: Seq<char>) -> Option<BranchView> {
    let i = text::first_at(line, '\t');
    let marker = line.take(i);
    let refname = if i < line.len() {
        line.skip(i + 1)
    } else {
        seq![]
    };
    if let Some(name) = after_header(refname, "refs/heads/"@) {
        Some(
            BranchView { name, is_current: text::trimmed(marker) == "*"@, is_remote: false },
        )
    } else if let Some(name) = after_header(refname, "refs/remotes/"@) {
        if text::ends(name, "/HEAD"@) {
            None
        } else {
            Some(BranchView { name, is_current: false, is_remote: true })
        }
    } else {
        None
    }
}

/// The branches among the lines, in order.
pub open spec fn branches_of(lines: Seq<Seq<char>>) -> Seq<BranchView>
    decreases lines.len(),
{
    if lines.len() == 0 {
        seq![]
    } else {
        match branch_of(lines.last()) {
            Some(b) => branches_of(lines.drop_last()).push(b),
            None => branches_of(lines.drop_last()),
        }
    }
}

/// Reads one line of the ref list.
fn parse_branch(line: &str) -> (r: Option<Branch>)
    ensures
        r.deep_view() == branch_of(line@),
{
    proof {
        text::lemma_first_at(line@, '\t');
        assert(line@.take(line@.len() as int) =~= line@);
        reveal_strlit("");
        assert(""@ =~= Seq::<char>::empty());
    }
    let (marker, refname) = match text::split_once(line, '\t') {
        Some((before, after)) => (before, after),
        None => (line, ""),
    };
    if let Some(name) = text::strip_prefix(refname, "refs/heads/") {
        Some(
            Branch {
                name: name.to_owned(),
                is_current: text::same(text::trim(marker), "*"),
                is_remote: false,
            },
        )
    } else if let Some(name) = text::strip_prefix(refname, "refs/remotes/") {
        if text::ends_with(name, "/HEAD") {
            None
        } else {
            Some(Branch { name: name.to_owned(), is_current: false, is_remote: true })
        }
    } else {
        None
    }
}

/// Reads the list of refs.
pub fn parse_branches(out: &str) -> (r: Vec<Branch>)
    ensures
        r.deep_view() == branches_of(text::lines_of(out@)),
{
    let lines = text::lines(out);
    let ghost all = lines.deep_view();
    let mut branches: Vec<Branch> = Vec::new();
    assert(branches.deep_view() =~= branches_of(all.take(0)));
    for i in 0..lines.len()
        invariant
            all == lines.deep_view(),
            branches.deep_view() == branches_of(all.take(i as int)),
    {
        let ghost before = branches.deep_view();
        proof {
            assert(all.take(i + 1).drop_last() =~= all.take(i as int));
            assert(all.take(i + 1).last() == lines@[i as int]@);
        }
        if let Some(b) = parse_branch(lines[i].as_str()) {
            let ghost v = b.deep_view();
            branches.push(b);
            assert(branches.deep_view() =~= before.push(v));
        }
    }
    assert(all.take(lines@.len() as int) =~= all);
    branches
}

/// All branches, local and remote-tracking.
pub open spec fn branches_step(replies: Seq<Reply>) -> StepView<
    Result<Seq<BranchView>, Seq<char>>,
> {
    let command = command::git_command(
        seq!["for-each-ref"@, "--format=%(HEAD)%09%(refname)"@, "refs/heads"@, "refs/remotes"@],
    );
    match command::asked(command, replies) {
        StepView::Run(c) => StepView::Run(c),
        StepView::Done(Ok(out), n) => StepView::Done(Ok(branches_of(text::lines_of(out))), n),
        StepView::Done(Err(e), n) => StepView::Done(Err(e), n),
    }
}

/// Lists all branches, local and remote-tracking, the `HEAD` of remotes left
/// out.
pub fn list_branches(replies: &[Reply]) -> (r: Step<Result<Vec<Branch>, String>>)
    ensures
        command::step_view(r) == branches_step(replies@),
{
    let args = with(
        with(with(arg("for-each-ref"), "--format=%(HEAD)%09%(refname)"), "refs/heads"),
        "refs/remotes",
    );
    assert(args.deep_view() =~= seq![
        "for-each-ref"@,
        "--format=%(HEAD)%09%(refname)"@,
        "refs/heads"@,
        "refs/remotes"@,
    ]);
    match ask(git(args), replies) {
        Step::Run(c) => Step::Run(c),
        Step::Done(Ok(out), n) => Step::Done(Ok(parse_branches(out.as_str())), n),
        Step::Done(Err(e), n) => Step::Done(Err(e), n),
    }
}

/// The names of the configured remotes; none if git cannot tell.
pub open spec fn remotes_step(replies: Seq<Reply>) -> StepView<Seq<Seq<char>>> {
    match command::asked(command::git_command(seq!["remote"@]), replies) {
        StepView::Run(c) => StepView::Run(c),
        StepView::Done(Ok(out), n) => StepView::Done(text::lines_of(out), n),
        StepView::Done(Err(_), n) => StepView::Done(seq![], n),
    }
}

/// The names of the configured remotes, for example "origin" and "upstream".
pub fn remotes(replies: &[Reply]) -> (r: Step<Vec<String>>)
    ensures
        r.deep_view() == remotes_step(replies@),
{
    match ask(git(arg("remote")), replies) {
        Step::Run(c) => Step::Run(c),
        Step::Done(Ok(out), n) => Step::Done(text::lines(out.as_str()), n),
        Step::Done(Err(_), n) => {
            let none: Vec<String> = Vec::new();
            assert(none.deep_view() =~= Seq::<Seq<char>>::empty());
            Step::Done(none, n)
        },
    }
}

/// `name` without its first segment where that is one of the remotes.
pub open spec fn local_name(name: Seq<char>, remotes: Seq<Seq<char>>) -> Seq<char> {
    let i = text::first_at(name, '/');
    if i < name.len() && remotes.contains(name.take(i)) {
        name.skip(i + 1)
    } else {
        name
    }
}

/// Behind the name of a remote stands the local name.
pub proof fn lemma_local_name(remote: Seq<char>, name: Seq<char>, remotes: Seq<Seq<char>>)
    requires
        remotes.contains(remote),
        !remote.contains('/'),
    ensures
        local_name(remote + seq!['/'] + name, remotes) == name,
{
    let full = remote + seq!['/'] + name;
    assert forall|j: int| 0 <= j < remote.len() implies full[j] != '/' by {
        assert(full[j] == remote[j]);
    }
    text::lemma_first_at_is(full, '/', remote.len() as int);
    assert(full.take(remote.len() as int) =~= remote);
    assert(full.skip(remote.len() as int + 1) =~= name);
}

/// Is `name` one of the names?
pub fn is_among(name: &str, names: &[String]) -> (r: bool)
    ensures
        r == names.deep_view().contains(name@),
{
    for i in 0..names.len()
        invariant
            forall|j: int| 0 <= j < i ==> names.deep_view()[j] != name@,
    {
        if text::same(names[i].as_str(), name) {
            assert(names.deep_view()[i as int] == name@);
            return true;
        }
    }
    false
}

/// `name` without its first segment where that is one of the remotes.
pub fn without_remote<'a>(name: &'a str, remotes: &[String]) -> (r: &'a str)
    ensures
        r@ == local_name(name@, remotes.deep_view()),
{
    if let Some((first, rest)) = text::split_once(name, '/') {
        if is_among(first, remotes) {
            return rest;
        }
    }
    name
}

/// Switch to a branch. A remote-tracking name loses its remote, so that git sets
/// up a local branch that tracks it; the remotes are asked for only where the
/// name has a slash.
pub open spec fn checkout_step(name: Seq<char>, replies: Seq<Reply>) -> StepView<
    Result<(), Seq<char>>,
> {
    let switch = |target: Seq<char>| command::git_command(seq!["switch"@, target]);
    if text::first_at(name, '/') < name.len() {
        match remotes_step(replies) {
            StepView::Run(c) => StepView::Run(c),
            StepView::Done(remotes, n) => match command::done(
                switch(local_name(name, remotes)),
                replies.skip(n),
            ) {
                StepView::Run(c) => StepView::Run(c),
                StepView::Done(x, m) => StepView::Done(x, n + m),
            },
        }
    } else {
        command::done(switch(name), replies)
    }
}

/// Attempts `git switch`.
pub fn checkout_branch(name: &str, replies: &[Reply]) -> (r: Step<Result<(), String>>)
    ensures
        command::step_view(r) == checkout_step(name@, replies@),
{
    if text::split_once(name, '/').is_none() {
        let args = with(arg("switch"), name);
        assert(args.deep_view() =~= seq!["switch"@, name@]);
        return perform(git(args), replies);
    }
    match remotes(replies) {
        Step::Run(c) => Step::Run(c),
        Step::Done(all, n) => {
            let target = without_remote(name, &all);
            let args = with(arg("switch"), target);
            assert(args.deep_view() =~= seq!["switch"@, target@]);
            let rest = vstd::slice::slice_subrange(replies, n, replies.len());
            assert(rest@ =~= replies@.skip(n as int));
            match perform(git(args), rest) {
                Step::Run(c) => Step::Run(c),
                Step::Done(x, m) => Step::Done(x, n + m),
            }
        },
    }
}

/// Creates a branch at a commit and switches to it.
pub fn create_branch_at(name: &str, sha: &str, replies: &[Reply]) -> (r: Step<
    Result<(), String>,
>)
    ensures
        command::step_view(r) == command::done(
            command::git_command(seq!["switch"@, "-c"@, name@, sha@]),
            replies@,
        ),
{
    let args = with(with(with(arg("switch"), "-c"), name), sha);
    assert(args.deep_view() =~= seq!["switch"@, "-c"@, name@, sha@]);
    perform(git(args), replies)
}

/// Stashes all changes, untracked files too.
pub fn stash_push(replies: &[Reply]) -> (r: Step<Result<(), String>>)
    ensures
        command::step_view(r) == command::done(
            command::git_command(seq!["stash"@, "push"@, "-u"@, "-m"@, "spor-auto-stash"@]),
            replies@,
        ),
{
    let args = with(with(with(with(arg("stash"), "push"), "-u"), "-m"), "spor-auto-stash");
    assert(args.deep_view() =~= seq!["stash"@, "push"@, "-u"@, "-m"@, "spor-auto-stash"@]);
    perform(git(args), replies)
}

/// The error says that the working tree blocked the switch.
pub open spec fn blocked_by_worktree(err: Seq<char>) -> bool {
    text::occurs(err, "would be overwritten"@) || text::occurs(err, "local changes"@)
}

/// Does this error message say that the working tree blocked the switch?
pub fn is_worktree_conflict(err: &str) -> (r: bool)
    ensures
        r == blocked_by_worktree(err@),
{
    text::contains(err, "would be overwritten") || text::contains(err, "local changes")
}

// ---------------------------------------------------------------------------
// Laws
// ---------------------------------------------------------------------------
/// A record of the log gives its fields back: hash, short hash, subject and
/// author as they are, parents by words, and refs by commas.
pub proof fn log_record_is_read_back(fields: Seq<Seq<char>>)
    requires
        fields.len() == 7,
        forall|i: int| 0 <= i < 7 ==> !(#[trigger] fields[i]).contains('\x1f'),
        fields[0].len() > 0 && fields[0][0] != '\n',
    ensures
        ({
            let c = commit_of(seq!['\n'] + text::joined(fields, seq!['\x1f']));
            &&& c is Some
            &&& c == commit_of(text::joined(fields, seq!['\x1f']))
            &&& c->0.hash == fields[0]
            &&& c->0.short == fields[1]
            &&& c->0.parents == text::words_of(fields[2])
            &&& c->0.refs == ref_names(text::pieces(fields[3], ','))
            &&& c->0.subject == fields[4]
            &&& c->0.author == fields[5]
        }),
{
    let record = text::joined(fields, seq!['\x1f']);
    text::splitting_undoes_joining(fields, '\x1f');
    let led = seq!['\n'] + record;
    assert(led.drop_first() =~= record);
    assert(fields =~= seq![fields[0]] + fields.drop_first());
    text::lemma_joined_first(fields[0], fields.drop_first(), seq!['\x1f']);
    assert(record[0] == fields[0][0]);
    assert(text::without_lead(record, '\n') == record);
    assert(text::without_lead(led, '\n') == text::without_lead(led.drop_first(), '\n'));
}

proof fn lemma_ascii_lead(x: char, rest: Seq<char>)
    requires
        (x as u32) < 128,
    ensures
        utf8::encode_utf8(seq![x] + rest) == seq![x as u8] + utf8::encode_utf8(rest),
{
    let all = seq![x] + rest;
    assert(all.drop_first() =~= rest);
    let c = x as u32;
    assert((c & 0x7F) as u8 == c as u8) by (bit_vector)
        requires
            c < 128,
    ;
    assert(utf8::encode_scalar(c) =~= seq![x as u8]);
}

proof fn lemma_record_bytes(x: char, y: char, path: Seq<char>)
    requires
        (x as u32) < 128,
        (y as u32) < 128,
    ensures
        ({
            let bytes = utf8::encode_utf8(seq![x] + (seq![y] + (seq![' '] + path)));
            &&& bytes.len() >= 3
            &&& bytes[0] == x as u8
            &&& bytes[1] == y as u8
            &&& utf8::decode_utf8(bytes.subrange(3, bytes.len() as int)) == path
        }),
{
    lemma_ascii_lead(x, seq![y] + (seq![' '] + path));
    lemma_ascii_lead(y, seq![' '] + path);
    lemma_ascii_lead(' ', path);
    let bytes = utf8::encode_utf8(seq![x] + (seq![y] + (seq![' '] + path)));
    assert(bytes.subrange(3, bytes.len() as int) =~= utf8::encode_utf8(path));
    utf8::encode_utf8_decode_utf8(path);
}

/// A record of the status gives its path back whatever the path holds, and what
/// follows is read on.
pub proof fn status_record_is_read_back(
    x: char,
    y: char,
    path: Seq<char>,
    rest: Seq<Seq<char>>,
)
    requires
        (x as u32) < 128,
        (y as u32) < 128,
        !is_move(x as u8),
    ensures
        entries_of(seq![seq![x] + (seq![y] + (seq![' '] + path))] + rest) == record_entries(
            x as u8,
            y as u8,
            path,
            None,
        ) + entries_of(rest),
{
    lemma_record_bytes(x, y, path);
    let fields = seq![seq![x] + (seq![y] + (seq![' '] + path))] + rest;
    assert(fields.drop_first() =~= rest);
}

/// A record of a rename or a copy gives both paths back.
pub proof fn renamed_file_keeps_both_paths(
    x: char,
    y: char,
    path: Seq<char>,
    orig: Seq<char>,
    rest: Seq<Seq<char>>,
)
    requires
        (x as u32) < 128,
        (y as u32) < 128,
        is_move(x as u8),
    ensures
        entries_of(seq![seq![x] + (seq![y] + (seq![' '] + path)), orig] + rest) == record_entries(
            x as u8,
            y as u8,
            path,
            Some(orig),
        ) + entries_of(rest),
{
    lemma_record_bytes(x, y, path);
    let fields = seq![seq![x] + (seq![y] + (seq![' '] + path)), orig] + rest;
    assert(fields.drop_first() =~= seq![orig] + rest);
    assert(fields.drop_first().drop_first() =~= rest);
}

/// An entry is in the index exactly where the index column says so, and an
/// untracked file never is.
pub proof fn entries_carry_stagedness(
    x: u8,
    y: u8,
    path: Seq<char>,
    orig: Option<Seq<char>>,
    i: int,
)
    requires
        0 <= i < record_entries(x, y, path, orig).len(),
    ensures
        ({
            let e = record_entries(x, y, path, orig)[i];
            &&& e.path == path
            &&& e.status.in_index() <==> i == 0 && x != 0x20 && x != 0x3F
            &&& e.orig_path is Some ==> e.status.in_index()
        }),
{
}

/// Switching to a remote branch switches to the local branch that it stands
/// for, where the remote is known.
pub proof fn remote_branch_is_switched_to_locally(
    remote: Seq<char>,
    name: Seq<char>,
    replies: Seq<Reply>,
)
    requires
        replies.len() == 1,
        command::answer(replies[0]) matches Ok(out) && text::lines_of(out).contains(remote),
        !remote.contains('/'),
    ensures
        checkout_step(remote + seq!['/'] + name, replies) == StepView::<Result<(), Seq<char>>>::Run(
            command::git_command(seq!["switch"@, name]),
        ),
{
    let full = remote + seq!['/'] + name;
    let known = text::lines_of(command::answer(replies[0])->Ok_0);
    lemma_local_name(remote, name, known);
    text::lemma_first_at(full, '/');
    if text::first_at(full, '/') == full.len() {
        assert(full[remote.len() as int] == '/');
    }
}

/// The header lines of a branch with an upstream give its position back.
pub proof fn tracking_is_read_back(
    branch: Seq<char>,
    upstream: Seq<char>,
    ahead: nat,
    behind: nat,
)
    requires
        branch != "(detached)"@,
        ahead <= usize::MAX,
        behind <= usize::MAX,
    ensures
        tracking_of(
            seq![
                "# branch.head "@ + branch,
                "# branch.upstream "@ + upstream,
                "# branch.ab "@ + (seq!['+'] + text::decimal(ahead) + seq![' '] + (seq!['-']
                    + text::decimal(behind))),
            ],
        ) == (TrackingView {
            branch: Some(branch),
            upstream: Some(upstream),
            ahead: ahead as int,
            behind: behind as int,
            detached: false,
        }),
{
    reveal_strlit("# ");
    reveal_strlit("# branch.head ");
    reveal_strlit("# branch.upstream ");
    reveal_strlit("# branch.ab ");
    reveal_strlit("branch.head ");
    reveal_strlit("branch.upstream ");
    reveal_strlit("branch.ab ");
    let plus = seq!['+'] + text::decimal(ahead);
    let minus = seq!['-'] + text::decimal(behind);
    let ab = plus + seq![' '] + minus;
    let lines = seq![
        "# branch.head "@ + branch,
        "# branch.upstream "@ + upstream,
        "# branch.ab "@ + ab,
    ];
    lemma_header(lines[0], "# "@, "branch.head "@ + branch);
    lemma_header("branch.head "@ + branch, "branch.head "@, branch);
    lemma_header(lines[1], "# "@, "branch.upstream "@ + upstream);
    lemma_header("branch.upstream "@ + upstream, "branch.upstream "@, upstream);
    lemma_no_header("branch.upstream "@ + upstream, "branch.head "@, 7);
    lemma_header(lines[2], "# "@, "branch.ab "@ + ab);
    lemma_header("branch.ab "@ + ab, "branch.ab "@, ab);
    lemma_no_header("branch.ab "@ + ab, "branch.head "@, 7);
    lemma_no_header("branch.ab "@ + ab, "branch.upstream "@, 7);
    lemma_count(plus, ahead);
    lemma_count(minus, behind);
    text::two_words_are_read_back(plus, minus);
    let words = seq![plus, minus];
    assert(words.drop_last() =~= seq![plus]);
    assert(words.drop_last().drop_last() =~= Seq::<Seq<char>>::empty());
    let two = lines.drop_last();
    assert(two.drop_last() =~= seq![lines[0]]);
    assert(two.drop_last().drop_last() =~= Seq::<Seq<char>>::empty());
    let first = tracking_of(two.drop_last());
    assert(tracking_of(two.drop_last().drop_last()) == untracked());
    assert(first == (TrackingView { branch: Some(branch), ..untracked() }));
    let second = tracking_of(two);
    assert(second == (TrackingView { upstream: Some(upstream), ..first }));
    assert(counted(second, words.drop_last().drop_last()) == second);
    assert(counted(second, words.drop_last()) == (TrackingView { ahead: ahead as int, ..second }));
}

proof fn lemma_header(line: Seq<char>, header: Seq<char>, rest: Seq<char>)
    requires
        line =~= header + rest,
    ensures
        after_header(line, header) == Some(rest),
{
    assert(line.take(header.len() as int) =~= header);
    assert(line.skip(header.len() as int) =~= rest);
}

proof fn lemma_no_header(line: Seq<char>, header: Seq<char>, i: int)
    requires
        0 <= i < header.len(),
        i < line.len(),
        line[i] != header[i],
    ensures
        after_header(line, header) is None,
{
}

proof fn lemma_count(token: Seq<char>, n: nat)
    requires
        token.len() > 0,
        token.drop_first() =~= text::decimal(n),
        token[0] == '+' || token[0] == '-',
        n <= usize::MAX,
    ensures
        count(token) == n,
        forall|j: int| 0 <= j < token.len() ==> !text::is_blank(#[trigger] token[j]),
{
    text::numbers_are_read_back(n, usize::MAX as nat);
    text::lemma_decimal_digits(n);
    assert forall|j: int| 0 <= j < token.len() implies !text::is_blank(#[trigger] token[j]) by {
        if j > 0 {
            assert(token[j] == token.drop_first()[j - 1]);
            assert(text::is_digit(text::decimal(n)[j - 1]));
        }
    }
}

// ---------------------------------------------------------------------------
// What a status record tells
// ---------------------------------------------------------------------------
/// How many columns of a record say something: a blank and a question mark do
/// not.
pub open spec fn columns_that_say(x: char, y: char) -> int {
    (if x != ' ' && x != '?' {
        1int
    } else {
        0
    }) + (if y != ' ' && y != '?' {
        1int
    } else {
        0
    })
}

/// The entries of a record by its letters. What the index column says comes
/// first: a `D` is a deletion that is staged, every other letter a change that
/// is. What the working-tree column says comes last: a `D` is a deletion, every
/// other letter a change, neither of them staged. Each column that says
/// something gives one entry, with the path of the record; only the one from the
/// index has the path that a file was moved from.
proof fn lemma_letters(x: char, y: char, path: Seq<char>, orig: Option<Seq<char>>)
    requires
        (x as u32) < 128,
        (y as u32) < 128,
        !(x == '?' && y == '?'),
    ensures
        ({
            let entries = record_entries(x as u8, y as u8, path, orig);
            let n = columns_that_say(x, y);
            &&& entries.len() == n
            &&& x != ' ' && x != '?' ==> entries[0] == (StatusEntryView {
                status: if x == 'D' {
                    FileStatus::StagedDeleted
                } else {
                    FileStatus::Staged
                },
                path,
                orig_path: orig,
            })
            &&& y != ' ' && y != '?' ==> entries[n - 1] == (StatusEntryView {
                status: if y == 'D' {
                    FileStatus::Deleted
                } else {
                    FileStatus::Modified
                },
                path,
                orig_path: None,
            })
        }),
{
    lemma_letter(x, ' ');
    lemma_letter(x, '?');
    lemma_letter(x, 'D');
    lemma_letter(y, ' ');
    lemma_letter(y, '?');
    lemma_letter(y, 'D');
}

proof fn lemma_letter(x: char, c: char)
    requires
        (x as u32) < 128,
        (c as u32) < 128,
    ensures
        (x as u8 == c as u8) == (x == c),
{
    let a = x as u32;
    let b = c as u32;
    assert((a as u8 == b as u8) == (a == b)) by (bit_vector)
        requires
            a < 128,
            b < 128,
    ;
}

/// A record that is no rename and no copy: its letters tell how many entries it
/// gives and which, and the records behind it are read on.
pub proof fn letters_tell_the_entries(x: char, y: char, path: Seq<char>, rest: Seq<Seq<char>>)
    requires
        (x as u32) < 128,
        (y as u32) < 128,
        x != 'R',
        x != 'C',
        !(x == '?' && y == '?'),
    ensures
        ({
            let entries = entries_of(seq![seq![x] + (seq![y] + (seq![' '] + path))] + rest);
            let n = columns_that_say(x, y);
            &&& entries.len() == n + entries_of(rest).len()
            &&& entries.skip(n) == entries_of(rest)
            &&& x != ' ' && x != '?' ==> {
                &&& entries[0].status == FileStatus::StagedDeleted <==> x == 'D'
                &&& entries[0].status == FileStatus::Staged <==> x != 'D'
                &&& entries[0].status.in_index()
                &&& entries[0].path == path
                &&& entries[0].orig_path is None
            }
            &&& y != ' ' && y != '?' ==> {
                &&& entries[n - 1].status == FileStatus::Deleted <==> y == 'D'
                &&& entries[n - 1].status == FileStatus::Modified <==> y != 'D'
                &&& !entries[n - 1].status.in_index()
                &&& entries[n - 1].path == path
                &&& entries[n - 1].orig_path is None
            }
        }),
{
    lemma_letter(x, 'R');
    lemma_letter(x, 'C');
    status_record_is_read_back(x, y, path, rest);
    lemma_letters(x, y, path, None);
    let first = record_entries(x as u8, y as u8, path, None);
    assert((first + entries_of(rest)).skip(columns_that_say(x, y)) =~= entries_of(rest));
}

/// The record of a rename or a copy takes the next field as the path that the
/// file came from, and gives a staged entry with both paths.
pub proof fn moves_tell_both_paths(
    x: char,
    y: char,
    path: Seq<char>,
    orig: Seq<char>,
    rest: Seq<Seq<char>>,
)
    requires
        x == 'R' || x == 'C',
        (y as u32) < 128,
    ensures
        ({
            let entries = entries_of(seq![seq![x] + (seq![y] + (seq![' '] + path)), orig] + rest);
            let n = columns_that_say(x, y);
            &&& entries.len() == n + entries_of(rest).len()
            &&& entries.skip(n) == entries_of(rest)
            &&& entries[0] == (StatusEntryView {
                status: FileStatus::Staged,
                path,
                orig_path: Some(orig),
            })
            &&& y != ' ' && y != '?' ==> {
                &&& n == 2
                &&& entries[1].status == FileStatus::Deleted <==> y == 'D'
                &&& entries[1].status == FileStatus::Modified <==> y != 'D'
                &&& entries[1].path == path
                &&& entries[1].orig_path is None
            }
        }),
{
    lemma_letter(x, 'R');
    lemma_letter(x, 'C');
    renamed_file_keeps_both_paths(x, y, path, orig, rest);
    lemma_letters(x, y, path, Some(orig));
    let first = record_entries(x as u8, y as u8, path, Some(orig));
    assert((first + entries_of(rest)).skip(columns_that_say(x, y)) =~= entries_of(rest));
}

/// Two question marks tell of one untracked file.
pub proof fn question_marks_tell_an_untracked_file(path: Seq<char>, rest: Seq<Seq<char>>)
    ensures
        entries_of(seq![seq!['?'] + (seq!['?'] + (seq![' '] + path))] + rest) == seq![
            StatusEntryView { status: FileStatus::Untracked, path, orig_path: None },
        ] + entries_of(rest),
        !FileStatus::Untracked.in_index(),
{
    lemma_letter('?', 'R');
    lemma_letter('?', 'C');
    status_record_is_read_back('?', '?', path, rest);
}

/// A field too short for two letters and a blank, as the empty one behind the last
/// record, gives no entry.
pub proof fn short_fields_give_no_entry(field: Seq<char>, rest: Seq<Seq<char>>)
    requires
        utf8::encode_utf8(field).len() < 3,
    ensures
        entries_of(seq![field] + rest) == entries_of(rest),
        records_readable(seq![field] + rest) == records_readable(rest),
        entries_of(Seq::<Seq<char>>::empty()).len() == 0,
        records_readable(Seq::<Seq<char>>::empty()),
        utf8::encode_utf8(Seq::<char>::empty()).len() < 3,
{
    let fields = seq![field] + rest;
    assert(fields.drop_first() =~= rest);
    assert(utf8::encode_utf8(Seq::<char>::empty()).len() == 0);
}

/// A rename or a copy that no field follows gives the same entries without the
/// path that the file came from.
pub proof fn moves_at_the_end_tell_one_path(x: char, y: char, path: Seq<char>)
    requires
        x == 'R' || x == 'C',
        (y as u32) < 128,
    ensures
        ({
            let entries = entries_of(seq![seq![x] + (seq![y] + (seq![' '] + path))]);
            &&& entries.len() == columns_that_say(x, y)
            &&& entries[0] == (StatusEntryView {
                status: FileStatus::Staged,
                path,
                orig_path: None,
            })
        }),
{
    lemma_record_bytes(x, y, path);
    lemma_letters(x, y, path, None);
    let fields = seq![seq![x] + (seq![y] + (seq![' '] + path))];
    assert(fields.drop_first() =~= Seq::<Seq<char>>::empty());
    assert(entries_of(Seq::<Seq<char>>::empty()) =~= Seq::<StatusEntryView>::empty());
    let first = record_entries(x as u8, y as u8, path, None);
    assert(entries_of(fields) =~= first);
}

/// Records of two letters, a blank and a path can be read, whatever the path
/// holds.
pub proof fn plain_records_are_readable(x: char, y: char, path: Seq<char>, rest: Seq<Seq<char>>)
    requires
        (x as u32) < 128,
        (y as u32) < 128,
        x != 'R',
        x != 'C',
    ensures
        records_readable(seq![seq![x] + (seq![y] + (seq![' '] + path))] + rest)
            == records_readable(rest),
{
    lemma_letter(x, 'R');
    lemma_letter(x, 'C');
    lemma_record_bytes(x, y, path);
    let record = seq![x] + (seq![y] + (seq![' '] + path));
    let fields = seq![record] + rest;
    assert(fields.drop_first() =~= rest);
    lemma_path_starts(x, y, path);
}

proof fn lemma_boundary_behind_ascii(x: char, rest: Seq<char>, i: int)
    requires
        (x as u32) < 128,
        i >= 0,
        i <= utf8::encode_utf8(rest).len(),
    ensures
        utf8::is_char_boundary(utf8::encode_utf8(seq![x] + rest), i + 1)
            == utf8::is_char_boundary(utf8::encode_utf8(rest), i),
{
    lemma_ascii_lead(x, rest);
    let all = seq![x] + rest;
    let bytes = utf8::encode_utf8(all);
    utf8::encode_utf8_valid_utf8(all);
    let c = x as u32;
    assert(c as u8 <= 0x7f) by (bit_vector)
        requires
            c < 128,
    ;
    assert(bytes[0] == x as u8);
    assert(utf8::length_of_first_scalar(bytes) == 1);
    assert(utf8::pop_first_scalar(bytes) =~= utf8::encode_utf8(rest));
}

/// The path of a record starts where a character starts.
proof fn lemma_path_starts(x: char, y: char, path: Seq<char>)
    requires
        (x as u32) < 128,
        (y as u32) < 128,
    ensures
        utf8::is_char_boundary(utf8::encode_utf8(seq![x] + (seq![y] + (seq![' '] + path))), 3),
{
    lemma_ascii_lead(y, seq![' '] + path);
    lemma_ascii_lead(' ', path);
    lemma_boundary_behind_ascii(x, seq![y] + (seq![' '] + path), 2);
    lemma_boundary_behind_ascii(y, seq![' '] + path, 1);
    lemma_boundary_behind_ascii(' ', path, 0);
    utf8::encode_utf8_valid_utf8(path);
}

// ---------------------------------------------------------------------------
// What the log tells
// ---------------------------------------------------------------------------
/// Decorations are named one by one, in order; of two that HEAD is said to be
/// on, the later one counts.
pub proof fn decorations_are_named_in_order(a: Seq<Seq<char>>, b: Seq<Seq<char>>)
    ensures
        ref_names(a + b) == ref_names(a) + ref_names(b),
        head_branch(a + b) == if head_branch(b) is Some {
            head_branch(b)
        } else {
            head_branch(a)
        },
    decreases b.len(),
{
    if b.len() > 0 {
        let less = b.drop_last();
        assert((a + b).drop_last() =~= a + less);
        assert((a + b).last() == b.last());
        decorations_are_named_in_order(a, less);
        assert(ref_names(a + b) =~= ref_names(a) + ref_names(b));
    } else {
        assert(a + b =~= a);
        assert(ref_names(a) + ref_names(b) =~= ref_names(a));
    }
}

/// `HEAD -> name` names the branch and tells that HEAD is on it, `tag: name`
/// names a tag, and anything else names itself; blanks around are left out, and
/// nothing is named by blanks alone.
#[verifier::spinoff_prover]
#[verifier::rlimit(50)]
pub proof fn decorations_are_read(
    before: Seq<char>,
    after: Seq<char>,
    name: Seq<char>,
)
    requires
        forall|i: int| 0 <= i < before.len() ==> text::is_blank(#[trigger] before[i]),
        forall|i: int| 0 <= i < after.len() ==> text::is_blank(#[trigger] after[i]),
        name.len() > 0,
        !text::is_blank(name[0]),
        !text::is_blank(name.last()),
    ensures
        ({
            let part = before + ("HEAD -> "@ + name) + after;
            &&& ref_names(seq![part]) == seq![name]
            &&& head_branch(seq![part]) == Some(name)
        }),
        ({
            let part = before + ("tag: "@ + name) + after;
            &&& ref_names(seq![part]) == seq!["tag:"@ + name]
            &&& head_branch(seq![part]) is None
        }),
        !"HEAD -> "@.is_prefix_of(name) && !"tag: "@.is_prefix_of(name) ==> ({
            let part = before + name + after;
            &&& ref_names(seq![part]) == seq![name]
            &&& head_branch(seq![part]) is None
        }),
        ref_names(seq![before]).len() == 0,
        head_branch(seq![before]) is None,
{
    reveal_strlit("HEAD -> ");
    reveal_strlit("tag: ");
    let head = "HEAD -> "@ + name;
    let tag = "tag: "@ + name;
    assert(head.last() == name.last() && tag.last() == name.last());
    text::blanks_around_are_cut(before, head, after);
    text::blanks_around_are_cut(before, tag, after);
    text::blanks_around_are_cut(before, name, after);
    let none = Seq::<char>::empty();
    text::blanks_around_are_cut(before, none, none);
    assert(before + none + none =~= before);
    assert(head.take(8) =~= "HEAD -> "@);
    assert(head.skip(8) =~= name);
    assert(tag.take(5) =~= "tag: "@);
    assert(tag.skip(5) =~= name);
    assert(tag[0] == 't');
    if "HEAD -> "@.is_prefix_of(tag) {
        assert(tag[0] == "HEAD -> "@[0]);
    }
    lemma_one_decoration(before + head + after);
    lemma_one_decoration(before + tag + after);
    lemma_one_decoration(before + name + after);
    lemma_one_decoration(before);
}

proof fn lemma_one_decoration(part: Seq<char>)
    ensures
        ({
            let r = text::trimmed(part);
            &&& ref_names(seq![part]) == if r.len() == 0 {
                Seq::<Seq<char>>::empty()
            } else {
                seq![ref_name(r)]
            }
            &&& head_branch(seq![part]) == if "HEAD -> "@.is_prefix_of(r) {
                Some(r.skip("HEAD -> "@.len() as int))
            } else {
                None::<Seq<char>>
            }
        }),
{
    let parts = seq![part];
    assert(parts.drop_last() =~= Seq::<Seq<char>>::empty());
    assert(ref_names(parts.drop_last()) =~= Seq::<Seq<char>>::empty());
    assert(head_branch(parts.drop_last()) is None);
    assert(ref_names(parts) =~= if text::trimmed(part).len() == 0 {
        Seq::<Seq<char>>::empty()
    } else {
        seq![ref_name(text::trimmed(part))]
    });
}

/// The branch that HEAD is on is among the refs of its commit.
pub proof fn head_is_among_the_refs(parts: Seq<Seq<char>>)
    ensures
        head_branch(parts) matches Some(h) ==> ref_names(parts).contains(h),
    decreases parts.len(),
{
    if parts.len() > 0 {
        reveal_strlit("HEAD -> ");
        head_is_among_the_refs(parts.drop_last());
        let r = text::trimmed(parts.last());
        let before = ref_names(parts.drop_last());
        let all = ref_names(parts);
        if "HEAD -> "@.is_prefix_of(r) {
            assert(r.len() > 0);
            assert(all.last() == ref_name(r));
        } else if head_branch(parts) is Some {
            let k = choose|k: int| 0 <= k < before.len() && before[k] == head_branch(parts)->0;
            assert(all[k] == before[k]);
        }
    }
}

/// The records of the log are read one by one, in order.
pub proof fn records_are_read_in_order(a: Seq<Seq<char>>, b: Seq<Seq<char>>)
    ensures
        commits_of(a + b) == commits_of(a) + commits_of(b),
    decreases b.len(),
{
    if b.len() > 0 {
        assert((a + b).drop_last() =~= a + b.drop_last());
        assert((a + b).last() == b.last());
        records_are_read_in_order(a, b.drop_last());
        assert(commits_of(a + b) =~= commits_of(a) + commits_of(b));
    } else {
        assert(a + b =~= a);
        assert(commits_of(a) + commits_of(b) =~= commits_of(a));
    }
}

/// A record with all its fields is one commit, which has each of them in its
/// place, the time by its number; HEAD's branch and the refs come from the same
/// field. A record with fewer fields is none.
#[verifier::spinoff_prover]
#[verifier::rlimit(50)]
pub proof fn records_are_commits(fields: Seq<Seq<char>>, time: nat)
    requires
        fields.len() >= 1,
        forall|i: int| 0 <= i < fields.len() ==> !(#[trigger] fields[i]).contains('\x1f'),
        fields[0].len() > 0 && fields[0][0] != '\n',
        time <= i64::MAX,
    ensures
        ({
            let record = text::joined(fields, seq!['\x1f']);
            let commits = commits_of(seq![seq!['\n'] + record]);
            &&& fields.len() < 7 ==> commits.len() == 0
            &&& fields.len() >= 7 ==> {
                &&& commits.len() == 1
                &&& commits[0].hash == fields[0]
                &&& commits[0].short == fields[1]
                &&& commits[0].parents == text::words_of(fields[2])
                &&& commits[0].refs == ref_names(text::pieces(fields[3], ','))
                &&& commits[0].head_ref == head_branch(text::pieces(fields[3], ','))
                &&& commits[0].subject == fields[4]
                &&& commits[0].author == fields[5]
                &&& fields[6] == text::decimal(time) ==> commits[0].timestamp == time
                &&& fields[6] == seq!['-'] + text::decimal(time) ==> commits[0].timestamp == -time
                &&& fields[6].len() == 0 ==> commits[0].timestamp == 0
            }
        }),
{
    let record = text::joined(fields, seq!['\x1f']);
    text::splitting_undoes_joining(fields, '\x1f');
    let led = seq!['\n'] + record;
    assert(led.drop_first() =~= record);
    if fields.len() > 1 {
        assert(fields =~= seq![fields[0]] + fields.drop_first());
        text::lemma_joined_first(fields[0], fields.drop_first(), seq!['\x1f']);
    }
    assert(record[0] == fields[0][0]);
    assert(text::without_lead(record, '\n') == record);
    assert(text::without_lead(led, '\n') == text::without_lead(led.drop_first(), '\n'));
    let one = seq![led];
    assert(one.drop_last() =~= Seq::<Seq<char>>::empty());
    assert(commits_of(one.drop_last()) =~= Seq::<CommitView>::empty());
    let none = Seq::<char>::empty();
    if fields.len() >= 7 {
        if fields[6].len() == 0 {
            assert(fields[6] =~= none);
            assert(text::trimmed(none) =~= none);
        } else if fields[6] == text::decimal(time) || fields[6] == seq!['-'] + text::decimal(time) {
            text::lemma_decimal_digits(time);
            text::signed_numbers_are_read_back(time);
            let d = text::decimal(time);
            assert(text::is_digit(d[0]) && text::is_digit(d[d.len() - 1]));
            text::blanks_around_are_cut(none, fields[6], none);
            assert(none + fields[6] + none =~= fields[6]);
        }
    }
}

/// The log is asked for all branches, by date, for no more commits than there is
/// room for, and in the form in which records are read.
pub proof fn log_asks_for_all_branches(limit: nat)
    ensures
        log_step(limit, seq![]) matches StepView::Run(c) && c.program == "git"@ && c.args.len() > 0
            && c.args[0] == "log"@ && c.args.contains("--all"@) && c.args.contains("--date-order"@)
            && c.args.contains("-n"@ + text::decimal(limit)) && c.args.contains(
            "--pretty=format:%H%x1f%h%x1f%P%x1f%D%x1f%s%x1f%an%x1f%at%x1e"@,
        ),
{
    let args = log_command(limit).args;
    assert(args[1] == "--all"@);
    assert(args[2] == "--date-order"@);
    assert(args[3] == "-n"@ + text::decimal(limit));
    assert(args[4] == "--pretty=format:%H%x1f%h%x1f%P%x1f%D%x1f%s%x1f%an%x1f%at%x1e"@);
}

// ---------------------------------------------------------------------------
// What the headers of a branch tell
// ---------------------------------------------------------------------------
/// The header of the branch sets its name, or that HEAD is on none, and nothing
/// else, whatever was said before.
pub proof fn head_header_sets_the_branch(lines: Seq<Seq<char>>, branch: Seq<char>)
    ensures
        branch != "(detached)"@ ==> tracking_of(lines.push("# branch.head "@ + branch)) == (
        TrackingView { branch: Some(branch), ..tracking_of(lines) }),
        branch == "(detached)"@ ==> tracking_of(lines.push("# branch.head "@ + branch)) == (
        TrackingView { detached: true, ..tracking_of(lines) }),
{
    reveal_strlit("# ");
    reveal_strlit("# branch.head ");
    reveal_strlit("branch.head ");
    let line = "# branch.head "@ + branch;
    assert(lines.push(line).drop_last() =~= lines);
    lemma_header(line, "# "@, "branch.head "@ + branch);
    lemma_header("branch.head "@ + branch, "branch.head "@, branch);
}

/// The header of the upstream sets it and nothing else.
pub proof fn upstream_header_sets_the_upstream(lines: Seq<Seq<char>>, upstream: Seq<char>)
    ensures
        tracking_of(lines.push("# branch.upstream "@ + upstream)) == (TrackingView {
            upstream: Some(upstream),
            ..tracking_of(lines)
        }),
{
    reveal_strlit("# ");
    reveal_strlit("# branch.upstream ");
    reveal_strlit("branch.head ");
    reveal_strlit("branch.upstream ");
    let line = "# branch.upstream "@ + upstream;
    assert(lines.push(line).drop_last() =~= lines);
    lemma_header(line, "# "@, "branch.upstream "@ + upstream);
    lemma_header("branch.upstream "@ + upstream, "branch.upstream "@, upstream);
    lemma_no_header("branch.upstream "@ + upstream, "branch.head "@, 7);
}

/// Lines that are no headers of a branch say nothing, and without a line nothing
/// is known.
pub proof fn other_lines_say_nothing(lines: Seq<Seq<char>>, line: Seq<char>)
    requires
        !"# branch."@.is_prefix_of(line),
    ensures
        tracking_of(lines.push(line)) == tracking_of(lines),
        tracking_of(Seq::<Seq<char>>::empty()) == (TrackingView {
            branch: None,
            upstream: None,
            ahead: 0,
            behind: 0,
            detached: false,
        }),
{
    reveal_strlit("branch.");
    reveal_strlit("branch.head ");
    reveal_strlit("branch.upstream ");
    reveal_strlit("branch.ab ");
    assert(lines.push(line).drop_last() =~= lines);
    if let Some(rest) = after_header(line, "# "@) {
        lemma_begins(line, rest, "branch.head "@);
        lemma_begins(line, rest, "branch.upstream "@);
        lemma_begins(line, rest, "branch.ab "@);
    }
}

/// What stands behind `# ` in a line begins with `branch.` only where the line
/// begins with both.
proof fn lemma_begins(s: Seq<char>, rest: Seq<char>, header: Seq<char>)
    requires
        after_header(s, "# "@) == Some(rest),
        !"# branch."@.is_prefix_of(s),
        header.len() >= 7,
        header.take(7) =~= "branch."@,
    ensures
        after_header(rest, header) is None,
{
    reveal_strlit("# ");
    reveal_strlit("# branch.");
    reveal_strlit("branch.");
    if header.is_prefix_of(rest) {
        assert forall|i: int| 0 <= i < 7 implies rest[i] == "branch."@[i] by {
            assert(rest[i] == header[i]);
            assert(header.take(7)[i] == "branch."@[i]);
        }
        assert forall|i: int| 0 <= i < 9 implies s[i] == "# branch."@[i] by {
            if i < 2 {
                assert(s[i] == "# "@[i]);
            } else {
                assert(s[i] == rest[i - 2]);
            }
        }
        assert(s.take(9) =~= "# branch."@);
    }
}

/// The header of the position sets both counts: what is written behind the plus
/// sign is ahead, what is written behind the minus sign is behind.
#[verifier::spinoff_prover]
#[verifier::rlimit(50)]
pub proof fn position_header_sets_both_counts(lines: Seq<Seq<char>>, ahead: nat, behind: nat)
    requires
        ahead <= usize::MAX,
        behind <= usize::MAX,
    ensures
        tracking_of(
            lines.push(
                "# branch.ab "@ + (seq!['+'] + text::decimal(ahead) + seq![' '] + (seq!['-']
                    + text::decimal(behind))),
            ),
        ) == (TrackingView { ahead: ahead as int, behind: behind as int, ..tracking_of(lines) }),
{
    reveal_strlit("# ");
    reveal_strlit("# branch.ab ");
    reveal_strlit("branch.head ");
    reveal_strlit("branch.upstream ");
    reveal_strlit("branch.ab ");
    let plus = seq!['+'] + text::decimal(ahead);
    let minus = seq!['-'] + text::decimal(behind);
    let ab = plus + seq![' '] + minus;
    let line = "# branch.ab "@ + ab;
    assert(lines.push(line).drop_last() =~= lines);
    lemma_header(line, "# "@, "branch.ab "@ + ab);
    lemma_header("branch.ab "@ + ab, "branch.ab "@, ab);
    lemma_no_header("branch.ab "@ + ab, "branch.head "@, 7);
    lemma_no_header("branch.ab "@ + ab, "branch.upstream "@, 7);
    lemma_count(plus, ahead);
    lemma_count(minus, behind);
    text::two_words_are_read_back(plus, minus);
    let words = seq![plus, minus];
    let info = tracking_of(lines);
    assert(words.drop_last() =~= seq![plus]);
    assert(words.drop_last().drop_last() =~= Seq::<Seq<char>>::empty());
    assert(counted(info, words.drop_last().drop_last()) == info);
    assert(counted(info, words.drop_last()) == (TrackingView { ahead: ahead as int, ..info }));
}

/// What stands behind a sign and is no number counts as none.
#[verifier::spinoff_prover]
#[verifier::rlimit(50)]
pub proof fn unreadable_counts_are_none(lines: Seq<Seq<char>>, a: Seq<char>, b: Seq<char>)
    requires
        forall|j: int| 0 <= j < a.len() ==> !text::is_blank(#[trigger] a[j]),
        forall|j: int| 0 <= j < b.len() ==> !text::is_blank(#[trigger] b[j]),
        a.len() == 0 || !text::is_digit(a.last()),
        b.len() == 0 || !text::is_digit(b.last()),
    ensures
        tracking_of(lines.push("# branch.ab "@ + (seq!['+'] + a + seq![' '] + (seq!['-'] + b))))
            == (TrackingView { ahead: 0, behind: 0, ..tracking_of(lines) }),
{
    reveal_strlit("# ");
    reveal_strlit("# branch.ab ");
    reveal_strlit("branch.head ");
    reveal_strlit("branch.upstream ");
    reveal_strlit("branch.ab ");
    let plus = seq!['+'] + a;
    let minus = seq!['-'] + b;
    let ab = plus + seq![' '] + minus;
    let line = "# branch.ab "@ + ab;
    assert(lines.push(line).drop_last() =~= lines);
    lemma_header(line, "# "@, "branch.ab "@ + ab);
    lemma_header("branch.ab "@ + ab, "branch.ab "@, ab);
    lemma_no_header("branch.ab "@ + ab, "branch.head "@, 7);
    lemma_no_header("branch.ab "@ + ab, "branch.upstream "@, 7);
    lemma_no_count(plus, a);
    lemma_no_count(minus, b);
    text::two_words_are_read_back(plus, minus);
    let words = seq![plus, minus];
    let info = tracking_of(lines);
    assert(words.drop_last() =~= seq![plus]);
    assert(words.drop_last().drop_last() =~= Seq::<Seq<char>>::empty());
    assert(counted(info, words.drop_last().drop_last()) == info);
    assert(counted(info, words.drop_last()) == (TrackingView { ahead: 0, ..info }));
}

proof fn lemma_no_count(token: Seq<char>, rest: Seq<char>)
    requires
        token.len() > 0,
        token.drop_first() =~= rest,
        token[0] == '+' || token[0] == '-',
        forall|j: int| 0 <= j < rest.len() ==> !text::is_blank(#[trigger] rest[j]),
        rest.len() == 0 || !text::is_digit(rest.last()),
    ensures
        count(token) == 0,
        forall|j: int| 0 <= j < token.len() ==> !text::is_blank(#[trigger] token[j]),
{
    assert forall|j: int| 0 <= j < token.len() implies !text::is_blank(#[trigger] token[j]) by {
        if j > 0 {
            assert(token[j] == rest[j - 1]);
        }
    }
    if rest.len() > 0 {
        if rest.len() == 1 && (rest[0] == '+' || rest[0] == '-') {
            assert(rest.drop_first().len() == 0);
        } else {
            text::other_characters_make_no_number(rest, rest.len() - 1, usize::MAX as nat);
        }
    }
}

// ---------------------------------------------------------------------------
// What is asked of git
// ---------------------------------------------------------------------------
/// The log is read by its records, and its error is git's.
pub proof fn log_is_read_by_records(limit: nat, replies: Seq<Reply>)
    requires
        replies.len() > 0,
    ensures
        log_step(limit, replies) == match command::answer(replies[0]) {
            Ok(out) => StepView::<Result<Seq<CommitView>, Seq<char>>>::Done(
                Ok(commits_of(text::pieces(out, '\x1e'))),
                1,
            ),
            Err(e) => StepView::<Result<Seq<CommitView>, Seq<char>>>::Done(Err(e), 1),
        },
{
}

/// What git cannot tell is an error of git's, but no remotes are told as none.
pub proof fn errors_are_passed_on(replies: Seq<Reply>, e: Seq<char>)
    requires
        replies.len() > 0,
        command::answer(replies[0]) == Err::<Seq<char>, Seq<char>>(e),
    ensures
        status_step(replies) == StepView::<Result<Seq<StatusEntryView>, Seq<char>>>::Done(
            Err(e),
            1,
        ),
        tracking_step(replies) == StepView::<Result<TrackingView, Seq<char>>>::Done(Err(e), 1),
        branches_step(replies) == StepView::<Result<Seq<BranchView>, Seq<char>>>::Done(Err(e), 1),
        remotes_step(replies) matches StepView::Done(names, n) && names.len() == 0 && n == 1,
{
}

/// The working tree is asked for with every untracked file by itself, and with
/// the paths as they are.
pub proof fn status_asks_for_plain_paths(replies: Seq<Reply>)
    ensures
        status_step(seq![]) == StepView::<Result<Seq<StatusEntryView>, Seq<char>>>::Run(
            CommandView {
                program: "git"@,
                args: seq!["status"@, "--porcelain=v1"@, "-z"@, "-uall"@],
            },
        ),
        tracking_step(seq![]) == StepView::<Result<TrackingView, Seq<char>>>::Run(
            CommandView {
                program: "git"@,
                args: seq!["status"@, "--porcelain=v2"@, "--branch"@],
            },
        ),
        replies.len() > 0 ==> (command::answer(replies[0]) matches Ok(out) ==> status_step(replies)
            == StepView::<Result<Seq<StatusEntryView>, Seq<char>>>::Done(
            Ok(entries_of(text::pieces(out, '\0'))),
            1,
        ) && tracking_step(replies) == StepView::<Result<TrackingView, Seq<char>>>::Done(
            Ok(tracking_of(text::lines_of(out))),
            1,
        )),
{
}

/// Unstaging names the path of the entry and, of a file that was moved, the path
/// that it came from, both behind `--`, and leaves the working tree alone.
pub proof fn unstaging_names_every_path(entry: StatusEntryView)
    ensures
        ({
            let c = unstage_command(entry);
            &&& c.program == "git"@
            &&& c.args.take(3) == seq!["restore"@, "--staged"@, "--"@]
            &&& c.args[3] == entry.path
            &&& entry.orig_path is None ==> c.args.len() == 4
            &&& entry.orig_path matches Some(orig) ==> c.args.len() == 5 && c.args[4] == orig
        }),
{
    assert(unstage_command(entry).args.take(3) =~= seq!["restore"@, "--staged"@, "--"@]);
}

/// A diff of a file is of that file alone, and of the index exactly where it is
/// asked for; a diff of a commit is of that commit, with its files.
pub proof fn diffs_name_what_they_show(path: Seq<char>, staged: bool)
    ensures
        ({
            let c = diff_file_command(path, staged);
            let n = c.args.len() as int;
            &&& c.program == "git"@
            &&& c.args[0] == "diff"@
            &&& n == if staged {
                4int
            } else {
                3
            }
            &&& staged ==> c.args[1] == "--cached"@
            &&& c.args[n - 2] == "--"@
            &&& c.args[n - 1] == path
        }),
        diff_commit_command(path).program == "git"@,
        diff_commit_command(path).args == seq!["show"@, "--stat"@, "--patch"@, path],
{
}

/// Where the branch has an upstream, it is pushed there and no more is asked.
pub proof fn branch_with_upstream_is_pushed(replies: Seq<Reply>)
    requires
        replies.len() >= 1,
        replies[0] matches Ok(out) && out.success,
    ensures
        replies.len() == 1 ==> pushed_step(replies) == StepView::<Result<(), Seq<char>>>::Run(
            CommandView { program: "git"@, args: seq!["push"@] },
        ),
        replies.len() >= 2 ==> match command::answer(replies[1]) {
            Ok(_) => pushed_step(replies) == StepView::<Result<(), Seq<char>>>::Done(Ok(()), 2),
            Err(e) => pushed_step(replies) == StepView::<Result<(), Seq<char>>>::Done(Err(e), 2),
        },
{
    if replies.len() >= 2 {
        assert(replies.skip(1)[0] == replies[1]);
    } else {
        assert(replies.skip(1).len() == 0);
    }
}

/// Where it has none, the name of the branch is asked for, and the branch of that
/// name on `origin` becomes its upstream; where there is no name, nothing is
/// pushed.
pub proof fn branch_without_upstream_gets_one(replies: Seq<Reply>)
    requires
        replies.len() >= 1,
        !(replies[0] matches Ok(out) && out.success),
    ensures
        replies.len() == 1 ==> pushed_step(replies) == StepView::<Result<(), Seq<char>>>::Run(
            CommandView { program: "git"@, args: seq!["rev-parse"@, "--abbrev-ref"@, "HEAD"@] },
        ),
        replies.len() == 2 ==> (command::answer(replies[1]) matches Ok(out) ==> pushed_step(replies)
            == StepView::<Result<(), Seq<char>>>::Run(
            CommandView {
                program: "git"@,
                args: seq!["push"@, "--set-upstream"@, "origin"@, text::trimmed(out)],
            },
        )),
        replies.len() >= 2 ==> (command::answer(replies[1]) matches Err(e) ==> pushed_step(replies)
            == StepView::<Result<(), Seq<char>>>::Done(Err(e), 2)),
        replies.len() >= 3 && command::answer(replies[1]) is Ok ==> match command::answer(
            replies[2],
        ) {
            Ok(_) => pushed_step(replies) == StepView::<Result<(), Seq<char>>>::Done(Ok(()), 3),
            Err(e) => pushed_step(replies) == StepView::<Result<(), Seq<char>>>::Done(Err(e), 3),
        },
{
    if replies.len() >= 3 {
        assert(replies.skip(2)[0] == replies[2]);
    } else if replies.len() == 2 {
        assert(replies.skip(2).len() == 0);
    }
}

/// The main branch is the first of `main`, `master` and `trunk` that exists:
/// where the first `k` do not and the next does, it is that one, and where none
/// does there is none.
pub proof fn first_name_that_exists_is_main(replies: Seq<Reply>, k: int)
    requires
        0 <= k <= 3,
        k <= replies.len(),
        forall|j: int| 0 <= j < k ==> !(#[trigger] replies[j] matches Ok(out) && out.success),
    ensures
        k == 3 ==> main_step(replies) == StepView::Done(None::<Seq<char>>, 3),
        k < 3 && k < replies.len() && (replies[k] matches Ok(out) && out.success) ==> main_step(
            replies,
        ) == StepView::Done(
            Some(
                if k == 0 {
                    "main"@
                } else if k == 1 {
                    "master"@
                } else {
                    "trunk"@
                },
            ),
            k + 1,
        ),
        k < 3 && k == replies.len() ==> main_step(replies) == StepView::<Option<Seq<char>>>::Run(
            CommandView {
                program: "git"@,
                args: seq![
                    "rev-parse"@,
                    "--verify"@,
                    if k == 0 {
                        "main"@
                    } else if k == 1 {
                        "master"@
                    } else {
                        "trunk"@
                    },
                ],
            },
        ),
{
    reveal_with_fuel(main_from, 5);
    assert(k > 0 ==> !command::went_well(replies[0]));
    assert(k > 1 ==> !command::went_well(replies[1]));
    assert(k > 2 ==> !command::went_well(replies[2]));
}

/// The chain of the main branch is what git lists of its first parents, line by
/// line; without a main branch it is empty.
pub proof fn chain_is_of_the_main_branch(replies: Seq<Reply>)
    ensures
        main_step(replies) matches StepView::Done(Some(main), n) ==> {
            &&& replies.len() == n ==> chain_step(replies) == StepView::<
                Result<Seq<Seq<char>>, Seq<char>>,
            >::Run(
                CommandView {
                    program: "git"@,
                    args: seq!["log"@, "--first-parent"@, "--format=%H"@, main],
                },
            )
            &&& replies.len() > n ==> (command::answer(replies[n]) matches Ok(out) ==> chain_step(
                replies,
            ) == StepView::<Result<Seq<Seq<char>>, Seq<char>>>::Done(
                Ok(text::lines_of(out)),
                n + 1,
            ))
            &&& replies.len() > n ==> (command::answer(replies[n]) matches Err(e) ==> chain_step(
                replies,
            ) == StepView::<Result<Seq<Seq<char>>, Seq<char>>>::Done(Err(e), n + 1))
        },
        main_step(replies) matches StepView::Done(None, n) ==> (chain_step(replies)
            matches StepView::Done(Ok(chain), m) && chain.len() == 0 && m == n),
{
    lemma_main_used(0, replies);
    if let StepView::Done(Some(main), n) = main_step(replies) {
        if replies.len() > n {
            assert(replies.skip(n)[0] == replies[n]);
        } else {
            assert(replies.skip(n).len() == 0);
        }
    }
}

/// The base is the branch that `origin` takes as its default; where git names
/// none there, it is the main branch.
pub proof fn base_is_the_default_of_origin(name: Seq<char>, replies: Seq<Reply>)
    requires
        replies.len() >= 1,
    ensures
        base_step(seq![]) == StepView::<Option<Seq<char>>>::Run(
            CommandView { program: "git"@, args: seq!["symbolic-ref"@, "refs/remotes/origin/HEAD"@] },
        ),
        (command::answer(replies[0]) matches Ok(out) && text::trimmed(out) == "refs/remotes/origin/"@
            + name) ==> base_step(replies) == StepView::Done(Some(name), 1),
        !(command::answer(replies[0]) matches Ok(out) && "refs/remotes/origin/"@.is_prefix_of(
            text::trimmed(out),
        )) ==> match main_step(replies.skip(1)) {
            StepView::Run(c) => base_step(replies) == StepView::<Option<Seq<char>>>::Run(c),
            StepView::Done(b, n) => base_step(replies) == StepView::Done(b, n + 1),
        },
{
    if let Ok(out) = command::answer(replies[0]) {
        if text::trimmed(out) == "refs/remotes/origin/"@ + name {
            lemma_header(text::trimmed(out), "refs/remotes/origin/"@, name);
        }
    }
}

/// A ref under `refs/heads/` is a local branch by its name, current where HEAD's
/// marker stands before it; one under `refs/remotes/` is a branch of a remote,
/// never current, and none where it is the remote's `HEAD`; no other ref is a
/// branch.
#[verifier::spinoff_prover]
#[verifier::rlimit(50)]
pub proof fn refs_are_branches(marker: Seq<char>, name: Seq<char>)
    requires
        !marker.contains('\t'),
    ensures
        branch_of(marker + seq!['\t'] + ("refs/heads/"@ + name)) == Some(
            BranchView { name, is_current: text::trimmed(marker) == "*"@, is_remote: false },
        ),
        !text::ends(name, "/HEAD"@) ==> branch_of(
            marker + seq!['\t'] + ("refs/remotes/"@ + name),
        ) == Some(BranchView { name, is_current: false, is_remote: true }),
        text::ends(name, "/HEAD"@) ==> branch_of(
            marker + seq!['\t'] + ("refs/remotes/"@ + name),
        ) is None,
        !"refs/heads/"@.is_prefix_of(name) && !"refs/remotes/"@.is_prefix_of(name) ==> branch_of(
            marker + seq!['\t'] + name,
        ) is None,
{
    reveal_strlit("refs/heads/");
    reveal_strlit("refs/remotes/");
    let local = "refs/heads/"@ + name;
    let remote = "refs/remotes/"@ + name;
    lemma_marked(marker, local);
    lemma_marked(marker, remote);
    lemma_marked(marker, name);
    lemma_header(local, "refs/heads/"@, name);
    lemma_header(remote, "refs/remotes/"@, name);
    lemma_no_header(remote, "refs/heads/"@, 5);
}

proof fn lemma_marked(marker: Seq<char>, refname: Seq<char>)
    requires
        !marker.contains('\t'),
    ensures
        ({
            let line = marker + seq!['\t'] + refname;
            let i = text::first_at(line, '\t');
            i < line.len() && line.take(i) == marker && line.skip(i + 1) == refname
        }),
{
    let line = marker + seq!['\t'] + refname;
    let n = marker.len() as int;
    assert forall|j: int| 0 <= j < n implies line[j] != '\t' by {
        assert(line[j] == marker[j]);
    }
    text::lemma_first_at_is(line, '\t', n);
    assert(line.take(n) =~= marker);
    assert(line.skip(n + 1) =~= refname);
}

/// Branches are listed one by one, in the order of the lines.
pub proof fn branches_are_read_in_order(a: Seq<Seq<char>>, b: Seq<Seq<char>>, line: Seq<char>)
    ensures
        branches_of(a + b) == branches_of(a) + branches_of(b),
        branches_of(seq![line]) == match branch_of(line) {
            Some(branch) => seq![branch],
            None => seq![],
        },
    decreases b.len(),
{
    if b.len() > 0 {
        assert((a + b).drop_last() =~= a + b.drop_last());
        assert((a + b).last() == b.last());
        branches_are_read_in_order(a, b.drop_last(), line);
        assert(branches_of(a + b) =~= branches_of(a) + branches_of(b));
    } else {
        assert(a + b =~= a);
        assert(branches_of(a) + branches_of(b) =~= branches_of(a));
    }
    assert(seq![line].drop_last() =~= Seq::<Seq<char>>::empty());
    assert(branches_of(Seq::<Seq<char>>::empty()) =~= Seq::<BranchView>::empty());
    assert(branches_of(seq![line]) =~= match branch_of(line) {
        Some(branch) => seq![branch],
        None => seq![],
    });
}

/// Both local branches and those of remotes are asked for.
pub proof fn all_branches_are_asked_for(replies: Seq<Reply>)
    ensures
        branches_step(seq![]) == StepView::<Result<Seq<BranchView>, Seq<char>>>::Run(
            CommandView {
                program: "git"@,
                args: seq![
                    "for-each-ref"@,
                    "--format=%(HEAD)%09%(refname)"@,
                    "refs/heads"@,
                    "refs/remotes"@,
                ],
            },
        ),
        replies.len() > 0 ==> (command::answer(replies[0]) matches Ok(out) ==> branches_step(replies)
            == StepView::<Result<Seq<BranchView>, Seq<char>>>::Done(
            Ok(branches_of(text::lines_of(out))),
            1,
        )),
        remotes_step(seq![]) == StepView::<Seq<Seq<char>>>::Run(
            CommandView { program: "git"@, args: seq!["remote"@] },
        ),
        replies.len() > 0 ==> (command::answer(replies[0]) matches Ok(out) ==> remotes_step(replies)
            == StepView::Done(text::lines_of(out), 1)),
{
}

/// A branch whose first segment is no remote is switched to by its whole name;
/// one without a slash is switched to at once.
pub proof fn local_branch_is_switched_to_by_its_name(name: Seq<char>, replies: Seq<Reply>)
    ensures
        !name.contains('/') ==> checkout_step(name, seq![]) == StepView::<
            Result<(), Seq<char>>,
        >::Run(CommandView { program: "git"@, args: seq!["switch"@, name] }),
        name.contains('/') ==> checkout_step(name, seq![]) == StepView::<
            Result<(), Seq<char>>,
        >::Run(CommandView { program: "git"@, args: seq!["remote"@] }),
        name.contains('/') && replies.len() == 1 && (command::answer(replies[0]) matches Ok(out)
            && forall|prefix: Seq<char>|
            #[trigger] text::lines_of(out).contains(prefix) ==> !(prefix + seq!['/']).is_prefix_of(
                name,
            )) ==> checkout_step(name, replies) == StepView::<Result<(), Seq<char>>>::Run(
            CommandView { program: "git"@, args: seq!["switch"@, name] },
        ),
{
    text::lemma_first_at(name, '/');
    let i = text::first_at(name, '/');
    if name.contains('/') {
        let k = choose|k: int| 0 <= k < name.len() && name[k] == '/';
        assert(i < name.len());
        assert((name.take(i) + seq!['/']) =~= name.take(i + 1));
        if replies.len() == 1 {
            assert(replies.skip(1).len() == 0);
            if let Ok(out) = command::answer(replies[0]) {
                if text::lines_of(out).contains(name.take(i)) {
                    assert((name.take(i) + seq!['/']).is_prefix_of(name));
                }
            }
        }
    } else if i < name.len() {
        assert(name.contains(name[i]));
    }
}

/// A switch succeeds exactly where git makes it, and fails with what git says.
pub proof fn switch_succeeds_where_git_does(name: Seq<char>, replies: Seq<Reply>)
    ensures
        !name.contains('/') && replies.len() >= 1 ==> match command::answer(replies[0]) {
            Ok(_) => checkout_step(name, replies) == StepView::<Result<(), Seq<char>>>::Done(
                Ok(()),
                1,
            ),
            Err(e) => checkout_step(name, replies) == StepView::<Result<(), Seq<char>>>::Done(
                Err(e),
                1,
            ),
        },
        name.contains('/') && replies.len() >= 2 ==> match command::answer(replies[1]) {
            Ok(_) => checkout_step(name, replies) == StepView::<Result<(), Seq<char>>>::Done(
                Ok(()),
                2,
            ),
            Err(e) => checkout_step(name, replies) == StepView::<Result<(), Seq<char>>>::Done(
                Err(e),
                2,
            ),
        },
{
    text::lemma_first_at(name, '/');
    let i = text::first_at(name, '/');
    if name.contains('/') {
        let k = choose|k: int| 0 <= k < name.len() && name[k] == '/';
        assert(i < name.len());
        if replies.len() >= 2 {
            assert(replies.skip(1)[0] == replies[1]);
        }
    } else if i < name.len() {
        assert(name.contains(name[i]));
    }
}

/// A switch is blocked by the working tree exactly where git says that files
/// would be overwritten or speaks of local changes, wherever it says so.
pub proof fn git_says_what_blocks(before: Seq<char>, after: Seq<char>, other: Seq<char>)
    ensures
        blocked_by_worktree(before + "would be overwritten"@ + after),
        blocked_by_worktree(before + "local changes"@ + after),
        blocked_by_worktree(other) ==> exists|i: int|
            text::stands_at(other, "would be overwritten"@, i) || text::stands_at(
                other,
                "local changes"@,
                i,
            ),
{
    let n = before.len() as int;
    let a = "would be overwritten"@;
    let b = "local changes"@;
    assert((before + a + after).subrange(n, n + a.len()) =~= a);
    assert((before + b + after).subrange(n, n + b.len()) =~= b);
    assert(text::stands_at(before + a + after, a, n));
    assert(text::stands_at(before + b + after, b, n));
}

} // verus!
