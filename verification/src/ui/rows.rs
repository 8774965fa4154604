//! The rows of the graph: lanes, labels of branches and tags, badges of pull
//! requests, subject and age.

use crate::canvas::{self, bg, fg, move_to, reset, Canvas, PaintView};
use crate::cells::{self, display_width, truncate};
use crate::color::{self, branch_family, color_for, Rgb};
use crate::git::{self, Commit, CommitView};
use crate::graph::{GraphRow, GraphRowView};
use crate::remote::{ChecksState, PrInfo, PrInfoView, ReviewState};
use crate::text;
use crate::ui;
use vstd::hash_map::StringHashMap;
use vstd::prelude::*;

verus! {

// ---------------------------------------------------------------------------
// Ages and badges
// ---------------------------------------------------------------------------
/// An age in seconds, in its largest unit.
pub open spec fn age(dt: nat) -> Seq<char> {
    if dt < 60 {
        text::decimal(dt) + "s"@
    } else if dt < 3600 {
        text::decimal(dt / 60) + "m"@
    } else if dt < 86400 {
        text::decimal(dt / 3600) + "h"@
    } else if dt < 604800 {
        text::decimal(dt / 86400) + "d"@
    } else if dt < 2592000 {
        text::decimal(dt / 604800) + "w"@
    } else if dt < 31536000 {
        text::decimal(dt / 2592000) + "mo"@
    } else {
        text::decimal(dt / 31536000) + "y"@
    }
}

/// How long before `now` something happened, like "3d" or "2mo"; "0s" where it
/// lies ahead.
pub fn rel_time(timestamp: i64, now: i64) -> (r: String)
    ensures
        r@ == age(ui::monus(now as int, timestamp as int) as nat),
{
    let span: i128 = now as i128 - timestamp as i128;
    let dt: u64 = if span < 0 {
        0
    } else {
        span as u64
    };
    let (n, unit): (u64, &str) = if dt < 60 {
        (dt, "s")
    } else if dt < 3600 {
        (dt / 60, "m")
    } else if dt < 86400 {
        (dt / 3600, "h")
    } else if dt < 604800 {
        (dt / 86400, "d")
    } else if dt < 2592000 {
        (dt / 604800, "w")
    } else if dt < 31536000 {
        (dt / 2592000, "mo")
    } else {
        (dt / 31536000, "y")
    };
    let mut r = text::number_text(n);
    r.append(unit);
    r
}

/// What the rows of the graph need to know of the repository: the names of the
/// remotes, and the open pull requests by their head branch.
pub struct RepoMeta<'a> {
    pub remotes: &'a [String],
    pub prs: &'a StringHashMap<PrInfo>,
}

/// The same as contracts speak of it.
pub struct MetaView {
    pub remotes: Seq<Seq<char>>,
    pub prs: Map<Seq<char>, PrInfoView>,
}

/// Pull requests as contracts speak of them.
pub open spec fn pr_views(prs: Map<Seq<char>, PrInfo>) -> Map<Seq<char>, PrInfoView> {
    prs.map_values(|pr: PrInfo| pr.deep_view())
}

impl<'a> DeepView for RepoMeta<'a> {
    type V = MetaView;

    open spec fn deep_view(&self) -> MetaView {
        MetaView { remotes: self.remotes.deep_view(), prs: pr_views(self.prs@) }
    }
}

/// The pull requests by their head branch; of two with the same one the later
/// counts.
pub open spec fn by_branch(prs: Seq<PrInfoView>) -> Map<Seq<char>, PrInfoView>
    decreases prs.len(),
{
    if prs.len() == 0 {
        Map::empty()
    } else {
        by_branch(prs.drop_last()).insert(prs.last().head_branch, prs.last())
    }
}

/// The pull requests by their head branch.
pub fn pr_map(prs: &[PrInfo]) -> (r: StringHashMap<PrInfo>)
    ensures
        pr_views(r@) == by_branch(prs.deep_view()),
{
    let mut map: StringHashMap<PrInfo> = StringHashMap::new();
    let ghost all = prs.deep_view();
    assert(pr_views(map@) =~= by_branch(all.take(0)));
    for i in 0..prs.len()
        invariant
            all == prs.deep_view(),
            pr_views(map@) == by_branch(all.take(i as int)),
    {
        let ghost before = pr_views(map@);
        let pr = prs[i].clone();
        let ghost v = pr.deep_view();
        let key = pr.head_branch.clone();
        map.insert(key, pr);
        proof {
            assert(all.take(i + 1).drop_last() =~= all.take(i as int));
            assert(all.take(i + 1).last() == prs@[i as int].deep_view());
            assert(pr_views(map@) =~= before.insert(v.head_branch, v));
        }
    }
    assert(all.take(prs@.len() as int) =~= all);
    map
}

/// The head branch whose badge a ref carries. Tags carry none. A remote branch
/// leaves the badge to the local branch at the same commit, if there is one.
pub open spec fn badge_key(
    r: Seq<char>,
    all_refs: Seq<Seq<char>>,
    remotes: Seq<Seq<char>>,
) -> Option<Seq<char>> {
    let local = git::local_name(r, remotes);
    if "tag:"@.is_prefix_of(r) {
        None
    } else if local != r && all_refs.contains(local) {
        None
    } else {
        Some(local)
    }
}

/// The pull request whose badge a ref carries.
pub open spec fn badge_for(
    r: Seq<char>,
    all_refs: Seq<Seq<char>>,
    remotes: Seq<Seq<char>>,
    prs: Map<Seq<char>, PrInfoView>,
) -> Option<PrInfoView> {
    match badge_key(r, all_refs, remotes) {
        Some(name) => if prs.contains_key(name) {
            Some(prs[name])
        } else {
            None
        },
        None => None,
    }
}

/// The open pull request whose badge belongs on this ref, if there is one.
pub fn pr_for_ref<'a>(
    r: &str,
    all_refs: &[String],
    remotes: &[String],
    prs: &'a StringHashMap<PrInfo>,
) -> (pr: Option<&'a PrInfo>)
    ensures
        pr.deep_view() == badge_for(
            r@,
            all_refs.deep_view(),
            remotes.deep_view(),
            pr_views(prs@),
        ),
{
    if text::starts_with(r, "tag:") {
        return None;
    }
    proof {
        text::lemma_first_at(r@, '/');
    }
    let name = match text::split_once(r, '/') {
        Some((remote, rest)) => {
            if git::is_among(remote, remotes) {
                if git::is_among(rest, all_refs) {
                    return None;
                }
                rest
            } else {
                r
            }
        },
        None => r,
    };
    prs.get(name)
}

/// The badge of a pull request: its number and the colour of that, which shows
/// the review, and a sign for its checks and the colour of that.
pub open spec fn badge(pr: PrInfoView) -> (Seq<char>, Rgb, Seq<char>, Rgb) {
    let number_colour: Rgb = if pr.draft {
        (110, 110, 125)
    } else {
        match pr.review {
            ReviewState::Approved => (120, 200, 120),
            ReviewState::ChangesRequested => (220, 100, 100),
            ReviewState::Undecided => (180, 200, 255),
        }
    };
    let sign: (Seq<char>, Rgb) = match pr.checks {
        ChecksState::Passing => ("✓"@, (120, 200, 120)),
        ChecksState::Failing => ("✗"@, (220, 100, 100)),
        ChecksState::Pending => ("●"@, (220, 180, 60)),
        ChecksState::NoChecks => (""@, (0, 0, 0)),
    };
    (" #"@ + text::decimal(pr.number), number_colour, sign.0, sign.1)
}

/// The badge of a pull request. A draft stays dim whatever its review.
pub fn pr_badge(pr: &PrInfo) -> (r: (String, Rgb, &'static str, Rgb))
    ensures
        (r.0@, r.1, r.2@, r.3) == badge(pr.deep_view()),
{
    let number_colour: Rgb = if pr.draft {
        (110, 110, 125)
    } else {
        match pr.review {
            ReviewState::Approved => (120, 200, 120),
            ReviewState::ChangesRequested => (220, 100, 100),
            ReviewState::Undecided => (180, 200, 255),
        }
    };
    let (sign, sign_colour): (&'static str, Rgb) = match pr.checks {
        ChecksState::Passing => ("✓", (120, 200, 120)),
        ChecksState::Failing => ("✗", (220, 100, 100)),
        ChecksState::Pending => ("●", (220, 180, 60)),
        ChecksState::NoChecks => ("", (0, 0, 0)),
    };
    let mut number = " #".to_owned();
    text::push_number(&mut number, pr.number);
    (number, number_colour, sign, sign_colour)
}

/// Tags never get badges.
pub proof fn tags_get_no_badge(
    name: Seq<char>,
    all_refs: Seq<Seq<char>>,
    remotes: Seq<Seq<char>>,
    prs: Map<Seq<char>, PrInfoView>,
)
    ensures
        badge_for("tag:"@ + name, all_refs, remotes, prs) is None,
{
    assert("tag:"@ =~= ("tag:"@ + name).take("tag:"@.len() as int));
}

/// Where a local branch and the remote branch of the same name are at one
/// commit, the local one carries the badge and the remote one does not.
pub proof fn local_twin_carries_the_badge(
    remote: Seq<char>,
    name: Seq<char>,
    all_refs: Seq<Seq<char>>,
    remotes: Seq<Seq<char>>,
    prs: Map<Seq<char>, PrInfoView>,
)
    requires
        remotes.contains(remote),
        !remote.contains('/'),
        all_refs.contains(name),
        git::local_name(name, remotes) == name,
        !"tag:"@.is_prefix_of(name),
    ensures
        badge_for(remote + seq!['/'] + name, all_refs, remotes, prs) is None,
        badge_for(name, all_refs, remotes, prs) == if prs.contains_key(name) {
            Some(prs[name])
        } else {
            None
        },
{
    git::lemma_local_name(remote, name, remotes);
}

// ---------------------------------------------------------------------------
// Rows of the graph
// ---------------------------------------------------------------------------
/// The family that colours a lane of a row.
pub open spec fn lane_family(row: GraphRowView, l: int) -> Seq<char> {
    if l == row.lane {
        row.branch_family
    } else if 0 <= l < row.lane_families.len() && row.lane_families[l] is Some {
        row.lane_families[l]->0
    } else {
        "_"@
    }
}

/// The name that shades the lanes of a row: the first ref of its commit, or the
/// hash.
pub open spec fn shading_name(c: CommitView) -> Seq<char> {
    if c.refs.len() > 0 {
        c.refs[0]
    } else {
        c.hash
    }
}

/// The lane is there and waits for a commit.
pub open spec fn waits(lanes: Seq<Option<Seq<char>>>, l: int) -> bool {
    0 <= l < lanes.len() && lanes[l] is Some
}

/// One lane of a row, two cells wide: a ring for the commit that HEAD is on, a
/// diamond for a merge, a dot for another commit, and elsewhere a line that
/// goes through, ends or begins.
pub open spec fn lane_steps(row: GraphRowView, l: int) -> Seq<PaintView> {
    let own = PaintView::Fg(color::colour(lane_family(row, l), shading_name(row.commit)));
    if l == row.lane {
        if row.commit.head_ref is Some {
            seq![PaintView::Fg((255, 210, 60)), PaintView::Text("◉ "@)]
        } else if row.commit.parents.len() > 1 {
            seq![own, PaintView::Text("◆ "@)]
        } else {
            seq![own, PaintView::Text("● "@)]
        }
    } else if waits(row.lanes_before, l) && waits(row.lanes_after, l) {
        seq![own, PaintView::Text("│ "@)]
    } else if waits(row.lanes_before, l) {
        seq![own, PaintView::Text("╵ "@)]
    } else if waits(row.lanes_after, l) {
        seq![own, PaintView::Text("╷ "@)]
    } else {
        seq![PaintView::Text("  "@)]
    }
}

/// The first `n` lanes of a row.
pub open spec fn lanes_steps(row: GraphRowView, n: int) -> Seq<PaintView>
    decreases n,
{
    if n <= 0 {
        seq![]
    } else {
        lanes_steps(row, n - 1) + lane_steps(row, n - 1)
    }
}

/// The lanes that a row shows.
pub open spec fn shown_lanes(row: GraphRowView, max_lanes: int) -> int {
    ui::least(
        ui::most(
            ui::most(row.lanes_before.len() as int, row.lanes_after.len() as int),
            row.lane + 1,
        ),
        max_lanes,
    )
}

/// The badge of a pull request.
pub open spec fn badge_steps(pr: PrInfoView) -> Seq<PaintView> {
    let (number, number_colour, sign, sign_colour) = badge(pr);
    seq![PaintView::Fg(number_colour), PaintView::Text(number)] + if sign.len() > 0 {
        seq![PaintView::Fg(sign_colour), PaintView::Text(sign)]
    } else {
        seq![]
    }
}

/// The label of a ref: a tag in brackets; a branch in parentheses, in gold and
/// with an arrow where HEAD is on it, and with the badge of its pull request.
pub open spec fn label_steps(c: CommitView, r: Seq<char>, meta: MetaView) -> Seq<PaintView> {
    if "tag:"@.is_prefix_of(r) {
        seq![
            PaintView::Fg((220, 180, 60)),
            PaintView::Text("["@ + r.skip("tag:"@.len() as int) + "] "@),
        ]
    } else {
        let is_head = c.head_ref == Some(r);
        let open = if is_head {
            "(▶"@
        } else {
            "("@
        };
        let colour: Rgb = if is_head {
            (255, 210, 60)
        } else {
            color::colour(color::family(r, meta.remotes), r)
        };
        seq![PaintView::Fg(colour), PaintView::Text(open + r)] + match badge_for(
            r,
            c.refs,
            meta.remotes,
            meta.prs,
        ) {
            Some(pr) => badge_steps(pr).push(PaintView::Fg(colour)),
            None => seq![],
        } + seq![PaintView::Text(") "@)]
    }
}

/// The labels of the refs from the `i`-th on, and the cells that are left of
/// `avail`. A label is shown where it fits with two cells to spare; from the
/// first that does not, none is.
pub open spec fn labels_from(c: CommitView, i: int, avail: int, meta: MetaView) -> (
    Seq<PaintView>,
    int,
)
    decreases c.refs.len() - i,
{
    if i >= c.refs.len() {
        (seq![], avail)
    } else {
        let label = label_steps(c, c.refs[i], meta);
        if canvas::written(label) + 2 > avail {
            (seq![], avail)
        } else {
            let (rest, left) = labels_from(c, i + 1, avail - canvas::written(label), meta);
            (label + rest, left)
        }
    }
}

/// The short hash, author and age of a commit.
pub open spec fn byline(c: CommitView, now: int) -> Seq<char> {
    "  "@ + c.short + " "@ + c.author + " "@ + age(ui::monus(now, c.timestamp) as nat)
}

/// The subject of a commit, cut to the cells that are left; its byline, if that
/// still fits; and, in the selected row, blanks to the end of the pane.
pub open spec fn subject_steps(c: CommitView, avail: int, selected: bool, now: int) -> Seq<
    PaintView,
> {
    let subject = cells::cut(c.subject, avail as nat);
    let left = avail - cells::text_width(subject);
    let dim = byline(c, now);
    let fits = cells::text_width(dim) <= left;
    let end = if fits {
        left - cells::text_width(dim)
    } else {
        left
    };
    seq![PaintView::Fg((220, 220, 220)), PaintView::Text(subject)] + if fits {
        seq![PaintView::Fg((110, 110, 125)), PaintView::Text(dim)]
    } else {
        seq![]
    } + if selected && end > 0 {
        seq![PaintView::Text(text::run_of(' ', end as nat))]
    } else {
        seq![]
    }
}

/// A row of the graph, in `graph_width` columns from the left of the screen.
pub open spec fn graph_row_steps(
    row: GraphRowView,
    y: int,
    selected: bool,
    focused: bool,
    max_lanes: int,
    graph_width: int,
    meta: MetaView,
    now: int,
) -> Seq<PaintView> {
    let n = shown_lanes(row, max_lanes);
    let (labels, left) = labels_from(row.commit, 0, ui::monus(graph_width, 2 * n), meta);
    seq![PaintView::MoveTo(y, 0)] + if selected && focused {
        seq![PaintView::Bg((40, 50, 70))]
    } else if selected {
        seq![PaintView::Bg((30, 30, 40))]
    } else {
        seq![]
    } + lanes_steps(row, n) + labels + subject_steps(row.commit, left, selected, now)
        + seq![PaintView::Reset]
}

fn lane_waits(lanes: &[Option<String>], l: usize) -> (r: bool)
    ensures
        r == waits(lanes.deep_view(), l as int),
{
    l < lanes.len() && lanes[l].is_some()
}

fn draw_lane(row: &GraphRow, l: usize, out: &mut Canvas)
    ensures
        final(out)@ == old(out)@ + lane_steps(row.deep_view(), l as int),
{
    let ghost before = out@;
    let ghost view = row.deep_view();
    let family: &str = if l == row.lane {
        row.branch_family.as_str()
    } else if l < row.lane_families.len() {
        assert(view.lane_families[l as int] == row.lane_families@[l as int].deep_view());
        match &row.lane_families[l] {
            Some(f) => f.as_str(),
            None => "_",
        }
    } else {
        "_"
    };
    let name: &str = if row.commit.refs.len() > 0 {
        row.commit.refs[0].as_str()
    } else {
        row.commit.hash.as_str()
    };
    let goes_in = lane_waits(&row.lanes_before, l);
    let goes_out = lane_waits(&row.lanes_after, l);
    let glyph = if l == row.lane {
        if row.commit.head_ref.is_some() {
            "◉ "
        } else if row.commit.parents.len() > 1 {
            "◆ "
        } else {
            "● "
        }
    } else if goes_in && goes_out {
        "│ "
    } else if goes_in {
        "╵ "
    } else if goes_out {
        "╷ "
    } else {
        "  "
    };
    if l == row.lane && row.commit.head_ref.is_some() {
        fg((255, 210, 60), out);
    } else if l == row.lane || goes_in || goes_out {
        fg(color_for(family, name), out);
    }
    out.write(glyph);
    assert(out@ =~= before + lane_steps(view, l as int));
}

proof fn lemma_label_width(c: CommitView, r: Seq<char>, meta: MetaView)
    ensures
        canvas::written(label_steps(c, r, meta)) == if "tag:"@.is_prefix_of(r) {
            cells::text_width("["@ + r.skip("tag:"@.len() as int) + "] "@)
        } else {
            cells::text_width(
                if c.head_ref == Some(r) {
                    "(▶"@
                } else {
                    "("@
                },
            ) + cells::text_width(r) + match badge_for(r, c.refs, meta.remotes, meta.prs) {
                Some(pr) => cells::text_width(badge(pr).0) + cells::text_width(badge(pr).2),
                None => 0,
            } + 2
        },
{
    broadcast use {
        canvas::lemma_written_concat,
        canvas::lemma_written_push,
        canvas::lemma_written_two,
        cells::lemma_width_concat,
        cells::lemma_width_two,
    };

    reveal_strlit(") ");
    assert(") "@ =~= seq![')', ' ']);
    assert(cells::text_width(") "@) == 2);
    let colour = label_steps(c, r, meta)[0];
    if !"tag:"@.is_prefix_of(r) {
        if let Some(pr) = badge_for(r, c.refs, meta.remotes, meta.prs) {
            lemma_badge_width(pr);
            assert(canvas::written(badge_steps(pr).push(colour)) == canvas::written(
                badge_steps(pr),
            ));
        }
    }
}

proof fn lemma_badge_width(pr: PrInfoView)
    ensures
        canvas::written(badge_steps(pr)) == cells::text_width(badge(pr).0) + cells::text_width(
            badge(pr).2,
        ),
{
    broadcast use {canvas::lemma_written_concat, canvas::lemma_written_two};

    reveal_strlit("");
    reveal_strlit("✓");
    reveal_strlit("✗");
    reveal_strlit("●");

}

/// Paints the label of a ref if it fits with two cells to spare, and tells how
/// many cells it took.
fn draw_label(commit: &Commit, r: &str, avail: usize, meta: &RepoMeta, out: &mut Canvas) -> (width:
    Option<usize>)
    requires
        avail <= u16::MAX,
    ensures
        ({
            let label = label_steps(commit.deep_view(), r@, meta.deep_view());
            match width {
                Some(w) => w == canvas::written(label) && w + 2 <= avail && final(out)@ == old(
                    out,
                )@ + label,
                None => canvas::written(label) + 2 > avail && final(out)@ == old(out)@,
            }
        }),
{
    let ghost before = out@;
    let ghost c = commit.deep_view();
    let ghost m = meta.deep_view();
    proof {
        lemma_label_width(c, r@, m);
    }
    if let Some(tag) = text::strip_prefix(r, "tag:") {
        let mut label = "[".to_owned();
        label.append(tag);
        label.append("] ");
        let width = display_width(label.as_str());
        if width.saturating_add(2) > avail {
            return None;
        }
        fg((220, 180, 60), out);
        out.write(label.as_str());
        assert(out@ =~= before + label_steps(c, r@, m));
        return Some(width);
    }
    let is_head = match &commit.head_ref {
        Some(h) => text::same(h.as_str(), r),
        None => false,
    };
    let open = if is_head {
        "(▶"
    } else {
        "("
    };
    let badge = match pr_for_ref(r, &commit.refs, meta.remotes, meta.prs) {
        Some(pr) => Some(pr_badge(pr)),
        None => None,
    };
    let badge_width = match &badge {
        Some((number, _, sign, _)) => display_width(number.as_str()).saturating_add(
            display_width(sign),
        ),
        None => 0,
    };
    let width = display_width(open).saturating_add(display_width(r)).saturating_add(
        badge_width,
    ).saturating_add(2);
    if width.saturating_add(2) > avail {
        return None;
    }
    let colour: Rgb = if is_head {
        (255, 210, 60)
    } else {
        color_for(branch_family(r, meta.remotes), r)
    };
    fg(colour, out);
    let mut head = open.to_owned();
    head.append(r);
    out.write(head.as_str());
    if let Some((number, number_colour, sign, sign_colour)) = badge {
        fg(number_colour, out);
        out.write(number.as_str());
        if sign.unicode_len() > 0 {
            fg(sign_colour, out);
            out.write(sign);
        }
        fg(colour, out);
    }
    out.write(") ");
    assert(out@ =~= before + label_steps(c, r@, m));
    Some(width)
}

/// Paints the labels of a commit in the cells that are there, and tells how many
/// of them are left.
fn draw_labels(commit: &Commit, avail: usize, meta: &RepoMeta, out: &mut Canvas) -> (left: usize)
    requires
        avail <= u16::MAX,
    ensures
        ({
            let labels = labels_from(commit.deep_view(), 0, avail as int, meta.deep_view());
            final(out)@ == old(out)@ + labels.0 && left == labels.1 && left <= avail
        }),
{
    let ghost before = out@;
    let ghost c = commit.deep_view();
    let ghost m = meta.deep_view();
    let ghost all = labels_from(c, 0, avail as int, m);
    let mut left: usize = avail;
    let mut i: usize = 0;
    assert(before + all.0 =~= out@ + labels_from(c, 0, left as int, m).0);
    while i < commit.refs.len()
        invariant
            c == commit.deep_view(),
            m == meta.deep_view(),
            i <= commit.refs@.len(),
            left <= avail <= u16::MAX,
            before == old(out)@,
            all == labels_from(c, 0, avail as int, m),
            before + all.0 == out@ + labels_from(c, i as int, left as int, m).0,
            all.1 == labels_from(c, i as int, left as int, m).1,
        decreases commit.refs@.len() - i,
    {
        let ghost mid = out@;
        assert(c.refs[i as int] == commit.refs@[i as int]@);
        match draw_label(commit, commit.refs[i].as_str(), left, meta, out) {
            Some(width) => {
                proof {
                    let label = label_steps(c, c.refs[i as int], m);
                    let rest = labels_from(c, i + 1, left - width, m).0;
                    assert(mid + (label + rest) =~= (mid + label) + rest);
                }
                left -= width;
                i += 1;
            },
            None => {
                assert(labels_from(c, i as int, left as int, m) == (
                    Seq::<PaintView>::empty(),
                    left as int,
                ));
                assert(out@ =~= before + all.0);
                return left;
            },
        }
    }
    assert(out@ =~= before + all.0);
    left
}

/// Paints the subject of a commit and what follows it.
fn draw_subject(commit: &Commit, avail: usize, selected: bool, now: i64, out: &mut Canvas)
    ensures
        final(out)@ == old(out)@ + subject_steps(
            commit.deep_view(),
            avail as int,
            selected,
            now as int,
        ),
{
    let ghost before = out@;
    let ghost c = commit.deep_view();
    fg((220, 220, 220), out);
    let subject = truncate(commit.subject.as_str(), avail);
    proof {
        cells::cut_fits(commit.subject@, avail as nat);
    }
    let mut left: usize = avail - display_width(subject.as_str());
    out.write(subject.as_str());
    let mut dim = "  ".to_owned();
    dim.append(commit.short.as_str());
    dim.append(" ");
    dim.append(commit.author.as_str());
    dim.append(" ");
    dim.append(rel_time(commit.timestamp, now).as_str());
    assert(dim@ =~= byline(c, now as int));
    let width = display_width(dim.as_str());
    if width <= left {
        fg((110, 110, 125), out);
        left -= width;
        out.write(dim.as_str());
    }
    if selected && left > 0 {
        out.write(text::repeat(' ', left).as_str());
    }
    assert(out@ =~= before + subject_steps(c, avail as int, selected, now as int));
}

/// Paints a row of the graph in `graph_width` columns. A lane takes two of them.
/// `now` is the time of day in seconds since 1970.
#[verifier::rlimit(40)]
pub fn draw_graph_row(
    row: &GraphRow,
    y: u16,
    selected: bool,
    focused: bool,
    max_lanes: usize,
    graph_width: u16,
    meta: &RepoMeta,
    now: i64,
    out: &mut Canvas,
)
    ensures
        final(out)@ == old(out)@ + graph_row_steps(
            row.deep_view(),
            y as int,
            selected,
            focused,
            max_lanes as int,
            graph_width as int,
            meta.deep_view(),
            now as int,
        ),
{
    let ghost before = out@;
    let ghost view = row.deep_view();
    move_to(y, 0, out);
    if selected {
        if focused {
            bg((40, 50, 70), out);
        } else {
            bg((30, 30, 40), out);
        }
    }
    let ghost opened = out@;
    let ghost head = seq![PaintView::MoveTo(y as int, 0)] + if selected && focused {
        seq![PaintView::Bg((40, 50, 70))]
    } else if selected {
        seq![PaintView::Bg((30, 30, 40))]
    } else {
        seq![]
    };
    assert(opened =~= before + head);
    let mut lanes: usize = row.lane.saturating_add(1);
    if lanes < row.lanes_before.len() {
        lanes = row.lanes_before.len();
    }
    if lanes < row.lanes_after.len() {
        lanes = row.lanes_after.len();
    }
    if lanes > max_lanes {
        lanes = max_lanes;
    }
    assert(lanes == shown_lanes(view, max_lanes as int));
    assert(out@ =~= opened + lanes_steps(view, 0));
    for l in 0..lanes
        invariant
            view == row.deep_view(),
            out@ == opened + lanes_steps(view, l as int),
    {
        draw_lane(row, l, out);
        assert(opened + lanes_steps(view, l as int) + lane_steps(view, l as int) =~= opened + (
        lanes_steps(view, l as int) + lane_steps(view, l as int)));
    }
    let avail: usize = if lanes > graph_width as usize {
        0
    } else {
        (graph_width as usize).saturating_sub(lanes * 2)
    };
    assert(avail == ui::monus(graph_width as int, 2 * lanes));
    let left = draw_labels(&row.commit, avail, meta, out);
    draw_subject(&row.commit, left, selected, now, out);
    reset(out);
    proof {
        let a = lanes_steps(view, lanes as int);
        let b = labels_from(view.commit, 0, avail as int, meta.deep_view()).0;
        let c = subject_steps(view.commit, left as int, selected, now as int);
        let d = seq![PaintView::Reset];
        canvas::lemma_grouping(before, head, a);
        canvas::lemma_grouping(before, head + a, b);
        canvas::lemma_grouping(before, head + a + b, c);
        canvas::lemma_grouping(before, head + a + b + c, d);
        assert(out@ =~= before + head + a + b + c + d);
    }
}

// ---------------------------------------------------------------------------
// Laws
// ---------------------------------------------------------------------------
proof fn lemma_lane_width(row: GraphRowView, l: int)
    ensures
        canvas::written(lane_steps(row, l)) == 2,
{
    broadcast use {canvas::lemma_written_push, canvas::lemma_written_two, cells::lemma_width_two};

    reveal_strlit("◉ ");
    reveal_strlit("◆ ");
    reveal_strlit("● ");
    reveal_strlit("│ ");
    reveal_strlit("╵ ");
    reveal_strlit("╷ ");
    reveal_strlit("  ");
}

proof fn lemma_lanes_width(row: GraphRowView, n: int)
    requires
        n >= 0,
    ensures
        canvas::written(lanes_steps(row, n)) == 2 * n,
    decreases n,
{
    if n > 0 {
        lemma_lanes_width(row, n - 1);
        lemma_lane_width(row, n - 1);
        canvas::lemma_written_concat(lanes_steps(row, n - 1), lane_steps(row, n - 1));
    }
}

proof fn lemma_labels_width(c: CommitView, i: int, avail: int, meta: MetaView)
    requires
        avail >= 0,
    ensures
        ({
            let (labels, left) = labels_from(c, i, avail, meta);
            left >= 0 && canvas::written(labels) + left == avail
        }),
    decreases c.refs.len() - i,
{
    if i < c.refs.len() {
        let label = label_steps(c, c.refs[i], meta);
        if canvas::written(label) + 2 <= avail {
            let rest = avail - canvas::written(label);
            lemma_labels_width(c, i + 1, rest, meta);
            canvas::lemma_written_concat(label, labels_from(c, i + 1, rest, meta).0);
        }
    }
}

proof fn lemma_subject_width(c: CommitView, avail: int, selected: bool, now: int)
    requires
        avail >= 0,
    ensures
        canvas::written(subject_steps(c, avail, selected, now)) <= avail,
        selected ==> canvas::written(subject_steps(c, avail, selected, now)) == avail,
{
    broadcast use {
        canvas::lemma_written_concat,
        canvas::lemma_written_push,
        canvas::lemma_written_two,
        cells::lemma_width_blanks,
    };

    cells::cut_fits(c.subject, avail as nat);
}

/// A row of the graph stays in its columns, or in those that its lanes take, and
/// the selected row fills them.
pub proof fn graph_row_stays_in_its_pane(
    row: GraphRowView,
    y: int,
    selected: bool,
    focused: bool,
    max_lanes: int,
    graph_width: int,
    meta: MetaView,
    now: int,
)
    requires
        max_lanes >= 0,
        row.lane >= 0,
    ensures
        ({
            let cells = canvas::written(
                graph_row_steps(row, y, selected, focused, max_lanes, graph_width, meta, now),
            );
            let room = ui::most(graph_width, 2 * shown_lanes(row, max_lanes));
            cells <= room && (selected ==> cells == room)
        }),
{
    broadcast use {canvas::lemma_written_concat, canvas::lemma_written_push};

    let n = shown_lanes(row, max_lanes);
    let avail = ui::monus(graph_width, 2 * n);
    lemma_lanes_width(row, n);
    lemma_labels_width(row.commit, 0, avail, meta);
    lemma_subject_width(
        row.commit,
        labels_from(row.commit, 0, avail, meta).1,
        selected,
        now,
    );
}

proof fn lemma_lanes_stay(row: GraphRowView, n: int, width: int, height: int)
    ensures
        canvas::stays_on(lanes_steps(row, n), width, height),
    decreases n,
{
    broadcast use canvas::lemma_stays_concat;

    if n > 0 {
        lemma_lanes_stay(row, n - 1, width, height);
    }
}

proof fn lemma_labels_stay(
    c: CommitView,
    i: int,
    avail: int,
    meta: MetaView,
    width: int,
    height: int,
)
    ensures
        canvas::stays_on(labels_from(c, i, avail, meta).0, width, height),
    decreases c.refs.len() - i,
{
    broadcast use canvas::lemma_stays_concat;

    if i < c.refs.len() {
        let label = label_steps(c, c.refs[i], meta);
        assert(canvas::stays_on(label, width, height));
        if canvas::written(label) + 2 <= avail {
            lemma_labels_stay(c, i + 1, avail - canvas::written(label), meta, width, height);
        }
    }
}

/// The cursor stays on a screen that has the row.
pub proof fn graph_row_stays_on_the_screen(
    row: GraphRowView,
    y: int,
    selected: bool,
    focused: bool,
    max_lanes: int,
    graph_width: int,
    meta: MetaView,
    now: int,
    width: int,
    height: int,
)
    requires
        0 <= y < height,
        width > 0,
    ensures
        canvas::stays_on(
            graph_row_steps(row, y, selected, focused, max_lanes, graph_width, meta, now),
            width,
            height,
        ),
{
    broadcast use canvas::lemma_stays_concat;

    let n = shown_lanes(row, max_lanes);
    let avail = ui::monus(graph_width, 2 * n);
    let left = labels_from(row.commit, 0, avail, meta).1;
    lemma_lanes_stay(row, n, width, height);
    lemma_labels_stay(row.commit, 0, avail, meta, width, height);
    assert(canvas::stays_on(subject_steps(row.commit, left, selected, now), width, height));
}

// ---------------------------------------------------------------------------
// What a row tells
// ---------------------------------------------------------------------------
/// An age is told in the largest unit of which it has one at least, rounded down:
/// seconds up to a minute, minutes up to an hour, hours up to a day, days up to a
/// week, weeks up to a month of thirty days, months up to a year of 365 days, and
/// years.
pub proof fn ages_are_rounded_down(dt: nat, n: nat)
    ensures
        dt < 60 ==> age(dt) == text::decimal(dt) + "s"@,
        60 <= dt < 3600 && n * 60 <= dt < (n + 1) * 60 ==> age(dt) == text::decimal(n) + "m"@,
        3600 <= dt < 86400 && n * 3600 <= dt < (n + 1) * 3600 ==> age(dt) == text::decimal(n)
            + "h"@,
        86400 <= dt < 7 * 86400 && n * 86400 <= dt < (n + 1) * 86400 ==> age(dt) == text::decimal(n)
            + "d"@,
        7 * 86400 <= dt < 30 * 86400 && n * 604800 <= dt < (n + 1) * 604800 ==> age(dt)
            == text::decimal(n) + "w"@,
        30 * 86400 <= dt < 365 * 86400 && n * 2592000 <= dt < (n + 1) * 2592000 ==> age(
            dt,
        ) == text::decimal(n) + "mo"@,
        365 * 86400 <= dt && n * 31536000 <= dt < (n + 1) * 31536000 ==> age(dt)
            == text::decimal(n) + "y"@,
{
}

/// Of the pull requests with one head branch the last counts; a branch that is
/// the head of none has none.
pub proof fn last_pull_request_counts(prs: Seq<PrInfoView>, k: int, branch: Seq<char>)
    ensures
        0 <= k < prs.len() && (forall|j: int|
            k < j < prs.len() ==> (#[trigger] prs[j]).head_branch != prs[k].head_branch)
            ==> by_branch(prs).contains_key(prs[k].head_branch) && by_branch(
            prs,
        )[prs[k].head_branch] == prs[k],
        by_branch(prs).contains_key(branch) <==> exists|j: int|
            0 <= j < prs.len() && (#[trigger] prs[j]).head_branch == branch,
    decreases prs.len(),
{
    if prs.len() > 0 {
        let less = prs.drop_last();
        last_pull_request_counts(less, k, branch);
        assert(forall|j: int| 0 <= j < less.len() ==> #[trigger] less[j] == prs[j]);
        if 0 <= k < less.len() && (forall|j: int|
            k < j < prs.len() ==> (#[trigger] prs[j]).head_branch != prs[k].head_branch) {
            assert(prs[prs.len() - 1].head_branch != prs[k].head_branch);
            assert(forall|j: int|
                k < j < less.len() ==> (#[trigger] less[j]).head_branch != less[k].head_branch);
        }
        if exists|j: int| 0 <= j < prs.len() && (#[trigger] prs[j]).head_branch == branch {
            let j = choose|j: int| 0 <= j < prs.len() && (#[trigger] prs[j]).head_branch == branch;
            if j < less.len() {
                assert(less[j].head_branch == branch);
            }
        }
        if by_branch(less).contains_key(branch) {
            let j = choose|j: int|
                0 <= j < less.len() && (#[trigger] less[j]).head_branch == branch;
            assert(prs[j].head_branch == branch);
        }
        assert(prs[prs.len() - 1] == prs.last());
    }
}

/// A branch carries the badge of the pull request of its own name, a branch of a
/// remote that of its local name where no local branch of that name is at the
/// same commit; where there is no such pull request there is no badge.
pub proof fn branches_carry_their_badges(
    remote: Seq<char>,
    name: Seq<char>,
    all_refs: Seq<Seq<char>>,
    remotes: Seq<Seq<char>>,
    prs: Map<Seq<char>, PrInfoView>,
)
    requires
        remotes.contains(remote),
        !remote.contains('/'),
        !"tag:"@.is_prefix_of(name),
        !"tag:"@.is_prefix_of(remote + seq!['/'] + name),
        name.len() > 0,
    ensures
        !all_refs.contains(name) ==> badge_for(remote + seq!['/'] + name, all_refs, remotes, prs)
            == if prs.contains_key(name) {
            Some(prs[name])
        } else {
            None
        },
        (forall|r: Seq<char>| #[trigger] remotes.contains(r) ==> !(r + seq!['/']).is_prefix_of(name))
            ==> badge_for(name, all_refs, remotes, prs) == if prs.contains_key(name) {
            Some(prs[name])
        } else {
            None
        },
{
    let full = remote + seq!['/'] + name;
    git::lemma_local_name(remote, name, remotes);
    assert(full.len() != name.len());
    text::lemma_first_at(name, '/');
    let i = text::first_at(name, '/');
    if i < name.len() && remotes.contains(name.take(i)) {
        assert(name.take(i) + seq!['/'] =~= name.take(i + 1));
        assert((name.take(i) + seq!['/']).is_prefix_of(name));
    }
}

/// The badge has the number of the pull request, in a colour by the decision on
/// it, dim for a draft; the sign of its checks is a tick, a cross, a dot or none.
pub proof fn badges_tell_review_and_checks(pr: PrInfoView)
    ensures
        ({
            let (number, colour, sign, sign_colour) = badge(pr);
            &&& number == " #"@ + text::decimal(pr.number)
            &&& pr.draft ==> colour == (110u8, 110u8, 125u8)
            &&& !pr.draft && pr.review is Approved ==> colour == (120u8, 200u8, 120u8)
            &&& !pr.draft && pr.review is ChangesRequested ==> colour == (220u8, 100u8, 100u8)
            &&& !pr.draft && pr.review is Undecided ==> colour == (180u8, 200u8, 255u8)
            &&& pr.checks is Passing ==> sign == "✓"@ && sign_colour == (120u8, 200u8, 120u8)
            &&& pr.checks is Failing ==> sign == "✗"@ && sign_colour == (220u8, 100u8, 100u8)
            &&& pr.checks is Pending ==> sign == "●"@ && sign_colour == (220u8, 180u8, 60u8)
            &&& pr.checks is NoChecks ==> sign.len() == 0
        }),
{
    reveal_strlit("");
}

/// What a lane of a row shows. The commit's own is a ring where HEAD is on it, a
/// diamond where it is a merge, and else a dot. Another is a line where it waits
/// before and after the row, the end of one where it waits before only, the
/// beginning of one where it waits after only, and blank where it does not.
pub proof fn lanes_show_where_lines_go(row: GraphRowView, l: int)
    requires
        l >= 0,
    ensures
        ({
            let steps = lane_steps(row, l);
            let goes_in = l < row.lanes_before.len() && row.lanes_before[l] is Some;
            let goes_out = l < row.lanes_after.len() && row.lanes_after[l] is Some;
            let glyph = if l == row.lane && row.commit.head_ref is Some {
                "◉ "@
            } else if l == row.lane && row.commit.parents.len() > 1 {
                "◆ "@
            } else if l == row.lane {
                "● "@
            } else if goes_in && goes_out {
                "│ "@
            } else if goes_in {
                "╵ "@
            } else if goes_out {
                "╷ "@
            } else {
                "  "@
            };
            &&& steps.last() == PaintView::Text(glyph)
            &&& steps.len() == if l == row.lane || goes_in || goes_out {
                2int
            } else {
                1
            }
        }),
{
}

/// A lane is drawn in the colour of its family: the commit's own in the one that
/// its row shows, another in the one that the row tells for it, and in grey where
/// that is not known. The commit that HEAD is on is gold.
pub proof fn lanes_have_the_colour_of_their_family(row: GraphRowView, l: int)
    requires
        l >= 0,
        l == row.lane || (l < row.lanes_before.len() && row.lanes_before[l] is Some) || (l
            < row.lanes_after.len() && row.lanes_after[l] is Some),
    ensures
        ({
            let name = if row.commit.refs.len() > 0 {
                row.commit.refs[0]
            } else {
                row.commit.hash
            };
            let first = lane_steps(row, l)[0];
            &&& l == row.lane && row.commit.head_ref is Some ==> first == PaintView::Fg(
                (255u8, 210u8, 60u8),
            )
            &&& l == row.lane && row.commit.head_ref is None ==> first == PaintView::Fg(
                color::colour(row.branch_family, name),
            )
            &&& l != row.lane && l < row.lane_families.len() && row.lane_families[l] is Some
                ==> first == PaintView::Fg(color::colour(row.lane_families[l]->0, name))
            &&& l != row.lane && !(l < row.lane_families.len() && row.lane_families[l] is Some)
                ==> first == PaintView::Fg(color::colour("_"@, name))
        }),
{
}

/// Every lane that a row has is drawn, in order, as far as there is room: the
/// `l`-th stands behind the lanes before it.
pub proof fn every_lane_is_drawn(row: GraphRowView, max_lanes: int, l: int)
    requires
        max_lanes >= 0,
        0 <= l < max_lanes,
        l < row.lanes_before.len() || l < row.lanes_after.len() || l == row.lane,
    ensures
        l < shown_lanes(row, max_lanes),
        shown_lanes(row, max_lanes) <= max_lanes,
        shown_lanes(row, max_lanes) <= row.lanes_before.len() || shown_lanes(row, max_lanes)
            <= row.lanes_after.len() || shown_lanes(row, max_lanes) <= row.lane + 1,
        lanes_steps(row, l + 1) == lanes_steps(row, l) + lane_steps(row, l),
        lanes_steps(row, l + 1).is_prefix_of(lanes_steps(row, shown_lanes(row, max_lanes))),
{
    lemma_lanes_prefix(row, l + 1, shown_lanes(row, max_lanes));
}

proof fn lemma_lanes_prefix(row: GraphRowView, m: int, n: int)
    requires
        0 <= m <= n,
    ensures
        lanes_steps(row, m).is_prefix_of(lanes_steps(row, n)),
    decreases n - m,
{
    if m < n {
        lemma_lanes_prefix(row, m, n - 1);
        let less = lanes_steps(row, n - 1);
        let all = lanes_steps(row, n);
        let k = lanes_steps(row, m).len() as int;
        assert(all.take(k) =~= less.take(k));
    } else {
        assert(lanes_steps(row, m).take(lanes_steps(row, m).len() as int) =~= lanes_steps(row, m));
    }
}

/// A tag is shown in brackets, by its name; a branch in parentheses, by its whole
/// name, with an arrow and in gold where HEAD is on it, and else in the colour of
/// its family and its name. The badge that it carries stands inside.
#[verifier::spinoff_prover]
#[verifier::rlimit(50)]
pub proof fn refs_are_labelled(c: CommitView, r: Seq<char>, tag: Seq<char>, meta: MetaView)
    requires
        !"tag:"@.is_prefix_of(r),
    ensures
        label_steps(c, "tag:"@ + tag, meta) == seq![
            PaintView::Fg((220u8, 180u8, 60u8)),
            PaintView::Text("["@ + tag + "] "@),
        ],
        ({
            let steps = label_steps(c, r, meta);
            let head = c.head_ref == Some(r);
            let open = if head {
                "(▶"@
            } else {
                "("@
            };
            &&& steps[0] == PaintView::Fg(
                if head {
                    (255u8, 210u8, 60u8)
                } else {
                    color::colour(color::family(r, meta.remotes), r)
                },
            )
            &&& steps[1] == PaintView::Text(open + r)
            &&& steps.last() == PaintView::Text(") "@)
            &&& badge_for(r, c.refs, meta.remotes, meta.prs) is None ==> steps.len() == 3
            &&& badge_for(r, c.refs, meta.remotes, meta.prs) matches Some(pr) ==> steps[2]
                == PaintView::Fg(badge(pr).1) && steps[3] == PaintView::Text(badge(pr).0) && (
            badge(pr).2.len() > 0 ==> steps[4] == PaintView::Fg(badge(pr).3) && steps[5]
                == PaintView::Text(badge(pr).2)) && steps[steps.len() - 2] == steps[0]
        }),
{
    let full = "tag:"@ + tag;
    let n = "tag:"@.len() as int;
    assert(full.take(n) =~= "tag:"@);
    assert(full.skip(n) =~= tag);
}

/// The labels of the refs from the `i`-th up to the `k`-th, one behind the other.
pub open spec fn labels_between(c: CommitView, i: int, k: int, meta: MetaView) -> Seq<PaintView>
    decreases k - i,
{
    if i >= k {
        seq![]
    } else {
        label_steps(c, c.refs[i], meta) + labels_between(c, i + 1, k, meta)
    }
}

/// Labels are shown in order up to the first that does not fit, and no label is
/// left out that would: with `k` labels shown, the next one, if there is one,
/// leaves fewer than two cells.
pub proof fn labels_are_shown_while_they_fit(
    c: CommitView,
    i: int,
    avail: int,
    meta: MetaView,
) -> (k: int)
    requires
        0 <= i <= c.refs.len(),
    ensures
        i <= k <= c.refs.len(),
        labels_from(c, i, avail, meta).0 == labels_between(c, i, k, meta),
        labels_from(c, i, avail, meta).1 == avail - canvas::written(
            labels_between(c, i, k, meta),
        ),
        k < c.refs.len() ==> canvas::written(label_steps(c, c.refs[k], meta)) + 2 > labels_from(
            c,
            i,
            avail,
            meta,
        ).1,
        k > i ==> labels_from(c, i, avail, meta).1 >= 2,
    decreases c.refs.len() - i,
{
    broadcast use canvas::lemma_written_concat;

    if i >= c.refs.len() || canvas::written(label_steps(c, c.refs[i], meta)) + 2 > avail {
        i
    } else {
        let label = label_steps(c, c.refs[i], meta);
        let left = avail - canvas::written(label);
        let k = labels_are_shown_while_they_fit(c, i + 1, left, meta);
        k
    }
}

/// A row shows the subject of its commit, as much of it as there is room for,
/// and behind it the short hash, the author and the age, where all of that fits.
#[verifier::spinoff_prover]
#[verifier::rlimit(50)]
pub proof fn subject_and_byline_are_shown(c: CommitView, avail: int, selected: bool, now: int)
    requires
        avail >= 0,
    ensures
        ({
            let steps = subject_steps(c, avail, selected, now);
            let subject = cells::cut(c.subject, avail as nat);
            let line = "  "@ + c.short + " "@ + c.author + " "@ + age(
                (if now > c.timestamp {
                    now - c.timestamp
                } else {
                    0
                }) as nat,
            );
            &&& steps[1] == PaintView::Text(subject)
            &&& cells::text_width(subject) + cells::text_width(line) <= avail ==> steps.len() > 3
                && steps[3] == PaintView::Text(line)
            &&& cells::text_width(subject) + cells::text_width(line) > avail ==> steps.len() <= 3
            &&& !selected ==> steps.len() <= 4
            &&& selected ==> canvas::written(steps) == avail
        }),
{
    broadcast use canvas::lemma_written_concat, canvas::lemma_written_two, cells::lemma_width_blanks;

    let steps = subject_steps(c, avail, selected, now);
    let subject = cells::cut(c.subject, avail as nat);
    cells::cut_fits(c.subject, avail as nat);
    let dim = byline(c, now);
    let left = avail - cells::text_width(subject);
    let fits = cells::text_width(dim) <= left;
    let end = if fits {
        left - cells::text_width(dim)
    } else {
        left
    };
    let a = seq![PaintView::Fg((220, 220, 220)), PaintView::Text(subject)];
    let b = if fits {
        seq![PaintView::Fg((110, 110, 125)), PaintView::Text(dim)]
    } else {
        seq![]
    };
    let blanks = seq![PaintView::Text(text::run_of(' ', end as nat))];
    assert(canvas::written(a) == cells::text_width(subject));
    assert(canvas::written(b) == if fits {
        cells::text_width(dim)
    } else {
        0
    });
    if selected && end > 0 {
        assert(blanks =~= Seq::<PaintView>::empty().push(blanks[0]));
        canvas::lemma_written_push(Seq::empty(), blanks[0]);
        assert(canvas::written(blanks) == end);
        assert(steps =~= a + b + blanks);
    } else {
        assert(steps =~= a + b);
    }
}

/// A row is painted in its own line of the screen, from the first column: its
/// lanes, then its labels, then the rest, and the colours are put back. The
/// selected row has a background, a brighter one where the graph has the focus.
#[verifier::spinoff_prover]
#[verifier::rlimit(50)]
pub proof fn row_is_painted_in_its_line(
    row: GraphRowView,
    y: int,
    selected: bool,
    focused: bool,
    max_lanes: int,
    graph_width: int,
    meta: MetaView,
    now: int,
)
    ensures
        ({
            let steps = graph_row_steps(
                row,
                y,
                selected,
                focused,
                max_lanes,
                graph_width,
                meta,
                now,
            );
            let lanes = lanes_steps(row, shown_lanes(row, max_lanes));
            let at = if selected {
                2int
            } else {
                1
            };
            &&& steps[0] == PaintView::MoveTo(y, 0)
            &&& selected && focused ==> steps[1] == PaintView::Bg((40u8, 50u8, 70u8))
            &&& selected && !focused ==> steps[1] == PaintView::Bg((30u8, 30u8, 40u8))
            &&& steps.len() >= at + lanes.len()
            &&& steps.subrange(at, at + lanes.len()) == lanes
            &&& steps.last() == PaintView::Reset
            &&& ({
                let room = graph_width - 2 * shown_lanes(row, max_lanes);
                let (labels, left) = labels_from(
                    row.commit,
                    0,
                    if room > 0 {
                        room
                    } else {
                        0
                    },
                    meta,
                );
                steps.subrange(at + lanes.len(), steps.len() - 1) == labels + subject_steps(
                    row.commit,
                    left,
                    selected,
                    now,
                )
            })
        }),
{
    let n = shown_lanes(row, max_lanes);
    let lanes = lanes_steps(row, n);
    let (labels, left) = labels_from(row.commit, 0, ui::monus(graph_width, 2 * n), meta);
    let lead = seq![PaintView::MoveTo(y, 0)] + if selected && focused {
        seq![PaintView::Bg((40, 50, 70))]
    } else if selected {
        seq![PaintView::Bg((30, 30, 40))]
    } else {
        seq![]
    };
    let rest = subject_steps(row.commit, left, selected, now);
    let steps = graph_row_steps(row, y, selected, focused, max_lanes, graph_width, meta, now);
    let at = lead.len() as int;
    assert(steps == lead + lanes + labels + rest + seq![PaintView::Reset]);
    assert(steps.subrange(at, at + lanes.len()) =~= lanes);
    assert(steps.subrange(at + lanes.len(), steps.len() - 1) =~= labels + rest);
}

} // verus!
