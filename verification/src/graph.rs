//! The timeline graph: which column each commit sits in, with the first-parent
//! chain of the main branch pinned to the leftmost one.
//!
//! The commits come newest first. A lane is a column of the graph; it either
//! waits for a commit, by its hash, or is free.

use crate::color;
use crate::git::{Commit, CommitView};
use crate::text;
use vstd::hash_set::StringHashSet;
use vstd::prelude::*;

verus! {

/// One line of the graph.
#[derive(Debug)]
pub struct GraphRow {
    pub commit: Commit,
    /// The column that the commit sits in.
    pub lane: usize,
    /// What each lane waits for before this commit.
    pub lanes_before: Vec<Option<String>>,
    /// What each lane waits for after this commit.
    pub lanes_after: Vec<Option<String>>,
    /// Prefix like "feat" or "bug", for colouring.
    pub branch_family: String,
    /// The family of each lane, for colouring the connectors.
    pub lane_families: Vec<Option<String>>,
}

/// A line of the graph as contracts speak of it.
pub struct GraphRowView {
    pub commit: CommitView,
    pub lane: int,
    pub lanes_before: Seq<Option<Seq<char>>>,
    pub lanes_after: Seq<Option<Seq<char>>>,
    pub branch_family: Seq<char>,
    pub lane_families: Seq<Option<Seq<char>>>,
}

impl DeepView for GraphRow {
    type V = GraphRowView;

    open spec fn deep_view(&self) -> GraphRowView {
        GraphRowView {
            commit: self.commit.deep_view(),
            lane: self.lane as int,
            lanes_before: self.lanes_before.deep_view(),
            lanes_after: self.lanes_after.deep_view(),
            branch_family: self.branch_family@,
            lane_families: self.lane_families.deep_view(),
        }
    }
}

// ---------------------------------------------------------------------------
// Definitions
// ---------------------------------------------------------------------------
/// The lanes between two rows: what each waits for and the family it shows.
pub struct LaneState {
    pub lanes: Seq<Option<Seq<char>>>,
    pub families: Seq<Option<Seq<char>>>,
}

/// Before the first commit: the lane of the main branch alone, free.
pub open spec fn no_lanes() -> LaneState {
    LaneState { lanes: seq![None], families: seq![None] }
}

/// The first free lane at or after `start`, or the first one past the lanes.
pub open spec fn free_at(lanes: Seq<Option<Seq<char>>>, start: int) -> int
    decreases lanes.len() - start,
{
    if start >= lanes.len() || lanes[start] is None {
        start
    } else {
        free_at(lanes, start + 1)
    }
}

/// The first lane at or after `start` that waits for `hash`, or the number of
/// lanes if none does.
pub open spec fn waiting_at(lanes: Seq<Option<Seq<char>>>, hash: Seq<char>, start: int) -> int
    decreases lanes.len() - start,
{
    if start >= lanes.len() {
        lanes.len() as int
    } else if lanes[start] == Some(hash) {
        start
    } else {
        waiting_at(lanes, hash, start + 1)
    }
}

/// The entries, with empty ones at the end up to `n` of them.
pub open spec fn widened(entries: Seq<Option<Seq<char>>>, n: int) -> Seq<Option<Seq<char>>> {
    if n <= entries.len() {
        entries
    } else {
        entries + Seq::new((n - entries.len()) as nat, |i: int| None)
    }
}

/// At least `n` lanes.
pub open spec fn with_lanes(st: LaneState, n: int) -> LaneState {
    LaneState { lanes: widened(st.lanes, n), families: widened(st.families, n) }
}

/// The colour family of the first branch among `refs`, tags left aside.
pub open spec fn refs_family(refs: Seq<Seq<char>>, remotes: Seq<Seq<char>>) -> Option<Seq<char>>
    decreases refs.len(),
{
    if refs.len() == 0 {
        None
    } else if "tag:"@.is_prefix_of(refs[0]) {
        refs_family(refs.drop_first(), remotes)
    } else {
        Some(color::family(refs[0], remotes))
    }
}

/// Where the commit goes. One of the main chain takes lane 0, and what waits
/// there for something else moves to a free lane, with its family. Another one
/// takes the first lane that waits for it, or a free one other than lane 0.
pub open spec fn placed(st: LaneState, hash: Seq<char>, main: Set<Seq<char>>) -> (LaneState, int) {
    if main.contains(hash) {
        if st.lanes[0] is Some && st.lanes[0] != Some(hash) {
            let slot = free_at(st.lanes, 1);
            let wide = with_lanes(st, slot + 1);
            let moved = LaneState {
                lanes: wide.lanes.update(slot, st.lanes[0]),
                families: if wide.families[0] is Some {
                    wide.families.update(slot, wide.families[0]).update(0, None)
                } else {
                    wide.families
                },
            };
            (moved, 0)
        } else {
            (st, 0)
        }
    } else {
        let i = waiting_at(st.lanes, hash, 0);
        if i < st.lanes.len() {
            (st, i)
        } else {
            let slot = free_at(st.lanes, 1);
            (with_lanes(st, slot + 1), slot)
        }
    }
}

/// The lane gets the family of the commit's refs, if it has none yet.
pub open spec fn coloured(
    st: LaneState,
    lane: int,
    refs: Seq<Seq<char>>,
    remotes: Seq<Seq<char>>,
) -> LaneState {
    let family = refs_family(refs, remotes);
    if st.families[lane] is None && family is Some {
        LaneState { families: st.families.update(lane, family), ..st }
    } else {
        st
    }
}

/// The family that a lane shows; `_` if it has none.
pub open spec fn shown(family: Option<Seq<char>>) -> Seq<char> {
    match family {
        Some(f) => f,
        None => "_"@,
    }
}

/// Each of the parents that no lane waits for takes a free lane other than
/// lane 0, in the family given.
pub open spec fn claimed(st: LaneState, parents: Seq<Seq<char>>, family: Seq<char>) -> LaneState
    decreases parents.len(),
{
    if parents.len() == 0 {
        st
    } else {
        let p = parents[0];
        let next = if waiting_at(st.lanes, p, 0) < st.lanes.len() {
            st
        } else {
            let slot = free_at(st.lanes, 1);
            let wide = with_lanes(st, slot + 1);
            LaneState {
                lanes: wide.lanes.update(slot, Some(p)),
                families: wide.families.update(slot, Some(family)),
            }
        };
        claimed(next, parents.drop_first(), family)
    }
}

/// The lane goes on to the first parent and the other parents claim theirs; a
/// commit without parents frees its lane.
pub open spec fn followed(
    st: LaneState,
    lane: int,
    parents: Seq<Seq<char>>,
    family: Seq<char>,
) -> LaneState {
    if parents.len() == 0 {
        LaneState {
            lanes: st.lanes.update(lane, None),
            families: st.families.update(lane, None),
        }
    } else {
        let on = LaneState { lanes: st.lanes.update(lane, Some(parents[0])), ..st };
        claimed(on, parents.drop_first(), family)
    }
}

/// The free lanes at the right go, down to lane 0.
pub open spec fn compacted(st: LaneState) -> LaneState
    decreases st.lanes.len(),
{
    if st.lanes.len() > 1 && st.lanes.last() is None {
        compacted(LaneState { lanes: st.lanes.drop_last(), families: st.families.drop_last() })
    } else {
        st
    }
}

/// The lanes after the commit, and its row.
pub open spec fn advanced(
    st: LaneState,
    c: CommitView,
    main: Set<Seq<char>>,
    remotes: Seq<Seq<char>>,
) -> (LaneState, GraphRowView) {
    let (at, lane) = placed(st, c.hash, main);
    let lit = coloured(at, lane, c.refs, remotes);
    let family = shown(lit.families[lane]);
    let next = compacted(followed(lit, lane, c.parents, family));
    (
        next,
        GraphRowView {
            commit: c,
            lane,
            lanes_before: st.lanes,
            lanes_after: next.lanes,
            branch_family: family,
            lane_families: widened(next.families, lane + 1),
        },
    )
}

/// The rows of the commits, the lanes being `st` before the first of them.
pub open spec fn rows_from(
    st: LaneState,
    commits: Seq<CommitView>,
    main: Set<Seq<char>>,
    remotes: Seq<Seq<char>>,
) -> Seq<GraphRowView>
    decreases commits.len(),
{
    if commits.len() == 0 {
        seq![]
    } else {
        let (next, row) = advanced(st, commits[0], main, remotes);
        seq![row] + rows_from(next, commits.drop_first(), main, remotes)
    }
}

/// The rows of the commits.
pub open spec fn graph_of(
    commits: Seq<CommitView>,
    main: Set<Seq<char>>,
    remotes: Seq<Seq<char>>,
) -> Seq<GraphRowView> {
    rows_from(no_lanes(), commits, main, remotes)
}

/// Lanes and families go together, and lane 0 is always there.
pub open spec fn tidy(st: LaneState) -> bool {
    st.lanes.len() >= 1 && st.families.len() == st.lanes.len()
}

// ---------------------------------------------------------------------------
// Facts
// ---------------------------------------------------------------------------
/// `free_at` finds a lane that is free or past the lanes.
pub proof fn lemma_free_at(lanes: Seq<Option<Seq<char>>>, start: int)
    requires
        0 <= start <= lanes.len(),
    ensures
        start <= free_at(lanes, start) <= lanes.len(),
        free_at(lanes, start) < lanes.len() ==> lanes[free_at(lanes, start)] is None,
    decreases lanes.len() - start,
{
    if start < lanes.len() && lanes[start] is Some {
        lemma_free_at(lanes, start + 1);
    }
}

/// `waiting_at` finds the first lane that waits for the hash.
pub proof fn lemma_waiting_at(lanes: Seq<Option<Seq<char>>>, hash: Seq<char>, start: int)
    requires
        0 <= start <= lanes.len(),
    ensures
        start <= waiting_at(lanes, hash, start) <= lanes.len(),
        waiting_at(lanes, hash, start) < lanes.len() ==> lanes[waiting_at(lanes, hash, start)]
            == Some(hash),
        forall|j: int| start <= j < waiting_at(lanes, hash, start) ==> lanes[j] != Some(hash),
    decreases lanes.len() - start,
{
    if start < lanes.len() && lanes[start] != Some(hash) {
        lemma_waiting_at(lanes, hash, start + 1);
    }
}

// ---------------------------------------------------------------------------
// Lanes
// ---------------------------------------------------------------------------
/// The first free lane at or after `start`, or the first one past the lanes.
pub fn first_free(lanes: &[Option<String>], start: usize) -> (r: usize)
    ensures
        r == free_at(lanes.deep_view(), start as int),
        start <= lanes@.len() ==> r <= lanes@.len(),
{
    let mut i: usize = start;
    while i < lanes.len() && lanes[i].is_some()
        invariant
            start <= i,
            start <= lanes@.len() ==> i <= lanes@.len(),
            free_at(lanes.deep_view(), i as int) == free_at(lanes.deep_view(), start as int),
        decreases lanes@.len() - i,
    {
        i += 1;
    }
    i
}

/// Adds free lanes at the right until there are `n`.
pub fn ensure_len(lanes: &mut Vec<Option<String>>, n: usize)
    ensures
        final(lanes).deep_view() == widened(old(lanes).deep_view(), n as int),
{
    let ghost before = lanes.deep_view();
    while lanes.len() < n
        invariant
            lanes.deep_view() == widened(before, lanes@.len() as int),
            before.len() <= lanes@.len(),
            lanes@.len() <= n || lanes@.len() == before.len(),
        decreases n - lanes@.len(),
    {
        let ghost mid = lanes.deep_view();
        lanes.push(None);
        assert(lanes.deep_view() =~= mid.push(None));
        assert(lanes.deep_view() =~= widened(before, lanes@.len() as int));
    }
    assert(lanes.deep_view() =~= widened(before, n as int));
}

/// The first lane that waits for `hash`, or the number of lanes.
fn find_waiting(lanes: &[Option<String>], hash: &str) -> (r: usize)
    ensures
        r == waiting_at(lanes.deep_view(), hash@, 0),
        r <= lanes@.len(),
{
    let mut i: usize = 0;
    while i < lanes.len()
        invariant
            i <= lanes@.len(),
            waiting_at(lanes.deep_view(), hash@, i as int) == waiting_at(
                lanes.deep_view(),
                hash@,
                0,
            ),
        decreases lanes@.len() - i,
    {
        assert(lanes.deep_view()[i as int] == lanes@[i as int].deep_view());
        if let Some(h) = &lanes[i] {
            if text::same(h.as_str(), hash) {
                return i;
            }
        }
        i += 1;
    }
    i
}

/// Sets the entry of a lane.
fn set_entry(entries: &mut Vec<Option<String>>, i: usize, value: Option<String>)
    requires
        i < old(entries)@.len(),
    ensures
        final(entries).deep_view() == old(entries).deep_view().update(
            i as int,
            value.deep_view(),
        ),
        final(entries)@.len() == old(entries)@.len(),
{
    entries[i] = value;
    assert(entries.deep_view() =~= old(entries).deep_view().update(i as int, value.deep_view()));
}

/// The family of the first branch at the commit, tags left aside.
pub fn family_of(commit: &Commit, remotes: &[String]) -> (r: Option<String>)
    ensures
        r.deep_view() == refs_family(commit.deep_view().refs, remotes.deep_view()),
{
    let refs = &commit.refs;
    let ghost all = refs.deep_view();
    let ghost known = remotes.deep_view();
    assert(all.skip(0) =~= all);
    for i in 0..refs.len()
        invariant
            all == refs.deep_view(),
            all == commit.deep_view().refs,
            known == remotes.deep_view(),
            refs_family(all.skip(i as int), known) == refs_family(all, known),
    {
        let r = refs[i].as_str();
        assert(all.skip(i as int)[0] == r@);
        if !text::starts_with(r, "tag:") {
            return Some(color::branch_family(r, remotes).to_owned());
        }
        assert(all.skip(i as int).drop_first() =~= all.skip(i + 1));
    }
    assert(all.skip(refs@.len() as int) =~= Seq::<Seq<char>>::empty());
    None
}

/// The lanes between two rows.
struct Lanes {
    lanes: Vec<Option<String>>,
    families: Vec<Option<String>>,
}

impl DeepView for Lanes {
    type V = LaneState;

    closed spec fn deep_view(&self) -> LaneState {
        LaneState { lanes: self.lanes.deep_view(), families: self.families.deep_view() }
    }
}

impl Lanes {
    fn new() -> (r: Lanes)
        ensures
            r.deep_view() == no_lanes(),
    {
        let mut lanes: Vec<Option<String>> = Vec::new();
        lanes.push(None);
        let mut families: Vec<Option<String>> = Vec::new();
        families.push(None);
        assert(lanes.deep_view() =~= seq![None]);
        assert(families.deep_view() =~= seq![None]);
        Lanes { lanes, families }
    }

    /// The first free lane other than lane 0, which is added if need be.
    fn open(&mut self) -> (slot: usize)
        requires
            tidy(old(self).deep_view()),
        ensures
            slot == free_at(old(self).deep_view().lanes, 1),
            final(self).deep_view() == with_lanes(old(self).deep_view(), slot + 1),
            1 <= slot < final(self).deep_view().lanes.len(),
            tidy(final(self).deep_view()),
    {
        proof {
            lemma_free_at(self.lanes.deep_view(), 1);
        }
        let slot = first_free(&self.lanes, 1);
        if slot == self.lanes.len() {
            let ghost lanes = self.lanes.deep_view();
            let ghost families = self.families.deep_view();
            self.lanes.push(None);
            self.families.push(None);
            assert(self.lanes.deep_view() =~= widened(lanes, slot + 1));
            assert(self.families.deep_view() =~= widened(families, slot + 1));
        }
        slot
    }

    /// Finds the lane of a commit and makes it ready.
    fn place(&mut self, hash: &str, main: bool) -> (lane: usize)
        requires
            tidy(old(self).deep_view()),
        ensures
            forall|set: Set<Seq<char>>|
                set.contains(hash@) == main ==> (final(self).deep_view(), lane as int)
                    == #[trigger] placed(old(self).deep_view(), hash@, set),
            tidy(final(self).deep_view()),
            lane < final(self).deep_view().lanes.len(),
    {
        if main {
            assert(self.lanes.deep_view()[0] == self.lanes@[0].deep_view());
            let other = text::copy_some(&self.lanes[0]);
            if let Some(h) = &other {
                if !text::same(h.as_str(), hash) {
                    let slot = self.open();
                    set_entry(&mut self.lanes, slot, other);
                    assert(self.families.deep_view()[0] == self.families@[0].deep_view());
                    let family = text::copy_some(&self.families[0]);
                    if family.is_some() {
                        set_entry(&mut self.families, slot, family);
                        set_entry(&mut self.families, 0, None);
                    }
                }
            }
            0
        } else {
            let i = find_waiting(&self.lanes, hash);
            if i < self.lanes.len() {
                i
            } else {
                self.open()
            }
        }
    }

    /// Gives the lane the family of the commit, if it has none yet, and tells
    /// which family the lane shows.
    fn colour(&mut self, lane: usize, commit: &Commit, remotes: &[String]) -> (family: String)
        requires
            tidy(old(self).deep_view()),
            lane < old(self).deep_view().lanes.len(),
        ensures
            final(self).deep_view() == coloured(
                old(self).deep_view(),
                lane as int,
                commit.deep_view().refs,
                remotes.deep_view(),
            ),
            family@ == shown(final(self).deep_view().families[lane as int]),
            tidy(final(self).deep_view()),
    {
        assert(self.families.deep_view()[lane as int] == self.families@[lane as int].deep_view());
        if self.families[lane].is_none() {
            if let Some(f) = family_of(commit, remotes) {
                set_entry(&mut self.families, lane, Some(f));
            }
        }
        assert(self.families.deep_view()[lane as int] == self.families@[lane as int].deep_view());
        match &self.families[lane] {
            Some(f) => f.clone(),
            None => "_".to_owned(),
        }
    }

    /// Moves the lane on to the parents of its commit.
    fn follow(&mut self, lane: usize, parents: &[String], family: &str)
        requires
            tidy(old(self).deep_view()),
            lane < old(self).deep_view().lanes.len(),
        ensures
            final(self).deep_view() == followed(
                old(self).deep_view(),
                lane as int,
                parents.deep_view(),
                family@,
            ),
            tidy(final(self).deep_view()),
    {
        if parents.len() == 0 {
            set_entry(&mut self.lanes, lane, None);
            set_entry(&mut self.families, lane, None);
            return;
        }
        let ghost all = parents.deep_view();
        assert(all[0] == parents@[0]@);
        set_entry(&mut self.lanes, lane, Some(parents[0].clone()));
        let ghost on = self.deep_view();
        assert(all.drop_first() =~= all.skip(1));
        for k in 1..parents.len()
            invariant
                all == parents.deep_view(),
                tidy(self.deep_view()),
                claimed(self.deep_view(), all.skip(k as int), family@) == claimed(
                    on,
                    all.skip(1),
                    family@,
                ),
        {
            let p = parents[k].as_str();
            assert(all.skip(k as int)[0] == p@);
            assert(all.skip(k as int).drop_first() =~= all.skip(k + 1));
            if find_waiting(&self.lanes, p) == self.lanes.len() {
                let slot = self.open();
                set_entry(&mut self.lanes, slot, Some(p.to_owned()));
                set_entry(&mut self.families, slot, Some(family.to_owned()));
            }
        }
        assert(all.skip(parents@.len() as int) =~= Seq::<Seq<char>>::empty());
    }

    /// Drops the free lanes at the right.
    fn compact(&mut self)
        requires
            tidy(old(self).deep_view()),
        ensures
            final(self).deep_view() == compacted(old(self).deep_view()),
            tidy(final(self).deep_view()),
    {
        let ghost before = self.deep_view();
        while self.lanes.len() > 1 && self.lanes[self.lanes.len() - 1].is_none()
            invariant
                tidy(self.deep_view()),
                compacted(self.deep_view()) == compacted(before),
            decreases self.lanes@.len(),
        {
            let ghost mid = self.deep_view();
            self.lanes.pop();
            self.families.pop();
            assert(self.lanes.deep_view() =~= mid.lanes.drop_last());
            assert(self.families.deep_view() =~= mid.families.drop_last());
        }
    }
}

/// The set of the hashes, as the lanes ask for it.
pub fn chain_set(hashes: &[String]) -> (r: StringHashSet)
    ensures
        r@ == hashes.deep_view().to_set(),
{
    let mut r = StringHashSet::new();
    let ghost all = hashes.deep_view();
    assert(all.take(0).to_set() =~= Set::<Seq<char>>::empty());
    for i in 0..hashes.len()
        invariant
            all == hashes.deep_view(),
            r@ == all.take(i as int).to_set(),
    {
        r.insert(hashes[i].clone());
        proof {
            let x = all[i as int];
            assert(all.take(i + 1) =~= all.take(i as int).push(x));
            all.take(i as int).lemma_push_to_set_commute(x);
        }
    }
    assert(all.take(hashes@.len() as int) =~= all);
    r
}

/// Assigns each commit to a lane. Lane 0 is kept for the first-parent chain of
/// the main branch, so it always shows as the leftmost column.
pub fn assign_lanes(
    commits: &[Commit],
    main_chain: &StringHashSet,
    remotes: &[String],
) -> (rows: Vec<GraphRow>)
    ensures
        rows.deep_view() == graph_of(commits.deep_view(), main_chain@, remotes.deep_view()),
{
    let mut state = Lanes::new();
    let mut rows: Vec<GraphRow> = Vec::new();
    let ghost all = commits.deep_view();
    let ghost known = remotes.deep_view();
    assert(all.skip(0) =~= all);
    let ghost whole = graph_of(all, main_chain@, known);
    assert(rows.deep_view() + whole =~= whole);
    for i in 0..commits.len()
        invariant
            all == commits.deep_view(),
            known == remotes.deep_view(),
            tidy(state.deep_view()),
            rows.deep_view() + rows_from(state.deep_view(), all.skip(i as int), main_chain@, known)
                == whole,
            whole == graph_of(all, main_chain@, known),
    {
        let commit = &commits[i];
        let ghost st = state.deep_view();
        let ghost before = rows.deep_view();
        assert(all.skip(i as int)[0] == commit.deep_view());
        assert(all.skip(i as int).drop_first() =~= all.skip(i + 1));
        let lanes_before = text::copy_options(&state.lanes);
        let main = main_chain.contains(commit.hash.as_str());
        let lane = state.place(commit.hash.as_str(), main);
        assert((state.deep_view(), lane as int) == placed(st, commit.hash@, main_chain@));
        assert(lane < state.lanes.len());
        let branch_family = state.colour(lane, commit, remotes);
        state.follow(lane, &commit.parents, branch_family.as_str());
        state.compact();
        let lanes_after = text::copy_options(&state.lanes);
        let mut lane_families = text::copy_options(&state.families);
        ensure_len(&mut lane_families, lane + 1);
        rows.push(
            GraphRow {
                commit: commit.clone(),
                lane,
                lanes_before,
                lanes_after,
                branch_family,
                lane_families,
            },
        );
        proof {
            let (next, row) = advanced(st, commit.deep_view(), main_chain@, known);
            assert(rows.deep_view() =~= before.push(row));
            let tail = rows_from(next, all.skip(i + 1), main_chain@, known);
            assert(rows.deep_view() + tail =~= before + (seq![row] + tail));
        }
    }
    assert(all.skip(commits@.len() as int) =~= Seq::<CommitView>::empty());
    assert(rows.deep_view() + seq![] =~= rows.deep_view());
    rows
}

// ---------------------------------------------------------------------------
// Laws
// ---------------------------------------------------------------------------
/// The lanes before the `n`-th commit.
pub open spec fn state_at(
    commits: Seq<CommitView>,
    main: Set<Seq<char>>,
    remotes: Seq<Seq<char>>,
    n: int,
) -> LaneState
    decreases n,
{
    if n <= 0 {
        no_lanes()
    } else {
        advanced(state_at(commits, main, remotes, n - 1), commits[n - 1], main, remotes).0
    }
}

/// With the main chain closed under first parents, lane 0 waits for nothing
/// else.
pub open spec fn zero_kept(st: LaneState, main: Set<Seq<char>>) -> bool {
    st.lanes[0] matches Some(h) ==> main.contains(h)
}

/// The first parent of a main commit is a main commit.
pub open spec fn first_parents_closed(commits: Seq<CommitView>, main: Set<Seq<char>>) -> bool {
    forall|i: int|
        0 <= i < commits.len() && main.contains((#[trigger] commits[i]).hash)
            && commits[i].parents.len() > 0 ==> main.contains(commits[i].parents[0])
}

/// Every lane of `a` that waits for something waits for the same in `b`.
spec fn kept(a: Seq<Option<Seq<char>>>, b: Seq<Option<Seq<char>>>) -> bool {
    forall|j: int| 0 <= j < a.len() && #[trigger] a[j] is Some ==> j < b.len() && b[j] == a[j]
}

proof fn lemma_placed(st: LaneState, hash: Seq<char>, main: Set<Seq<char>>)
    requires
        tidy(st),
    ensures
        ({
            let (at, lane) = placed(st, hash, main);
            &&& tidy(at)
            &&& 0 <= lane < at.lanes.len()
            &&& main.contains(hash) ==> lane == 0
            &&& !main.contains(hash) && zero_kept(st, main) ==> lane >= 1
            &&& kept(st.lanes, at.lanes)
            &&& at.lanes[0] == st.lanes[0]
        }),
{
    lemma_free_at(st.lanes, 1);
    lemma_waiting_at(st.lanes, hash, 0);
}

proof fn lemma_claimed(st: LaneState, parents: Seq<Seq<char>>, family: Seq<char>)
    requires
        tidy(st),
    ensures
        tidy(claimed(st, parents, family)),
        kept(st.lanes, claimed(st, parents, family).lanes),
        claimed(st, parents, family).lanes[0] == st.lanes[0],
        forall|k: int|
            0 <= k < parents.len() ==> exists|l: int|
                0 <= l < claimed(st, parents, family).lanes.len() && claimed(
                    st,
                    parents,
                    family,
                ).lanes[l] == Some(#[trigger] parents[k]),
    decreases parents.len(),
{
    if parents.len() > 0 {
        let p = parents[0];
        lemma_waiting_at(st.lanes, p, 0);
        lemma_free_at(st.lanes, 1);
        let slot = free_at(st.lanes, 1);
        let w = waiting_at(st.lanes, p, 0);
        let wide = with_lanes(st, slot + 1);
        let next = if w < st.lanes.len() {
            st
        } else {
            LaneState {
                lanes: wide.lanes.update(slot, Some(p)),
                families: wide.families.update(slot, Some(family)),
            }
        };
        let l = if w < st.lanes.len() {
            w
        } else {
            slot
        };
        assert(next.lanes[l] == Some(p));
        lemma_claimed(next, parents.drop_first(), family);
        let end = claimed(next, parents.drop_first(), family);
        assert(end == claimed(st, parents, family));
        assert forall|j: int| 0 <= j < st.lanes.len() && #[trigger] st.lanes[j] is Some implies j
            < end.lanes.len() && end.lanes[j] == st.lanes[j] by {
            assert(next.lanes[j] == st.lanes[j]);
        }
        assert forall|k: int| 0 <= k < parents.len() implies exists|l: int|
            0 <= l < end.lanes.len() && end.lanes[l] == Some(#[trigger] parents[k]) by {
            if k == 0 {
                assert(end.lanes[l] == Some(p));
            } else {
                assert(parents[k] == parents.drop_first()[k - 1]);
            }
        }
    }
}

proof fn lemma_compacted(st: LaneState)
    requires
        tidy(st),
    ensures
        tidy(compacted(st)),
        compacted(st).lanes.len() <= st.lanes.len(),
        kept(st.lanes, compacted(st).lanes),
        forall|j: int|
            0 <= j < compacted(st).lanes.len() ==> #[trigger] compacted(st).lanes[j]
                == st.lanes[j],
        compacted(st).lanes.len() == 1 || compacted(st).lanes.last() is Some,
    decreases st.lanes.len(),
{
    if st.lanes.len() > 1 && st.lanes.last() is None {
        let less = LaneState { lanes: st.lanes.drop_last(), families: st.families.drop_last() };
        lemma_compacted(less);
        assert forall|j: int| 0 <= j < st.lanes.len() && #[trigger] st.lanes[j] is Some implies j
            < compacted(st).lanes.len() && compacted(st).lanes[j] == st.lanes[j] by {
            assert(less.lanes[j] == st.lanes[j]);
        }
    }
}

/// What one commit does to the lanes.
proof fn lemma_advanced(st: LaneState, c: CommitView, main: Set<Seq<char>>, remotes: Seq<Seq<char>>)
    requires
        tidy(st),
    ensures
        ({
            let (next, row) = advanced(st, c, main, remotes);
            &&& tidy(next)
            &&& row.lane >= 0
            &&& main.contains(c.hash) ==> row.lane == 0
            &&& !main.contains(c.hash) && zero_kept(st, main) ==> row.lane >= 1
            &&& zero_kept(st, main) && (main.contains(c.hash) && c.parents.len() > 0
                ==> main.contains(c.parents[0])) ==> zero_kept(next, main)
            &&& c.parents.len() > 0 ==> row.lane < next.lanes.len() && next.lanes[row.lane]
                == Some(c.parents[0])
            &&& c.parents.len() == 0 ==> row.lane >= next.lanes.len()
                || next.lanes[row.lane] is None
            &&& forall|k: int|
                0 <= k < c.parents.len() ==> exists|l: int|
                    0 <= l < next.lanes.len() && next.lanes[l] == Some(#[trigger] c.parents[k])
            &&& next.lanes.len() == 1 || next.lanes.last() is Some
            &&& forall|l: int|
                0 <= l < st.lanes.len() && l != row.lane && #[trigger] st.lanes[l] is Some ==> l
                    < next.lanes.len() && next.lanes[l] == st.lanes[l]
        }),
{
    let (at, lane) = placed(st, c.hash, main);
    lemma_placed(st, c.hash, main);
    let lit = coloured(at, lane, c.refs, remotes);
    let family = shown(lit.families[lane]);
    let end = followed(lit, lane, c.parents, family);
    if c.parents.len() > 0 {
        let on = LaneState { lanes: lit.lanes.update(lane, Some(c.parents[0])), ..lit };
        lemma_claimed(on, c.parents.drop_first(), family);
        assert(on.lanes[lane] == Some(c.parents[0]));
        assert(end.lanes[lane] == Some(c.parents[0]));
        assert forall|k: int| 0 <= k < c.parents.len() implies exists|l: int|
            0 <= l < end.lanes.len() && end.lanes[l] == Some(#[trigger] c.parents[k]) by {
            if k > 0 {
                assert(c.parents[k] == c.parents.drop_first()[k - 1]);
            }
        }
        assert forall|l: int| 0 <= l < st.lanes.len() && l != lane && #[trigger] st.lanes[l] is Some
            implies l < end.lanes.len() && end.lanes[l] == st.lanes[l] by {
            assert(on.lanes[l] == st.lanes[l]);
        }
    }
    lemma_compacted(end);
    let next = compacted(end);
    assert forall|k: int| 0 <= k < c.parents.len() implies exists|l: int|
        0 <= l < next.lanes.len() && next.lanes[l] == Some(#[trigger] c.parents[k]) by {
        let l = choose|l: int| 0 <= l < end.lanes.len() && end.lanes[l] == Some(c.parents[k]);
        assert(end.lanes[l] is Some);
    }
    assert forall|l: int| 0 <= l < st.lanes.len() && l != lane && #[trigger] st.lanes[l] is Some
        implies l < next.lanes.len() && next.lanes[l] == st.lanes[l] by {
        assert(lit.lanes[l] == st.lanes[l]);
        assert(end.lanes[l] == st.lanes[l]);
    }
    if c.parents.len() > 0 {
        assert(end.lanes[lane] is Some);
    }
}

proof fn lemma_state_at(
    commits: Seq<CommitView>,
    main: Set<Seq<char>>,
    remotes: Seq<Seq<char>>,
    n: int,
)
    requires
        0 <= n <= commits.len(),
    ensures
        tidy(state_at(commits, main, remotes, n)),
        first_parents_closed(commits, main) ==> zero_kept(
            state_at(commits, main, remotes, n),
            main,
        ),
    decreases n,
{
    if n > 0 {
        lemma_state_at(commits, main, remotes, n - 1);
        lemma_advanced(state_at(commits, main, remotes, n - 1), commits[n - 1], main, remotes);
    }
}

proof fn lemma_rows_tail(
    commits: Seq<CommitView>,
    main: Set<Seq<char>>,
    remotes: Seq<Seq<char>>,
    k: int,
)
    requires
        0 <= k <= commits.len(),
    ensures
        graph_of(commits, main, remotes).len() >= k,
        graph_of(commits, main, remotes).skip(k) == rows_from(
            state_at(commits, main, remotes, k),
            commits.skip(k),
            main,
            remotes,
        ),
    decreases k,
{
    let all = graph_of(commits, main, remotes);
    if k == 0 {
        assert(all.skip(0) =~= all);
        assert(commits.skip(0) =~= commits);
    } else {
        lemma_rows_tail(commits, main, remotes, k - 1);
        let st = state_at(commits, main, remotes, k - 1);
        let rest = commits.skip(k - 1);
        assert(rest[0] == commits[k - 1]);
        assert(rest.drop_first() =~= commits.skip(k));
        let (next, row) = advanced(st, rest[0], main, remotes);
        let tail = rows_from(next, commits.skip(k), main, remotes);
        assert(all.skip(k - 1) == seq![row] + tail);
        assert(all.skip(k) =~= all.skip(k - 1).skip(1));
        assert((seq![row] + tail).skip(1) =~= tail);
    }
}

/// There is one row for each commit, in order; each row starts with the lanes
/// that the row before left.
pub proof fn rows_follow_commits(
    commits: Seq<CommitView>,
    main: Set<Seq<char>>,
    remotes: Seq<Seq<char>>,
)
    ensures
        graph_of(commits, main, remotes).len() == commits.len(),
        forall|i: int|
            0 <= i < commits.len() ==> (#[trigger] graph_of(commits, main, remotes)[i]).commit
                == commits[i],
        forall|i: int|
            0 < i < commits.len() ==> (#[trigger] graph_of(commits, main, remotes)[i]).lanes_before
                == graph_of(commits, main, remotes)[i - 1].lanes_after,
        commits.len() > 0 ==> graph_of(commits, main, remotes)[0].lanes_before == seq![
            None::<Seq<char>>,
        ],
{
    let all = graph_of(commits, main, remotes);
    lemma_rows_tail(commits, main, remotes, commits.len() as int);
    assert(commits.skip(commits.len() as int) =~= Seq::<CommitView>::empty());
    assert(all.skip(commits.len() as int).len() == 0);
    assert forall|i: int| 0 <= i < commits.len() implies (#[trigger] all[i]).commit == commits[i]
        by {
        lemma_row_at(commits, main, remotes, i);
    }
    assert forall|i: int| 0 < i < commits.len() implies (#[trigger] all[i]).lanes_before
        == all[i - 1].lanes_after by {
        lemma_row_at(commits, main, remotes, i);
        lemma_row_at(commits, main, remotes, i - 1);
    }
    if commits.len() > 0 {
        lemma_row_at(commits, main, remotes, 0);
    }
}

proof fn lemma_row_at(
    commits: Seq<CommitView>,
    main: Set<Seq<char>>,
    remotes: Seq<Seq<char>>,
    i: int,
)
    requires
        0 <= i < commits.len(),
    ensures
        graph_of(commits, main, remotes).len() > i,
        graph_of(commits, main, remotes)[i] == advanced(
            state_at(commits, main, remotes, i),
            commits[i],
            main,
            remotes,
        ).1,
{
    let all = graph_of(commits, main, remotes);
    lemma_rows_tail(commits, main, remotes, i);
    assert(commits.skip(i)[0] == commits[i]);
    assert(all.skip(i).len() > 0);
    assert(all[i] == all.skip(i)[0]);
}

/// A commit of the main chain sits in the leftmost lane.
pub proof fn main_stays_leftmost(
    commits: Seq<CommitView>,
    main: Set<Seq<char>>,
    remotes: Seq<Seq<char>>,
    i: int,
)
    requires
        0 <= i < commits.len(),
        main.contains(commits[i].hash),
    ensures
        graph_of(commits, main, remotes)[i].lane == 0,
{
    lemma_row_at(commits, main, remotes, i);
    lemma_state_at(commits, main, remotes, i);
    lemma_advanced(state_at(commits, main, remotes, i), commits[i], main, remotes);
}

/// The leftmost lane is the main branch's alone: where the main chain holds the
/// first parent of each of its commits, no other commit sits there.
pub proof fn leftmost_is_main_only(
    commits: Seq<CommitView>,
    main: Set<Seq<char>>,
    remotes: Seq<Seq<char>>,
    i: int,
)
    requires
        0 <= i < commits.len(),
        first_parents_closed(commits, main),
    ensures
        graph_of(commits, main, remotes)[i].lane == 0 <==> main.contains(commits[i].hash),
{
    lemma_row_at(commits, main, remotes, i);
    lemma_state_at(commits, main, remotes, i);
    lemma_advanced(state_at(commits, main, remotes, i), commits[i], main, remotes);
}

/// The lane of a commit goes on to its first parent, and every other parent is
/// waited for too; a root frees its lane.
pub proof fn parents_are_awaited(
    commits: Seq<CommitView>,
    main: Set<Seq<char>>,
    remotes: Seq<Seq<char>>,
    i: int,
)
    requires
        0 <= i < commits.len(),
    ensures
        ({
            let row = graph_of(commits, main, remotes)[i];
            let parents = commits[i].parents;
            &&& row.lane >= 0
            &&& parents.len() > 0 ==> row.lane < row.lanes_after.len()
                && row.lanes_after[row.lane] == Some(parents[0])
            &&& parents.len() == 0 ==> row.lane >= row.lanes_after.len()
                || row.lanes_after[row.lane] is None
            &&& forall|k: int|
                0 <= k < parents.len() ==> row.lanes_after.contains(Some(#[trigger] parents[k]))
        }),
{
    lemma_row_at(commits, main, remotes, i);
    lemma_state_at(commits, main, remotes, i);
    lemma_advanced(state_at(commits, main, remotes, i), commits[i], main, remotes);
}

/// A lane other than the commit's own goes on waiting for what it waited for.
pub proof fn other_lanes_wait_on(
    commits: Seq<CommitView>,
    main: Set<Seq<char>>,
    remotes: Seq<Seq<char>>,
    i: int,
    lane: int,
)
    requires
        0 <= i < commits.len(),
        0 <= lane < graph_of(commits, main, remotes)[i].lanes_before.len(),
        lane != graph_of(commits, main, remotes)[i].lane,
        graph_of(commits, main, remotes)[i].lanes_before[lane] is Some,
    ensures
        ({
            let row = graph_of(commits, main, remotes)[i];
            lane < row.lanes_after.len() && row.lanes_after[lane] == row.lanes_before[lane]
        }),
{
    lemma_row_at(commits, main, remotes, i);
    lemma_state_at(commits, main, remotes, i);
    lemma_advanced(state_at(commits, main, remotes, i), commits[i], main, remotes);
}

/// A branch stays in one lane: a commit off the main chain sits in the first
/// lane that waits for it, if one does.
pub proof fn branch_stays_in_its_lane(
    commits: Seq<CommitView>,
    main: Set<Seq<char>>,
    remotes: Seq<Seq<char>>,
    i: int,
)
    requires
        0 <= i < commits.len(),
        !main.contains(commits[i].hash),
        graph_of(commits, main, remotes)[i].lanes_before.contains(Some(commits[i].hash)),
    ensures
        ({
            let row = graph_of(commits, main, remotes)[i];
            &&& 0 <= row.lane < row.lanes_before.len()
            &&& row.lanes_before[row.lane] == Some(commits[i].hash)
            &&& forall|l: int| 0 <= l < row.lane ==> row.lanes_before[l] != Some(commits[i].hash)
        }),
{
    lemma_row_at(commits, main, remotes, i);
    lemma_waiting_at(state_at(commits, main, remotes, i).lanes, commits[i].hash, 0);
}

/// The graph stays narrow: no free lane is left at the right, lane 0 apart.
pub proof fn no_free_lane_at_the_right(
    commits: Seq<CommitView>,
    main: Set<Seq<char>>,
    remotes: Seq<Seq<char>>,
    i: int,
)
    requires
        0 <= i < commits.len(),
    ensures
        ({
            let after = graph_of(commits, main, remotes)[i].lanes_after;
            after.len() == 1 || (after.len() > 1 && after.last() is Some)
        }),
{
    lemma_row_at(commits, main, remotes, i);
    lemma_state_at(commits, main, remotes, i);
    lemma_advanced(state_at(commits, main, remotes, i), commits[i], main, remotes);
}

/// No wait is lost: a hash that some lane waits for before a row is still waited
/// for after it, unless it is the hash of the row's commit. This holds too of
/// what a main commit finds waiting in lane 0.
pub proof fn no_wait_is_lost(
    commits: Seq<CommitView>,
    main: Set<Seq<char>>,
    remotes: Seq<Seq<char>>,
    i: int,
    hash: Seq<char>,
)
    requires
        0 <= i < commits.len(),
        hash != commits[i].hash,
        graph_of(commits, main, remotes)[i].lanes_before.contains(Some(hash)),
    ensures
        graph_of(commits, main, remotes)[i].lanes_after.contains(Some(hash)),
{
    lemma_row_at(commits, main, remotes, i);
    lemma_state_at(commits, main, remotes, i);
    let st = state_at(commits, main, remotes, i);
    let c = commits[i];
    let (at, lane) = placed(st, c.hash, main);
    let (next, row) = advanced(st, c, main, remotes);
    lemma_advanced(st, c, main, remotes);
    lemma_placed(st, c.hash, main);
    let j = choose|j: int| 0 <= j < st.lanes.len() && st.lanes[j] == Some(hash);
    if j != lane {
        assert(st.lanes[j] is Some);
    } else {
        lemma_free_at(st.lanes, 1);
        lemma_waiting_at(st.lanes, c.hash, 0);
        let slot = free_at(st.lanes, 1);
        assert(main.contains(c.hash) && j == 0);
        assert(at.lanes[slot] == Some(hash));
        lemma_moved(at, lane, c, remotes, slot);
    }
}

/// A lane other than the commit's own that waits once the commit is placed
/// still waits at the end of the row.
proof fn lemma_moved(
    at: LaneState,
    lane: int,
    c: CommitView,
    remotes: Seq<Seq<char>>,
    l: int,
)
    requires
        tidy(at),
        0 <= lane < at.lanes.len(),
        0 <= l < at.lanes.len(),
        l != lane,
        at.lanes[l] is Some,
    ensures
        ({
            let lit = coloured(at, lane, c.refs, remotes);
            let next = compacted(followed(lit, lane, c.parents, shown(lit.families[lane])));
            l < next.lanes.len() && next.lanes[l] == at.lanes[l]
        }),
{
    let lit = coloured(at, lane, c.refs, remotes);
    let family = shown(lit.families[lane]);
    let end = followed(lit, lane, c.parents, family);
    if c.parents.len() > 0 {
        let on = LaneState { lanes: lit.lanes.update(lane, Some(c.parents[0])), ..lit };
        lemma_claimed(on, c.parents.drop_first(), family);
        assert(on.lanes[l] == at.lanes[l]);
    }
    assert(end.lanes[l] == at.lanes[l]);
    lemma_compacted(end);
}

/// A free lane has no family.
spec fn bare(st: LaneState) -> bool {
    forall|j: int|
        0 <= j < st.lanes.len() && #[trigger] st.lanes[j] is None ==> st.families[j] is None
}

proof fn lemma_claimed_bare(st: LaneState, parents: Seq<Seq<char>>, family: Seq<char>)
    requires
        tidy(st),
        bare(st),
    ensures
        bare(claimed(st, parents, family)),
    decreases parents.len(),
{
    if parents.len() > 0 {
        let p = parents[0];
        lemma_free_at(st.lanes, 1);
        let slot = free_at(st.lanes, 1);
        let wide = with_lanes(st, slot + 1);
        let next = if waiting_at(st.lanes, p, 0) < st.lanes.len() {
            st
        } else {
            LaneState {
                lanes: wide.lanes.update(slot, Some(p)),
                families: wide.families.update(slot, Some(family)),
            }
        };
        assert forall|j: int|
            0 <= j < next.lanes.len() && #[trigger] next.lanes[j] is None implies next.families[j]
            is None by {
            assert(j < st.lanes.len() ==> st.lanes[j] == next.lanes[j]);
        }
        lemma_claimed_bare(next, parents.drop_first(), family);
    }
}

proof fn lemma_compacted_bare(st: LaneState)
    requires
        tidy(st),
        bare(st),
    ensures
        bare(compacted(st)),
    decreases st.lanes.len(),
{
    if st.lanes.len() > 1 && st.lanes.last() is None {
        let less = LaneState { lanes: st.lanes.drop_last(), families: st.families.drop_last() };
        assert forall|j: int|
            0 <= j < less.lanes.len() && #[trigger] less.lanes[j] is None implies less.families[j]
            is None by {
            assert(st.lanes[j] is None);
        }
        lemma_compacted_bare(less);
    }
}

/// A commit leaves no family in a free lane.
proof fn lemma_advanced_bare(
    st: LaneState,
    c: CommitView,
    main: Set<Seq<char>>,
    remotes: Seq<Seq<char>>,
)
    requires
        tidy(st),
        bare(st),
    ensures
        bare(advanced(st, c, main, remotes).0),
{
    let (at, lane) = placed(st, c.hash, main);
    lemma_placed(st, c.hash, main);
    lemma_free_at(st.lanes, 1);
    assert forall|j: int| 0 <= j < at.lanes.len() && #[trigger] at.lanes[j] is None implies
        at.families[j] is None by {
        assert(j < st.lanes.len() ==> st.lanes[j] == at.lanes[j]);
    }
    let lit = coloured(at, lane, c.refs, remotes);
    let family = shown(lit.families[lane]);
    let end = followed(lit, lane, c.parents, family);
    let on = if c.parents.len() == 0 {
        end
    } else {
        LaneState { lanes: lit.lanes.update(lane, Some(c.parents[0])), ..lit }
    };
    assert forall|j: int| 0 <= j < on.lanes.len() && #[trigger] on.lanes[j] is None implies
        on.families[j] is None by {
        assert(j != lane ==> at.lanes[j] == on.lanes[j]);
    }
    if c.parents.len() > 0 {
        lemma_claimed(on, c.parents.drop_first(), family);
        lemma_claimed_bare(on, c.parents.drop_first(), family);
    }
    lemma_compacted_bare(end);
}

proof fn lemma_state_bare(
    commits: Seq<CommitView>,
    main: Set<Seq<char>>,
    remotes: Seq<Seq<char>>,
    n: int,
)
    requires
        0 <= n <= commits.len(),
    ensures
        bare(state_at(commits, main, remotes, n)),
    decreases n,
{
    if n > 0 {
        lemma_state_bare(commits, main, remotes, n - 1);
        lemma_state_at(commits, main, remotes, n - 1);
        lemma_advanced_bare(state_at(commits, main, remotes, n - 1), commits[n - 1], main, remotes);
    }
}

/// The tip of a branch off the main chain shows the family of its branch: no
/// lane that it takes has a family from before.
pub proof fn tip_shows_its_family(
    commits: Seq<CommitView>,
    main: Set<Seq<char>>,
    remotes: Seq<Seq<char>>,
    i: int,
)
    requires
        0 <= i < commits.len(),
        !main.contains(commits[i].hash),
        !graph_of(commits, main, remotes)[i].lanes_before.contains(Some(commits[i].hash)),
        refs_family(commits[i].refs, remotes) is Some,
    ensures
        Some(graph_of(commits, main, remotes)[i].branch_family) == refs_family(
            commits[i].refs,
            remotes,
        ),
{
    let st = state_at(commits, main, remotes, i);
    lemma_row_at(commits, main, remotes, i);
    lemma_state_at(commits, main, remotes, i);
    lemma_state_bare(commits, main, remotes, i);
    lemma_waiting_at(st.lanes, commits[i].hash, 0);
    lemma_free_at(st.lanes, 1);
    let slot = free_at(st.lanes, 1);
    if slot < st.lanes.len() {
        assert(st.lanes[slot] is None);
    }
}

/// Tips with one prefix show one family, the prefix, whether their first branch
/// is local or of a remote.
pub proof fn tips_share_their_prefix(
    commits: Seq<CommitView>,
    main: Set<Seq<char>>,
    remotes: Seq<Seq<char>>,
    i: int,
    prefix: Seq<char>,
    name: Seq<char>,
)
    requires
        0 <= i < commits.len(),
        !main.contains(commits[i].hash),
        !graph_of(commits, main, remotes)[i].lanes_before.contains(Some(commits[i].hash)),
        commits[i].refs.len() > 0,
        !"tag:"@.is_prefix_of(commits[i].refs[0]),
        !prefix.contains('/'),
        ({
            let branch = prefix + seq!['/'] + name;
            ||| commits[i].refs[0] == branch && !remotes.contains(prefix)
            ||| exists|remote: Seq<char>|
                #![trigger remotes.contains(remote)]
                remotes.contains(remote) && !remote.contains('/') && commits[i].refs[0] == remote
                    + seq!['/'] + branch
        }),
    ensures
        graph_of(commits, main, remotes)[i].branch_family == prefix,
{
    let branch = prefix + seq!['/'] + name;
    tip_shows_its_family(commits, main, remotes, i);
    if commits[i].refs[0] == branch && !remotes.contains(prefix) {
        color::prefix_is_the_family(prefix, name, remotes);
    } else {
        let remote = choose|remote: Seq<char>|
            #![trigger remotes.contains(remote)]
            remotes.contains(remote) && !remote.contains('/') && commits[i].refs[0] == remote
                + seq!['/'] + branch;
        color::prefix_behind_a_remote_is_the_family(remote, prefix, name, remotes);
    }
}

// ---------------------------------------------------------------------------
// Which lane, and why
// ---------------------------------------------------------------------------
/// The entry of a lane; none past the lanes.
pub open spec fn at_lane(entries: Seq<Option<Seq<char>>>, l: int) -> Option<Seq<char>> {
    if 0 <= l < entries.len() {
        entries[l]
    } else {
        None
    }
}

/// The family that a lane shows in the row above the `i`-th; none above the
/// first row.
pub open spec fn family_above(rows: Seq<GraphRowView>, i: int, l: int) -> Option<Seq<char>> {
    if i <= 0 {
        None
    } else {
        at_lane(rows[i - 1].lane_families, l)
    }
}

/// A lane that waits for nothing in `before` and for something in `after`.
pub open spec fn opened(
    before: Seq<Option<Seq<char>>>,
    after: Seq<Option<Seq<char>>>,
    l: int,
) -> bool {
    at_lane(before, l) is None && at_lane(after, l) is Some
}

/// What claiming lanes for parents does to each lane.
#[verifier::spinoff_prover]
#[verifier::rlimit(50)]
proof fn lemma_claims(st: LaneState, parents: Seq<Seq<char>>, family: Seq<char>)
    requires
        tidy(st),
    ensures
        ({
            let end = claimed(st, parents, family);
            &&& tidy(end)
            &&& forall|l: int|
                at_lane(st.lanes, l) is Some ==> #[trigger] at_lane(end.lanes, l) == at_lane(
                    st.lanes,
                    l,
                ) && at_lane(end.families, l) == at_lane(st.families, l)
            &&& forall|l: int|
                #[trigger] at_lane(end.lanes, l) is None ==> at_lane(end.families, l) == at_lane(
                    st.families,
                    l,
                )
            &&& forall|l: int|
                #[trigger] opened(st.lanes, end.lanes, l) ==> {
                    &&& l >= 1
                    &&& parents.contains(at_lane(end.lanes, l)->0)
                    &&& !st.lanes.contains(at_lane(end.lanes, l))
                    &&& at_lane(end.families, l) == Some(family)
                    &&& forall|j: int| 1 <= j < l ==> #[trigger] at_lane(end.lanes, j) is Some
                }
            &&& forall|l: int, m: int, k: int|
                #![trigger opened(st.lanes, end.lanes, l), opened(st.lanes, end.lanes, m), parents[k]]
                opened(st.lanes, end.lanes, l) && opened(st.lanes, end.lanes, m) && l < m && 0 <= k
                    < parents.len() && at_lane(end.lanes, m) == Some(parents[k]) ==> at_lane(
                    end.lanes,
                    l,
                ) != at_lane(end.lanes, m) && exists|h: int|
                    0 <= h < k && at_lane(end.lanes, l) == Some(#[trigger] parents[h])
        }),
    decreases parents.len(),
{
    let end = claimed(st, parents, family);
    if parents.len() > 0 {
        let p = parents[0];
        let rest = parents.drop_first();
        lemma_waiting_at(st.lanes, p, 0);
        lemma_free_at(st.lanes, 1);
        lemma_free_is_first(st.lanes, 1);
        let slot = free_at(st.lanes, 1);
        let w = waiting_at(st.lanes, p, 0);
        let wide = with_lanes(st, slot + 1);
        let next = if w < st.lanes.len() {
            st
        } else {
            LaneState {
                lanes: wide.lanes.update(slot, Some(p)),
                families: wide.families.update(slot, Some(family)),
            }
        };
        lemma_claims(next, rest, family);
        assert(end == claimed(next, rest, family));
        assert(forall|x: Seq<char>| #[trigger] rest.contains(x) ==> parents.contains(x)) by {
            assert forall|x: Seq<char>| #[trigger] rest.contains(x) implies parents.contains(x) by {
                let k = choose|k: int| 0 <= k < rest.len() && rest[k] == x;
                assert(parents[k + 1] == x);
            }
        }
        assert(forall|k: int| 1 <= k < parents.len() ==> #[trigger] parents[k] == rest[k - 1]);
        if w < st.lanes.len() {
            assert forall|l: int, m: int, k: int|
                #![trigger opened(st.lanes, end.lanes, l), opened(st.lanes, end.lanes, m), parents[k]]
                opened(st.lanes, end.lanes, l) && opened(st.lanes, end.lanes, m) && l < m && 0 <= k
                    < parents.len() && at_lane(end.lanes, m) == Some(parents[k]) implies at_lane(
                end.lanes,
                l,
            ) != at_lane(end.lanes, m) && exists|h: int|
                0 <= h < k && at_lane(end.lanes, l) == Some(#[trigger] parents[h]) by {
                if k == 0 {
                    assert(st.lanes[w] == Some(p));
                    assert(st.lanes.contains(at_lane(end.lanes, m)));
                } else {
                    assert(parents[k] == rest[k - 1]);
                    let h = choose|h: int|
                        0 <= h < k - 1 && at_lane(end.lanes, l) == Some(#[trigger] rest[h]);
                    assert(parents[h + 1] == rest[h]);
                }
            }
        } else {
            assert(!st.lanes.contains(Some(p)));
            assert(at_lane(next.lanes, slot) == Some(p));
            assert(forall|l: int| l != slot ==> #[trigger] at_lane(next.lanes, l) == at_lane(st.lanes, l));
            assert(forall|l: int|
                l != slot ==> #[trigger] at_lane(next.families, l) == at_lane(st.families, l));
            assert(forall|j: int| 1 <= j <= slot ==> #[trigger] at_lane(next.lanes, j) is Some) by {
                assert forall|j: int| 1 <= j <= slot implies #[trigger] at_lane(next.lanes, j) is Some by {
                    assert(j < slot ==> at_lane(st.lanes, j) is Some);
                }
            }
            assert(parents.contains(p));
            assert forall|x: Option<Seq<char>>| x is Some && #[trigger] st.lanes.contains(x) implies next.lanes.contains(
                x,
            ) by {
                let j = choose|j: int| 0 <= j < st.lanes.len() && st.lanes[j] == x;
                assert(next.lanes[j] == x);
            }
            assert forall|l: int| at_lane(st.lanes, l) is Some implies #[trigger] at_lane(end.lanes, l)
                == at_lane(st.lanes, l) && at_lane(end.families, l) == at_lane(st.families, l) by {
                assert(at_lane(next.lanes, l) == at_lane(st.lanes, l));
                assert(at_lane(next.families, l) == at_lane(st.families, l));
            }
            assert forall|l: int| #[trigger] at_lane(end.lanes, l) is None implies at_lane(
                end.families,
                l,
            ) == at_lane(st.families, l) by {
                assert(at_lane(next.lanes, slot) is Some);
                assert(at_lane(end.lanes, slot) is Some);
                assert(at_lane(next.families, l) == at_lane(st.families, l));
            }
            assert(at_lane(end.lanes, slot) == Some(p));
            assert(at_lane(next.families, slot) == Some(family));
            assert forall|l: int| #[trigger] opened(st.lanes, end.lanes, l) implies {
                &&& l >= 1
                &&& parents.contains(at_lane(end.lanes, l)->0)
                &&& !st.lanes.contains(at_lane(end.lanes, l))
                &&& at_lane(end.families, l) == Some(family)
                &&& forall|j: int| 1 <= j < l ==> #[trigger] at_lane(end.lanes, j) is Some
            } by {
                if l == slot {
                    assert forall|j: int| 1 <= j < l implies #[trigger] at_lane(end.lanes, j) is Some by {
                        assert(at_lane(next.lanes, j) is Some);
                    }
                } else {
                    assert(opened(next.lanes, end.lanes, l));
                }
            }
            assert forall|l: int, m: int, k: int|
                #![trigger opened(st.lanes, end.lanes, l), opened(st.lanes, end.lanes, m), parents[k]]
                opened(st.lanes, end.lanes, l) && opened(st.lanes, end.lanes, m) && l < m && 0 <= k
                    < parents.len() && at_lane(end.lanes, m) == Some(parents[k]) implies at_lane(
                end.lanes,
                l,
            ) != at_lane(end.lanes, m) && exists|h: int|
                0 <= h < k && at_lane(end.lanes, l) == Some(#[trigger] parents[h]) by {
                if m == slot {
                    assert(at_lane(st.lanes, l) is Some);
                } else {
                    assert(opened(next.lanes, end.lanes, m));
                    assert(next.lanes[slot] == Some(p));
                    assert(at_lane(end.lanes, m) != Some(p));
                    assert(parents[k] == rest[k - 1]);
                    if l == slot {
                        assert(at_lane(end.lanes, l) == Some(parents[0]));
                    } else {
                        assert(opened(next.lanes, end.lanes, l));
                        let h = choose|h: int|
                            0 <= h < k - 1 && at_lane(end.lanes, l) == Some(#[trigger] rest[h]);
                        assert(parents[h + 1] == rest[h]);
                    }
                }
            }
        }
    }
}

/// No lane from `start` up to the free one is free.
proof fn lemma_free_is_first(lanes: Seq<Option<Seq<char>>>, start: int)
    requires
        0 <= start <= lanes.len(),
    ensures
        at_lane(lanes, free_at(lanes, start)) is None,
        forall|j: int| start <= j < free_at(lanes, start) ==> #[trigger] at_lane(lanes, j) is Some,
    decreases lanes.len() - start,
{
    if start < lanes.len() && lanes[start] is Some {
        lemma_free_is_first(lanes, start + 1);
        assert(at_lane(lanes, start) is Some);
    }
}

proof fn lemma_compacts(st: LaneState)
    requires
        tidy(st),
        bare(st),
    ensures
        forall|l: int| #[trigger] at_lane(compacted(st).lanes, l) == at_lane(st.lanes, l),
        forall|l: int| #[trigger] at_lane(compacted(st).families, l) == at_lane(st.families, l),
        tidy(compacted(st)),
    decreases st.lanes.len(),
{
    if st.lanes.len() > 1 && st.lanes.last() is None {
        let less = LaneState { lanes: st.lanes.drop_last(), families: st.families.drop_last() };
        assert forall|j: int| 0 <= j < less.lanes.len() && #[trigger] less.lanes[j] is None implies
            less.families[j] is None by {
            assert(st.lanes[j] is None);
        }
        assert(st.lanes[st.lanes.len() - 1] is None);
        lemma_compacts(less);
        assert forall|l: int| #[trigger] at_lane(compacted(st).lanes, l) == at_lane(st.lanes, l) by {
            assert(at_lane(less.lanes, l) == at_lane(st.lanes, l));
        }
        assert forall|l: int| #[trigger] at_lane(compacted(st).families, l) == at_lane(
            st.families,
            l,
        ) by {
            assert(at_lane(less.families, l) == at_lane(st.families, l));
        }
    }
}

/// What a row does to each lane, once its commit is placed.
#[verifier::spinoff_prover]
#[verifier::rlimit(50)]
proof fn lemma_lanes_after(st: LaneState, c: CommitView, main: Set<Seq<char>>, remotes: Seq<Seq<char>>)
    requires
        tidy(st),
        bare(st),
    ensures
        ({
            let (at, lane) = placed(st, c.hash, main);
            let lit = coloured(at, lane, c.refs, remotes);
            let (next, row) = advanced(st, c, main, remotes);
            &&& tidy(at)
            &&& 0 <= lane < at.lanes.len()
            &&& tidy(next)
            &&& forall|l: int|
                #![trigger at_lane(next.lanes, l)]
                {
                    &&& l == lane && c.parents.len() == 0 ==> at_lane(next.lanes, l) is None
                        && at_lane(next.families, l) is None
                    &&& l == lane && c.parents.len() > 0 ==> at_lane(next.lanes, l) == Some(
                        c.parents[0],
                    ) && at_lane(next.families, l) == lit.families[lane]
                    &&& l != lane && at_lane(at.lanes, l) is Some ==> at_lane(next.lanes, l)
                        == at_lane(at.lanes, l) && at_lane(next.families, l) == at_lane(
                        at.families,
                        l,
                    )
                    &&& at_lane(next.lanes, l) is None ==> at_lane(next.families, l) is None
                }
            &&& forall|l: int|
                l != lane && #[trigger] opened(at.lanes, next.lanes, l) ==> {
                    &&& l >= 1
                    &&& c.parents.len() > 1
                    &&& c.parents.skip(1).contains(at_lane(next.lanes, l)->0)
                    &&& at_lane(next.lanes, l) != Some(c.parents[0])
                    &&& forall|j: int|
                        j != lane && at_lane(at.lanes, j) is Some ==> #[trigger] at_lane(at.lanes, j)
                            != at_lane(next.lanes, l)
                    &&& at_lane(next.families, l) == Some(row.branch_family)
                    &&& forall|j: int| 1 <= j < l ==> #[trigger] at_lane(next.lanes, j) is Some
                }
            &&& forall|l: int, m: int, k: int|
                #![trigger opened(at.lanes, next.lanes, l), opened(at.lanes, next.lanes, m), c.parents[k]]
                l != lane && m != lane && opened(at.lanes, next.lanes, l) && opened(
                    at.lanes,
                    next.lanes,
                    m,
                ) && l < m && 1 <= k < c.parents.len() && at_lane(next.lanes, m) == Some(
                    c.parents[k],
                ) ==> at_lane(next.lanes, l) != at_lane(next.lanes, m) && exists|h: int|
                    1 <= h < k && at_lane(next.lanes, l) == Some(#[trigger] c.parents[h])
        }),
{
    let (at, lane) = placed(st, c.hash, main);
    lemma_placed(st, c.hash, main);
    lemma_free_at(st.lanes, 1);
    let lit = coloured(at, lane, c.refs, remotes);
    let family = shown(lit.families[lane]);
    let end = followed(lit, lane, c.parents, family);
    let (next, row) = advanced(st, c, main, remotes);
    assert forall|j: int| 0 <= j < at.lanes.len() && #[trigger] at.lanes[j] is None implies
        at.families[j] is None by {
        assert(j < st.lanes.len() ==> st.lanes[j] == at.lanes[j]);
    }
    let on = if c.parents.len() == 0 {
        end
    } else {
        LaneState { lanes: lit.lanes.update(lane, Some(c.parents[0])), ..lit }
    };
    assert forall|j: int| 0 <= j < on.lanes.len() && #[trigger] on.lanes[j] is None implies
        on.families[j] is None by {
        assert(j != lane ==> at.lanes[j] == on.lanes[j]);
    }
    assert(forall|l: int| l != lane ==> #[trigger] at_lane(on.lanes, l) == at_lane(at.lanes, l));
    assert(forall|l: int| l != lane ==> #[trigger] at_lane(on.families, l) == at_lane(at.families, l));
    if c.parents.len() == 0 {
        lemma_compacts(end);
    } else {
        let rest = c.parents.drop_first();
        assert(rest =~= c.parents.skip(1));
        lemma_claims(on, rest, family);
        lemma_claimed_bare(on, rest, family);
        lemma_compacts(end);
        assert(at_lane(on.lanes, lane) == Some(c.parents[0]));
        assert forall|l: int| l != lane && #[trigger] opened(at.lanes, next.lanes, l) implies {
            &&& l >= 1
            &&& c.parents.len() > 1
            &&& c.parents.skip(1).contains(at_lane(next.lanes, l)->0)
            &&& at_lane(next.lanes, l) != Some(c.parents[0])
            &&& forall|j: int|
                j != lane && at_lane(at.lanes, j) is Some ==> #[trigger] at_lane(at.lanes, j)
                    != at_lane(next.lanes, l)
            &&& at_lane(next.families, l) == Some(row.branch_family)
            &&& forall|j: int| 1 <= j < l ==> #[trigger] at_lane(next.lanes, j) is Some
        } by {
            assert(at_lane(next.lanes, l) == at_lane(end.lanes, l));
            assert(at_lane(on.lanes, l) == at_lane(at.lanes, l));
            assert(opened(on.lanes, end.lanes, l));
            assert(on.lanes[lane] == Some(c.parents[0]));
            assert(at_lane(next.families, l) == at_lane(end.families, l));
            assert forall|j: int| j != lane && at_lane(at.lanes, j) is Some implies #[trigger] at_lane(
                at.lanes,
                j,
            ) != at_lane(next.lanes, l) by {
                assert(on.lanes[j] == at_lane(at.lanes, j));
            }
            assert forall|j: int| 1 <= j < l implies #[trigger] at_lane(next.lanes, j) is Some by {
                assert(at_lane(next.lanes, j) == at_lane(end.lanes, j));
            }
        }
        assert forall|l: int, m: int, k: int|
            #![trigger opened(at.lanes, next.lanes, l), opened(at.lanes, next.lanes, m), c.parents[k]]
            l != lane && m != lane && opened(at.lanes, next.lanes, l) && opened(
                at.lanes,
                next.lanes,
                m,
            ) && l < m && 1 <= k < c.parents.len() && at_lane(next.lanes, m) == Some(
                c.parents[k],
            ) implies at_lane(next.lanes, l) != at_lane(next.lanes, m) && exists|h: int|
            1 <= h < k && at_lane(next.lanes, l) == Some(#[trigger] c.parents[h]) by {
            assert(at_lane(next.lanes, l) == at_lane(end.lanes, l));
            assert(at_lane(next.lanes, m) == at_lane(end.lanes, m));
            assert(at_lane(on.lanes, l) == at_lane(at.lanes, l));
            assert(at_lane(on.lanes, m) == at_lane(at.lanes, m));
            assert(opened(on.lanes, end.lanes, l));
            assert(opened(on.lanes, end.lanes, m));
            assert(rest[k - 1] == c.parents[k]);
            let h = choose|h: int|
                0 <= h < k - 1 && at_lane(end.lanes, l) == Some(#[trigger] rest[h]);
            assert(c.parents[h + 1] == rest[h]);
        }
    }
    assert forall|l: int|
        #![trigger at_lane(next.lanes, l)]
        {
            &&& l == lane && c.parents.len() == 0 ==> at_lane(next.lanes, l) is None && at_lane(
                next.families,
                l,
            ) is None
            &&& l == lane && c.parents.len() > 0 ==> at_lane(next.lanes, l) == Some(c.parents[0])
                && at_lane(next.families, l) == lit.families[lane]
            &&& l != lane && at_lane(at.lanes, l) is Some ==> at_lane(next.lanes, l) == at_lane(
                at.lanes,
                l,
            ) && at_lane(next.families, l) == at_lane(at.families, l)
            &&& at_lane(next.lanes, l) is None ==> at_lane(next.families, l) is None
        } by {
        assert(at_lane(next.lanes, l) == at_lane(end.lanes, l));
        assert(at_lane(next.families, l) == at_lane(end.families, l));
        assert(l != lane ==> at_lane(on.lanes, l) == at_lane(at.lanes, l));
        assert(l != lane ==> at_lane(on.families, l) == at_lane(at.families, l));
        if at_lane(on.lanes, l) is None && 0 <= l < on.lanes.len() {
            assert(on.lanes[l] is None);
        }
    }
}

/// The lanes and families before a row, as the rows show them.
proof fn lemma_above(commits: Seq<CommitView>, main: Set<Seq<char>>, remotes: Seq<Seq<char>>, i: int)
    requires
        0 <= i < commits.len(),
    ensures
        ({
            let st = state_at(commits, main, remotes, i);
            let rows = graph_of(commits, main, remotes);
            &&& rows.len() == commits.len()
            &&& rows[i] == advanced(st, commits[i], main, remotes).1
            &&& rows[i].lanes_before == st.lanes
            &&& rows[i].lanes_after == advanced(st, commits[i], main, remotes).0.lanes
            &&& tidy(st)
            &&& bare(st)
            &&& forall|l: int| #[trigger] family_above(rows, i, l) == at_lane(st.families, l)
            &&& forall|l: int|
                #[trigger] at_lane(rows[i].lane_families, l) == at_lane(
                    advanced(st, commits[i], main, remotes).0.families,
                    l,
                )
        }),
{
    rows_follow_commits(commits, main, remotes);
    lemma_row_at(commits, main, remotes, i);
    lemma_state_at(commits, main, remotes, i);
    lemma_state_bare(commits, main, remotes, i);
    if i > 0 {
        lemma_row_at(commits, main, remotes, i - 1);
    }
}

/// The tip of a branch off the main chain opens the first free lane, lane 0
/// apart: every lane before it waits for something, and it waits for nothing.
pub proof fn new_tip_opens_the_first_free_lane(
    commits: Seq<CommitView>,
    main: Set<Seq<char>>,
    remotes: Seq<Seq<char>>,
    i: int,
)
    requires
        0 <= i < commits.len(),
        !main.contains(commits[i].hash),
        !graph_of(commits, main, remotes)[i].lanes_before.contains(Some(commits[i].hash)),
    ensures
        ({
            let row = graph_of(commits, main, remotes)[i];
            &&& row.lane >= 1
            &&& row.lane >= row.lanes_before.len() || row.lanes_before[row.lane] is None
            &&& forall|l: int|
                1 <= l < row.lane ==> l < row.lanes_before.len() && #[trigger] row.lanes_before[l]
                    is Some
        }),
{
    lemma_above(commits, main, remotes, i);
    let st = state_at(commits, main, remotes, i);
    lemma_waiting_at(st.lanes, commits[i].hash, 0);
    lemma_free_at(st.lanes, 1);
    lemma_free_is_first(st.lanes, 1);
    let row = graph_of(commits, main, remotes)[i];
    assert forall|l: int| 1 <= l < row.lane implies l < row.lanes_before.len()
        && #[trigger] row.lanes_before[l] is Some by {
        assert(at_lane(st.lanes, l) is Some);
    }
}

/// A commit off the main chain takes no other branch's lane: what a lane waits
/// for before its row, other than the commit itself, the same lane waits for
/// after it, the commit's own lane not excepted.
pub proof fn waits_stay_in_their_lane(
    commits: Seq<CommitView>,
    main: Set<Seq<char>>,
    remotes: Seq<Seq<char>>,
    i: int,
    l: int,
)
    requires
        0 <= i < commits.len(),
        !main.contains(commits[i].hash),
        0 <= l < graph_of(commits, main, remotes)[i].lanes_before.len(),
        graph_of(commits, main, remotes)[i].lanes_before[l] is Some,
        graph_of(commits, main, remotes)[i].lanes_before[l] != Some(commits[i].hash),
    ensures
        ({
            let row = graph_of(commits, main, remotes)[i];
            &&& l < row.lanes_after.len()
            &&& row.lanes_after[l] == row.lanes_before[l]
            &&& l != row.lane
        }),
{
    lemma_above(commits, main, remotes, i);
    let st = state_at(commits, main, remotes, i);
    lemma_waiting_at(st.lanes, commits[i].hash, 0);
    lemma_free_at(st.lanes, 1);
    lemma_lanes_after(st, commits[i], main, remotes);
    let (at, lane) = placed(st, commits[i].hash, main);
    assert(at_lane(at.lanes, l) == st.lanes[l]);
    let next = advanced(st, commits[i], main, remotes).0;
    assert(at_lane(next.lanes, l) == st.lanes[l]);
}

/// What a commit of the main chain finds waiting in lane 0 moves to the first
/// free lane, with its family; no other lane moves.
pub proof fn lane_zero_is_cleared_to_the_first_free_lane(
    commits: Seq<CommitView>,
    main: Set<Seq<char>>,
    remotes: Seq<Seq<char>>,
    i: int,
    slot: int,
)
    requires
        0 <= i < commits.len(),
        main.contains(commits[i].hash),
        graph_of(commits, main, remotes)[i].lanes_before[0] is Some,
        graph_of(commits, main, remotes)[i].lanes_before[0] != Some(commits[i].hash),
        slot >= 1,
        at_lane(graph_of(commits, main, remotes)[i].lanes_before, slot) is None,
        forall|l: int|
            1 <= l < slot ==> #[trigger] at_lane(
                graph_of(commits, main, remotes)[i].lanes_before,
                l,
            ) is Some,
    ensures
        ({
            let rows = graph_of(commits, main, remotes);
            let row = rows[i];
            &&& at_lane(row.lanes_after, slot) == row.lanes_before[0]
            &&& at_lane(row.lane_families, slot) == family_above(rows, i, 0)
            &&& forall|l: int|
                1 <= l && at_lane(row.lanes_before, l) is Some ==> #[trigger] at_lane(
                    row.lanes_after,
                    l,
                ) == at_lane(row.lanes_before, l)
        }),
{
    lemma_above(commits, main, remotes, i);
    let st = state_at(commits, main, remotes, i);
    lemma_free_at(st.lanes, 1);
    lemma_free_is_first(st.lanes, 1);
    lemma_lanes_after(st, commits[i], main, remotes);
    let free = free_at(st.lanes, 1);
    assert(free == slot) by {
        if free < slot {
            assert(at_lane(st.lanes, free) is Some);
        }
        if slot < free {
            assert(at_lane(st.lanes, slot) is Some);
        }
    }
    let (at, lane) = placed(st, commits[i].hash, main);
    let next = advanced(st, commits[i], main, remotes).0;
    let rows = graph_of(commits, main, remotes);
    assert(at_lane(at.lanes, slot) == st.lanes[0]);
    assert(at_lane(next.lanes, slot) == st.lanes[0]);
    assert(at_lane(rows[i].lane_families, slot) == at_lane(next.families, slot));
    assert(family_above(rows, i, 0) == at_lane(st.families, 0));
    if slot < st.lanes.len() {
        assert(st.lanes[slot] is None);
    }
    assert forall|l: int| 1 <= l && at_lane(rows[i].lanes_before, l) is Some implies #[trigger] at_lane(
        rows[i].lanes_after,
        l,
    ) == at_lane(rows[i].lanes_before, l) by {
        assert(at_lane(at.lanes, l) == at_lane(st.lanes, l));
    }
}

/// No lane waits without cause: what a lane waits for after a row it waited for
/// before, or it is the commit's lane and goes on to the first parent, or it is
/// what lane 0 had to give up, or a further parent of a merge.
pub proof fn lanes_wait_for_a_reason(
    commits: Seq<CommitView>,
    main: Set<Seq<char>>,
    remotes: Seq<Seq<char>>,
    i: int,
    l: int,
)
    requires
        0 <= i < commits.len(),
        0 <= l < graph_of(commits, main, remotes)[i].lanes_after.len(),
        graph_of(commits, main, remotes)[i].lanes_after[l] is Some,
    ensures
        ({
            let row = graph_of(commits, main, remotes)[i];
            let parents = commits[i].parents;
            let waits = row.lanes_after[l];
            ||| l != row.lane && at_lane(row.lanes_before, l) == waits
            ||| l == row.lane && parents.len() > 0 && waits == Some(parents[0])
            ||| l != row.lane && at_lane(row.lanes_before, l) is None && main.contains(
                commits[i].hash,
            ) && at_lane(row.lanes_before, 0) == waits && waits != Some(commits[i].hash)
            ||| l != row.lane && at_lane(row.lanes_before, l) is None && parents.skip(1).contains(
                waits->0,
            )
        }),
{
    lemma_above(commits, main, remotes, i);
    let st = state_at(commits, main, remotes, i);
    lemma_waiting_at(st.lanes, commits[i].hash, 0);
    lemma_free_at(st.lanes, 1);
    lemma_free_is_first(st.lanes, 1);
    lemma_lanes_after(st, commits[i], main, remotes);
    let (at, lane) = placed(st, commits[i].hash, main);
    let next = advanced(st, commits[i], main, remotes).0;
    assert(at_lane(next.lanes, l) is Some);
    if l != lane {
        if at_lane(at.lanes, l) is None {
            assert(opened(at.lanes, next.lanes, l));
            assert(at_lane(st.lanes, l) is None);
        } else {
            assert(at_lane(next.lanes, l) == at_lane(at.lanes, l));
        }
    }
}

/// A merge opens one lane for each further parent that nothing waits for yet,
/// and none for the others: a lane that a row opens beside its own, the one that
/// lane 0 is cleared to apart, waits for a parent that no other lane waits for
/// after the row.
pub proof fn merges_open_one_lane_for_each_parent(
    commits: Seq<CommitView>,
    main: Set<Seq<char>>,
    remotes: Seq<Seq<char>>,
    i: int,
    l: int,
    m: int,
)
    requires
        0 <= i < commits.len(),
        ({
            let row = graph_of(commits, main, remotes)[i];
            &&& l != row.lane
            &&& opened(row.lanes_before, row.lanes_after, l)
            &&& !main.contains(commits[i].hash) || at_lane(row.lanes_after, l) != at_lane(
                row.lanes_before,
                0,
            )
            &&& m != l
        }),
    ensures
        ({
            let row = graph_of(commits, main, remotes)[i];
            &&& commits[i].parents.skip(1).contains(at_lane(row.lanes_after, l)->0)
            &&& at_lane(row.lanes_after, m) != at_lane(row.lanes_after, l)
            &&& at_lane(row.lane_families, l) == Some(row.branch_family)
        }),
{
    lemma_above(commits, main, remotes, i);
    let c = commits[i];
    let st = state_at(commits, main, remotes, i);
    lemma_waiting_at(st.lanes, c.hash, 0);
    lemma_free_at(st.lanes, 1);
    lemma_lanes_after(st, c, main, remotes);
    let (at, lane) = placed(st, c.hash, main);
    let next = advanced(st, c, main, remotes).0;
    let rows = graph_of(commits, main, remotes);
    lemma_free_is_first(st.lanes, 1);
    if at_lane(at.lanes, l) is Some {
        assert(at_lane(next.lanes, l) == at_lane(at.lanes, l));
        assert(at_lane(at.lanes, l) == st.lanes[0]);
    }
    assert(opened(at.lanes, next.lanes, l));
    assert(at_lane(rows[i].lane_families, l) == at_lane(next.families, l));
    if at_lane(next.lanes, m) is Some && m != lane {
        if at_lane(at.lanes, m) is None {
            assert(opened(at.lanes, next.lanes, m));
            let kl = choose|k: int|
                0 <= k < c.parents.skip(1).len() && c.parents.skip(1)[k] == at_lane(
                    next.lanes,
                    l,
                )->0;
            let km = choose|k: int|
                0 <= k < c.parents.skip(1).len() && c.parents.skip(1)[k] == at_lane(
                    next.lanes,
                    m,
                )->0;
            assert(c.parents[kl + 1] == at_lane(next.lanes, l)->0);
            assert(c.parents[km + 1] == at_lane(next.lanes, m)->0);
        } else {
            assert(at_lane(next.lanes, m) == at_lane(at.lanes, m));
        }
    }
}

/// Lanes open from the left: no lane between lane 0 and one that a row opens is
/// free after the row.
pub proof fn lanes_open_from_the_left(
    commits: Seq<CommitView>,
    main: Set<Seq<char>>,
    remotes: Seq<Seq<char>>,
    i: int,
    l: int,
    j: int,
)
    requires
        0 <= i < commits.len(),
        ({
            let row = graph_of(commits, main, remotes)[i];
            opened(row.lanes_before, row.lanes_after, l)
        }),
        1 <= j < l,
    ensures
        at_lane(graph_of(commits, main, remotes)[i].lanes_after, j) is Some,
{
    lemma_above(commits, main, remotes, i);
    let c = commits[i];
    let st = state_at(commits, main, remotes, i);
    lemma_waiting_at(st.lanes, c.hash, 0);
    lemma_free_at(st.lanes, 1);
    lemma_free_is_first(st.lanes, 1);
    lemma_lanes_after(st, c, main, remotes);
    let (at, lane) = placed(st, c.hash, main);
    let next = advanced(st, c, main, remotes).0;
    assert(at_lane(next.lanes, l) is Some);
    if l != lane && at_lane(at.lanes, l) is None {
        assert(opened(at.lanes, next.lanes, l));
        assert(at_lane(next.lanes, j) is Some);
    } else {
        assert(l == free_at(st.lanes, 1));
        assert(at_lane(st.lanes, j) is Some);
        assert(at_lane(at.lanes, j) is Some);
        assert(at_lane(next.lanes, j) is Some);
    }
}

/// Of two lanes that a merge opens, the left one waits for the earlier parent.
pub proof fn parents_open_lanes_in_order(
    commits: Seq<CommitView>,
    main: Set<Seq<char>>,
    remotes: Seq<Seq<char>>,
    i: int,
    l: int,
    m: int,
    k: int,
)
    requires
        0 <= i < commits.len(),
        ({
            let row = graph_of(commits, main, remotes)[i];
            &&& l != row.lane
            &&& m != row.lane
            &&& opened(row.lanes_before, row.lanes_after, l)
            &&& opened(row.lanes_before, row.lanes_after, m)
            &&& !main.contains(commits[i].hash) || at_lane(row.lanes_after, l) != at_lane(
                row.lanes_before,
                0,
            )
            &&& !main.contains(commits[i].hash) || at_lane(row.lanes_after, m) != at_lane(
                row.lanes_before,
                0,
            )
            &&& l < m
            &&& 1 <= k < commits[i].parents.len()
            &&& at_lane(row.lanes_after, m) == Some(commits[i].parents[k])
        }),
    ensures
        exists|h: int|
            1 <= h < k && at_lane(graph_of(commits, main, remotes)[i].lanes_after, l) == Some(
                #[trigger] commits[i].parents[h],
            ),
{
    lemma_above(commits, main, remotes, i);
    let c = commits[i];
    let st = state_at(commits, main, remotes, i);
    lemma_waiting_at(st.lanes, c.hash, 0);
    lemma_free_at(st.lanes, 1);
    lemma_lanes_after(st, c, main, remotes);
    let (at, lane) = placed(st, c.hash, main);
    let next = advanced(st, c, main, remotes).0;
    lemma_free_is_first(st.lanes, 1);
    if at_lane(at.lanes, l) is Some {
        assert(at_lane(next.lanes, l) == at_lane(at.lanes, l));
        assert(at_lane(at.lanes, l) == st.lanes[0]);
    }
    if at_lane(at.lanes, m) is Some {
        assert(at_lane(next.lanes, m) == at_lane(at.lanes, m));
        assert(at_lane(at.lanes, m) == st.lanes[0]);
    }
    assert(opened(at.lanes, next.lanes, l));
    assert(opened(at.lanes, next.lanes, m));
    assert(c.parents[k] == commits[i].parents[k]);
}

// ---------------------------------------------------------------------------
// Which family, and why
// ---------------------------------------------------------------------------
/// The first ref that is no tag names the family.
pub proof fn first_branch_names_the_family(
    refs: Seq<Seq<char>>,
    remotes: Seq<Seq<char>>,
    k: int,
)
    requires
        0 <= k < refs.len(),
        !"tag:"@.is_prefix_of(refs[k]),
        forall|j: int| 0 <= j < k ==> "tag:"@.is_prefix_of(#[trigger] refs[j]),
    ensures
        refs_family(refs, remotes) == Some(color::family(refs[k], remotes)),
    decreases k,
{
    if k > 0 {
        assert("tag:"@.is_prefix_of(refs[0]));
        let rest = refs.drop_first();
        assert forall|j: int| 0 <= j < k - 1 implies "tag:"@.is_prefix_of(#[trigger] rest[j]) by {
            assert(rest[j] == refs[j + 1]);
        }
        first_branch_names_the_family(rest, remotes, k - 1);
    }
}

/// Tags alone name no family.
pub proof fn tags_name_no_family(refs: Seq<Seq<char>>, remotes: Seq<Seq<char>>)
    requires
        forall|j: int| 0 <= j < refs.len() ==> "tag:"@.is_prefix_of(#[trigger] refs[j]),
    ensures
        refs_family(refs, remotes) is None,
    decreases refs.len(),
{
    if refs.len() > 0 {
        assert("tag:"@.is_prefix_of(refs[0]));
        let rest = refs.drop_first();
        assert forall|j: int| 0 <= j < rest.len() implies "tag:"@.is_prefix_of(#[trigger] rest[j]) by {
            assert(rest[j] == refs[j + 1]);
        }
        tags_name_no_family(rest, remotes);
    }
}

/// A branch keeps its family down its lane: a commit that sits in a lane with a
/// family shows that family, whatever its refs, unless a commit of the main
/// chain had to clear lane 0 first.
pub proof fn commits_inherit_the_family_of_their_lane(
    commits: Seq<CommitView>,
    main: Set<Seq<char>>,
    remotes: Seq<Seq<char>>,
    i: int,
)
    requires
        0 <= i < commits.len(),
        ({
            let rows = graph_of(commits, main, remotes);
            &&& at_lane(rows[i].lanes_before, rows[i].lane) == Some(commits[i].hash)
            &&& family_above(rows, i, rows[i].lane) is Some
        }),
    ensures
        ({
            let rows = graph_of(commits, main, remotes);
            Some(rows[i].branch_family) == family_above(rows, i, rows[i].lane)
        }),
{
    lemma_above(commits, main, remotes, i);
    let st = state_at(commits, main, remotes, i);
    lemma_waiting_at(st.lanes, commits[i].hash, 0);
    lemma_free_at(st.lanes, 1);
    let rows = graph_of(commits, main, remotes);
    assert(family_above(rows, i, rows[i].lane) == at_lane(st.families, rows[i].lane));
}

/// A commit whose lane has no family from above, or has to be cleared first,
/// shows the family of its own first branch, and `_` where it has no branch.
pub proof fn commits_bring_a_family_to_a_bare_lane(
    commits: Seq<CommitView>,
    main: Set<Seq<char>>,
    remotes: Seq<Seq<char>>,
    i: int,
)
    requires
        0 <= i < commits.len(),
        ({
            let rows = graph_of(commits, main, remotes);
            ||| family_above(rows, i, rows[i].lane) is None
            ||| at_lane(rows[i].lanes_before, rows[i].lane) != Some(commits[i].hash)
        }),
    ensures
        ({
            let row = graph_of(commits, main, remotes)[i];
            match refs_family(commits[i].refs, remotes) {
                Some(family) => row.branch_family == family,
                None => row.branch_family == "_"@,
            }
        }),
{
    lemma_above(commits, main, remotes, i);
    let st = state_at(commits, main, remotes, i);
    lemma_waiting_at(st.lanes, commits[i].hash, 0);
    lemma_free_at(st.lanes, 1);
    let rows = graph_of(commits, main, remotes);
    let lane = rows[i].lane;
    let (at, _) = placed(st, commits[i].hash, main);
    assert(family_above(rows, i, lane) == at_lane(st.families, lane));
    if lane < st.lanes.len() && st.lanes[lane] is None {
        assert(st.families[lane] is None);
    }
    assert(at.families[lane] is None);
}

/// The lane of a commit with parents keeps the family that the commit shows,
/// down to the next row; it has none only where the commit shows none. The lane
/// of a root is left without one.
pub proof fn lane_keeps_the_family_of_its_commit(
    commits: Seq<CommitView>,
    main: Set<Seq<char>>,
    remotes: Seq<Seq<char>>,
    i: int,
)
    requires
        0 <= i < commits.len(),
    ensures
        ({
            let rows = graph_of(commits, main, remotes);
            let row = rows[i];
            let known = refs_family(commits[i].refs, remotes) is Some || (at_lane(
                row.lanes_before,
                row.lane,
            ) == Some(commits[i].hash) && family_above(rows, i, row.lane) is Some);
            &&& commits[i].parents.len() > 0 && known ==> at_lane(row.lane_families, row.lane)
                == Some(row.branch_family)
            &&& commits[i].parents.len() == 0 || !known ==> at_lane(row.lane_families, row.lane)
                is None
        }),
{
    lemma_above(commits, main, remotes, i);
    let c = commits[i];
    let st = state_at(commits, main, remotes, i);
    lemma_waiting_at(st.lanes, c.hash, 0);
    lemma_free_at(st.lanes, 1);
    lemma_lanes_after(st, c, main, remotes);
    let rows = graph_of(commits, main, remotes);
    let (at, lane) = placed(st, c.hash, main);
    let next = advanced(st, c, main, remotes).0;
    assert(family_above(rows, i, lane) == at_lane(st.families, lane));
    assert(at_lane(rows[i].lane_families, lane) == at_lane(next.families, lane));
    if lane < st.lanes.len() && st.lanes[lane] is None {
        assert(st.families[lane] is None);
    }
    assert(at_lane(next.lanes, lane) == at_lane(next.lanes, lane));
}

/// A lane that goes on waiting keeps its family, and a lane that waits for
/// nothing has none.
pub proof fn other_lanes_keep_their_family(
    commits: Seq<CommitView>,
    main: Set<Seq<char>>,
    remotes: Seq<Seq<char>>,
    i: int,
    l: int,
)
    requires
        0 <= i < commits.len(),
        l != graph_of(commits, main, remotes)[i].lane,
    ensures
        ({
            let rows = graph_of(commits, main, remotes);
            let row = rows[i];
            &&& at_lane(row.lanes_before, l) is Some ==> at_lane(row.lane_families, l)
                == family_above(rows, i, l)
            &&& at_lane(row.lanes_after, l) is None ==> at_lane(row.lane_families, l) is None
        }),
{
    lemma_above(commits, main, remotes, i);
    let c = commits[i];
    let st = state_at(commits, main, remotes, i);
    lemma_waiting_at(st.lanes, c.hash, 0);
    lemma_free_at(st.lanes, 1);
    lemma_lanes_after(st, c, main, remotes);
    let rows = graph_of(commits, main, remotes);
    let (at, lane) = placed(st, c.hash, main);
    let next = advanced(st, c, main, remotes).0;
    assert(family_above(rows, i, l) == at_lane(st.families, l));
    assert(at_lane(rows[i].lane_families, l) == at_lane(next.families, l));
    assert(at_lane(next.lanes, l) == at_lane(next.lanes, l));
    if at_lane(st.lanes, l) is Some {
        assert(at_lane(at.lanes, l) == at_lane(st.lanes, l));
        assert(at_lane(at.families, l) == at_lane(st.families, l));
    }
}

/// A row tells the family of every lane that it draws, and of the commit's own.
pub proof fn rows_tell_a_family_for_each_lane(
    commits: Seq<CommitView>,
    main: Set<Seq<char>>,
    remotes: Seq<Seq<char>>,
    i: int,
)
    requires
        0 <= i < commits.len(),
    ensures
        ({
            let row = graph_of(commits, main, remotes)[i];
            &&& row.lane_families.len() > row.lane
            &&& row.lane_families.len() >= row.lanes_after.len()
            &&& row.lane_families.len() == row.lane + 1 || row.lane_families.len()
                == row.lanes_after.len()
        }),
{
    lemma_above(commits, main, remotes, i);
    lemma_lanes_after(state_at(commits, main, remotes, i), commits[i], main, remotes);
}

} // verus!
