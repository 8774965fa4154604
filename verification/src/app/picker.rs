//! The branches that the picker offers: their order, and those that match what
//! was typed.

use crate::git::{Branch, BranchView};
use crate::text;
use vstd::prelude::*;
use vstd::relations;
use vstd::seq_lib;

verus! {

// ---------------------------------------------------------------------------
// Order
// ---------------------------------------------------------------------------
/// The order of the branches: the current one first, then those that are local,
/// then the others, by name.
pub open spec fn not_below(a: BranchView, b: BranchView) -> bool {
    if a.is_current != b.is_current {
        a.is_current
    } else if a.is_remote != b.is_remote {
        b.is_remote
    } else {
        text::text_le(a.name, b.name)
    }
}

/// The order as a function.
pub open spec fn picker_order() -> spec_fn(BranchView, BranchView) -> bool {
    |a: BranchView, b: BranchView| not_below(a, b)
}

/// The branches in order.
pub open spec fn ordered(branches: Seq<BranchView>) -> Seq<BranchView> {
    branches.sort_by(picker_order())
}

proof fn lemma_order()
    ensures
        relations::total_ordering(picker_order()),
{
    let r = picker_order();
    assert forall|a: BranchView| #[trigger] r(a, a) by {
        text::lemma_le_reflexive(a.name);
    }
    assert forall|a: BranchView, b: BranchView| #[trigger] r(a, b) && #[trigger] r(b, a) implies a
        == b by {
        text::lemma_le_total(a.name, b.name);
    }
    assert forall|a: BranchView, b: BranchView, c: BranchView| #[trigger]
        r(a, b) && #[trigger] r(b, c) implies r(a, c) by {
        if text::text_le(a.name, b.name) && text::text_le(b.name, c.name) {
            text::lemma_le_transitive(a.name, b.name, c.name);
        }
    }
    assert forall|a: BranchView, b: BranchView| #[trigger] r(a, b) || #[trigger] r(b, a) by {
        text::lemma_le_total(a.name, b.name);
    }
}

fn stays_above(a: &Branch, b: &Branch) -> (r: bool)
    ensures
        r == not_below(a.deep_view(), b.deep_view()),
{
    if a.is_current != b.is_current {
        a.is_current
    } else if a.is_remote != b.is_remote {
        b.is_remote
    } else {
        text::not_after(a.name.as_str(), b.name.as_str())
    }
}

/// Puts a branch into branches that are in order.
fn insert_ordered(kept: &mut Vec<Branch>, b: Branch)
    requires
        relations::sorted_by(old(kept).deep_view(), picker_order()),
    ensures
        relations::sorted_by(final(kept).deep_view(), picker_order()),
        final(kept).deep_view().to_multiset() == old(kept).deep_view().to_multiset().insert(
            b.deep_view(),
        ),
{
    let ghost r = picker_order();
    let ghost before = kept.deep_view();
    let ghost v = b.deep_view();
    let n = kept.len();
    let mut i: usize = 0;
    while i < n && stays_above(&kept[i], &b)
        invariant
            n == kept@.len(),
            i <= n,
            before == kept.deep_view(),
            v == b.deep_view(),
            forall|j: int| 0 <= j < i ==> not_below(#[trigger] before[j], v),
        decreases n - i,
    {
        assert(before[i as int] == kept@[i as int].deep_view());
        i += 1;
    }
    kept.insert(i, b);
    proof {
        let after = before.insert(i as int, v);
        assert(kept.deep_view() =~= after);
        seq_lib::to_multiset_insert(before, i as int, v);
        lemma_order();
        if i < n {
            assert(before[i as int] == old(kept)@[i as int].deep_view());
            assert(r(before[i as int], v) || r(v, before[i as int]));
        }
        assert forall|j: int, k: int| 0 <= j < k < after.len() implies #[trigger] r(
            after[j],
            after[k],
        ) by {
            if j < i && k == i {
                assert(not_below(before[j], v));
            } else if j == i {
                assert(r(v, before[i as int]));
                if k - 1 > i {
                    assert(r(before[i as int], before[k - 1]));
                }
                assert(after[k] == before[k - 1]);
            } else if k < i {
                assert(r(before[j], before[k]));
            } else if j < i {
                assert(r(before[j], before[k - 1]));
            } else {
                assert(r(before[j - 1], before[k - 1]));
            }
        }
    }
}

/// Puts the branches in order: the current one on top, then the local ones, then
/// those of remotes, each by name.
pub fn order_branches(branches: Vec<Branch>) -> (r: Vec<Branch>)
    ensures
        r.deep_view() == ordered(branches.deep_view()),
{
    let ghost all = branches.deep_view();
    let n = branches.len();
    let mut kept: Vec<Branch> = Vec::new();
    assert(kept.deep_view() =~= all.take(0));
    for i in 0..n
        invariant
            n == branches@.len(),
            all == branches.deep_view(),
            relations::sorted_by(kept.deep_view(), picker_order()),
            kept.deep_view().to_multiset() == all.take(i as int).to_multiset(),
    {
        let b = branches[i].clone();
        proof {
            assert(all.take(i + 1) =~= all.take(i as int).push(b.deep_view()));
            seq_lib::to_multiset_build(all.take(i as int), b.deep_view());
        }
        insert_ordered(&mut kept, b);
    }
    proof {
        assert(all.take(n as int) =~= all);
        lemma_order();
        all.lemma_sort_by_ensures(picker_order());
        seq_lib::lemma_sorted_unique(kept.deep_view(), ordered(all), picker_order());
    }
    kept
}

/// Ordering the branches loses and invents none, and leaves each above those
/// that it precedes.
pub proof fn ordering_keeps_the_branches(branches: Seq<BranchView>)
    ensures
        ordered(branches).to_multiset() == branches.to_multiset(),
        forall|i: int, j: int|
            0 <= i < j < ordered(branches).len() ==> #[trigger] not_below(
                ordered(branches)[i],
                ordered(branches)[j],
            ),
{
    lemma_order();
    branches.lemma_sort_by_ensures(picker_order());
    let r = picker_order();
    assert forall|i: int, j: int| 0 <= i < j < ordered(branches).len() implies #[trigger] not_below(
        ordered(branches)[i],
        ordered(branches)[j],
    ) by {
        assert(r(ordered(branches)[i], ordered(branches)[j]));
    }
}

// ---------------------------------------------------------------------------
// Matches
// ---------------------------------------------------------------------------
/// The text that `str::to_lowercase` makes of a text.
pub uninterp spec fn lowercase(s: Seq<char>) -> Seq<char>;

/// The lower-case letter for an upper-case letter of ASCII, else the character.
pub open spec fn ascii_lower(c: char) -> char {
    if 'A' <= c <= 'Z' {
        (c as u32 + 32) as char
    } else {
        c
    }
}

/// The text is of ASCII characters alone.
pub open spec fn is_ascii(s: Seq<char>) -> bool {
    forall|i: int| 0 <= i < s.len() ==> (#[trigger] s[i] as u32) < 128
}

/// The text with its letters from A to Z made small.
pub open spec fn small(s: Seq<char>) -> Seq<char> {
    s.map_values(|c: char| ascii_lower(c))
}

/// `str::to_lowercase`: the result is a function of the text, by the tables of
/// Unicode; a text of ASCII characters alone has its letters from A to Z made
/// small. What becomes of other characters is left unsaid.
#[verifier::external_body]
fn lower(s: &str) -> (r: String)
    ensures
        r@ == lowercase(s@),
        is_ascii(s@) ==> r@ == small(s@),
{
    s.to_lowercase()
}

/// The branches among the first `n` whose text holds `needle`.
pub open spec fn holding(
    branches: Seq<BranchView>,
    texts: Seq<Seq<char>>,
    needle: Seq<char>,
    n: int,
) -> Seq<BranchView>
    decreases n,
{
    if n <= 0 {
        seq![]
    } else if text::occurs(texts[n - 1], needle) {
        holding(branches, texts, needle, n - 1).push(branches[n - 1])
    } else {
        holding(branches, texts, needle, n - 1)
    }
}

/// The branches whose text, one for each of them, holds `needle`.
pub fn branches_holding<'a>(all: &'a [Branch], texts: &[String], needle: &str) -> (r: Vec<
    &'a Branch,
>)
    requires
        texts@.len() == all@.len(),
    ensures
        r.deep_view() == holding(
            all.deep_view(),
            texts.deep_view(),
            needle@,
            all@.len() as int,
        ),
{
    let ghost branches = all.deep_view();
    let ghost words = texts.deep_view();
    let n = all.len();
    let mut r: Vec<&'a Branch> = Vec::new();
    assert(r.deep_view() =~= holding(branches, words, needle@, 0));
    for i in 0..n
        invariant
            n == all@.len(),
            n == texts@.len(),
            branches == all.deep_view(),
            words == texts.deep_view(),
            r.deep_view() == holding(branches, words, needle@, i as int),
    {
        let ghost before = r.deep_view();
        assert(words[i as int] == texts@[i as int]@);
        if text::contains(texts[i].as_str(), needle) {
            r.push(&all[i]);
            assert(r.deep_view() =~= before.push(branches[i as int]));
        }
    }
    r
}

/// The branches whose name holds the query, upper and lower case being the same;
/// all of them for an empty query.
pub open spec fn filtered(branches: Seq<BranchView>, query: Seq<char>) -> Seq<BranchView> {
    if query.len() == 0 {
        branches
    } else {
        holding(
            branches,
            branches.map_values(|b: BranchView| lowercase(b.name)),
            lowercase(query),
            branches.len() as int,
        )
    }
}

/// The branches with a name of ASCII characters alone.
pub open spec fn ascii_named(branches: Seq<BranchView>) -> bool {
    forall|i: int| 0 <= i < branches.len() ==> is_ascii((#[trigger] branches[i]).name)
}

/// The branches whose name holds the query, the letters from A to Z being the
/// same as those from a to z.
pub open spec fn filtered_small(branches: Seq<BranchView>, query: Seq<char>) -> Seq<BranchView> {
    holding(
        branches,
        branches.map_values(|b: BranchView| small(b.name)),
        small(query),
        branches.len() as int,
    )
}

/// The branches whose name holds the query, upper and lower case being the same.
pub fn filtered_branches<'a>(all: &'a [Branch], query: &str) -> (r: Vec<&'a Branch>)
    ensures
        r.deep_view() == filtered(all.deep_view(), query@),
        query@.len() > 0 && is_ascii(query@) && ascii_named(all.deep_view()) ==> r.deep_view()
            == filtered_small(all.deep_view(), query@),
{
    let n = all.len();
    let ghost branches = all.deep_view();
    if query.unicode_len() == 0 {
        let mut r: Vec<&'a Branch> = Vec::new();
        assert(r.deep_view() =~= branches.take(0));
        for i in 0..n
            invariant
                n == all@.len(),
                branches == all.deep_view(),
                r.deep_view() == branches.take(i as int),
        {
            let ghost before = r.deep_view();
            r.push(&all[i]);
            assert(r.deep_view() =~= before.push(branches[i as int]));
            assert(r.deep_view() =~= branches.take(i + 1));
        }
        assert(branches.take(n as int) =~= branches);
        return r;
    }
    let ghost names = branches.map_values(|b: BranchView| lowercase(b.name));
    let mut texts: Vec<String> = Vec::new();
    assert(texts.deep_view() =~= names.take(0));
    for i in 0..n
        invariant
            n == all@.len(),
            branches == all.deep_view(),
            names == branches.map_values(|b: BranchView| lowercase(b.name)),
            texts.deep_view() == names.take(i as int),
            forall|j: int|
                0 <= j < i && is_ascii((#[trigger] branches[j]).name) ==> names[j] == small(
                    branches[j].name,
                ),
    {
        let ghost before = texts.deep_view();
        texts.push(lower(all[i].name.as_str()));
        assert(branches[i as int] == all@[i as int].deep_view());
        assert(texts.deep_view() =~= before.push(names[i as int]));
        assert(texts.deep_view() =~= names.take(i + 1));
    }
    assert(names.take(n as int) =~= names);
    assert(texts.deep_view().len() == texts@.len());
    let needle = lower(query);
    proof {
        if is_ascii(query@) && ascii_named(branches) {
            assert(names =~= branches.map_values(|b: BranchView| small(b.name)));
        }
    }
    branches_holding(all, &texts, needle.as_str())
}

/// What is offered for a query is among the branches, and holds the query.
pub proof fn matches_hold_the_query(branches: Seq<BranchView>, query: Seq<char>, i: int)
    requires
        0 <= i < filtered(branches, query).len(),
    ensures
        branches.contains(filtered(branches, query)[i]),
        query.len() > 0 ==> text::occurs(
            lowercase(filtered(branches, query)[i].name),
            lowercase(query),
        ),
{
    if query.len() > 0 {
        let names = branches.map_values(|b: BranchView| lowercase(b.name));
        let k = lemma_held(branches, names, lowercase(query), branches.len() as int, i);
        assert(names[k] == lowercase(branches[k].name));
    }
}

proof fn lemma_held(
    branches: Seq<BranchView>,
    texts: Seq<Seq<char>>,
    needle: Seq<char>,
    n: int,
    i: int,
) -> (k: int)
    requires
        0 <= i < holding(branches, texts, needle, n).len(),
    ensures
        0 <= k < n,
        branches[k] == holding(branches, texts, needle, n)[i],
        text::occurs(texts[k], needle),
    decreases n,
{
    if text::occurs(texts[n - 1], needle) && i == holding(branches, texts, needle, n - 1).len() {
        n - 1
    } else {
        lemma_held(branches, texts, needle, n - 1, i)
    }
}

proof fn lemma_holds(
    branches: Seq<BranchView>,
    texts: Seq<Seq<char>>,
    needle: Seq<char>,
    n: int,
    k: int,
)
    requires
        0 <= k < n,
        text::occurs(texts[k], needle),
    ensures
        holding(branches, texts, needle, n).contains(branches[k]),
    decreases n,
{
    let before = holding(branches, texts, needle, n - 1);
    let all = holding(branches, texts, needle, n);
    if k == n - 1 {
        assert(all[before.len() as int] == branches[k]);
    } else {
        lemma_holds(branches, texts, needle, n - 1, k);
        let j = choose|j: int| 0 <= j < before.len() && before[j] == branches[k];
        assert(all[j] == branches[k]);
    }
}

/// No branch whose name holds the query is left out.
pub proof fn no_match_is_left_out(branches: Seq<BranchView>, query: Seq<char>, k: int)
    requires
        0 <= k < branches.len(),
        query.len() == 0 || text::occurs(lowercase(branches[k].name), lowercase(query)),
    ensures
        filtered(branches, query).contains(branches[k]),
{
    if query.len() > 0 {
        let names = branches.map_values(|b: BranchView| lowercase(b.name));
        assert(names[k] == lowercase(branches[k].name));
        lemma_holds(branches, names, lowercase(query), branches.len() as int, k);
    }
}

/// The current branch stands on top, then the local branches, then those of
/// remotes; among branches of one kind the names are in the order of their
/// characters.
pub proof fn current_then_local_then_remote(branches: Seq<BranchView>, i: int, j: int)
    requires
        0 <= i < j < ordered(branches).len(),
    ensures
        ({
            let a = ordered(branches)[i];
            let b = ordered(branches)[j];
            &&& b.is_current ==> a.is_current
            &&& a.is_current == b.is_current && a.is_remote ==> b.is_remote
            &&& a.is_current == b.is_current && a.is_remote == b.is_remote ==> text::text_le(
                a.name,
                b.name,
            )
        }),
        ordered(branches).len() == branches.len(),
        branches.contains(ordered(branches)[i]),
{
    ordering_keeps_the_branches(branches);
    assert(not_below(ordered(branches)[i], ordered(branches)[j]));
    let all = ordered(branches);
    all.to_multiset_ensures();
    branches.to_multiset_ensures();
    assert(all.to_multiset().len() == branches.to_multiset().len());
    assert(all.contains(all[i]));
    assert(branches.to_multiset().count(all[i]) > 0);
}

proof fn lemma_holding_of_two(
    a: Seq<BranchView>,
    b: Seq<BranchView>,
    ta: Seq<Seq<char>>,
    tb: Seq<Seq<char>>,
    needle: Seq<char>,
    n: int,
)
    requires
        a.len() == ta.len(),
        b.len() == tb.len(),
        0 <= n <= b.len(),
    ensures
        holding(a + b, ta + tb, needle, a.len() + n) == holding(a, ta, needle, a.len() as int)
            + holding(b, tb, needle, n),
    decreases n,
{
    if n > 0 {
        lemma_holding_of_two(a, b, ta, tb, needle, n - 1);
        assert((ta + tb)[a.len() + n - 1] == tb[n - 1]);
        assert((a + b)[a.len() + n - 1] == b[n - 1]);
        assert(holding(a + b, ta + tb, needle, a.len() + n) =~= holding(
            a,
            ta,
            needle,
            a.len() as int,
        ) + holding(b, tb, needle, n));
    } else {
        lemma_holding_of_start(a, b, ta, tb, needle, a.len() as int);
        assert(holding(b, tb, needle, 0) =~= Seq::<BranchView>::empty());
        assert(holding(a, ta, needle, a.len() as int) + Seq::<BranchView>::empty() =~= holding(
            a,
            ta,
            needle,
            a.len() as int,
        ));
    }
}

proof fn lemma_holding_of_start(
    a: Seq<BranchView>,
    b: Seq<BranchView>,
    ta: Seq<Seq<char>>,
    tb: Seq<Seq<char>>,
    needle: Seq<char>,
    n: int,
)
    requires
        a.len() == ta.len(),
        n <= a.len(),
    ensures
        holding(a + b, ta + tb, needle, n) == holding(a, ta, needle, n),
    decreases n,
{
    if n > 0 {
        lemma_holding_of_start(a, b, ta, tb, needle, n - 1);
        assert((ta + tb)[n - 1] == ta[n - 1]);
        assert((a + b)[n - 1] == a[n - 1]);
    }
}

/// Matches keep the order of the branches, and each branch matches or not by its
/// own name alone.
pub proof fn matches_keep_their_order(
    a: Seq<BranchView>,
    b: Seq<BranchView>,
    one: BranchView,
    query: Seq<char>,
)
    ensures
        filtered(a + b, query) == filtered(a, query) + filtered(b, query),
        query.len() > 0 ==> filtered(seq![one], query) == if text::occurs(
            lowercase(one.name),
            lowercase(query),
        ) {
            seq![one]
        } else {
            seq![]
        },
        query.len() == 0 ==> filtered(a, query) == a,
{
    if query.len() > 0 {
        let name = |x: BranchView| lowercase(x.name);
        let needle = lowercase(query);
        lemma_holding_of_two(
            a,
            b,
            a.map_values(name),
            b.map_values(name),
            needle,
            b.len() as int,
        );
        assert((a + b).map_values(name) =~= a.map_values(name) + b.map_values(name));
        let single = seq![one];
        let texts = single.map_values(name);
        assert(texts[0] == lowercase(one.name));
        assert(holding(single, texts, needle, 0) =~= Seq::<BranchView>::empty());
        assert(holding(single, texts, needle, 1) =~= if text::occurs(texts[0], needle) {
            single
        } else {
            seq![]
        });
    }
}

/// Upper and lower case are the same for the letters from A to Z: a query finds
/// what the same query in small letters finds, and every other character stands
/// for itself.
pub proof fn case_does_not_matter(
    branches: Seq<BranchView>,
    query: Seq<char>,
    other: Seq<char>,
    c: char,
)
    requires
        query.len() == other.len(),
        forall|i: int|
            0 <= i < query.len() ==> #[trigger] query[i] == other[i] || (query[i] as u32 + 32
                == other[i] as u32 && 0x41 <= query[i] as u32 <= 0x5A),
    ensures
        filtered_small(branches, query) == filtered_small(branches, other),
        !(0x41 <= c as u32 <= 0x5A) ==> small(seq![c]) == seq![c],
{
    assert(small(query) =~= small(other)) by {
        assert forall|i: int| 0 <= i < query.len() implies small(query)[i] == small(other)[i] by {
            assert(query[i] == other[i] || query[i] as u32 + 32 == other[i] as u32);
        }
    }
    if !(0x41 <= c as u32 <= 0x5A) {
        assert(small(seq![c]) =~= seq![c]);
    }
}

} // verus!
