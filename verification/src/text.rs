//! Text as the sequence of its characters: searching, splitting, trimming and
//! numbers, each function proved against a definition on `Seq<char>`.

use vstd::prelude::*;

verus! {

/// `String::push`: the character goes to the end.
pub assume_specification[ String::push ](s: &mut String, c: char)
    ensures
        final(s)@ == old(s)@.push(c),
;

// ---------------------------------------------------------------------------
// Definitions
// ---------------------------------------------------------------------------
/// Index of the first `c` in `s`, or the length of `s` if there is none.
pub open spec fn first_at(s: Seq<char>, c: char) -> int
    decreases s.len(),
{
    if s.len() == 0 || s[0] == c {
        0
    } else {
        1 + first_at(s.drop_first(), c)
    }
}

/// The pieces of `s` between the occurrences of `c`, empty ones included.
pub open spec fn pieces(s: Seq<char>, c: char) -> Seq<Seq<char>>
    decreases s.len(),
{
    let i = first_at(s, c);
    if 0 <= i < s.len() {
        seq![s.take(i)] + pieces(s.skip(i + 1), c)
    } else {
        seq![s]
    }
}

/// `line` without one carriage return at its end.
pub open spec fn without_cr(line: Seq<char>) -> Seq<char> {
    if line.len() > 0 && line.last() == '\r' {
        line.drop_last()
    } else {
        line
    }
}

/// The lines of `s`: each ends at a line feed, which it does not hold, nor the
/// carriage return before it. What follows the last line feed is a line if it
/// is not empty.
pub open spec fn lines_of(s: Seq<char>) -> Seq<Seq<char>>
    decreases s.len(),
{
    let i = first_at(s, '\n');
    if s.len() == 0 {
        seq![]
    } else if 0 <= i < s.len() {
        seq![without_cr(s.take(i))] + lines_of(s.skip(i + 1))
    } else {
        seq![s]
    }
}

/// The first line of `s`, or `s` itself if it has no line.
pub open spec fn headline(s: Seq<char>) -> Seq<char> {
    if lines_of(s).len() > 0 {
        lines_of(s)[0]
    } else {
        s
    }
}

/// Unicode's `White_Space` property.
pub open spec fn is_blank(c: char) -> bool {
    ||| 0x09 <= c as u32 <= 0x0D
    ||| c as u32 == 0x20
    ||| c as u32 == 0x85
    ||| c as u32 == 0xA0
    ||| c as u32 == 0x1680
    ||| 0x2000 <= c as u32 <= 0x200A
    ||| 0x2028 <= c as u32 <= 0x2029
    ||| c as u32 == 0x202F
    ||| c as u32 == 0x205F
    ||| c as u32 == 0x3000
}

/// `s` without the blanks at its start.
pub open spec fn trimmed_start(s: Seq<char>) -> Seq<char>
    decreases s.len(),
{
    if s.len() > 0 && is_blank(s[0]) {
        trimmed_start(s.drop_first())
    } else {
        s
    }
}

/// `s` without the blanks at its end.
pub open spec fn trimmed_end(s: Seq<char>) -> Seq<char>
    decreases s.len(),
{
    if s.len() > 0 && is_blank(s.last()) {
        trimmed_end(s.drop_last())
    } else {
        s
    }
}

/// `s` without the blanks at both ends.
pub open spec fn trimmed(s: Seq<char>) -> Seq<char> {
    trimmed_end(trimmed_start(s))
}

/// `s` without the characters `c` at its start.
pub open spec fn without_lead(s: Seq<char>, c: char) -> Seq<char>
    decreases s.len(),
{
    if s.len() > 0 && s[0] == c {
        without_lead(s.drop_first(), c)
    } else {
        s
    }
}

/// Length of the longest start of `s` without blanks.
pub open spec fn word_len(s: Seq<char>) -> int
    decreases s.len(),
{
    if s.len() == 0 || is_blank(s[0]) {
        0
    } else {
        1 + word_len(s.drop_first())
    }
}

/// The words of `s`: its longest stretches without blanks.
pub open spec fn words_of(s: Seq<char>) -> Seq<Seq<char>>
    decreases s.len(),
{
    if s.len() == 0 {
        seq![]
    } else if is_blank(s[0]) {
        words_of(s.drop_first())
    } else {
        let n = word_len(s);
        if 0 < n <= s.len() {
            seq![s.take(n)] + words_of(s.skip(n))
        } else {
            seq![]
        }
    }
}

/// `p` ends `s`.
pub open spec fn ends(s: Seq<char>, p: Seq<char>) -> bool {
    p.len() <= s.len() && s.skip(s.len() - p.len()) == p
}

/// `p` stands in `s` at index `i`.
pub open spec fn stands_at(s: Seq<char>, p: Seq<char>, i: int) -> bool {
    0 <= i <= s.len() - p.len() && s.subrange(i, i + p.len()) == p
}

/// `p` stands somewhere in `s`.
pub open spec fn occurs(s: Seq<char>, p: Seq<char>) -> bool {
    exists|i: int| stands_at(s, p, i)
}

/// Index at which `p` first stands in `s`, or the length of `s` if it does not.
pub open spec fn first_of(s: Seq<char>, p: Seq<char>) -> int
    decreases s.len(),
{
    if s.len() == 0 || p.is_prefix_of(s) {
        0
    } else {
        1 + first_of(s.drop_first(), p)
    }
}

/// `s` after dropping `p` from its end as often as it stands there.
pub open spec fn without_ends(s: Seq<char>, p: Seq<char>) -> Seq<char>
    decreases s.len(),
{
    if p.len() > 0 && ends(s, p) {
        without_ends(s.take(s.len() - p.len()), p)
    } else {
        s
    }
}

/// `s` with `r` in place of each `p`, from left to right and without overlap.
pub open spec fn replaced(s: Seq<char>, p: Seq<char>, r: Seq<char>) -> Seq<char>
    decreases s.len(),
{
    if p.len() == 0 || s.len() < p.len() {
        s
    } else if p.is_prefix_of(s) {
        r + replaced(s.skip(p.len() as int), p, r)
    } else {
        seq![s[0]] + replaced(s.drop_first(), p, r)
    }
}

/// The parts in order, `sep` between each two.
pub open spec fn joined(parts: Seq<Seq<char>>, sep: Seq<char>) -> Seq<char>
    decreases parts.len(),
{
    if parts.len() == 0 {
        seq![]
    } else if parts.len() == 1 {
        parts[0]
    } else {
        joined(parts.drop_last(), sep) + sep + parts.last()
    }
}

/// `n` times `c`.
pub open spec fn run_of(c: char, n: nat) -> Seq<char> {
    Seq::new(n, |i: int| c)
}

/// The decimal digit of `d`, which is below ten.
pub open spec fn digit(d: nat) -> char {
    (0x30 + d) as char
}

/// `n` in decimal.
pub open spec fn decimal(n: nat) -> Seq<char>
    decreases n,
{
    if n < 10 {
        seq![digit(n)]
    } else {
        decimal(n / 10).push(digit(n % 10))
    }
}

/// `c` is a decimal digit.
pub open spec fn is_digit(c: char) -> bool {
    0x30 <= c as u32 <= 0x39
}

/// The number that the digits of `s` write down.
pub open spec fn number(s: Seq<char>) -> nat
    decreases s.len(),
{
    if s.len() == 0 {
        0
    } else {
        number(s.drop_last()) * 10 + (s.last() as u32 - 0x30) as nat
    }
}

/// `s` is one digit or more.
pub open spec fn all_digits(s: Seq<char>) -> bool {
    s.len() > 0 && forall|i: int| 0 <= i < s.len() ==> is_digit(#[trigger] s[i])
}

/// The number at most `max` that `s` writes down, a plus sign before it or not.
pub open spec fn unsigned(s: Seq<char>, max: nat) -> Option<nat> {
    let digits = if s.len() > 0 && s[0] == '+' {
        s.drop_first()
    } else {
        s
    };
    if all_digits(digits) && number(digits) <= max {
        Some(number(digits))
    } else {
        None
    }
}

/// The 64-bit number that `s` writes down, a sign before it or not.
pub open spec fn signed(s: Seq<char>) -> Option<int> {
    if s.len() > 0 && s[0] == '-' {
        let digits = s.drop_first();
        if all_digits(digits) && number(digits) <= 0x8000_0000_0000_0000 {
            Some(-(number(digits) as int))
        } else {
            None
        }
    } else {
        match unsigned(s, 0x7FFF_FFFF_FFFF_FFFF) {
            Some(n) => Some(n as int),
            None => None,
        }
    }
}

/// `a` comes before `b`, or is `b`, in the order of code points.
pub open spec fn text_le(a: Seq<char>, b: Seq<char>) -> bool
    decreases a.len(),
{
    if a.len() == 0 {
        true
    } else if b.len() == 0 {
        false
    } else if a[0] != b[0] {
        (a[0] as u32) < (b[0] as u32)
    } else {
        text_le(a.drop_first(), b.drop_first())
    }
}

// ---------------------------------------------------------------------------
// Facts
// ---------------------------------------------------------------------------
/// `first_at` stops at the first occurrence.
pub proof fn lemma_first_at(s: Seq<char>, c: char)
    ensures
        0 <= first_at(s, c) <= s.len(),
        forall|j: int| 0 <= j < first_at(s, c) ==> s[j] != c,
        first_at(s, c) < s.len() ==> s[first_at(s, c)] == c,
    decreases s.len(),
{
    if s.len() != 0 && s[0] != c {
        lemma_first_at(s.drop_first(), c);
        assert forall|j: int| 0 <= j < first_at(s, c) implies s[j] != c by {
            if j > 0 {
                assert(s[j] == s.drop_first()[j - 1]);
            }
        }
    }
}

/// Where `p` does not stand, there is nothing to replace.
pub proof fn lemma_nothing_replaced(s: Seq<char>, p: Seq<char>, r: Seq<char>)
    requires
        !occurs(s, p),
    ensures
        replaced(s, p, r) == s,
    decreases s.len(),
{
    if p.len() > 0 && s.len() >= p.len() {
        if p.is_prefix_of(s) {
            assert(stands_at(s, p, 0));
        }
        let rest = s.drop_first();
        assert forall|i: int| !stands_at(rest, p, i) by {
            if stands_at(rest, p, i) {
                assert(s.subrange(i + 1, i + 1 + p.len()) =~= rest.subrange(i, i + p.len()));
                assert(stands_at(s, p, i + 1));
            }
        }
        lemma_nothing_replaced(rest, p, r);
        assert(seq![s[0]] + rest =~= s);
    }
}

/// An end that lacks the last character of `p` stays as it is.
pub proof fn lemma_end_not_replaced(s: Seq<char>, t: Seq<char>, p: Seq<char>, r: Seq<char>)
    requires
        p.len() > 0,
        !t.contains(p.last()),
    ensures
        replaced(s + t, p, r) == replaced(s, p, r) + t,
    decreases s.len(),
{
    let all = s + t;
    if s.len() == 0 {
        assert(all =~= t);
        assert forall|i: int| !stands_at(t, p, i) by {
            if stands_at(t, p, i) {
                assert(t[i + p.len() - 1] == t.subrange(i, i + p.len()).last());
            }
        }
        lemma_nothing_replaced(t, p, r);
        assert(s + t =~= t);
    } else if p.is_prefix_of(all) {
        if p.len() > s.len() {
            assert(all[p.len() - 1] == p.last());
            assert(t[p.len() - 1 - s.len()] == p.last());
        }
        assert(p =~= s.take(p.len() as int));
        assert(all.skip(p.len() as int) =~= s.skip(p.len() as int) + t);
        lemma_end_not_replaced(s.skip(p.len() as int), t, p, r);
        assert(replaced(all, p, r) =~= replaced(s, p, r) + t);
    } else {
        if p.is_prefix_of(s) {
            assert(p =~= all.take(p.len() as int));
        }
        assert(all.drop_first() =~= s.drop_first() + t);
        lemma_end_not_replaced(s.drop_first(), t, p, r);
        if s.len() < p.len() {
            assert(seq![s[0]] + s.drop_first() =~= s);
        }
        assert(replaced(all, p, r) =~= replaced(s, p, r) + t);
    }
}

/// `p` stands where it first stands.
pub proof fn lemma_first_of(s: Seq<char>, p: Seq<char>)
    ensures
        0 <= first_of(s, p) <= s.len(),
        first_of(s, p) < s.len() ==> stands_at(s, p, first_of(s, p)),
    decreases s.len(),
{
    if s.len() > 0 {
        if p.is_prefix_of(s) {
            assert(s.subrange(0, p.len() as int) =~= s.take(p.len() as int));
        } else {
            let rest = s.drop_first();
            lemma_first_of(rest, p);
            let i = first_of(rest, p);
            if i < rest.len() {
                assert(s.subrange(i + 1, i + 1 + p.len()) =~= rest.subrange(i, i + p.len()));
            }
        }
    }
}

/// `p` first stands at `i` if it stands there and its first character does not
/// occur before.
pub proof fn lemma_first_of_is(s: Seq<char>, p: Seq<char>, i: int)
    requires
        p.len() > 0,
        stands_at(s, p, i),
        forall|j: int| 0 <= j < i ==> s[j] != p[0],
    ensures
        first_of(s, p) == i,
    decreases i,
{
    if i == 0 {
        assert(s.subrange(0, p.len() as int) =~= s.take(p.len() as int));
    } else {
        if p.is_prefix_of(s) {
            assert(s[0] == p[0]);
        }
        let rest = s.drop_first();
        assert(rest.subrange(i - 1, i - 1 + p.len()) =~= s.subrange(i, i + p.len()));
        lemma_first_of_is(rest, p, i - 1);
    }
}

/// Every text stands before itself.
pub proof fn lemma_le_reflexive(a: Seq<char>)
    ensures
        text_le(a, a),
    decreases a.len(),
{
    if a.len() > 0 {
        lemma_le_reflexive(a.drop_first());
    }
}

/// Of two texts one stands before the other, and where both do, they are equal.
pub proof fn lemma_le_total(a: Seq<char>, b: Seq<char>)
    ensures
        text_le(a, b) || text_le(b, a),
        text_le(a, b) && text_le(b, a) ==> a == b,
    decreases a.len(),
{
    if a.len() > 0 && b.len() > 0 && a[0] == b[0] {
        lemma_le_total(a.drop_first(), b.drop_first());
        assert(seq![a[0]] + a.drop_first() =~= a);
        assert(seq![b[0]] + b.drop_first() =~= b);
    } else if a.len() == 0 && b.len() == 0 {
        assert(a =~= b);
    } else if a.len() > 0 && b.len() > 0 {
        lemma_codes_differ(a[0], b[0]);
    }
}

proof fn lemma_codes_differ(x: char, y: char)
    ensures
        x != y ==> x as u32 != y as u32,
{
}

/// The order of texts is transitive.
pub proof fn lemma_le_transitive(a: Seq<char>, b: Seq<char>, c: Seq<char>)
    requires
        text_le(a, b),
        text_le(b, c),
    ensures
        text_le(a, c),
    decreases a.len(),
{
    if a.len() > 0 && a[0] == b[0] && b[0] == c[0] {
        lemma_le_transitive(a.drop_first(), b.drop_first(), c.drop_first());
    }
}

/// What is left after ends are dropped begins as the whole does, and `p` no
/// longer ends it.
pub proof fn lemma_without_ends(s: Seq<char>, p: Seq<char>)
    requires
        p.len() > 0,
    ensures
        without_ends(s, p).is_prefix_of(s),
        !ends(without_ends(s, p), p),
    decreases s.len(),
{
    if ends(s, p) {
        lemma_without_ends(s.take(s.len() - p.len()), p);
    }
}

/// The only index with `c` at it and none before is `first_at`.
pub proof fn lemma_first_at_is(s: Seq<char>, c: char, i: int)
    requires
        0 <= i <= s.len(),
        forall|j: int| 0 <= j < i ==> s[j] != c,
        i < s.len() ==> s[i] == c,
    ensures
        first_at(s, c) == i,
{
    lemma_first_at(s, c);
}

// ---------------------------------------------------------------------------
// Characters
// ---------------------------------------------------------------------------
/// The characters of `s`.
pub fn to_chars(s: &str) -> (v: Vec<char>)
    ensures
        v@ == s@,
{
    let mut v: Vec<char> = Vec::new();
    for c in it: s.chars()
        invariant
            v@ == s@.take(it.index()),
            it.seq() == s@,
    {
        v.push(c);
    }
    v
}

/// The text made of the characters `v[from..to]`.
pub fn from_chars(v: &[char], from: usize, to: usize) -> (s: String)
    requires
        from <= to <= v@.len(),
    ensures
        s@ == v@.subrange(from as int, to as int),
{
    let mut s = String::new();
    for i in from..to
        invariant
            from <= to <= v@.len(),
            s@ == v@.subrange(from as int, i as int),
    {
        s.push(v[i]);
    }
    s
}

/// Do the two texts hold the same characters?
pub fn same(a: &str, b: &str) -> (r: bool)
    ensures
        r == (a@ == b@),
{
    let x = to_chars(a);
    let y = to_chars(b);
    if x.len() != y.len() {
        return false;
    }
    for i in 0..x.len()
        invariant
            x@ == a@,
            y@ == b@,
            x@.len() == y@.len(),
            forall|j: int| 0 <= j < i ==> x@[j] == y@[j],
    {
        if x[i] != y[i] {
            return false;
        }
    }
    assert(x@ =~= y@);
    true
}

/// Index of the first `c` in `v` at or after `from`, or the length of `v`.
fn find_from(v: &[char], c: char, from: usize) -> (i: usize)
    requires
        from <= v@.len(),
    ensures
        from <= i <= v@.len(),
        i == from + first_at(v@.skip(from as int), c),
{
    let mut i: usize = from;
    while i < v.len() && v[i] != c
        invariant
            from <= i <= v@.len(),
            forall|j: int| from <= j < i ==> v@[j] != c,
        decreases v@.len() - i,
    {
        i += 1;
    }
    proof {
        lemma_first_at_is(v@.skip(from as int), c, i - from);
    }
    i
}

/// The pieces of `s` between the occurrences of `c`.
pub fn split(s: &str, c: char) -> (r: Vec<String>)
    ensures
        r.deep_view() == pieces(s@, c),
{
    let v = to_chars(s);
    let mut r: Vec<String> = Vec::new();
    let mut start: usize = 0;
    assert(v@.skip(0) =~= s@);
    assert(r.deep_view() + pieces(v@.skip(0), c) =~= pieces(s@, c));
    loop
        invariant
            v@ == s@,
            start <= v@.len(),
            r.deep_view() + pieces(v@.skip(start as int), c) == pieces(s@, c),
        decreases v@.len() - start,
    {
        let i = find_from(&v, c, start);
        let ghost rest = v@.skip(start as int);
        let ghost before = r.deep_view();
        r.push(from_chars(&v, start, i));
        assert(rest.take(i - start) =~= v@.subrange(start as int, i as int));
        assert(r.deep_view() =~= before.push(rest.take(i - start)));
        if i == v.len() {
            assert(rest.take(i - start) =~= rest);
            assert(r.deep_view() =~= before + seq![rest]);
            return r;
        }
        proof {
            lemma_first_at(rest, c);
            assert(rest.skip(i - start + 1) =~= v@.skip(i + 1));
            assert(r.deep_view() + pieces(v@.skip(i + 1), c) =~= before + (seq![
                rest.take(i - start),
            ] + pieces(v@.skip(i + 1), c)));
        }
        start = i + 1;
    }
}

/// What stands before and after the first `c` of `s`, if `s` has one.
pub fn split_once<'a>(s: &'a str, c: char) -> (r: Option<(&'a str, &'a str)>)
    ensures
        match r {
            Some((before, after)) => {
                &&& first_at(s@, c) < s@.len()
                &&& before@ == s@.take(first_at(s@, c))
                &&& after@ == s@.skip(first_at(s@, c) + 1)
            },
            None => first_at(s@, c) == s@.len(),
        },
{
    let v = to_chars(s);
    let i = find_from(&v, c, 0);
    assert(v@.skip(0) =~= s@);
    if i == v.len() {
        None
    } else {
        let before = s.substring_char(0, i);
        let after = s.substring_char(i + 1, v.len());
        Some((before, after))
    }
}

/// The lines of `s`.
pub fn lines(s: &str) -> (r: Vec<String>)
    ensures
        r.deep_view() == lines_of(s@),
{
    let v = to_chars(s);
    let mut r: Vec<String> = Vec::new();
    let mut start: usize = 0;
    assert(v@.skip(0) =~= s@);
    assert(r.deep_view() + lines_of(v@.skip(0)) =~= lines_of(s@));
    while start < v.len()
        invariant
            v@ == s@,
            start <= v@.len(),
            r.deep_view() + lines_of(v@.skip(start as int)) == lines_of(s@),
        decreases v@.len() - start,
    {
        let i = find_from(&v, '\n', start);
        let ghost rest = v@.skip(start as int);
        let ghost before = r.deep_view();
        proof {
            lemma_first_at(rest, '\n');
        }
        if i == v.len() {
            r.push(from_chars(&v, start, i));
            assert(v@.subrange(start as int, i as int) =~= rest);
            assert(r.deep_view() =~= before + seq![rest]);
            return r;
        }
        let end: usize = if i > start && v[i - 1] == '\r' {
            i - 1
        } else {
            i
        };
        r.push(from_chars(&v, start, end));
        proof {
            let line = rest.take(i - start);
            assert(without_cr(line) =~= v@.subrange(start as int, end as int));
            assert(r.deep_view() =~= before.push(without_cr(line)));
            assert(rest.skip(i - start + 1) =~= v@.skip(i + 1));
            assert(r.deep_view() + lines_of(v@.skip(i + 1)) =~= before + (seq![without_cr(line)]
                + lines_of(v@.skip(i + 1))));
        }
        start = i + 1;
    }
    assert(v@.skip(start as int) =~= Seq::<char>::empty());
    assert(r.deep_view() + lines_of(v@.skip(start as int)) =~= r.deep_view());
    r
}

/// The first line of `s`, or `s` itself if it has no line.
pub fn first_line(s: &str) -> (r: String)
    ensures
        r@ == headline(s@),
{
    let all = lines(s);
    if all.len() > 0 {
        assert(all.deep_view()[0] == all@[0]@);
        all[0].clone()
    } else {
        s.to_owned()
    }
}

/// Does `p` stand in `v` at `i`?
fn at(v: &[char], p: &[char], i: usize) -> (r: bool)
    requires
        i + p@.len() <= v@.len(),
    ensures
        r == stands_at(v@, p@, i as int),
{
    let n = v.len();
    for j in 0..p.len()
        invariant
            n == v@.len(),
            i + p@.len() <= v@.len(),
            forall|k: int| 0 <= k < j ==> v@[i + k] == p@[k],
    {
        if v[i + j] != p[j] {
            assert(v@.subrange(i as int, i + p@.len())[j as int] != p@[j as int]);
            return false;
        }
    }
    assert(v@.subrange(i as int, i + p@.len()) =~= p@);
    true
}

/// Does `s` start with `p`?
pub fn starts_with(s: &str, p: &str) -> (r: bool)
    ensures
        r == p@.is_prefix_of(s@),
{
    let v = to_chars(s);
    let w = to_chars(p);
    if w.len() > v.len() {
        return false;
    }
    at(&v, &w, 0)
}

/// What follows `p` in `s`, if `s` starts with `p`.
pub fn strip_prefix<'a>(s: &'a str, p: &str) -> (r: Option<&'a str>)
    ensures
        match r {
            Some(rest) => p@.is_prefix_of(s@) && rest@ == s@.skip(p@.len() as int),
            None => !p@.is_prefix_of(s@),
        },
{
    if starts_with(s, p) {
        let n = s.unicode_len();
        let k = p.unicode_len();
        Some(s.substring_char(k, n))
    } else {
        None
    }
}

/// Does `s` end with `p`?
pub fn ends_with(s: &str, p: &str) -> (r: bool)
    ensures
        r == ends(s@, p@),
{
    let v = to_chars(s);
    let w = to_chars(p);
    if w.len() > v.len() {
        return false;
    }
    let k: usize = v.len() - w.len();
    assert(s@.skip(k as int) =~= s@.subrange(k as int, k + p@.len()));
    at(&v, &w, k)
}

/// Does `p` stand somewhere in `s`?
pub fn contains(s: &str, p: &str) -> (r: bool)
    ensures
        r == occurs(s@, p@),
{
    let v = to_chars(s);
    let w = to_chars(p);
    if w.len() > v.len() {
        assert forall|i: int| !stands_at(s@, p@, i) by {}
        return false;
    }
    let last: usize = v.len() - w.len();
    let mut i: usize = 0;
    loop
        invariant
            v@ == s@,
            w@ == p@,
            last == v@.len() - w@.len(),
            i <= last,
            forall|j: int| 0 <= j < i ==> !stands_at(s@, p@, j),
        decreases last - i,
    {
        if at(&v, &w, i) {
            return true;
        }
        if i == last {
            assert forall|j: int| !stands_at(s@, p@, j) by {}
            return false;
        }
        i += 1;
    }
}

/// What follows the first `p` in `s`.
pub fn after_first<'a>(s: &'a str, p: &str) -> (r: Option<&'a str>)
    requires
        p@.len() > 0,
    ensures
        match r {
            Some(rest) => {
                &&& first_of(s@, p@) + p@.len() <= s@.len()
                &&& rest@ == s@.skip(first_of(s@, p@) + p@.len())
            },
            None => first_of(s@, p@) == s@.len(),
        },
{
    let v = to_chars(s);
    let w = to_chars(p);
    let mut i: usize = 0;
    assert(v@.skip(0) =~= s@);
    while i < v.len()
        invariant
            v@ == s@,
            w@ == p@,
            p@.len() > 0,
            i <= v@.len(),
            first_of(s@, p@) == i + first_of(v@.skip(i as int), p@),
        decreases v@.len() - i,
    {
        let ghost rest = v@.skip(i as int);
        if w.len() <= v.len() - i && at(&v, &w, i) {
            assert(rest.subrange(0, p@.len() as int) =~= v@.subrange(i as int, i + p@.len()));
            return Some(s.substring_char(i + w.len(), v.len()));
        }
        proof {
            if p@.is_prefix_of(rest) {
                assert(rest.subrange(0, p@.len() as int) =~= v@.subrange(i as int, i + p@.len()));
                assert(stands_at(v@, p@, i as int));
            }
            assert(rest.drop_first() =~= v@.skip(i + 1));
        }
        i += 1;
    }
    None
}

/// Is `c` a blank?
pub fn blank(c: char) -> (r: bool)
    ensures
        r == is_blank(c),
{
    let u = c as u32;
    (0x09 <= u && u <= 0x0D) || u == 0x20 || u == 0x85 || u == 0xA0 || u == 0x1680 || (0x2000 <= u
        && u <= 0x200A) || (0x2028 <= u && u <= 0x2029) || u == 0x202F || u == 0x205F || u == 0x3000
}

/// `s` without the blanks at both ends.
pub fn trim<'a>(s: &'a str) -> (r: &'a str)
    ensures
        r@ == trimmed(s@),
{
    let v = to_chars(s);
    let mut from: usize = 0;
    assert(v@.skip(0) =~= s@);
    while from < v.len() && blank(v[from])
        invariant
            v@ == s@,
            from <= v@.len(),
            trimmed_start(v@.skip(from as int)) == trimmed_start(s@),
        decreases v@.len() - from,
    {
        assert(v@.skip(from as int).drop_first() =~= v@.skip(from + 1));
        from += 1;
    }
    let mut to: usize = v.len();
    assert(v@.subrange(from as int, to as int) =~= v@.skip(from as int));
    while to > from && blank(v[to - 1])
        invariant
            v@ == s@,
            from <= to <= v@.len(),
            trimmed_end(v@.subrange(from as int, to as int)) == trimmed(s@),
        decreases to - from,
    {
        assert(v@.subrange(from as int, to as int).drop_last() =~= v@.subrange(
            from as int,
            to - 1,
        ));
        to -= 1;
    }
    s.substring_char(from, to)
}

/// `s` without the characters `c` at its start.
pub fn trim_start_char<'a>(s: &'a str, c: char) -> (r: &'a str)
    ensures
        r@ == without_lead(s@, c),
{
    let v = to_chars(s);
    let mut from: usize = 0;
    assert(v@.skip(0) =~= s@);
    while from < v.len() && v[from] == c
        invariant
            v@ == s@,
            from <= v@.len(),
            without_lead(v@.skip(from as int), c) == without_lead(s@, c),
        decreases v@.len() - from,
    {
        assert(v@.skip(from as int).drop_first() =~= v@.skip(from + 1));
        from += 1;
    }
    let r = s.substring_char(from, v.len());
    assert(r@ =~= v@.skip(from as int));
    r
}

/// The words of `s`.
pub fn words(s: &str) -> (r: Vec<String>)
    ensures
        r.deep_view() == words_of(s@),
{
    let v = to_chars(s);
    let mut r: Vec<String> = Vec::new();
    let mut start: usize = 0;
    assert(v@.skip(0) =~= s@);
    assert(r.deep_view() + words_of(v@.skip(0)) =~= words_of(s@));
    while start < v.len()
        invariant
            v@ == s@,
            start <= v@.len(),
            r.deep_view() + words_of(v@.skip(start as int)) == words_of(s@),
        decreases v@.len() - start,
    {
        let ghost rest = v@.skip(start as int);
        let ghost before = r.deep_view();
        if blank(v[start]) {
            assert(rest.drop_first() =~= v@.skip(start + 1));
            start += 1;
        } else {
            let mut end: usize = start;
            while end < v.len() && !blank(v[end])
                invariant
                    v@ == s@,
                    start <= end <= v@.len(),
                    rest == v@.skip(start as int),
                    word_len(rest) == (end - start) + word_len(v@.skip(end as int)),
                decreases v@.len() - end,
            {
                assert(v@.skip(end as int).drop_first() =~= v@.skip(end + 1));
                end += 1;
            }
            r.push(from_chars(&v, start, end));
            proof {
                let n = end - start;
                assert(word_len(rest) == n);
                assert(rest.take(n) =~= v@.subrange(start as int, end as int));
                assert(rest.skip(n) =~= v@.skip(end as int));
                assert(r.deep_view() =~= before.push(rest.take(n)));
                assert(r.deep_view() + words_of(v@.skip(end as int)) =~= before + (seq![
                    rest.take(n),
                ] + words_of(v@.skip(end as int))));
            }
            start = end;
        }
    }
    assert(v@.skip(start as int) =~= Seq::<char>::empty());
    assert(r.deep_view() + words_of(v@.skip(start as int)) =~= r.deep_view());
    r
}

/// `s` after dropping `p` from its end as often as it stands there.
pub fn trim_ends<'a>(s: &'a str, p: &str) -> (r: &'a str)
    ensures
        r@ == without_ends(s@, p@),
{
    let v = to_chars(s);
    let w = to_chars(p);
    let mut to: usize = v.len();
    assert(v@.take(to as int) =~= s@);
    while w.len() > 0 && w.len() <= to && at(&v, &w, to - w.len())
        invariant
            v@ == s@,
            w@ == p@,
            to <= v@.len(),
            without_ends(v@.take(to as int), p@) == without_ends(s@, p@),
        decreases to,
    {
        let ghost cur = v@.take(to as int);
        let ghost k = to - w@.len();
        assert(cur.skip(k) =~= v@.subrange(k, k + p@.len()));
        assert(cur.take(k) =~= v@.take(k));
        to -= w.len();
    }
    proof {
        let cur = v@.take(to as int);
        if p@.len() > 0 && ends(cur, p@) {
            let k = to - w@.len();
            assert(cur.skip(k) =~= v@.subrange(k, k + p@.len()));
        }
        assert(without_ends(cur, p@) == cur);
    }
    s.substring_char(0, to)
}

/// `s` with `r` in place of each `p`.
pub fn replace(s: &str, p: &str, r: &str) -> (out: String)
    ensures
        out@ == replaced(s@, p@, r@),
{
    let v = to_chars(s);
    let w = to_chars(p);
    let mut out = String::new();
    let mut i: usize = 0;
    assert(v@.skip(0) =~= s@);
    assert(out@ + replaced(v@.skip(0), p@, r@) =~= replaced(s@, p@, r@));
    while w.len() > 0 && w.len() <= v.len() - i
        invariant
            v@ == s@,
            w@ == p@,
            i <= v@.len(),
            out@ + replaced(v@.skip(i as int), p@, r@) == replaced(s@, p@, r@),
        decreases v@.len() - i,
    {
        let ghost rest = v@.skip(i as int);
        let ghost before = out@;
        assert(rest.subrange(0, p@.len() as int) =~= v@.subrange(i as int, i + p@.len()));
        if at(&v, &w, i) {
            out.append(r);
            assert(rest.skip(p@.len() as int) =~= v@.skip(i + p@.len()));
            assert(out@ + replaced(v@.skip(i + p@.len()), p@, r@) =~= before + (r@ + replaced(
                v@.skip(i + p@.len()),
                p@,
                r@,
            )));
            i += w.len();
        } else {
            out.push(v[i]);
            assert(rest.drop_first() =~= v@.skip(i + 1));
            assert(out@ + replaced(v@.skip(i + 1), p@, r@) =~= before + (seq![rest[0]] + replaced(
                v@.skip(i + 1),
                p@,
                r@,
            )));
            i += 1;
        }
    }
    let tail = from_chars(&v, i, v.len());
    assert(tail@ =~= v@.skip(i as int));
    out.append(tail.as_str());
    out
}

/// The parts in order, `sep` between each two.
pub fn join(parts: &[String], sep: &str) -> (out: String)
    ensures
        out@ == joined(parts.deep_view(), sep@),
{
    let mut out = String::new();
    let ghost all = parts.deep_view();
    assert(out@ =~= joined(all.take(0), sep@));
    for i in 0..parts.len()
        invariant
            all == parts.deep_view(),
            out@ == joined(all.take(i as int), sep@),
    {
        if i > 0 {
            out.append(sep);
        }
        out.append(parts[i].as_str());
        assert(all.take(i + 1).drop_last() =~= all.take(i as int));
        assert(all.take(i + 1).last() == all[i as int]);
        if i == 0 {
            assert(out@ =~= all[0]);
        }
    }
    assert(all.take(parts@.len() as int) =~= all);
    out
}

/// `n` times `c`.
pub fn repeat(c: char, n: usize) -> (out: String)
    ensures
        out@ == run_of(c, n as nat),
{
    let mut out = String::new();
    assert(out@ =~= run_of(c, 0));
    for i in 0..n
        invariant
            out@ == run_of(c, i as nat),
    {
        out.push(c);
        assert(out@ =~= run_of(c, (i + 1) as nat));
    }
    out
}

/// Appends `n` in decimal.
pub fn push_number(out: &mut String, n: u64)
    ensures
        final(out)@ == old(out)@ + decimal(n as nat),
    decreases n,
{
    if n >= 10 {
        push_number(out, n / 10);
    }
    let d = (0x30 + (n % 10) as u8) as char;
    let ghost before = out@;
    out.push(d);
    proof {
        assert(d == digit((n % 10) as nat));
        if n >= 10 {
            assert(out@ =~= old(out)@ + decimal((n / 10) as nat).push(d));
        } else {
            assert(out@ =~= old(out)@ + seq![d]);
        }
    }
}

/// `n` in decimal.
pub fn number_text(n: u64) -> (r: String)
    ensures
        r@ == decimal(n as nat),
{
    let mut r = String::new();
    push_number(&mut r, n);
    assert(r@ =~= decimal(n as nat));
    r
}

/// The number that the digits `v[from..]` write down, if they are digits and it
/// is at most `max`.
fn digits_value(v: &[char], from: usize, max: u64) -> (r: Option<u64>)
    requires
        from <= v@.len(),
    ensures
        match r {
            Some(n) => all_digits(v@.skip(from as int)) && number(v@.skip(from as int)) == n
                && n <= max,
            None => !(all_digits(v@.skip(from as int)) && number(v@.skip(from as int)) <= max),
        },
{
    if from == v.len() {
        return None;
    }
    let ghost d = v@.skip(from as int);
    let mut n: u64 = 0;
    let mut over: bool = false;
    for i in from..v.len()
        invariant
            from <= v@.len(),
            d == v@.skip(from as int),
            forall|j: int| 0 <= j < i - from ==> is_digit(#[trigger] d[j]),
            !over ==> number(d.take(i - from)) == n && n <= max,
            over ==> number(d.take(i - from)) > max,
    {
        let c = v[i] as u32;
        assert(d[i - from] == v@[i as int]);
        if c < 0x30 || c > 0x39 {
            return None;
        }
        let k = (c - 0x30) as u64;
        assert(d.take(i + 1 - from).drop_last() =~= d.take(i - from));
        assert(number(d.take(i + 1 - from)) == number(d.take(i - from)) * 10 + k);
        if !over {
            if n > max / 10 || k > max || n * 10 > max - k {
                over = true;
            } else {
                n = n * 10 + k;
            }
        }
    }
    assert(d.take(v@.len() - from) =~= d);
    if over {
        None
    } else {
        Some(n)
    }
}

/// The number at most `max` that `s` writes down.
pub fn parse_unsigned(s: &str, max: u64) -> (r: Option<u64>)
    ensures
        match r {
            Some(n) => unsigned(s@, max as nat) == Some(n as nat),
            None => unsigned(s@, max as nat) is None,
        },
{
    let v = to_chars(s);
    if v.len() > 0 && v[0] == '+' {
        assert(v@.skip(1) =~= s@.drop_first());
        digits_value(&v, 1, max)
    } else {
        assert(v@.skip(0) =~= s@);
        digits_value(&v, 0, max)
    }
}

/// The 64-bit number that `s` writes down.
pub fn parse_signed(s: &str) -> (r: Option<i64>)
    ensures
        match r {
            Some(n) => signed(s@) == Some(n as int),
            None => signed(s@) is None,
        },
{
    let v = to_chars(s);
    if v.len() > 0 && v[0] == '-' {
        assert(v@.skip(1) =~= s@.drop_first());
        match digits_value(&v, 1, 0x8000_0000_0000_0000) {
            Some(n) => if n == 0x8000_0000_0000_0000 {
                Some(i64::MIN)
            } else {
                Some(-(n as i64))
            },
            None => None,
        }
    } else {
        match parse_unsigned(s, 0x7FFF_FFFF_FFFF_FFFF) {
            Some(n) => Some(n as i64),
            None => None,
        }
    }
}

/// Does `a` come before `b`, or is it `b`, in the order of code points?
pub fn not_after(a: &str, b: &str) -> (r: bool)
    ensures
        r == text_le(a@, b@),
{
    let x = to_chars(a);
    let y = to_chars(b);
    let mut i: usize = 0;
    assert(x@.skip(0) =~= a@);
    assert(y@.skip(0) =~= b@);
    while i < x.len() && i < y.len() && x[i] == y[i]
        invariant
            i <= x@.len(),
            i <= y@.len(),
            text_le(x@.skip(i as int), y@.skip(i as int)) == text_le(a@, b@),
        decreases x@.len() - i,
    {
        assert(x@.skip(i as int).drop_first() =~= x@.skip(i + 1));
        assert(y@.skip(i as int).drop_first() =~= y@.skip(i + 1));
        i += 1;
    }
    if i == x.len() {
        true
    } else if i == y.len() {
        false
    } else {
        (x[i] as u32) < (y[i] as u32)
    }
}

/// A copy of the texts.
pub fn copy_all(v: &[String]) -> (r: Vec<String>)
    ensures
        r.deep_view() == v.deep_view(),
{
    let mut r: Vec<String> = Vec::new();
    for i in 0..v.len()
        invariant
            r.deep_view() == v.deep_view().take(i as int),
    {
        let ghost before = r.deep_view();
        r.push(v[i].clone());
        assert(r.deep_view() =~= before.push(v@[i as int]@));
        assert(v.deep_view().take(i + 1) =~= v.deep_view().take(i as int).push(v@[i as int]@));
    }
    assert(v.deep_view().take(v@.len() as int) =~= v.deep_view());
    r
}

/// A copy of the text, if there is one.
pub fn copy_some(s: &Option<String>) -> (r: Option<String>)
    ensures
        r.deep_view() == s.deep_view(),
{
    match s {
        Some(t) => Some(t.clone()),
        None => None,
    }
}

/// A copy of the texts, those that are there.
pub fn copy_options(v: &[Option<String>]) -> (r: Vec<Option<String>>)
    ensures
        r.deep_view() == v.deep_view(),
{
    let mut r: Vec<Option<String>> = Vec::new();
    for i in 0..v.len()
        invariant
            r.deep_view() == v.deep_view().take(i as int),
    {
        let ghost before = r.deep_view();
        r.push(copy_some(&v[i]));
        assert(r.deep_view() =~= before.push(v@[i as int].deep_view()));
        assert(v.deep_view().take(i + 1) =~= v.deep_view().take(i as int).push(
            v@[i as int].deep_view(),
        ));
    }
    assert(v.deep_view().take(v@.len() as int) =~= v.deep_view());
    r
}

/// Two texts, one after the other.
pub fn concat(a: &str, b: &str) -> (r: String)
    ensures
        r@ == a@ + b@,
{
    let mut r = a.to_owned();
    r.append(b);
    r
}

/// `s` without its last character, if it has one.
pub open spec fn shortened(s: Seq<char>) -> Seq<char> {
    if s.len() > 0 {
        s.drop_last()
    } else {
        s
    }
}

/// `s` without its last character, if it has one.
pub fn without_last(s: &str) -> (r: String)
    ensures
        r@ == shortened(s@),
{
    let v = to_chars(s);
    let n = v.len();
    if n == 0 {
        s.to_owned()
    } else {
        let r = from_chars(&v, 0, n - 1);
        assert(r@ =~= s@.drop_last());
        r
    }
}

/// `s` with one more character.
pub fn with_char(s: &str, c: char) -> (r: String)
    ensures
        r@ == s@.push(c),
{
    let mut r = s.to_owned();
    r.push(c);
    r
}

// ---------------------------------------------------------------------------
// Laws
// ---------------------------------------------------------------------------
/// Parts are joined from the first on.
pub proof fn lemma_joined_first(first: Seq<char>, rest: Seq<Seq<char>>, sep: Seq<char>)
    requires
        rest.len() > 0,
    ensures
        joined(seq![first] + rest, sep) == first + sep + joined(rest, sep),
    decreases rest.len(),
{
    let all = seq![first] + rest;
    assert(all.drop_last() =~= seq![first] + rest.drop_last());
    assert(all.last() == rest.last());
    if rest.len() == 1 {
        assert(all.drop_last() =~= seq![first]);
        assert(joined(seq![first], sep) == first);
    } else {
        lemma_joined_first(first, rest.drop_last(), sep);
        assert(joined(all, sep) =~= first + sep + joined(rest, sep));
    }
}

/// What is split comes back when the pieces are joined.
pub proof fn joining_undoes_splitting(s: Seq<char>, c: char)
    ensures
        joined(pieces(s, c), seq![c]) == s,
    decreases s.len(),
{
    lemma_first_at(s, c);
    let i = first_at(s, c);
    if i < s.len() {
        let rest = s.skip(i + 1);
        joining_undoes_splitting(rest, c);
        lemma_pieces_nonempty(rest, c);
        lemma_joined_first(s.take(i), pieces(rest, c), seq![c]);
        assert(s =~= s.take(i) + seq![c] + rest);
    }
}

proof fn lemma_pieces_nonempty(s: Seq<char>, c: char)
    ensures
        pieces(s, c).len() > 0,
{
}

/// What is joined comes back when it is split, where no part holds the
/// separator.
pub proof fn splitting_undoes_joining(parts: Seq<Seq<char>>, c: char)
    requires
        parts.len() > 0,
        forall|i: int| 0 <= i < parts.len() ==> !(#[trigger] parts[i]).contains(c),
    ensures
        pieces(joined(parts, seq![c]), c) == parts,
    decreases parts.len(),
{
    let first = parts[0];
    if parts.len() == 1 {
        lemma_first_at_is(first, c, first.len() as int);
        assert(parts =~= seq![first]);
    } else {
        let rest = parts.drop_first();
        assert forall|i: int| 0 <= i < rest.len() implies !(#[trigger] rest[i]).contains(c) by {
            assert(rest[i] == parts[i + 1]);
        }
        splitting_undoes_joining(rest, c);
        assert(parts =~= seq![first] + rest);
        lemma_joined_first(first, rest, seq![c]);
        let all = joined(parts, seq![c]);
        assert forall|j: int| 0 <= j < first.len() implies all[j] != c by {
            assert(all[j] == first[j]);
        }
        assert(all[first.len() as int] == c);
        lemma_first_at_is(all, c, first.len() as int);
        assert(all.take(first.len() as int) =~= first);
        assert(all.skip(first.len() as int + 1) =~= joined(rest, seq![c]));
    }
}

/// A number in decimal is made of digits.
pub proof fn lemma_decimal_digits(n: nat)
    ensures
        all_digits(decimal(n)),
        number(decimal(n)) == n,
    decreases n,
{
    if n < 10 {
        lemma_digit(n);
        assert(decimal(n).drop_last() =~= Seq::<char>::empty());
        assert(number(Seq::<char>::empty()) == 0);
        assert(decimal(n).last() == digit(n));
    } else {
        let d = decimal(n);
        lemma_decimal_digits(n / 10);
        lemma_digit(n % 10);
        assert(d.drop_last() =~= decimal(n / 10));
        assert forall|i: int| 0 <= i < d.len() implies is_digit(#[trigger] d[i]) by {
            if i < d.len() - 1 {
                assert(d[i] == decimal(n / 10)[i]);
            }
        }
    }
}

proof fn lemma_digit(d: nat)
    requires
        d < 10,
    ensures
        is_digit(digit(d)),
        digit(d) as u32 == 0x30 + d,
{
}

/// A number that is written in decimal is read back.
pub proof fn numbers_are_read_back(n: nat, max: nat)
    requires
        n <= max,
    ensures
        unsigned(decimal(n), max) == Some(n),
{
    lemma_decimal_digits(n);
    assert(is_digit(decimal(n)[0]));
}

proof fn lemma_word_len_is(s: Seq<char>, n: int)
    requires
        0 <= n <= s.len(),
        forall|j: int| 0 <= j < n ==> !is_blank(#[trigger] s[j]),
        n == s.len() || is_blank(s[n]),
    ensures
        word_len(s) == n,
    decreases n,
{
    if n > 0 {
        let rest = s.drop_first();
        assert forall|j: int| 0 <= j < n - 1 implies !is_blank(#[trigger] rest[j]) by {
            assert(rest[j] == s[j + 1]);
        }
        assert(!is_blank(s[0]));
        lemma_word_len_is(rest, n - 1);
    }
}

/// Two words with a blank between them are read back.
pub proof fn two_words_are_read_back(a: Seq<char>, b: Seq<char>)
    requires
        a.len() > 0,
        b.len() > 0,
        forall|j: int| 0 <= j < a.len() ==> !is_blank(#[trigger] a[j]),
        forall|j: int| 0 <= j < b.len() ==> !is_blank(#[trigger] b[j]),
    ensures
        words_of(a + seq![' '] + b) == seq![a, b],
{
    let all = a + seq![' '] + b;
    assert forall|j: int| 0 <= j < a.len() implies !is_blank(#[trigger] all[j]) by {
        assert(all[j] == a[j]);
    }
    assert(!is_blank(all[0]));
    lemma_word_len_is(all, a.len() as int);
    assert(all.take(a.len() as int) =~= a);
    let rest = all.skip(a.len() as int);
    assert(rest[0] == ' ');
    assert(rest.drop_first() =~= b);
    assert(!is_blank(b[0]));
    lemma_word_len_is(b, b.len() as int);
    assert(b.take(b.len() as int) =~= b);
    let none = b.skip(b.len() as int);
    assert(none.len() == 0);
    assert(words_of(none) =~= Seq::<Seq<char>>::empty());
    assert(words_of(b) =~= seq![b]);
    assert(is_blank(rest[0]));
    assert(words_of(rest) == words_of(b));
    assert(words_of(all) == seq![a] + words_of(rest));
    assert(words_of(all) =~= seq![a, b]);
}

/// No piece holds what the text is split at.
pub proof fn pieces_hold_no_separator(s: Seq<char>, c: char, i: int)
    requires
        0 <= i < pieces(s, c).len(),
    ensures
        !pieces(s, c)[i].contains(c),
    decreases s.len(),
{
    lemma_first_at(s, c);
    let k = first_at(s, c);
    if k < s.len() {
        if i == 0 {
            assert(pieces(s, c)[0] =~= s.take(k));
        } else {
            let rest = s.skip(k + 1);
            pieces_hold_no_separator(rest, c, i - 1);
            assert(pieces(s, c)[i] == pieces(rest, c)[i - 1]);
        }
    }
}

/// A line that a line feed ends is the first line, a carriage return before the
/// line feed left out; what follows is read on.
pub proof fn first_line_is_split_off(line: Seq<char>, rest: Seq<char>)
    requires
        !line.contains('\n'),
        line.len() == 0 || line.last() != '\r',
    ensures
        lines_of(line + seq!['\n'] + rest) == seq![line] + lines_of(rest),
        lines_of(line + seq!['\r', '\n'] + rest) == seq![line] + lines_of(rest),
{
    let n = line.len() as int;
    let plain = line + seq!['\n'] + rest;
    assert forall|j: int| 0 <= j < n implies plain[j] != '\n' by {
        assert(plain[j] == line[j]);
    }
    lemma_first_at_is(plain, '\n', n);
    assert(plain.take(n) =~= line);
    assert(plain.skip(n + 1) =~= rest);
    let full = line + seq!['\r', '\n'] + rest;
    assert forall|j: int| 0 <= j < n + 1 implies full[j] != '\n' by {
        if j < n {
            assert(full[j] == line[j]);
        }
    }
    lemma_first_at_is(full, '\n', n + 1);
    assert(full.take(n + 1).drop_last() =~= line);
    assert(full.take(n + 1).last() == '\r');
    assert(full.skip(n + 2) =~= rest);
}

/// What no line feed ends is a line as it stands, if it is not empty.
pub proof fn last_line_needs_no_end(line: Seq<char>)
    requires
        !line.contains('\n'),
    ensures
        line.len() > 0 ==> lines_of(line) == seq![line],
        line.len() == 0 ==> lines_of(line).len() == 0,
        headline(line) == line,
{
    lemma_first_at_is(line, '\n', line.len() as int);
}

/// The headline is what stands before the first line feed.
pub proof fn headline_stands_first(line: Seq<char>, rest: Seq<char>)
    requires
        !line.contains('\n'),
        line.len() == 0 || line.last() != '\r',
    ensures
        headline(line + seq!['\n'] + rest) == line,
        headline(line + seq!['\r', '\n'] + rest) == line,
{
    first_line_is_split_off(line, rest);
}

/// Blanks around a text that neither begins nor ends with one are cut off, and
/// nothing else is.
pub proof fn blanks_around_are_cut(before: Seq<char>, s: Seq<char>, after: Seq<char>)
    requires
        forall|i: int| 0 <= i < before.len() ==> is_blank(#[trigger] before[i]),
        forall|i: int| 0 <= i < after.len() ==> is_blank(#[trigger] after[i]),
        s.len() > 0 ==> !is_blank(s[0]) && !is_blank(s.last()),
    ensures
        trimmed(before + s + after) == s,
{
    lemma_start_cut(before, s + after);
    assert(before + (s + after) =~= before + s + after);
    if s.len() > 0 {
        assert((s + after)[0] == s[0]);
        lemma_end_cut(s, after);
    } else {
        assert(s + after =~= after);
        lemma_start_cut(after, Seq::<char>::empty());
        assert(after + Seq::<char>::empty() =~= after);
        assert(trimmed_start(Seq::<char>::empty()) =~= Seq::<char>::empty());
        assert(trimmed_end(Seq::<char>::empty()) =~= Seq::<char>::empty());
        assert(s =~= Seq::<char>::empty());
    }
}

proof fn lemma_start_cut(blanks: Seq<char>, s: Seq<char>)
    requires
        forall|i: int| 0 <= i < blanks.len() ==> is_blank(#[trigger] blanks[i]),
    ensures
        trimmed_start(blanks + s) == trimmed_start(s),
    decreases blanks.len(),
{
    if blanks.len() > 0 {
        let rest = blanks.drop_first();
        assert forall|i: int| 0 <= i < rest.len() implies is_blank(#[trigger] rest[i]) by {
            assert(rest[i] == blanks[i + 1]);
        }
        assert((blanks + s)[0] == blanks[0]);
        assert((blanks + s).drop_first() =~= rest + s);
        lemma_start_cut(rest, s);
    } else {
        assert(blanks + s =~= s);
    }
}

proof fn lemma_end_cut(s: Seq<char>, blanks: Seq<char>)
    requires
        forall|i: int| 0 <= i < blanks.len() ==> is_blank(#[trigger] blanks[i]),
    ensures
        trimmed_end(s + blanks) == trimmed_end(s),
    decreases blanks.len(),
{
    if blanks.len() > 0 {
        let less = blanks.drop_last();
        assert forall|i: int| 0 <= i < less.len() implies is_blank(#[trigger] less[i]) by {
            assert(less[i] == blanks[i]);
        }
        assert((s + blanks).last() == blanks.last());
        assert((s + blanks).drop_last() =~= s + less);
        lemma_end_cut(s, less);
    } else {
        assert(s + blanks =~= s);
    }
}

/// A word that a blank ends is the first word; what follows is read on. A blank
/// at the start says nothing, and a word alone is the only one.
pub proof fn first_word_is_split_off(word: Seq<char>, blank: char, rest: Seq<char>)
    requires
        word.len() > 0,
        forall|j: int| 0 <= j < word.len() ==> !is_blank(#[trigger] word[j]),
        is_blank(blank),
    ensures
        words_of(word + seq![blank] + rest) == seq![word] + words_of(rest),
        words_of(word) == seq![word],
        words_of(seq![blank] + rest) == words_of(rest),
        words_of(Seq::<char>::empty()).len() == 0,
{
    let n = word.len() as int;
    let all = word + seq![blank] + rest;
    assert forall|j: int| 0 <= j < n implies !is_blank(#[trigger] all[j]) by {
        assert(all[j] == word[j]);
    }
    assert(!is_blank(all[0]));
    lemma_word_len_is(all, n);
    assert(all.take(n) =~= word);
    let tail = seq![blank] + rest;
    assert(all.skip(n) =~= tail);
    assert(tail.drop_first() =~= rest);
    assert(words_of(tail) == words_of(rest));
    assert(words_of(all) == seq![all.take(n)] + words_of(all.skip(n)));
    assert(!is_blank(word[0]));
    lemma_word_len_is(word, n);
    assert(word.take(n) =~= word);
    assert(word.skip(n) =~= Seq::<char>::empty());
    assert(words_of(Seq::<char>::empty()) =~= Seq::<Seq<char>>::empty());
    assert(words_of(word) =~= seq![word]);
}

/// A number in decimal begins with no zero, unless it is zero.
pub proof fn decimal_has_no_leading_zero(n: nat)
    ensures
        decimal(n).len() > 0,
        decimal(n)[0] == '0' ==> n == 0 && decimal(n).len() == 1,
    decreases n,
{
    if n < 10 {
        lemma_digit(n);
    } else {
        decimal_has_no_leading_zero(n / 10);
        assert(decimal(n)[0] == decimal(n / 10)[0]);
    }
}

/// Signed numbers are read back too, and a sign alone is no number.
pub proof fn signed_numbers_are_read_back(n: nat)
    requires
        n <= i64::MAX,
    ensures
        signed(decimal(n)) == Some(n as int),
        signed(seq!['+'] + decimal(n)) == Some(n as int),
        signed(seq!['-'] + decimal(n)) == Some(-(n as int)),
        signed(seq!['-']) is None,
        signed(seq!['+']) is None,
{
    lemma_decimal_digits(n);
    assert(is_digit(decimal(n)[0]));
    assert((seq!['+'] + decimal(n)).drop_first() =~= decimal(n));
    assert((seq!['-'] + decimal(n)).drop_first() =~= decimal(n));
}

/// A number past the largest that is asked for is not read.
pub proof fn larger_numbers_are_not_read(n: nat, max: nat)
    requires
        n > max,
    ensures
        unsigned(decimal(n), max) is None,
{
    lemma_decimal_digits(n);
    assert(is_digit(decimal(n)[0]));
}

/// A text that holds anything but digits behind its sign is no number.
pub proof fn other_characters_make_no_number(s: Seq<char>, i: int, max: nat)
    requires
        0 <= i < s.len(),
        !is_digit(s[i]),
        i > 0 || (s[0] != '+' && s[0] != '-'),
    ensures
        unsigned(s, max) is None,
        signed(s) is None,
{
    if i > 0 {
        assert(s.drop_first()[i - 1] == s[i]);
    }
}

/// Two texts compare by the first character in which they differ; a text stands
/// before all that it begins.
pub proof fn first_difference_decides(common: Seq<char>, a: Seq<char>, b: Seq<char>)
    requires
        a.len() == 0 || b.len() == 0 || a[0] != b[0],
    ensures
        text_le(common + a, common + b) <==> a.len() == 0 || (b.len() > 0 && (a[0] as u32) < (
        b[0] as u32)),
    decreases common.len(),
{
    if common.len() > 0 {
        let rest = common.drop_first();
        assert((common + a).drop_first() =~= rest + a);
        assert((common + b).drop_first() =~= rest + b);
        first_difference_decides(rest, a, b);
    } else {
        assert(common + a =~= a);
        assert(common + b =~= b);
    }
}

/// The characters at the start are dropped as often as they stand there.
pub proof fn leading_characters_are_dropped(c: char, n: nat, s: Seq<char>)
    requires
        s.len() > 0 ==> s[0] != c,
    ensures
        without_lead(run_of(c, n) + s, c) == s,
    decreases n,
{
    let all = run_of(c, n) + s;
    if n > 0 {
        assert(all.drop_first() =~= run_of(c, (n - 1) as nat) + s);
        leading_characters_are_dropped(c, (n - 1) as nat, s);
    } else {
        assert(all =~= s);
    }
}

/// A text ends in what was put behind it, and in nothing else of that length.
pub proof fn ends_are_what_stands_last(s: Seq<char>, p: Seq<char>, q: Seq<char>)
    ensures
        ends(s + p, p),
        ends(s + p, q) && q.len() == p.len() ==> p == q,
        q.len() > s.len() ==> !ends(s, q),
{
    let all = s + p;
    assert(all.skip(all.len() - p.len()) =~= p);
}

/// The last character goes, and no other.
pub proof fn shortening_undoes_pushing(s: Seq<char>, c: char)
    ensures
        shortened(s.push(c)) == s,
        shortened(Seq::<char>::empty()).len() == 0,
{
    assert(s.push(c).drop_last() =~= s);
}

} // verus!
