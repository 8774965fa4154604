//! The width of text in terminal cells.

use crate::text;
use vstd::prelude::*;
use vstd::utf8;

verus! {

/// The combining marks and the like, which take no cell of their own.
pub open spec fn is_zero_width(c: u32) -> bool {
    ||| 0x0300 <= c <= 0x036F
    ||| 0x200B <= c <= 0x200F
    ||| 0xFE00 <= c <= 0xFE0F
}

/// The common wide characters: CJK, Hangul, kana, fullwidth forms and emoji.
pub open spec fn is_wide(c: u32) -> bool {
    ||| 0x1100 <= c <= 0x115F
    ||| 0x2E80 <= c <= 0x303E
    ||| 0x3041 <= c <= 0x33FF
    ||| 0x3400 <= c <= 0x4DBF
    ||| 0x4E00 <= c <= 0x9FFF
    ||| 0xA000 <= c <= 0xA4CF
    ||| 0xAC00 <= c <= 0xD7A3
    ||| 0xF900 <= c <= 0xFAFF
    ||| 0xFE30 <= c <= 0xFE4F
    ||| 0xFF00 <= c <= 0xFF60
    ||| 0xFFE0 <= c <= 0xFFE6
    ||| 0x1F300 <= c <= 0x1F64F
    ||| 0x1F680 <= c <= 0x1F6FF
    ||| 0x1F900 <= c <= 0x1F9FF
    ||| 0x20000 <= c <= 0x2FFFD
}

/// The cells that a character takes, approximately: enough to keep columns in
/// line on what a repository usually holds.
pub open spec fn width_of(c: char) -> nat {
    if is_zero_width(c as u32) {
        0
    } else if is_wide(c as u32) {
        2
    } else {
        1
    }
}

/// The cells that a text takes.
pub open spec fn text_width(s: Seq<char>) -> nat
    decreases s.len(),
{
    if s.len() == 0 {
        0
    } else {
        text_width(s.drop_last()) + width_of(s.last())
    }
}

/// The cells that a character takes.
pub fn char_width(c: char) -> (w: usize)
    ensures
        w == width_of(c),
{
    let u = c as u32;
    if 0x0300 <= u && u <= 0x036F || 0x200B <= u && u <= 0x200F || 0xFE00 <= u && u <= 0xFE0F {
        0
    } else if 0x1100 <= u && u <= 0x115F || 0x2E80 <= u && u <= 0x303E || 0x3041 <= u && u <= 0x33FF
        || 0x3400 <= u && u <= 0x4DBF || 0x4E00 <= u && u <= 0x9FFF || 0xA000 <= u && u <= 0xA4CF
        || 0xAC00 <= u && u <= 0xD7A3 || 0xF900 <= u && u <= 0xFAFF || 0xFE30 <= u && u <= 0xFE4F
        || 0xFF00 <= u && u <= 0xFF60 || 0xFFE0 <= u && u <= 0xFFE6 || 0x1F300 <= u && u <= 0x1F64F
        || 0x1F680 <= u && u <= 0x1F6FF || 0x1F900 <= u && u <= 0x1F9FF || 0x20000 <= u && u
        <= 0x2FFFD {
        2
    } else {
        1
    }
}

/// Widths add up.
pub broadcast proof fn lemma_width_concat(a: Seq<char>, b: Seq<char>)
    ensures
        #[trigger] text_width(a + b) == text_width(a) + text_width(b),
    decreases b.len(),
{
    if b.len() == 0 {
        assert(a + b =~= a);
    } else {
        assert((a + b).drop_last() =~= a + b.drop_last());
        lemma_width_concat(a, b.drop_last());
    }
}

/// The width of one more character.
pub broadcast proof fn lemma_width_push(s: Seq<char>, c: char)
    ensures
        #[trigger] text_width(s.push(c)) == text_width(s) + width_of(c),
{
    assert(s.push(c).drop_last() =~= s);
}

/// The width of two characters.
pub broadcast proof fn lemma_width_two(s: Seq<char>)
    requires
        s.len() == 2,
    ensures
        #[trigger] text_width(s) == width_of(s[0]) + width_of(s[1]),
{
    let one = Seq::<char>::empty().push(s[0]);
    lemma_width_push(Seq::empty(), s[0]);
    lemma_width_push(one, s[1]);
    assert(s =~= one.push(s[1]));
}

/// The width of a text, by its first character.
pub proof fn lemma_width_first(s: Seq<char>)
    requires
        s.len() > 0,
    ensures
        text_width(s) == width_of(s[0]) + text_width(s.drop_first()),
{
    assert(seq![s[0]] + s.drop_first() =~= s);
    lemma_width_concat(seq![s[0]], s.drop_first());
    lemma_width_push(seq![], s[0]);
    assert(Seq::<char>::empty().push(s[0]) =~= seq![s[0]]);
}

/// A part of a text is no wider than the whole.
pub proof fn lemma_width_take(s: Seq<char>, i: int)
    requires
        0 <= i <= s.len(),
    ensures
        text_width(s.take(i)) <= text_width(s),
{
    assert(s.take(i) + s.skip(i) =~= s);
    lemma_width_concat(s.take(i), s.skip(i));
}

/// Blanks take one cell each.
pub broadcast proof fn lemma_width_blanks(n: nat)
    ensures
        #[trigger] text_width(text::run_of(' ', n)) == n,
    decreases n,
{
    if n > 0 {
        lemma_width_blanks((n - 1) as nat);
        assert(text::run_of(' ', n).drop_last() =~= text::run_of(' ', (n - 1) as nat));
    }
}

proof fn lemma_width_fits(s: Seq<char>)
    ensures
        text_width(s) <= utf8::encode_utf8(s).len(),
    decreases s.len(),
{
    if s.len() > 0 {
        lemma_width_first(s);
        lemma_width_fits(s.drop_first());
    }
}

/// The cells that a text takes.
pub fn display_width(s: &str) -> (w: usize)
    ensures
        w == text_width(s@),
{
    let bytes = s.as_bytes().len();
    let v = text::to_chars(s);
    let n = v.len();
    proof {
        lemma_width_fits(s@);
        assert(v@.take(0).len() == 0);
    }
    let mut w: usize = 0;
    for i in 0..n
        invariant
            n == v@.len(),
            v@ == s@,
            w == text_width(v@.take(i as int)),
            text_width(v@) <= bytes,
    {
        proof {
            lemma_width_take(v@, i + 1);
            assert(v@.take(i + 1).drop_last() =~= v@.take(i as int));
            assert(v@.take(i + 1).last() == v@[i as int]);
        }
        w += char_width(v[i]);
    }
    assert(v@.take(n as int) =~= v@);
    w
}

// ---------------------------------------------------------------------------
// Cutting and padding
// ---------------------------------------------------------------------------
/// The leading characters that fit into `budget` cells, up to the first that
/// does not.
pub open spec fn fitting(s: Seq<char>, budget: nat) -> Seq<char>
    decreases s.len(),
{
    if s.len() == 0 || width_of(s[0]) > budget {
        seq![]
    } else {
        seq![s[0]] + fitting(s.drop_first(), (budget - width_of(s[0])) as nat)
    }
}

/// `s` cut to `max` cells, with an ellipsis where it was longer.
pub open spec fn cut(s: Seq<char>, max: nat) -> Seq<char> {
    if text_width(s) <= max {
        s
    } else if max == 0 {
        seq![]
    } else {
        fitting(s, (max - 1) as nat).push('…')
    }
}

/// `s` cut or filled up with blanks to `w` cells.
pub open spec fn padded(s: Seq<char>, w: nat) -> Seq<char> {
    if text_width(s) > w {
        cut(s, w)
    } else {
        s + text::run_of(' ', (w - text_width(s)) as nat)
    }
}

/// Cuts `s` to at most `max` cells; where it was longer it ends in an ellipsis.
pub fn truncate(s: &str, max: usize) -> (r: String)
    ensures
        r@ == cut(s@, max as nat),
{
    if display_width(s) <= max {
        return s.to_owned();
    }
    if max == 0 {
        return String::new();
    }
    let budget: usize = max - 1;
    let v = text::to_chars(s);
    let n = v.len();
    let mut used: usize = 0;
    let mut r = String::new();
    let mut i: usize = 0;
    assert(v@.skip(0) =~= s@);
    assert(r@ + fitting(v@.skip(0), budget as nat) =~= fitting(s@, budget as nat));
    while i < n && char_width(v[i]) <= budget - used
        invariant
            n == v@.len(),
            v@ == s@,
            i <= n,
            used <= budget,
            r@ + fitting(v@.skip(i as int), (budget - used) as nat) == fitting(s@, budget as nat),
        decreases n - i,
    {
        let ghost rest = v@.skip(i as int);
        let ghost before = r@;
        used += char_width(v[i]);
        r.push(v[i]);
        proof {
            assert(rest.drop_first() =~= v@.skip(i + 1));
            let tail = fitting(v@.skip(i + 1), (budget - used) as nat);
            assert(r@ + tail =~= before + (seq![rest[0]] + tail));
        }
        i += 1;
    }
    assert(fitting(v@.skip(i as int), (budget - used) as nat) =~= Seq::<char>::empty());
    assert(r@ =~= fitting(s@, budget as nat));
    r.push('…');
    r
}

/// Cuts `s` or fills it up with blanks to `w` cells.
pub fn pad_right(s: &str, w: usize) -> (r: String)
    ensures
        r@ == padded(s@, w as nat),
{
    let width = display_width(s);
    if width > w {
        truncate(s, w)
    } else {
        let mut r = s.to_owned();
        r.append(text::repeat(' ', w - width).as_str());
        r
    }
}

proof fn lemma_fitting(s: Seq<char>, budget: nat)
    ensures
        text_width(fitting(s, budget)) <= budget,
        fitting(s, budget).is_prefix_of(s),
    decreases s.len(),
{
    if s.len() > 0 && width_of(s[0]) <= budget {
        let rest = fitting(s.drop_first(), (budget - width_of(s[0])) as nat);
        lemma_fitting(s.drop_first(), (budget - width_of(s[0])) as nat);
        lemma_width_first(fitting(s, budget));
        assert(fitting(s, budget).drop_first() =~= rest);
        assert(fitting(s, budget) =~= s.take(fitting(s, budget).len() as int));
    }
}

/// A cut text takes no more cells than it may, and one that fits is not changed;
/// where there is no cell nothing is left of one that does not fit.
pub proof fn cut_fits(s: Seq<char>, max: nat)
    ensures
        text_width(s) > 0 ==> cut(s, 0).len() == 0,
        text_width(cut(s, max)) <= max,
        cut(s, max) == s <==> text_width(s) <= max,
{
    if text_width(s) > max && max > 0 {
        lemma_fitting(s, (max - 1) as nat);
        lemma_width_push(fitting(s, (max - 1) as nat), '…');
    }
}

/// What a cut text shows before the ellipsis is the beginning of the text.
pub proof fn cut_shows_the_beginning(s: Seq<char>, max: nat)
    requires
        text_width(s) > max > 0,
    ensures
        cut(s, max).last() == '…',
        cut(s, max).drop_last().is_prefix_of(s),
{
    lemma_fitting(s, (max - 1) as nat);
    assert(cut(s, max).drop_last() =~= fitting(s, (max - 1) as nat));
}

/// A padded text fills its cells exactly where it fits, and never takes more.
pub proof fn padding_fills(s: Seq<char>, w: nat)
    ensures
        text_width(padded(s, w)) <= w,
        text_width(s) <= w ==> text_width(padded(s, w)) == w && s.is_prefix_of(padded(s, w)),
{
    if text_width(s) > w {
        cut_fits(s, w);
    } else {
        let blanks = (w - text_width(s)) as nat;
        lemma_width_concat(s, text::run_of(' ', blanks));
        lemma_width_blanks(blanks);
        assert(s =~= padded(s, w).take(s.len() as int));
    }
}

/// A cut text shows as much as fits: one more character of the text would leave
/// no cell for the ellipsis.
pub proof fn cut_shows_as_much_as_fits(s: Seq<char>, max: nat)
    requires
        text_width(s) > max > 0,
    ensures
        ({
            let n = cut(s, max).len() - 1;
            n < s.len() && text_width(s.take(n + 1)) > max - 1
        }),
{
    lemma_fitting(s, (max - 1) as nat);
    lemma_fitting_is_longest(s, (max - 1) as nat);
    let n = fitting(s, (max - 1) as nat).len() as int;
    assert(cut(s, max).len() == n + 1);
    if n >= s.len() {
        assert(s.take(n) =~= s);
        assert(fitting(s, (max - 1) as nat) =~= s);
    }
}

proof fn lemma_fitting_is_longest(s: Seq<char>, budget: nat)
    ensures
        fitting(s, budget).len() <= s.len(),
        fitting(s, budget).len() < s.len() ==> text_width(
            s.take(fitting(s, budget).len() as int + 1),
        ) > budget,
    decreases s.len(),
{
    if s.len() > 0 && width_of(s[0]) <= budget {
        let less = (budget - width_of(s[0])) as nat;
        let rest = s.drop_first();
        lemma_fitting_is_longest(rest, less);
        let n = fitting(rest, less).len() as int;
        if n < rest.len() {
            let longer = s.take(n + 2);
            lemma_width_first(longer);
            assert(longer.drop_first() =~= rest.take(n + 1));
            assert(longer[0] == s[0]);
        }
    } else if s.len() > 0 {
        let one = s.take(1);
        lemma_width_first(one);
        assert(one[0] == s[0]);
    }
}

/// A text that fits is filled up with blanks and nothing else; one that does not
/// is cut.
pub proof fn padding_is_blank(s: Seq<char>, w: nat)
    ensures
        text_width(s) <= w ==> padded(s, w).take(s.len() as int) == s && forall|i: int|
            s.len() <= i < padded(s, w).len() ==> #[trigger] padded(s, w)[i] == ' ',
        text_width(s) > w ==> padded(s, w) == cut(s, w),
{
    if text_width(s) <= w {
        assert(padded(s, w).take(s.len() as int) =~= s);
    }
}

/// A character takes one cell, two where it is wide, and none where it goes onto
/// the one before; those of ASCII take one each.
pub proof fn ascii_takes_one_cell_each(s: Seq<char>, c: char)
    requires
        forall|i: int| 0 <= i < s.len() ==> (#[trigger] s[i] as u32) < 128,
    ensures
        text_width(s) == s.len(),
        width_of(c) <= 2,
        0x0300 <= c as u32 <= 0x036F ==> width_of(c) == 0,
        0x4E00 <= c as u32 <= 0x9FFF ==> width_of(c) == 2,
        0xAC00 <= c as u32 <= 0xD7A3 ==> width_of(c) == 2,
        0x3041 <= c as u32 <= 0x33FF ==> width_of(c) == 2,
        0xFF00 <= c as u32 <= 0xFF60 ==> width_of(c) == 2,
        0x1F300 <= c as u32 <= 0x1F64F ==> width_of(c) == 2,
    decreases s.len(),
{
    if s.len() > 0 {
        let less = s.drop_last();
        assert forall|i: int| 0 <= i < less.len() implies (#[trigger] less[i] as u32) < 128 by {
            assert(less[i] == s[i]);
        }
        ascii_takes_one_cell_each(less, c);
        assert((s[s.len() - 1] as u32) < 128);
    }
}

} // verus!
