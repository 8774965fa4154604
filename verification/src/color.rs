//! Colours of branches. The family of a branch, which is the part of its name
//! before the first slash, picks the hue; the whole name varies the lightness,
//! so that the branches of a family can be told apart.

use crate::git;
use crate::text;
use vstd::prelude::*;
use vstd::utf8;

verus! {

/// Red, green and blue.
pub type Rgb = (u8, u8, u8);

// ---------------------------------------------------------------------------
// Families
// ---------------------------------------------------------------------------
/// The family of a branch: what stands before the first slash of its local
/// name, or the whole of that where it has no slash.
pub open spec fn family(name: Seq<char>, remotes: Seq<Seq<char>>) -> Seq<char> {
    let local = git::local_name(name, remotes);
    local.take(text::first_at(local, '/'))
}

/// The family of a branch. The first segment counts as a remote only where a
/// remote of that name is configured: the local `feat/x` has the family "feat",
/// and so has `origin/feat/x`.
pub fn branch_family<'a>(name: &'a str, remotes: &[String]) -> (r: &'a str)
    ensures
        r@ == family(name@, remotes.deep_view()),
{
    let local = git::without_remote(name, remotes);
    proof {
        text::lemma_first_at(local@, '/');
        assert(local@.take(local@.len() as int) =~= local@);
    }
    match text::split_once(local, '/') {
        Some((prefix, _)) => prefix,
        None => local,
    }
}

// ---------------------------------------------------------------------------
// Hues and shades
// ---------------------------------------------------------------------------
/// The 32-bit FNV-1a hash of the bytes.
pub open spec fn fnv1a(bytes: Seq<u8>) -> u32
    decreases bytes.len(),
{
    if bytes.len() == 0 {
        2166136261
    } else {
        (((fnv1a(bytes.drop_last()) ^ (bytes.last() as u32)) * 16777619) % 0x1_0000_0000) as u32
    }
}

/// The hash of a text, by its UTF-8 bytes.
pub open spec fn hash_of(s: Seq<char>) -> u32 {
    fnv1a(utf8::encode_utf8(s))
}

/// Hashes a text.
pub fn hash(s: &str) -> (h: u32)
    ensures
        h == hash_of(s@),
{
    let bytes = s.as_bytes();
    let n = bytes.len();
    let ghost all = bytes@;
    let mut h: u32 = 2166136261;
    assert(all.take(0).len() == 0);
    for i in 0..n
        invariant
            n == bytes@.len(),
            all == bytes@,
            h == fnv1a(all.take(i as int)),
    {
        proof {
            assert(all.take(i + 1).drop_last() =~= all.take(i as int));
            assert(all.take(i + 1).last() == all[i as int]);
        }
        h = (h ^ (bytes[i] as u32)).wrapping_mul(16777619);
    }
    assert(all.take(n as int) =~= all);
    h
}

/// Hue in degrees and saturation in hundredths of a family. "_" stands for a
/// lane whose branch is not known; a family without a colour of its own gets
/// its hue from its hash.
pub open spec fn tint(family: Seq<char>) -> (int, int) {
    if family == "feat"@ || family == "feature"@ {
        (210, 65)
    } else if family == "fix"@ || family == "bug"@ {
        (0, 70)
    } else if family == "chore"@ {
        (0, 0)
    } else if family == "docs"@ {
        (280, 50)
    } else if family == "refactor"@ {
        (160, 55)
    } else if family == "test"@ {
        (50, 60)
    } else if family == "main"@ || family == "master"@ || family == "trunk"@ {
        (130, 55)
    } else if family == "_"@ {
        (0, 0)
    } else {
        ((hash_of(family) % 360) as int, 55)
    }
}

fn tint_of(family: &str) -> (r: (u64, u64))
    ensures
        r.0 == tint(family@).0,
        r.1 == tint(family@).1,
        r.0 < 360,
        r.1 <= 70,
{
    if text::same(family, "feat") || text::same(family, "feature") {
        (210, 65)
    } else if text::same(family, "fix") || text::same(family, "bug") {
        (0, 70)
    } else if text::same(family, "chore") {
        (0, 0)
    } else if text::same(family, "docs") {
        (280, 50)
    } else if text::same(family, "refactor") {
        (160, 55)
    } else if text::same(family, "test") {
        (50, 60)
    } else if text::same(family, "main") || text::same(family, "master") || text::same(
        family,
        "trunk",
    ) {
        (130, 55)
    } else if text::same(family, "_") {
        (0, 0)
    } else {
        ((hash(family) % 360) as u64, 55)
    }
}

/// The lightness of a branch in hundredths, from 45 to 74.
pub open spec fn shade(name: Seq<char>) -> int {
    45 + hash_of(name) % 30
}

// ---------------------------------------------------------------------------
// From hue, saturation and lightness to red, green and blue
// ---------------------------------------------------------------------------
/// The distance between two numbers.
pub open spec fn apart(a: int, b: int) -> int {
    if a < b {
        b - a
    } else {
        a - b
    }
}

/// How far the strongest channel stands above the weakest, in parts of 10000.
pub open spec fn chroma(s: int, l: int) -> int {
    (100 - apart(2 * l, 100)) * s
}

/// What each channel has above the weakest one, in parts of 600000.
pub open spec fn parts(h: int, s: int, l: int) -> (int, int, int) {
    let c = chroma(s, l) * 60;
    let x = chroma(s, l) * (60 - apart(h % 120, 60));
    if h / 60 == 0 {
        (c, x, 0)
    } else if h / 60 == 1 {
        (x, c, 0)
    } else if h / 60 == 2 {
        (0, c, x)
    } else if h / 60 == 3 {
        (0, x, c)
    } else if h / 60 == 4 {
        (x, 0, c)
    } else {
        (c, 0, x)
    }
}

/// The value of a channel that has `part` above the weakest one, rounded down.
pub open spec fn level(part: int, s: int, l: int) -> int {
    (2 * part + 12000 * l - 60 * chroma(s, l)) * 255 / 1200000
}

/// Channels are what arithmetic in single precision gives. In these places it
/// stays just under a whole number, and the channel is one less.
pub open spec fn falls_short(h: int, s: int, l: int) -> (int, int, int) {
    if h == 280 && s == 50 && (l == 52 || l == 60 || l == 68) {
        (1, 0, 0)
    } else if h == 50 && s == 60 && l == 50 || h == 125 && s == 55 && l == 68 {
        (0, 0, 1)
    } else if h == 235 && s == 55 && l == 68 {
        (0, 1, 0)
    } else {
        (0, 0, 0)
    }
}

/// The channels of a hue in degrees, with saturation and lightness in
/// hundredths.
pub open spec fn channels(h: int, s: int, l: int) -> (int, int, int) {
    let p = parts(h, s, l);
    let f = falls_short(h, s, l);
    (level(p.0, s, l) - f.0, level(p.1, s, l) - f.1, level(p.2, s, l) - f.2)
}

/// The colour of a branch.
#[verifier::opaque]
pub open spec fn colour(family: Seq<char>, name: Seq<char>) -> Rgb {
    let c = channels(tint(family).0, tint(family).1, shade(name));
    (c.0 as u8, c.1 as u8, c.2 as u8)
}

proof fn lemma_chroma(s: int, l: int)
    requires
        0 <= s <= 70,
        45 <= l <= 74,
    ensures
        0 <= chroma(s, l) <= 7000,
        l < 50 ==> chroma(s, l) == 2 * (l * s),
        l >= 50 ==> chroma(s, l) == 200 * s - 2 * (l * s),
{
    assert(0 <= (100 - apart(2 * l, 100)) * s <= 7000) by (nonlinear_arith)
        requires
            0 <= 100 - apart(2 * l, 100) <= 100,
            0 <= s <= 70,
    ;
    if l < 50 {
        assert((2 * l) * s == 2 * (l * s)) by (nonlinear_arith);
    } else {
        assert((200 - 2 * l) * s == 200 * s - 2 * (l * s)) by (nonlinear_arith);
    }
}

proof fn lemma_parts(h: int, s: int, l: int)
    requires
        0 <= h < 360,
        0 <= s <= 70,
        45 <= l <= 74,
    ensures
        ({
            let top = chroma(s, l) * 60;
            let p = parts(h, s, l);
            &&& 0 <= p.0 <= top
            &&& 0 <= p.1 <= top
            &&& 0 <= p.2 <= top
        }),
{
    lemma_chroma(s, l);
    let c = chroma(s, l);
    let t = 60 - apart(h % 120, 60);
    assert(0 <= c * t <= c * 60) by (nonlinear_arith)
        requires
            0 <= c,
            0 <= t <= 60,
    ;
}

proof fn lemma_lesser_part(h: int, s: int, l: int, t: int)
    requires
        t == 60 - apart(h % 120, 60),
    ensures
        chroma(s, l) * (60 - apart(h % 120, 60)) == chroma(s, l) * t,
{
}

proof fn lemma_level(part: int, s: int, l: int)
    requires
        0 <= s <= 70,
        45 <= l <= 74,
        0 <= part <= chroma(s, l) * 60,
    ensures
        1 <= level(part, s, l) <= 255,
        level(0, s, l) <= level(part, s, l) <= level(chroma(s, l) * 60, s, l),
{
    lemma_chroma(s, l);
    assert(0 <= l * s <= 70 * l) by (nonlinear_arith)
        requires
            0 <= s <= 70,
            0 <= l,
    ;
    assert(0 <= 100 * s - l * s <= 70 * (100 - l)) by (nonlinear_arith)
        requires
            0 <= s <= 70,
            0 <= 100 - l,
    ;
}

proof fn lemma_named_tints()
    ensures
        tint("feat"@) == (210int, 65int),
        tint("feature"@) == (210int, 65int),
        tint("fix"@) == (0int, 70int),
        tint("bug"@) == (0int, 70int),
        tint("chore"@) == (0int, 0int),
        tint("main"@) == (130int, 55int),
        tint("master"@) == (130int, 55int),
        tint("trunk"@) == (130int, 55int),
        tint("_"@) == (0int, 0int),
{
    reveal_strlit("feat");
    reveal_strlit("feature");
    reveal_strlit("fix");
    reveal_strlit("bug");
    reveal_strlit("chore");
    reveal_strlit("docs");
    reveal_strlit("refactor");
    reveal_strlit("test");
    reveal_strlit("main");
    reveal_strlit("master");
    reveal_strlit("trunk");
    reveal_strlit("_");
    assert("feat"@.len() == 4 && "feature"@.len() == 7 && "fix"@.len() == 3 && "bug"@.len() == 3);
    assert("chore"@.len() == 5 && "docs"@.len() == 4 && "refactor"@.len() == 8);
    assert("test"@.len() == 4 && "main"@.len() == 4 && "master"@.len() == 6);
    assert("trunk"@.len() == 5 && "_"@.len() == 1);
    assert("main"@[0] != "feat"@[0] && "main"@[0] != "docs"@[0] && "main"@[0] != "test"@[0]);
    assert("bug"@[0] != "fix"@[0]);
    assert("trunk"@[0] != "chore"@[0]);
}

proof fn lemma_channels(h: int, s: int, l: int)
    requires
        0 <= h < 360,
        0 <= s <= 70,
        45 <= l <= 74,
    ensures
        0 <= channels(h, s, l).0 <= 255,
        0 <= channels(h, s, l).1 <= 255,
        0 <= channels(h, s, l).2 <= 255,
{
    let p = parts(h, s, l);
    lemma_parts(h, s, l);
    lemma_level(p.0, s, l);
    lemma_level(p.1, s, l);
    lemma_level(p.2, s, l);
}

/// Converts hue, saturation and lightness.
#[verifier::rlimit(30)]
fn hsl_to_rgb(h: u64, s: u64, l: u64) -> (r: Rgb)
    requires
        h < 360,
        s <= 70,
        45 <= l <= 74,
    ensures
        r.0 == channels(h as int, s as int, l as int).0,
        r.1 == channels(h as int, s as int, l as int).1,
        r.2 == channels(h as int, s as int, l as int).2,
{
    proof {
        lemma_chroma(s as int, l as int);
        lemma_parts(h as int, s as int, l as int);
        lemma_channels(h as int, s as int, l as int);
        let p = parts(h as int, s as int, l as int);
        lemma_level(p.0, s as int, l as int);
        lemma_level(p.1, s as int, l as int);
        lemma_level(p.2, s as int, l as int);
    }
    let spread: u64 = if l < 50 {
        2 * l
    } else {
        200 - 2 * l
    };
    let turn: u64 = if h % 120 < 60 {
        h % 120
    } else {
        120 - h % 120
    };
    assert(spread * s <= 7000);
    let c: u64 = spread * s;
    assert(c * turn <= c * 60) by (nonlinear_arith)
        requires
            turn <= 60,
            0 <= c,
    ;
    let x: u64 = c * turn;
    let (red, green, blue): (u64, u64, u64) = if h / 60 == 0 {
        (c * 60, x, 0)
    } else if h / 60 == 1 {
        (x, c * 60, 0)
    } else if h / 60 == 2 {
        (0, c * 60, x)
    } else if h / 60 == 3 {
        (0, x, c * 60)
    } else if h / 60 == 4 {
        (x, 0, c * 60)
    } else {
        (c * 60, 0, x)
    };
    let (short_r, short_g, short_b): (u64, u64, u64) = if h == 280 && s == 50 && (l == 52 || l == 60
        || l == 68) {
        (1, 0, 0)
    } else if h == 50 && s == 60 && l == 50 || h == 125 && s == 55 && l == 68 {
        (0, 0, 1)
    } else if h == 235 && s == 55 && l == 68 {
        (0, 1, 0)
    } else {
        (0, 0, 0)
    };
    let base: u64 = 12000 * l - 60 * c;
    (
        ((2 * red + base) * 255 / 1200000 - short_r) as u8,
        ((2 * green + base) * 255 / 1200000 - short_g) as u8,
        ((2 * blue + base) * 255 / 1200000 - short_b) as u8,
    )
}

/// The colour of a branch: its family picks the hue, its name the lightness.
pub fn color_for(family: &str, full_name: &str) -> (r: Rgb)
    ensures
        r == colour(family@, full_name@),
{
    proof {
        reveal(colour);
    }
    let (h, s) = tint_of(family);
    let l: u64 = 45 + (hash(full_name) % 30) as u64;
    hsl_to_rgb(h, s, l)
}

// ---------------------------------------------------------------------------
// Laws
// ---------------------------------------------------------------------------
proof fn lemma_colour(family: Seq<char>, name: Seq<char>)
    ensures
        ({
            let c = channels(tint(family).0, tint(family).1, shade(name));
            let r = colour(family, name);
            r.0 == c.0 && r.1 == c.1 && r.2 == c.2
        }),
        45 <= shade(name) <= 74,
        0 <= tint(family).0 < 360,
        0 <= tint(family).1 <= 70,
{
    reveal(colour);
    lemma_channels(tint(family).0, tint(family).1, shade(name));
}

/// A remote branch has the family of the local branch that it stands for,
/// where the latter does not itself begin with the name of a remote.
pub proof fn remote_branch_keeps_family(
    remote: Seq<char>,
    name: Seq<char>,
    remotes: Seq<Seq<char>>,
)
    requires
        remotes.contains(remote),
        !remote.contains('/'),
        git::local_name(name, remotes) == name,
    ensures
        family(remote + seq!['/'] + name, remotes) == family(name, remotes),
{
    git::lemma_local_name(remote, name, remotes);
}

/// What stands before the first slash.
proof fn lemma_prefix(prefix: Seq<char>, name: Seq<char>)
    requires
        !prefix.contains('/'),
    ensures
        ({
            let full = prefix + seq!['/'] + name;
            text::first_at(full, '/') == prefix.len() && full.take(prefix.len() as int) == prefix
        }),
{
    let full = prefix + seq!['/'] + name;
    assert forall|j: int| 0 <= j < prefix.len() implies full[j] != '/' by {
        assert(full[j] == prefix[j]);
    }
    text::lemma_first_at_is(full, '/', prefix.len() as int);
    assert(full.take(prefix.len() as int) =~= prefix);
}

/// All local branches with the same prefix have one family: the prefix.
pub proof fn prefix_is_the_family(prefix: Seq<char>, name: Seq<char>, remotes: Seq<Seq<char>>)
    requires
        !prefix.contains('/'),
        !remotes.contains(prefix),
    ensures
        family(prefix + seq!['/'] + name, remotes) == prefix,
{
    lemma_prefix(prefix, name);
}

/// All branches of the remotes with the same prefix have one family too: the
/// prefix.
pub proof fn prefix_behind_a_remote_is_the_family(
    remote: Seq<char>,
    prefix: Seq<char>,
    name: Seq<char>,
    remotes: Seq<Seq<char>>,
)
    requires
        remotes.contains(remote),
        !remote.contains('/'),
        !prefix.contains('/'),
    ensures
        family(remote + seq!['/'] + (prefix + seq!['/'] + name), remotes) == prefix,
{
    git::lemma_local_name(remote, prefix + seq!['/'] + name, remotes);
    lemma_prefix(prefix, name);
}

/// A branch without a slash is its own family.
pub proof fn unprefixed_branch_is_its_own_family(name: Seq<char>, remotes: Seq<Seq<char>>)
    requires
        !name.contains('/'),
    ensures
        family(name, remotes) == name,
{
    text::lemma_first_at_is(name, '/', name.len() as int);
    assert(name.take(name.len() as int) =~= name);
}

/// Feature branches are blue: the blue channel is the strongest.
pub proof fn features_are_blue(family: Seq<char>, name: Seq<char>)
    requires
        family == "feat"@ || family == "feature"@,
    ensures
        colour(family, name).2 > colour(family, name).0,
        colour(family, name).2 > colour(family, name).1,
{
    lemma_named_tints();
    lemma_lesser_part(210, 65, shade(name), 30);
    lemma_colour(family, name);
    lemma_chroma(65, shade(name));
}

/// Fixes are red: the red channel is the strongest.
pub proof fn fixes_are_red(family: Seq<char>, name: Seq<char>)
    requires
        family == "fix"@ || family == "bug"@,
    ensures
        colour(family, name).0 > colour(family, name).1,
        colour(family, name).0 > colour(family, name).2,
{
    lemma_named_tints();
    lemma_lesser_part(0, 70, shade(name), 0);
    lemma_colour(family, name);
    lemma_chroma(70, shade(name));
}

/// The main branch is green: the green channel is the strongest.
pub proof fn main_is_green(family: Seq<char>, name: Seq<char>)
    requires
        git::main_names().contains(family),
    ensures
        colour(family, name).1 > colour(family, name).0,
        colour(family, name).1 > colour(family, name).2,
{
    lemma_named_tints();
    let i = choose|i: int| 0 <= i < 3 && git::main_names()[i] == family;
    assert(git::main_names()[i] == family && (i == 0 || i == 1 || i == 2));
    assert(tint(family) == (130int, 55int));
    lemma_lesser_part(130, 55, shade(name), 10);
    lemma_colour(family, name);
    lemma_chroma(55, shade(name));
}

/// Chores and lanes of no known branch are grey.
pub proof fn chores_and_unknown_are_grey(family: Seq<char>, name: Seq<char>)
    requires
        family == "chore"@ || family == "_"@,
    ensures
        colour(family, name).0 == colour(family, name).1 == colour(family, name).2,
{
    lemma_named_tints();
    lemma_colour(family, name);
    lemma_chroma(0, shade(name));
}

/// The family fixes the hue: no two of its branches put two channels in
/// opposite order.
pub proof fn family_shares_its_hue(family: Seq<char>, a: Seq<char>, b: Seq<char>)
    ensures
        colour(family, a).0 > colour(family, a).1 ==> colour(family, b).0 >= colour(family, b).1,
        colour(family, a).0 > colour(family, a).2 ==> colour(family, b).0 >= colour(family, b).2,
        colour(family, a).1 > colour(family, a).0 ==> colour(family, b).1 >= colour(family, b).0,
        colour(family, a).1 > colour(family, a).2 ==> colour(family, b).1 >= colour(family, b).2,
        colour(family, a).2 > colour(family, a).0 ==> colour(family, b).2 >= colour(family, b).0,
        colour(family, a).2 > colour(family, a).1 ==> colour(family, b).2 >= colour(family, b).1,
{
    let (h, s) = tint(family);
    lemma_colour(family, a);
    lemma_colour(family, b);
    lemma_order(h, s, shade(a));
    lemma_order(h, s, shade(b));
}

proof fn lemma_order(h: int, s: int, l: int)
    requires
        0 <= h < 360,
        0 <= s <= 70,
        45 <= l <= 74,
    ensures
        ({
            let c = channels(h, s, l);
            &&& h / 60 == 0 ==> c.0 >= c.1 >= c.2
            &&& h / 60 == 1 ==> c.1 >= c.0 >= c.2
            &&& h / 60 == 2 ==> c.1 >= c.2 >= c.0
            &&& h / 60 == 3 ==> c.2 >= c.1 >= c.0
            &&& h / 60 == 4 ==> c.2 >= c.0 >= c.1
            &&& h / 60 == 5 ==> c.0 >= c.2 >= c.1
        }),
{
    let p = parts(h, s, l);
    lemma_parts(h, s, l);
    lemma_level(p.0, s, l);
    lemma_level(p.1, s, l);
    lemma_level(p.2, s, l);
    if falls_short(h, s, l) != (0int, 0int, 0int) {
        lemma_chroma(s, l);
        lemma_lesser_part(280, 50, l, 40);
        lemma_lesser_part(50, 60, l, 50);
        lemma_lesser_part(125, 55, l, 5);
        lemma_lesser_part(235, 55, l, 5);
    }
}

/// Two branches of a family have the same colour exactly where their names give
/// the same lightness.
pub proof fn siblings_differ_by_shade(family: Seq<char>, a: Seq<char>, b: Seq<char>)
    ensures
        colour(family, a) == colour(family, b) <==> shade(a) == shade(b),
{
    let (h, s) = tint(family);
    lemma_colour(family, a);
    lemma_colour(family, b);
    if shade(a) < shade(b) {
        lemma_shades_differ(h, s, shade(a), shade(b));
    } else if shade(b) < shade(a) {
        lemma_shades_differ(h, s, shade(b), shade(a));
    }
}

#[verifier::rlimit(30)]
proof fn lemma_shades_differ(h: int, s: int, k: int, l: int)
    requires
        0 <= h < 360,
        0 <= s <= 70,
        45 <= k < l <= 74,
    ensures
        channels(h, s, k) != channels(h, s, l),
{
    lemma_chroma(s, k);
    lemma_chroma(s, l);
    assert(l * s - k * s == (l - k) * s) by (nonlinear_arith);
    assert(0 <= (l - k) * s <= (l - k) * 70) by (nonlinear_arith)
        requires
            0 <= s <= 70,
            0 <= l - k,
    ;
}

/// No branch is painted black.
pub proof fn no_branch_is_black(family: Seq<char>, name: Seq<char>)
    ensures
        colour(family, name) != (0u8, 0u8, 0u8),
{
    let (h, s) = tint(family);
    let l = shade(name);
    lemma_colour(family, name);
    lemma_chroma(s, l);
    lemma_parts(h, s, l);
    let p = parts(h, s, l);
    lemma_level(p.0, s, l);
    lemma_level(p.1, s, l);
    lemma_level(p.2, s, l);
}

} // verus!
