//! Colours of branches.

use spor::color::{branch_family, color_for, hash, Rgb};

fn origin() -> Vec<String> {
    vec!["origin".to_string()]
}

#[test]
fn local_branch_keeps_its_prefix() {
    assert_eq!(branch_family("feat/login", &origin()), "feat");
    assert_eq!(branch_family("bug/crash", &origin()), "bug");
}

#[test]
fn remote_prefix_is_stripped_before_family() {
    assert_eq!(branch_family("origin/feat/login", &origin()), "feat");
    assert_eq!(branch_family("origin/main", &origin()), "main");
}

#[test]
fn unprefixed_branch_is_its_own_family() {
    assert_eq!(branch_family("main", &origin()), "main");
}

#[test]
fn non_remote_first_segment_is_not_stripped() {
    // No remote called "feat" — the prefix is the family, not a remote.
    assert_eq!(branch_family("feat/login", &[]), "feat");
}

#[test]
fn family_of_odd_names() {
    assert_eq!(branch_family("", &origin()), "");
    assert_eq!(branch_family("/x", &origin()), "");
    assert_eq!(branch_family("origin/", &origin()), "");
    assert_eq!(branch_family("origin", &origin()), "origin");
    assert_eq!(branch_family("origin/origin/x", &origin()), "origin");
    assert_eq!(branch_family("grün/ä/b", &[]), "grün");
}

#[test]
fn deterministic() {
    assert_eq!(
        color_for("feat", "feat/login"),
        color_for("feat", "feat/login")
    );
}

#[test]
fn siblings_in_same_family_differ() {
    assert_ne!(
        color_for("feat", "feat/login"),
        color_for("feat", "feat/signup")
    );
}

#[test]
fn family_hue_dominates() {
    let (r, _, b) = color_for("feat", "feat/login");
    assert!(b > r, "feat should be blue-ish");
    let (r, _, b) = color_for("fix", "fix/crash");
    assert!(r > b, "fix should be red-ish");
    let (r, g, b) = color_for("main", "main");
    assert!(g > r && g > b, "main should be green-ish");
}

#[test]
fn chore_and_orphan_are_grey() {
    for (family, name) in [("chore", "chore/deps"), ("_", "whatever")] {
        let (r, g, b) = color_for(family, name);
        assert_eq!(r, g, "{family} should be grey");
        assert_eq!(g, b, "{family} should be grey");
    }
}

#[test]
fn unknown_family_is_stable_and_not_black() {
    let a = color_for("experiment", "experiment/foo");
    assert_eq!(a, color_for("experiment", "experiment/foo"));
    assert_ne!(a, (0, 0, 0));
}

#[test]
fn same_family_shares_hue_different_lightness() {
    let a = color_for("feat", "feat/login");
    let b = color_for("feat", "feat/signup");
    // Not asserting exact values — just that the mapping is stable and
    // the two names don't collapse to the identical color.
    assert_eq!(a, color_for("feat", "feat/login"));
    assert_ne!(a, b);
}

#[test]
fn hash_is_fnv1a() {
    assert_eq!(hash(""), 2166136261);
    assert_eq!(hash("a"), 0xe40c292c);
    assert_eq!(hash("foobar"), 0xbf9cf968);
    // By the bytes, not by the characters.
    assert_eq!(hash("é"), {
        let mut h: u32 = 2166136261;
        for b in "é".bytes() {
            h = (h ^ b as u32).wrapping_mul(16777619);
        }
        h
    });
}

/// The conversion in single precision.
fn hsl(h: f32, s: f32, l: f32) -> Rgb {
    let c = (1.0 - (2.0 * l - 1.0).abs()) * s;
    let h6 = h / 60.0;
    let x = c * (1.0 - (h6 % 2.0 - 1.0).abs());
    let (r1, g1, b1) = match h6 as i32 {
        0 => (c, x, 0.0),
        1 => (x, c, 0.0),
        2 => (0.0, c, x),
        3 => (0.0, x, c),
        4 => (x, 0.0, c),
        _ => (c, 0.0, x),
    };
    let m = l - c / 2.0;
    (
        ((r1 + m) * 255.0).clamp(0.0, 255.0) as u8,
        ((g1 + m) * 255.0).clamp(0.0, 255.0) as u8,
        ((b1 + m) * 255.0).clamp(0.0, 255.0) as u8,
    )
}

/// One name for each of the thirty shades.
fn names_of_all_shades() -> Vec<String> {
    let mut names: Vec<Option<String>> = vec![None; 30];
    let mut i = 0;
    while names.iter().any(|n| n.is_none()) {
        let name = format!("branch-{i}");
        let k = (hash(&name) % 30) as usize;
        if names[k].is_none() {
            names[k] = Some(name);
        }
        i += 1;
    }
    names.into_iter().map(|n| n.unwrap()).collect()
}

fn lightness(k: usize) -> f32 {
    0.45 + (k as f32) / 100.0
}

#[test]
fn named_families_agree_with_single_precision() {
    let named = [
        ("feat", 210.0, 0.65),
        ("feature", 210.0, 0.65),
        ("fix", 0.0, 0.70),
        ("bug", 0.0, 0.70),
        ("chore", 0.0, 0.0),
        ("docs", 280.0, 0.50),
        ("refactor", 160.0, 0.55),
        ("test", 50.0, 0.60),
        ("main", 130.0, 0.55),
        ("master", 130.0, 0.55),
        ("trunk", 130.0, 0.55),
        ("_", 0.0, 0.0),
    ];
    for (k, name) in names_of_all_shades().iter().enumerate() {
        for (family, hue, sat) in named {
            assert_eq!(
                color_for(family, name),
                hsl(hue, sat, lightness(k)),
                "{family} at shade {k}"
            );
        }
    }
}

#[test]
fn hashed_families_agree_with_single_precision() {
    let mut families: Vec<Option<String>> = vec![None; 360];
    let mut i = 0;
    while families.iter().any(|f| f.is_none()) {
        let family = format!("family-{i}");
        let hue = (hash(&family) % 360) as usize;
        if families[hue].is_none() {
            families[hue] = Some(family);
        }
        i += 1;
    }
    let names = names_of_all_shades();
    for (hue, family) in families.iter().enumerate() {
        for (k, name) in names.iter().enumerate() {
            assert_eq!(
                color_for(family.as_ref().unwrap(), name),
                hsl(hue as f32, 0.55, lightness(k)),
                "hue {hue} at shade {k}"
            );
        }
    }
}

#[test]
fn colours_of_a_family_differ_in_every_shade() {
    for family in ["feat", "fix", "chore", "docs", "test", "main", "other"] {
        let colours: Vec<Rgb> = names_of_all_shades()
            .iter()
            .map(|n| color_for(family, n))
            .collect();
        for i in 0..colours.len() {
            for j in 0..i {
                assert_ne!(colours[i], colours[j], "{family}");
            }
        }
    }
}

#[test]
fn feature_colours_are_blue_in_every_shade() {
    for name in names_of_all_shades() {
        let (r, g, b) = color_for("feat", &name);
        assert!(b > r && b > g);
        let (r, g, b) = color_for("bug", &name);
        assert!(r > g && r > b);
        let (r, g, b) = color_for("trunk", &name);
        assert!(g > r && g > b);
    }
}
