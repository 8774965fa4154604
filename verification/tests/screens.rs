//! What is painted.

use spor::canvas::{
    bg, bold, clear, encode, fg, hide_cursor, measure, move_to, reset, show_cursor, Canvas, Paint,
};
use spor::cells::{char_width, display_width, pad_right, truncate};
use spor::git::{Branch, Commit, FileStatus, StatusEntry, TrackingInfo};
use spor::graph::GraphRow;
use spor::remote::{ChecksState, PrInfo, ReviewState};
use spor::ui::overlays::{draw_branch_picker, draw_help, help_lines};
use spor::ui::panes::{draw_diff_pane, draw_status_pane, draw_statusbar, status_pane_rows};
use spor::ui::rows::{draw_graph_row, pr_badge, pr_for_ref, pr_map, rel_time, RepoMeta};
use spor::ui::{draw_too_small, Layout, MIN_HEIGHT, MIN_WIDTH};

fn strings(items: &[&str]) -> Vec<String> {
    items.iter().map(|s| s.to_string()).collect()
}

fn prs_for(branches: &[&str]) -> Vec<PrInfo> {
    branches
        .iter()
        .enumerate()
        .map(|(i, b)| PrInfo {
            number: i as u64 + 1,
            head_branch: b.to_string(),
            draft: false,
            review: ReviewState::Undecided,
            checks: ChecksState::NoChecks,
        })
        .collect()
}

/// The texts, in order.
fn texts(canvas: &Canvas) -> Vec<String> {
    canvas
        .steps
        .iter()
        .filter_map(|s| match s {
            Paint::Text(t) => Some(t.clone()),
            _ => None,
        })
        .collect()
}

fn text_of(canvas: &Canvas) -> String {
    texts(canvas).concat()
}

/// The places that the cursor goes to.
fn moves(canvas: &Canvas) -> Vec<(u16, u16)> {
    canvas
        .steps
        .iter()
        .filter_map(|s| match s {
            Paint::MoveTo(r, c) => Some((*r, *c)),
            _ => None,
        })
        .collect()
}

#[test]
fn truncate_short_string_unchanged() {
    assert_eq!(truncate("hello", 10), "hello");
    assert_eq!(truncate("hello", 5), "hello");
}

#[test]
fn truncate_adds_ellipsis() {
    assert_eq!(truncate("hello world", 6), "hello…");
    assert_eq!(truncate("hi", 0), "");
}

#[test]
fn truncate_counts_wide_chars_as_two_cells() {
    // Each CJK char is 2 cells; "日本語" is 6 cells wide.
    assert_eq!(display_width("日本語"), 6);
    assert_eq!(truncate("日本語", 6), "日本語");
    // Budget 5 → 4 cells of content (2 chars) + ellipsis.
    assert_eq!(truncate("日本語", 5), "日本…");
}

#[test]
fn combining_marks_are_zero_width() {
    assert_eq!(display_width("e\u{0301}"), 1); // e + combining acute
}

#[test]
fn pad_right_pads_to_display_width() {
    assert_eq!(pad_right("ab", 4), "ab  ");
    assert_eq!(pad_right("日本", 5), "日本 ");
    assert_eq!(pad_right("too long here", 7), "too lo…");
}

#[test]
fn pr_badge_on_local_ref() {
    let prs = pr_map(&prs_for(&["feat/x"]));
    let refs = vec!["feat/x".to_string()];
    let remotes = vec!["origin".to_string()];
    assert!(pr_for_ref("feat/x", &refs, &remotes, &prs).is_some());
    assert!(pr_for_ref("feat/other", &refs, &remotes, &prs).is_none());
}

#[test]
fn pr_badge_on_remote_ref_when_no_local_twin() {
    let prs = pr_map(&prs_for(&["feat/x"]));
    let refs = vec!["origin/feat/x".to_string()];
    let remotes = vec!["origin".to_string()];
    assert!(pr_for_ref("origin/feat/x", &refs, &remotes, &prs).is_some());
}

#[test]
fn remote_ref_defers_to_local_twin_on_same_commit() {
    let prs = pr_map(&prs_for(&["feat/x"]));
    let refs = vec!["feat/x".to_string(), "origin/feat/x".to_string()];
    let remotes = vec!["origin".to_string()];
    assert!(pr_for_ref("feat/x", &refs, &remotes, &prs).is_some());
    assert!(pr_for_ref("origin/feat/x", &refs, &remotes, &prs).is_none());
}

#[test]
fn slashed_branch_without_remote_prefix_matches() {
    // "feat/x" starts with "feat/", but "feat" isn't a remote — the whole
    // name must be used for the PR lookup even with no local twin check.
    let prs = pr_map(&prs_for(&["feat/x"]));
    let refs = vec!["feat/x".to_string()];
    assert!(pr_for_ref("feat/x", &refs, &[], &prs).is_some());
}

#[test]
fn tags_never_get_badges() {
    let prs = pr_map(&prs_for(&["v1"]));
    let refs = vec!["tag:v1".to_string()];
    assert!(pr_for_ref("tag:v1", &refs, &[], &prs).is_none());
}

#[test]
fn rel_time_buckets() {
    let now = std::time::SystemTime::now()
        .duration_since(std::time::UNIX_EPOCH)
        .unwrap()
        .as_secs() as i64;
    assert_eq!(rel_time(now - 30, now), "30s");
    assert_eq!(rel_time(now - 120, now), "2m");
    assert_eq!(rel_time(now - 7200, now), "2h");
    assert_eq!(rel_time(now - 3 * 86_400, now), "3d");
}

#[test]
fn ages_change_units_at_their_bounds() {
    let now = 2_000_000_000;
    for (age, text) in [
        (0, "0s"),
        (59, "59s"),
        (60, "1m"),
        (3599, "59m"),
        (3600, "1h"),
        (86_399, "23h"),
        (86_400, "1d"),
        (604_799, "6d"),
        (604_800, "1w"),
        (2_591_999, "4w"),
        (2_592_000, "1mo"),
        (31_535_999, "12mo"),
        (31_536_000, "1y"),
        (-5, "0s"),
    ] {
        assert_eq!(rel_time(now - age, now), text);
    }
    assert_eq!(rel_time(i64::MIN, i64::MAX), "584942417355y");
    assert_eq!(rel_time(i64::MAX, i64::MIN), "0s");
}

#[test]
fn widths_of_characters() {
    for (c, w) in [
        ('a', 1),
        ('…', 1),
        ('│', 1),
        ('\u{2ff}', 1),
        ('\u{300}', 0),
        ('\u{36f}', 0),
        ('\u{370}', 1),
        ('\u{10ff}', 1),
        ('\u{1100}', 2),
        ('\u{115f}', 2),
        ('\u{200b}', 0),
        ('\u{2e80}', 2),
        ('\u{303f}', 1),
        ('\u{3041}', 2),
        ('\u{4dc0}', 1),
        ('\u{ac00}', 2),
        ('\u{d7a4}', 1),
        ('\u{fe0f}', 0),
        ('\u{ff60}', 2),
        ('\u{ff61}', 1),
        ('\u{1f600}', 2),
        ('\u{1f650}', 1),
        ('\u{2fffd}', 2),
        ('\u{2fffe}', 1),
    ] {
        assert_eq!(char_width(c), w, "{:x}", c as u32);
    }
}

#[test]
fn truncated_text_never_takes_more_cells() {
    for s in ["hello world", "日本語テキスト", "e\u{301}e\u{301}e\u{301}", "", "a日b"] {
        for max in 0..12 {
            let t = truncate(s, max);
            assert!(display_width(&t) <= max);
            assert_eq!(t == s, display_width(s) <= max);
            let p = pad_right(s, max);
            assert!(display_width(&p) <= max);
            if display_width(s) <= max {
                assert_eq!(display_width(&p), max);
            }
        }
    }
}

#[test]
fn layout_agrees_with_single_precision() {
    for n in 0..=u16::MAX {
        let l = Layout::new(n, n);
        let target = (n as f32 * 0.55) as u16;
        let graph = target.min(n.saturating_sub(30)).max(30);
        let rows = ((n as f32 * 0.33) as u16).clamp(4, 10);
        assert_eq!(l.graph_width, graph);
        assert_eq!(l.diff_split_y, rows + 2);
    }
}

#[test]
fn small_screens_are_recognized() {
    assert!(Layout::new(MIN_WIDTH - 1, 40).too_small());
    assert!(Layout::new(80, MIN_HEIGHT - 1).too_small());
    assert!(!Layout::new(MIN_WIDTH, MIN_HEIGHT).too_small());
    let l = Layout::new(100, 30);
    assert_eq!((l.graph_width, l.diff_split_y), (55, 11));
    assert_eq!(status_pane_rows(&l), 9);
    assert_eq!(status_pane_rows(&Layout::new(80, 5)), 3);
    assert_eq!(status_pane_rows(&Layout::new(80, 0)), 0);
}

#[test]
fn small_screens_say_so() {
    let mut out = Canvas::new();
    draw_too_small(&Layout::new(59, 10), &mut out);
    assert_eq!(text_of(&out), "spor needs at least 60×12 (currently 59×10)");
    assert_eq!(moves(&out), vec![(5, 8)]);
    let mut out = Canvas::new();
    draw_too_small(&Layout::new(10, 3), &mut out);
    assert_eq!(text_of(&out), "spor need…");
    assert_eq!(moves(&out), vec![(1, 0)]);
    let mut out = Canvas::new();
    draw_too_small(&Layout::new(0, 3), &mut out);
    assert_eq!(encode(&out), "\x1b[2J\x1b[H");
}

#[test]
fn steps_are_encoded() {
    let mut out = Canvas::new();
    clear(&mut out);
    move_to(0, 9, &mut out);
    fg((1, 20, 255), &mut out);
    bg((0, 0, 7), &mut out);
    bold(&mut out);
    out.write("é");
    reset(&mut out);
    hide_cursor(&mut out);
    show_cursor(&mut out);
    assert_eq!(
        encode(&out),
        "\x1b[2J\x1b[H\x1b[1;10H\x1b[38;2;1;20;255m\x1b[48;2;0;0;7m\x1b[1mé\x1b[0m\x1b[?25l\x1b[?25h"
    );
    assert_eq!(measure(&out, 0), 1);
    assert_eq!(measure(&out, 6), 0);
}

fn tracking(branch: Option<&str>, upstream: bool, ahead: usize, behind: usize) -> TrackingInfo {
    TrackingInfo {
        branch: branch.map(|b| b.to_string()),
        upstream: if upstream {
            Some("origin/x".to_string())
        } else {
            None
        },
        ahead,
        behind,
        detached: branch.is_none(),
    }
}

#[test]
fn status_bar_shows_the_position() {
    let layout = Layout::new(80, 24);
    for (t, segment) in [
        (tracking(Some("main"), true, 2, 1), " ⎇ main ↑2 ↓1 "),
        (tracking(Some("main"), true, 0, 0), " ⎇ main = "),
        (tracking(Some("main"), false, 2, 1), " ⎇ main (no upstream) "),
        (tracking(None, false, 0, 0), " ⎇ (detached) "),
    ] {
        let mut out = Canvas::new();
        draw_statusbar(&layout, &t, "ready", "hint", &mut out);
        let text = text_of(&out);
        assert!(text.starts_with(segment), "{text}");
        assert!(text[segment.len()..].starts_with(" ready  │  hint"));
        assert_eq!(display_width(&text), 80);
        assert_eq!(moves(&out), vec![(23, 0)]);
    }
    let unknown = TrackingInfo {
        branch: None,
        detached: false,
        ..tracking(None, false, 0, 0)
    };
    let mut out = Canvas::new();
    draw_statusbar(&layout, &unknown, "", "", &mut out);
    assert!(text_of(&out).starts_with(" ⎇ ? (no upstream) "));
}

#[test]
fn long_branch_names_are_cut_in_the_status_bar() {
    let name = "x".repeat(200);
    let mut out = Canvas::new();
    let t = tracking(Some(&name), true, 0, 0);
    draw_statusbar(&Layout::new(60, 12), &t, &"m".repeat(99), "hint", &mut out);
    let text = text_of(&out);
    assert_eq!(display_width(&text), 60);
    assert!(text.contains(&format!("{}…", "x".repeat(29))));
}

fn entry(status: FileStatus, path: &str, orig: Option<&str>) -> StatusEntry {
    StatusEntry {
        status,
        path: path.to_string(),
        orig_path: orig.map(|o| o.to_string()),
    }
}

#[test]
fn status_pane_lists_files() {
    let layout = Layout::new(80, 24);
    let entries = vec![
        entry(FileStatus::Staged, "new.rs", Some("old.rs")),
        entry(FileStatus::StagedDeleted, "a", None),
        entry(FileStatus::Modified, "b", None),
        entry(FileStatus::Untracked, "c", None),
        entry(FileStatus::Deleted, "d", None),
    ];
    let mut out = Canvas::new();
    draw_status_pane(&entries, 0, 0, true, &layout, &mut out);
    assert_eq!(
        texts(&out),
        vec![
            " Working tree ",
            " + ",
            "old.rs → new.rs",
            " - ",
            "a",
            " ~ ",
            "b",
            " ? ",
            "c",
            " - ",
            "d"
        ]
    );
    assert_eq!(moves(&out), vec![(0, 45), (2, 45), (3, 45), (4, 45), (5, 45), (6, 45)]);
}

#[test]
fn status_pane_scrolls_and_counts() {
    let layout = Layout::new(60, 12);
    let entries: Vec<StatusEntry> = (0..9)
        .map(|i| entry(FileStatus::Modified, &format!("file-{i}"), None))
        .collect();
    assert_eq!(status_pane_rows(&layout), 4);
    let mut out = Canvas::new();
    draw_status_pane(&entries, 6, 4, true, &layout, &mut out);
    let seen = texts(&out);
    assert_eq!(seen[1], "(7/9)");
    assert_eq!(seen.iter().filter(|t| t.starts_with("file-")).count(), 4);
    assert_eq!(seen[3], "file-4");
    let mut out = Canvas::new();
    draw_status_pane(&entries, 6, 99, true, &layout, &mut out);
    assert_eq!(texts(&out), vec![" Working tree ", "(7/9)"]);
}

#[test]
fn clean_working_tree_is_said() {
    let mut out = Canvas::new();
    draw_status_pane(&[], 3, 0, false, &Layout::new(80, 24), &mut out);
    assert_eq!(texts(&out), vec![" Working tree ", " clean"]);
}

#[test]
fn diff_pane_colours_lines() {
    let layout = Layout::new(80, 24);
    let diff = "--- a\n+++ b\n@@ -1 +1 @@\n-old\n+new\n same\n";
    let mut out = Canvas::new();
    draw_diff_pane(diff, &layout, 1, &mut out);
    let colours: Vec<(u8, u8, u8)> = out
        .steps
        .iter()
        .filter_map(|s| match s {
            Paint::Fg(c) => Some(*c),
            _ => None,
        })
        .collect();
    assert_eq!(
        colours,
        vec![
            (180, 200, 255),
            (180, 180, 180),
            (180, 200, 255),
            (220, 100, 100),
            (120, 200, 120),
            (180, 180, 180)
        ]
    );
    assert_eq!(texts(&out)[1], "+++ b");
    assert_eq!(moves(&out)[0], (8, 45));
    assert_eq!(moves(&out)[1], (9, 45));
    let mut out = Canvas::new();
    draw_diff_pane(diff, &Layout::new(80, 8), 0, &mut out);
    assert!(out.steps.is_empty());
}

#[test]
fn diff_pane_stops_above_the_status_bar() {
    let layout = Layout::new(80, 24);
    let diff = "line\n".repeat(100);
    let mut out = Canvas::new();
    draw_diff_pane(&diff, &layout, 0, &mut out);
    let last = moves(&out).last().cloned().unwrap();
    assert_eq!(last.0, 22);
    let mut out = Canvas::new();
    draw_diff_pane(&diff, &layout, 99, &mut out);
    assert_eq!(texts(&out).len(), 2);
    let mut out = Canvas::new();
    draw_diff_pane(&diff, &layout, usize::MAX, &mut out);
    assert_eq!(texts(&out).len(), 1);
}

#[test]
fn panes_are_painted_at_the_far_end_of_the_columns() {
    let layout = Layout {
        width: u16::MAX,
        height: 24,
        graph_width: u16::MAX - 1,
        diff_split_y: 9,
    };
    let mut out = Canvas::new();
    draw_status_pane(
        &[entry(FileStatus::Modified, "a.rs", None)],
        usize::MAX,
        0,
        true,
        &layout,
        &mut out,
    );
    assert_eq!(moves(&out), vec![(0, u16::MAX), (2, u16::MAX)]);
    let mut out = Canvas::new();
    draw_diff_pane("+a", &layout, 0, &mut out);
    assert_eq!(moves(&out), vec![(8, u16::MAX), (9, u16::MAX)]);
    let mut out = Canvas::new();
    let low = Layout {
        diff_split_y: u16::MAX,
        ..layout
    };
    draw_diff_pane("+a", &low, 0, &mut out);
    assert!(out.steps.is_empty());
}

fn row(refs: &[&str], head: Option<&str>, subject: &str) -> GraphRow {
    GraphRow {
        commit: Commit {
            hash: "abcdef".to_string(),
            short: "abc".to_string(),
            parents: strings(&["p"]),
            refs: strings(refs),
            head_ref: head.map(|h| h.to_string()),
            subject: subject.to_string(),
            author: "Ada".to_string(),
            timestamp: 1000,
        },
        lane: 0,
        lanes_before: vec![Some("abcdef".to_string()), Some("x".to_string()), None],
        lanes_after: vec![Some("p".to_string()), None, Some("y".to_string())],
        branch_family: "main".to_string(),
        lane_families: vec![None, Some("feat".to_string()), None],
    }
}

fn draw_row(row: &GraphRow, selected: bool, max_lanes: usize, width: u16, prs: &[PrInfo]) -> Canvas {
    let remotes = strings(&["origin"]);
    let prs = pr_map(prs);
    let meta = RepoMeta {
        remotes: &remotes,
        prs: &prs,
    };
    let mut out = Canvas::new();
    draw_graph_row(row, 3, selected, true, max_lanes, width, &meta, 1090, &mut out);
    out
}

#[test]
fn graph_row_shows_lanes_labels_and_byline() {
    let out = draw_row(&row(&["main", "tag:v1"], None, "fix bug"), false, 10, 60, &[]);
    assert_eq!(text_of(&out), "● ╵ ╷ (main) [v1] fix bug  abc Ada 1m");
    assert_eq!(moves(&out), vec![(3, 0)]);
    let out = draw_row(&row(&["main"], Some("main"), "fix"), false, 10, 60, &[]);
    assert_eq!(text_of(&out), "◉ ╵ ╷ (▶main) fix  abc Ada 1m");
    let mut merge = row(&[], None, "merge");
    merge.commit.parents = strings(&["p", "q"]);
    merge.lanes_after[1] = Some("x".to_string());
    assert_eq!(
        text_of(&draw_row(&merge, false, 2, 60, &[])),
        "◆ │ merge  abc Ada 1m"
    );
}

#[test]
fn graph_row_shows_badges() {
    let mut prs = prs_for(&["feat/x"]);
    prs[0].checks = ChecksState::Passing;
    let out = draw_row(&row(&["origin/feat/x"], None, "s"), false, 1, 60, &prs);
    assert_eq!(text_of(&out), "● (origin/feat/x #1✓) s  abc Ada 1m");
    let out = draw_row(
        &row(&["feat/x", "origin/feat/x"], None, "s"),
        false,
        1,
        60,
        &prs,
    );
    assert_eq!(
        text_of(&out),
        "● (feat/x #1✓) (origin/feat/x) s  abc Ada 1m"
    );
}

#[test]
fn graph_row_drops_what_does_not_fit() {
    let r = row(&["a-rather-long-branch", "x"], None, "a subject that is long");
    // From the first label that does not fit on, none is shown.
    let out = draw_row(&r, false, 1, 20, &[]);
    assert_eq!(text_of(&out), "● a subject that is…");
    for width in 0..60 {
        let out = draw_row(&r, false, 1, width, &[]);
        assert!(display_width(&text_of(&out)) <= (width as usize).max(2));
        let out = draw_row(&r, true, 1, width, &[]);
        assert_eq!(display_width(&text_of(&out)), (width as usize).max(2));
    }
}

#[test]
fn badges_show_review_and_checks() {
    let pr = |draft, review, checks| PrInfo {
        number: 12,
        head_branch: "x".to_string(),
        draft,
        review,
        checks,
    };
    assert_eq!(
        pr_badge(&pr(false, ReviewState::Approved, ChecksState::Passing)),
        (" #12".to_string(), (120, 200, 120), "✓", (120, 200, 120))
    );
    assert_eq!(
        pr_badge(&pr(false, ReviewState::ChangesRequested, ChecksState::Failing)),
        (" #12".to_string(), (220, 100, 100), "✗", (220, 100, 100))
    );
    assert_eq!(
        pr_badge(&pr(false, ReviewState::Undecided, ChecksState::Pending)),
        (" #12".to_string(), (180, 200, 255), "●", (220, 180, 60))
    );
    assert_eq!(
        pr_badge(&pr(true, ReviewState::Approved, ChecksState::NoChecks)),
        (" #12".to_string(), (110, 110, 125), "", (0, 0, 0))
    );
}

#[test]
fn later_pull_requests_replace_earlier_ones() {
    let mut prs = prs_for(&["a", "b", "a"]);
    prs[2].number = 9;
    let map = pr_map(&prs);
    assert_eq!(map.get("a").unwrap().number, 9);
    assert_eq!(map.get("b").unwrap().number, 2);
    assert!(map.get("c").is_none());
}

fn branch(name: &str, current: bool, remote: bool) -> Branch {
    Branch {
        name: name.to_string(),
        is_current: current,
        is_remote: remote,
    }
}

#[test]
fn picker_lists_matches() {
    let layout = Layout::new(80, 24);
    let a = branch("main", true, false);
    let b = branch("origin/feat/x", false, true);
    let mut out = Canvas::new();
    draw_branch_picker(&layout, "m", &[&a, &b], 1, &strings(&["origin"]), &mut out);
    let seen = texts(&out);
    assert_eq!(seen[1], " Switch branch ");
    assert!(seen.iter().any(|t| t.trim_end() == "m_"));
    assert!(seen.iter().any(|t| t.trim_end() == "main"));
    assert!(seen.iter().any(|t| t.trim_end() == "origin/feat/x (remote)"));
    assert!(seen.iter().any(|t| t == "▎"));
    assert!(seen.last().unwrap().contains(" ↑↓ select  ⏎ checkout  esc cancel "));
    assert_eq!(moves(&out)[0], (3, 10));
    assert_eq!(*moves(&out).last().unwrap(), (20, 10));
    assert_eq!(moves(&out).len(), 18);
}

#[test]
fn help_is_cut_on_low_screens() {
    assert_eq!(help_lines().len(), 27);
    let mut out = Canvas::new();
    draw_help(&Layout::new(80, 50), &mut out);
    assert_eq!(moves(&out).len(), 31);
    assert_eq!(moves(&out)[0], (9, 8));
    assert!(texts(&out).iter().any(|t| t.trim_end() == "q  Ctrl-C"));
    let mut out = Canvas::new();
    draw_help(&Layout::new(60, 12), &mut out);
    assert_eq!(moves(&out).len(), 10);
    assert!(!texts(&out).iter().any(|t| t.trim_end() == "q  Ctrl-C"));
    assert!(texts(&out).last().unwrap().contains(" any key to dismiss "));
    let mut out = Canvas::new();
    draw_help(&Layout::new(2, 2), &mut out);
    assert_eq!(moves(&out).len(), 2);
}

#[test]
fn rows_of_the_right_pane_stay_on_the_screen() {
    let layout = Layout::new(60, 12);
    let entries = vec![entry(FileStatus::Modified, &"日本".repeat(40), Some("old"))];
    let mut out = Canvas::new();
    draw_status_pane(&entries, 0, 0, true, &layout, &mut out);
    let label = texts(&out).last().cloned().unwrap();
    assert!(31 + 3 + display_width(&label) <= 60);
    let mut out = Canvas::new();
    draw_diff_pane(&"+日本語".repeat(40), &layout, 0, &mut out);
    let line = texts(&out).last().cloned().unwrap();
    assert!(31 + display_width(&line) < 60);
    assert!(line.ends_with('…'));
}

#[test]
fn choices_stay_inside_the_frame() {
    let long = branch(&"x".repeat(200), true, true);
    let mut out = Canvas::new();
    draw_branch_picker(&Layout::new(60, 12), "", &[&long], 0, &[], &mut out);
    let seen = texts(&out);
    let i = seen.iter().position(|t| t == "▎").unwrap();
    let row: usize = seen[i - 1..i + 4].iter().map(|t| display_width(t)).sum();
    assert_eq!(row, 59);
}

#[test]
fn canvases_are_encoded_one_after_the_other() {
    let mut a = Canvas::new();
    fg((1, 2, 3), &mut a);
    a.write("x");
    let mut b = Canvas::new();
    b.write("y");
    reset(&mut b);
    let apart = encode(&a) + &encode(&b);
    a.steps.extend(b.steps);
    assert_eq!(encode(&a), apart);
}
