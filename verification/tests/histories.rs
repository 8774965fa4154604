//! The lanes of the graph.

use spor::git::Commit;
use spor::graph::{assign_lanes, chain_set, family_of, first_free, ensure_len, GraphRow};

fn strings(items: &[&str]) -> Vec<String> {
    items.iter().map(|s| s.to_string()).collect()
}

fn commit(hash: &str, parents: &[&str], refs: &[&str]) -> Commit {
    Commit {
        hash: hash.to_string(),
        short: hash.to_string(),
        parents: strings(parents),
        refs: strings(refs),
        head_ref: None,
        subject: format!("commit {hash}"),
        author: "test".to_string(),
        timestamp: 0,
    }
}

fn rows_of(commits: &[Commit], chain: &[&str]) -> Vec<GraphRow> {
    assign_lanes(commits, &chain_set(&strings(chain)), &strings(&["origin"]))
}

#[test]
fn linear_main_history_stays_in_lane_zero() {
    // Newest first, like git log output.
    let commits = vec![
        commit("c", &["b"], &["main"]),
        commit("b", &["a"], &[]),
        commit("a", &[], &[]),
    ];
    let rows = rows_of(&commits, &["a", "b", "c"]);
    assert_eq!(rows.len(), 3);
    assert!(rows.iter().all(|r| r.lane == 0));
    assert_eq!(rows[0].branch_family, "main");
}

#[test]
fn feature_branch_gets_its_own_lane() {
    let commits = vec![
        commit("f1", &["m1"], &["origin/feat/login"]),
        commit("m1", &["m0"], &["main"]),
        commit("m0", &[], &[]),
    ];
    let rows = rows_of(&commits, &["m0", "m1"]);
    assert_eq!(rows[0].lane, 1, "feature tip must not take main's lane");
    assert_eq!(rows[1].lane, 0);
    assert_eq!(rows[2].lane, 0);
    // Family comes from the ref with the remote prefix stripped.
    assert_eq!(rows[0].branch_family, "feat");
}

#[test]
fn merge_commit_opens_lane_for_second_parent() {
    let commits = vec![
        commit("m2", &["m1", "f1"], &["main"]),
        commit("f1", &["m0"], &["origin/feat/x"]),
        commit("m1", &["m0"], &[]),
        commit("m0", &[], &[]),
    ];
    let rows = rows_of(&commits, &["m0", "m1", "m2"]);
    assert_eq!(rows[0].lane, 0); // merge sits on main
    assert_eq!(rows[1].lane, 1); // merged branch got the lane opened by the merge
    assert_eq!(rows[2].lane, 0);
    assert_eq!(rows[3].lane, 0);
    // After the merge row, lane 1 waits for the second parent.
    assert_eq!(rows[0].lanes_after.get(1), Some(&Some("f1".to_string())));
}

#[test]
fn main_bumps_squatter_out_of_lane_zero() {
    // A feature commit is newest; its parent chain would claim lane 0's
    // wait slot only if lanes were assigned naively. Main must stay at 0.
    let commits = vec![
        commit("f2", &["f1"], &["origin/feat/x"]),
        commit("m1", &["m0"], &["main"]),
        commit("f1", &["m0"], &[]),
        commit("m0", &[], &[]),
    ];
    let rows = rows_of(&commits, &["m0", "m1"]);
    let lane_of = |h: &str| rows.iter().find(|r| r.commit.hash == h).unwrap().lane;
    assert_eq!(lane_of("m1"), 0);
    assert_eq!(lane_of("m0"), 0);
    assert_ne!(lane_of("f2"), 0);
    assert_eq!(lane_of("f1"), lane_of("f2"), "branch stays in one lane");
}

#[test]
fn root_commit_frees_its_lane() {
    let commits = vec![commit("a", &[], &["main"])];
    let rows = rows_of(&commits, &["a"]);
    assert_eq!(rows[0].lane, 0);
    assert_eq!(rows[0].lanes_after, vec![None]);
}

#[test]
fn unlabeled_lane_falls_back_to_orphan_family() {
    let commits = vec![commit("a", &[], &[])];
    let rows = rows_of(&commits, &["a"]);
    assert_eq!(rows[0].branch_family, "_");
}

#[test]
fn lane_zero_gives_way_to_the_main_branch() {
    // The chain begins at "m": what waits in lane 0 for its parent moves aside.
    let commits = vec![
        commit("n", &["x"], &["main"]),
        commit("m", &["y"], &[]),
        commit("x", &[], &[]),
    ];
    let rows = rows_of(&commits, &["n", "m"]);
    assert_eq!(rows[0].lane, 0);
    assert_eq!(rows[1].lane, 0);
    assert_eq!(
        rows[1].lanes_after,
        vec![Some("y".to_string()), Some("x".to_string())]
    );
    // The family moves with what waits.
    assert_eq!(rows[1].lane_families[1], Some("main".to_string()));
    assert_eq!(rows[2].lane, 1);
    assert_eq!(rows[2].branch_family, "main");
}

#[test]
fn merged_parent_that_is_awaited_opens_no_lane() {
    let commits = vec![
        commit("f2", &["f1"], &["origin/feat/x"]),
        commit("m2", &["m1", "f1"], &["main"]),
    ];
    let rows = rows_of(&commits, &["m1", "m2"]);
    assert_eq!(
        rows[1].lanes_after,
        vec![Some("m1".to_string()), Some("f1".to_string())]
    );
}

#[test]
fn families_come_from_the_first_branch() {
    let family = |refs: &[&str], remotes: &[&str]| {
        family_of(&commit("a", &[], refs), &strings(remotes))
    };
    let known = ["origin"];
    assert_eq!(
        family(&["tag:v1", "origin/feat/x", "main"], &known),
        Some("feat".to_string())
    );
    assert_eq!(family(&["origin/main"], &known), Some("main".to_string()));
    assert_eq!(family(&["dev"], &known), Some("dev".to_string()));
    assert_eq!(family(&["tag:v1"], &known), None);
    assert_eq!(family(&[], &known), None);
    assert_eq!(family(&["feat/login"], &known), Some("feat".to_string()));
    // Only a remote that is known is left out.
    assert_eq!(family(&["fork/feat/x"], &known), Some("fork".to_string()));
    assert_eq!(family(&["feat/login"], &["feat"]), Some("login".to_string()));
}

#[test]
fn tips_with_one_prefix_share_a_family() {
    let commits = vec![
        commit("f", &["m"], &["feat/login"]),
        commit("g", &["m"], &["feat/logout"]),
        commit("h", &["m"], &["origin/feat/x"]),
        commit("m", &[], &["main"]),
    ];
    let rows = rows_of(&commits, &["m"]);
    assert!(rows[..3].iter().all(|r| r.branch_family == "feat"));
    assert_eq!(rows[3].branch_family, "main");
    let alone = rows_of(&commits[..1], &[]);
    assert_eq!(alone[0].branch_family, "feat");
}

#[test]
fn a_lane_that_was_freed_takes_the_next_family() {
    let commits = vec![
        commit("f", &[], &["feat/a"]),
        commit("x", &[], &["fix/b"]),
        commit("m", &[], &["main"]),
    ];
    let rows = rows_of(&commits, &["m"]);
    assert_eq!((rows[0].lane, rows[1].lane), (1, 1));
    assert_eq!(rows[0].branch_family, "feat");
    assert_eq!(rows[1].branch_family, "fix");
}

#[test]
fn free_lanes_are_found_and_added() {
    let mut lanes = vec![None, Some("a".to_string()), None];
    assert_eq!(first_free(&lanes, 0), 0);
    assert_eq!(first_free(&lanes, 1), 2);
    assert_eq!(first_free(&lanes, 3), 3);
    assert_eq!(first_free(&lanes, 7), 7);
    ensure_len(&mut lanes, 2);
    assert_eq!(lanes.len(), 3);
    ensure_len(&mut lanes, 5);
    assert_eq!(lanes.len(), 5);
    assert_eq!(lanes[4], None);
}

#[test]
fn an_empty_log_has_no_rows() {
    assert!(rows_of(&[], &["a"]).is_empty());
}
