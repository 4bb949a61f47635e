use commit_graph::commits::{CommitInfo, RefInfo};
use commit_graph::simplify::{simplify_commits, cap_window, DEFAULT_WINDOW_LIMIT};

fn commit(oid: &str, parents: &[&str], refs: &[(&str, &str)]) -> CommitInfo {
    CommitInfo {
        oid: oid.to_string(),
        parents: parents.iter().map(|p| p.to_string()).collect(),
        author: "Ada".to_string(),
        email: "ada@example.com".to_string(),
        date: 1700000000,
        message: format!("commit {}", oid),
        refs: refs
            .iter()
            .map(|(n, k)| RefInfo { name: n.to_string(), kind: k.to_string() })
            .collect(),
    }
}

fn oids(v: &[CommitInfo]) -> Vec<String> {
    v.iter().map(|c| c.oid.clone()).collect()
}

#[test]
fn scenario_a_linear_history_collapses_to_tip_and_root() {
    // Five commits, newest first; only the tip carries a branch ref.
    let window = vec![
        commit("e", &["d"], &[("main", "branch")]),
        commit("d", &["c"], &[]),
        commit("c", &["b"], &[]),
        commit("b", &["a"], &[]),
        commit("a", &[], &[]),
    ];
    let out = simplify_commits(&window);
    assert_eq!(oids(&out), vec!["e".to_string(), "a".to_string()]);
    assert_eq!(out[0].parents, vec!["a".to_string()]);
    assert_eq!(out[1].parents, Vec::<String>::new());
}

#[test]
fn scenario_b_merge_with_unreffed_chains_collapses_to_root() {
    // A merge of two three-commit chains with no refs anywhere: both
    // parent edges resolve to the shared root and deduplicate.
    let window = vec![
        commit("m", &["a3", "b3"], &[]),
        commit("a3", &["a2"], &[]),
        commit("b3", &["b2"], &[]),
        commit("a2", &["a1"], &[]),
        commit("b2", &["b1"], &[]),
        commit("a1", &["r"], &[]),
        commit("b1", &["r"], &[]),
        commit("r", &[], &[]),
    ];
    let out = simplify_commits(&window);
    assert_eq!(oids(&out), vec!["m".to_string(), "r".to_string()]);
    assert_eq!(out[0].parents, vec!["r".to_string()]);
    assert!(out[0].parents.len() <= 2);
    assert_eq!(out[1].parents, Vec::<String>::new());
}

#[test]
fn scenario_b_merge_with_reffed_tips_keeps_both_tips() {
    let window = vec![
        commit("m", &["a3", "b3"], &[("merge", "branch")]),
        commit("a3", &["a2"], &[("left", "branch")]),
        commit("b3", &["b2"], &[("right", "branch")]),
        commit("a2", &["a1"], &[]),
        commit("b2", &["b1"], &[]),
        commit("a1", &["r"], &[]),
        commit("b1", &["r"], &[]),
        commit("r", &[], &[]),
    ];
    let out = simplify_commits(&window);
    assert_eq!(
        oids(&out),
        vec!["m".to_string(), "a3".to_string(), "b3".to_string(), "r".to_string()]
    );
    // Two distinct resolved parents, sorted ascending.
    assert_eq!(out[0].parents, vec!["a3".to_string(), "b3".to_string()]);
    assert_eq!(out[1].parents, vec!["r".to_string()]);
    assert_eq!(out[2].parents, vec!["r".to_string()]);
}

#[test]
fn retained_exactly_the_interesting_commits() {
    // A ref, a merge and a root are kept; the plain chain commits are not.
    let window = vec![
        commit("f", &["e"], &[("tip", "branch")]),
        commit("e", &["d", "c"], &[]),
        commit("d", &["b"], &[]),
        commit("c", &["b"], &[]),
        commit("b", &["a"], &[]),
        commit("a", &[], &[]),
    ];
    let out = simplify_commits(&window);
    assert_eq!(oids(&out), vec!["f".to_string(), "e".to_string(), "a".to_string()]);
}

#[test]
fn out_of_window_parent_is_kept_as_stub() {
    // The tip's ancestor chain leaves the window: the first id that is
    // not loaded is used verbatim as an edge stub.
    let window = vec![
        commit("c", &["b"], &[("main", "branch")]),
        commit("b", &["a"], &[]),
    ];
    let out = simplify_commits(&window);
    assert_eq!(oids(&out), vec!["c".to_string()]);
    assert_eq!(out[0].parents, vec!["a".to_string()]);
}

#[test]
fn parents_are_sorted_and_deduplicated() {
    // Original parent order is reversed relative to the id order; the
    // reduced list comes out ascending.
    let window = vec![
        commit("m", &["z", "a"], &[]),
        commit("z", &[], &[("zeta", "branch")]),
        commit("a", &[], &[("alpha", "branch")]),
    ];
    let out = simplify_commits(&window);
    assert_eq!(out[0].parents, vec!["a".to_string(), "z".to_string()]);
}

#[test]
fn fallback_returns_whole_window_when_nothing_is_interesting() {
    // Every commit has exactly one parent and no refs; the root lies
    // beyond the window. The whole window comes back unchanged.
    let window = vec![
        commit("c", &["b"], &[]),
        commit("b", &["a"], &[]),
        commit("a", &["zz"], &[]),
    ];
    let out = simplify_commits(&window);
    assert_eq!(out.len(), 3);
    assert_eq!(oids(&out), oids(&window));
    assert_eq!(out[0].parents, vec!["b".to_string()]);
    assert_eq!(out[1].parents, vec!["a".to_string()]);
    assert_eq!(out[2].parents, vec!["zz".to_string()]);
}

#[test]
fn empty_window_gives_empty_output() {
    let window: Vec<CommitInfo> = Vec::new();
    let out = simplify_commits(&window);
    assert!(out.is_empty());
}

#[test]
fn cyclic_parent_chain_terminates_and_drops_the_edge() {
    // Corrupt history: two uninteresting commits point at each other.
    // The ancestor walk stops instead of looping, and the edge is
    // dropped rather than failing the run.
    let window = vec![
        commit("x", &["a"], &[("main", "branch")]),
        commit("a", &["b"], &[]),
        commit("b", &["a"], &[]),
    ];
    let out = simplify_commits(&window);
    assert_eq!(oids(&out), vec!["x".to_string()]);
    assert_eq!(out[0].parents, Vec::<String>::new());
}

#[test]
fn self_referencing_parent_is_dropped() {
    let window = vec![
        commit("x", &["a"], &[("main", "branch")]),
        commit("a", &["a"], &[]),
    ];
    let out = simplify_commits(&window);
    assert_eq!(oids(&out), vec!["x".to_string()]);
    assert_eq!(out[0].parents, Vec::<String>::new());
}

#[test]
fn cap_window_truncates_to_the_newest_commits() {
    let mut window = vec![
        commit("e", &["d"], &[]),
        commit("d", &["c"], &[]),
        commit("c", &["b"], &[]),
        commit("b", &["a"], &[]),
        commit("a", &[], &[]),
    ];
    cap_window(&mut window, 3);
    assert_eq!(oids(&window), vec!["e".to_string(), "d".to_string(), "c".to_string()]);
    cap_window(&mut window, 10);
    assert_eq!(window.len(), 3);
}

#[test]
fn default_window_limit_is_two_thousand() {
    assert_eq!(DEFAULT_WINDOW_LIMIT, 2000);
}

#[test]
fn merge_is_retained_and_each_parent_resolved_independently() {
    // A merge without refs is kept for being a merge; its first parent
    // collapses to the root while its second is itself interesting.
    let window = vec![
        commit("m", &["s"], &[("main", "branch")]),
        commit("s", &["a", "z"], &[]),
        commit("z", &["r"], &[("side", "branch")]),
        commit("a", &["r"], &[]),
        commit("r", &[], &[]),
    ];
    let out = simplify_commits(&window);
    assert_eq!(
        oids(&out),
        vec!["m".to_string(), "s".to_string(), "z".to_string(), "r".to_string()]
    );
    assert_eq!(out[1].parents, vec!["r".to_string(), "z".to_string()]);
}
