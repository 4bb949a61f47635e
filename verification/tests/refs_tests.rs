use commit_graph::commits::{CommitInfo, RefInfo};
use commit_graph::refs::{RefEntry, annotate_commits, index_refs, ref_kind, refs_for};

fn entry(
    name: Option<&str>,
    shorthand: Option<&str>,
    target: Option<&str>,
    is_remote: bool,
    is_tag: bool,
    is_branch: bool,
) -> RefEntry {
    RefEntry {
        name: name.map(|s| s.to_string()),
        shorthand: shorthand.map(|s| s.to_string()),
        target: target.map(|s| s.to_string()),
        is_remote,
        is_tag,
        is_branch,
    }
}

#[test]
fn ref_kind_precedence_is_remote_then_tag_then_branch() {
    assert_eq!(ref_kind(true, true, true), "remote".to_string());
    assert_eq!(ref_kind(false, true, true), "tag".to_string());
    assert_eq!(ref_kind(false, false, true), "branch".to_string());
    assert_eq!(ref_kind(false, false, false), "other".to_string());
}

#[test]
fn unusable_entries_are_silently_skipped() {
    let entries = vec![
        entry(None, None, Some("aa"), false, false, true),
        entry(Some("refs/heads/main"), Some("main"), None, false, false, true),
        entry(Some("refs/heads/dev"), Some("dev"), Some("bb"), false, false, true),
    ];
    let index = index_refs(&entries, &None);
    assert_eq!(index.anns.len(), 1);
    assert_eq!(index.anns[0].target, "bb".to_string());
    assert_eq!(index.anns[0].info.name, "dev".to_string());
    assert_eq!(index.anns[0].info.kind, "branch".to_string());
}

#[test]
fn display_name_falls_back_to_full_name() {
    let entries = vec![entry(Some("refs/heads/main"), None, Some("aa"), false, false, true)];
    let index = index_refs(&entries, &None);
    assert_eq!(index.anns[0].info.name, "refs/heads/main".to_string());
}

#[test]
fn head_is_appended_last_on_its_target() {
    let entries = vec![
        entry(Some("refs/heads/main"), Some("main"), Some("aa"), false, false, true),
        entry(Some("refs/tags/v1"), Some("v1"), Some("bb"), false, true, false),
    ];
    let index = index_refs(&entries, &Some("aa".to_string()));
    assert_eq!(index.anns.len(), 3);
    assert_eq!(index.anns[2].target, "aa".to_string());
    assert_eq!(index.anns[2].info.name, "HEAD".to_string());
    assert_eq!(index.anns[2].info.kind, "HEAD".to_string());
    // The commit shows its branch and HEAD together, in discovery order.
    let refs = refs_for(&index, &"aa".to_string());
    assert_eq!(refs.len(), 2);
    assert_eq!(refs[0].name, "main".to_string());
    assert_eq!(refs[0].kind, "branch".to_string());
    assert_eq!(refs[1].name, "HEAD".to_string());
}

#[test]
fn refs_for_unknown_commit_is_empty() {
    let entries = vec![entry(Some("refs/heads/main"), Some("main"), Some("aa"), false, false, true)];
    let index = index_refs(&entries, &None);
    let refs = refs_for(&index, &"zz".to_string());
    assert!(refs.is_empty());
}

#[test]
fn duplicate_names_on_one_target_are_preserved() {
    // A branch and a tag may share a display name; on the same target
    // both rows are kept.
    let entries = vec![
        entry(Some("refs/heads/v1"), Some("v1"), Some("aa"), false, false, true),
        entry(Some("refs/tags/v1"), Some("v1"), Some("aa"), false, true, false),
    ];
    let index = index_refs(&entries, &None);
    let refs = refs_for(&index, &"aa".to_string());
    assert_eq!(refs.len(), 2);
    assert_eq!(refs[0].kind, "branch".to_string());
    assert_eq!(refs[1].kind, "tag".to_string());
}

#[test]
fn annotate_commits_fills_refs_and_keeps_fields() {
    let entries = vec![entry(Some("refs/heads/main"), Some("main"), Some("bb"), false, false, true)];
    let index = index_refs(&entries, &None);
    let window = vec![
        CommitInfo {
            oid: "bb".to_string(),
            parents: vec!["aa".to_string()],
            author: "Ada".to_string(),
            email: "ada@example.com".to_string(),
            date: 5,
            message: "two".to_string(),
            refs: Vec::new(),
        },
        CommitInfo {
            oid: "aa".to_string(),
            parents: Vec::new(),
            author: "Ada".to_string(),
            email: "ada@example.com".to_string(),
            date: 4,
            message: "one".to_string(),
            refs: Vec::new(),
        },
    ];
    let out = annotate_commits(&window, &index);
    assert_eq!(out.len(), 2);
    assert_eq!(out[0].oid, "bb".to_string());
    assert_eq!(out[0].parents, vec!["aa".to_string()]);
    assert_eq!(out[0].date, 5);
    assert_eq!(out[0].message, "two".to_string());
    assert_eq!(
        out[0].refs,
        vec![RefInfo { name: "main".to_string(), kind: "branch".to_string() }]
    );
    assert!(out[1].refs.is_empty());
}
