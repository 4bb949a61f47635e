use commit_graph::checkout::{
    HeadAction, RefTarget, ResolvedRev, plan_head_update, reference_not_found_message,
};
use commit_graph::commits::first_parent;

#[test]
fn missing_reference_message_quotes_the_argument() {
    let wanted = "0123456789abcdef0123456789abcdef01234567".to_string();
    let message = reference_not_found_message(&wanted);
    assert_eq!(
        message,
        "Reference not found: 0123456789abcdef0123456789abcdef01234567".to_string()
    );
}

#[test]
fn checking_out_a_branch_keeps_head_symbolic() {
    let rev = ResolvedRev {
        object_id: "aa".to_string(),
        reference: Some(RefTarget {
            full_name: Some("refs/heads/main".to_string()),
            is_branch: true,
        }),
    };
    assert_eq!(
        plan_head_update(&rev),
        HeadAction::Symbolic("refs/heads/main".to_string())
    );
}

#[test]
fn checking_out_a_tag_detaches_head() {
    let rev = ResolvedRev {
        object_id: "aa".to_string(),
        reference: Some(RefTarget {
            full_name: Some("refs/tags/v1".to_string()),
            is_branch: false,
        }),
    };
    assert_eq!(plan_head_update(&rev), HeadAction::Detach("aa".to_string()));
}

#[test]
fn checking_out_a_bare_commit_id_detaches_head() {
    let rev = ResolvedRev { object_id: "aa".to_string(), reference: None };
    assert_eq!(plan_head_update(&rev), HeadAction::Detach("aa".to_string()));
}

#[test]
fn first_parent_of_a_root_is_none() {
    assert_eq!(first_parent(&Vec::new()), None);
}

#[test]
fn first_parent_picks_the_mainline_parent() {
    let parents = vec!["bb".to_string(), "cc".to_string()];
    assert_eq!(first_parent(&parents), Some("bb".to_string()));
}
