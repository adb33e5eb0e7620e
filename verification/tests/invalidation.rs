use memoria_derived::{InvalidationCategory, InvalidationPlan, ProjectionKind, SemanticDiff};

fn fixture_semantic_diff(case_name: &str) -> SemanticDiff {
    match case_name {
        "state-valid-to" => SemanticDiff::new(vec![InvalidationCategory::Temporal]),
        "explicit-tag" => SemanticDiff::new(vec![InvalidationCategory::ExplicitTag]),
        _ => panic!("unknown fixture: {case_name}"),
    }
}

#[test]
fn valid_to_change_invalidates_temporal_not_lexical() {
    let plan = InvalidationPlan::from_diff(&fixture_semantic_diff("state-valid-to"));
    assert!(plan.rebuilds(ProjectionKind::Temporal));
    assert!(!plan.rebuilds(ProjectionKind::Lexical));
}

#[test]
fn explicit_tag_change_does_not_rebuild_default_text_embedding() {
    let plan = InvalidationPlan::from_diff(&fixture_semantic_diff("explicit-tag"));
    assert!(plan.rebuilds(ProjectionKind::ExplicitTags));
    assert!(!plan.rebuilds(ProjectionKind::LocalEmbedding));
}

#[test]
fn visible_text_change_rebuilds_its_dependents() {
    let plan = InvalidationPlan::from_diff(&SemanticDiff::new(vec![InvalidationCategory::VisibleText]));
    assert!(plan.rebuilds(ProjectionKind::Lexical));
    assert!(plan.rebuilds(ProjectionKind::GeneratedTags));
    assert!(plan.rebuilds(ProjectionKind::TagGraph));
    for index in 0..12 {
        let dependent = ProjectionKind::at(index);
        for dependency in dependent.dependencies() {
            if *dependency != ProjectionKind::Ir && plan.rebuilds(*dependency) {
                assert!(plan.rebuilds(dependent));
            }
        }
    }
    let empty = InvalidationPlan::from_diff(&SemanticDiff::new(Vec::new()));
    assert!(empty.projections().is_empty());
}

#[test]
fn projection_kinds_have_names_and_versions() {
    assert_eq!(ProjectionKind::Lexical.as_str(), "lexical");
    assert_eq!(ProjectionKind::LocalEmbedding.version(), 1);
}
