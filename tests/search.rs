use code_context::search::{is_all_path, merge_ranked, order_key, search_target, truncate, Hit, SearchTarget};

fn key(score: f32) -> u32 {
    order_key(score.to_bits())
}

#[test]
fn order_keys_follow_score_order() {
    let scores = [-2.5f32, -0.1, 0.0, 0.1, 0.5, 0.9, 3.0];
    for w in scores.windows(2) {
        assert!(key(w[0]) < key(w[1]), "{} vs {}", w[0], w[1]);
    }
}

#[test]
fn cross_project_merge_keeps_best_of_all() {
    let a = vec![key(0.9); 10];
    let b = vec![key(0.5); 10];
    let merged = merge_ranked(&vec![Some(a), Some(b)], 5);
    assert_eq!(merged.len(), 5);
    assert!(merged.iter().all(|h| h.project == 0 && h.score == key(0.9)));
    assert!(merged.windows(2).all(|w| w[0].score >= w[1].score));
}

#[test]
fn merge_interleaves_and_skips_failed_searches() {
    let merged = merge_ranked(
        &vec![Some(vec![key(0.8), key(0.2)]), None, Some(vec![key(0.9), key(0.5)])],
        10,
    );
    assert_eq!(
        merged,
        vec![
            Hit { score: key(0.9), project: 2, rank: 0 },
            Hit { score: key(0.8), project: 0, rank: 0 },
            Hit { score: key(0.5), project: 2, rank: 1 },
            Hit { score: key(0.2), project: 0, rank: 1 },
        ]
    );
    assert!(merge_ranked(&vec![None, Some(vec![])], 3).is_empty());
    assert!(merge_ranked(&vec![Some(vec![key(0.3)])], 0).is_empty());
}

#[test]
fn truncate_keeps_short_text_and_cuts_on_char_boundary() {
    assert_eq!(truncate("hello", 10), "hello");
    assert_eq!(truncate("hello", 3), "hel");
    assert_eq!(truncate("héllo", 2), "h");
    assert_eq!(truncate("héllo", 3), "hé");
    assert_eq!(truncate(&"a".repeat(600), 500).len(), 500);
}

#[test]
fn all_sentinel_paths() {
    assert!(is_all_path("all"));
    assert!(is_all_path("/home/me/all"));
    assert!(!is_all_path("/home/me/allx"));
    assert!(!is_all_path("al"));
    assert!(matches!(search_target("/x", true), SearchTarget::AllProjects));
    assert!(matches!(search_target("/x/all", false), SearchTarget::AllProjects));
    match search_target("/x/y", false) {
        SearchTarget::SingleProject(p) => assert_eq!(p, "/x/y"),
        SearchTarget::AllProjects => panic!("expected one project"),
    }
}
