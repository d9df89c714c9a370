use probing_web::metrics::{
    compare_run_ids, toggle_compare_run, filter_tags, overlay_runs, tag_chunks, tag_group, tag_page, tag_tree,
};
use probing_web::rl::RlRunSummary;

fn tags(names: &[&str]) -> Vec<String> {
    names.iter().map(|n| n.to_string()).collect()
}

#[test]
fn filter_tags_respects_group_and_search() {
    let tags = tags(&["reward.mean", "policy.entropy", "policy.pg_loss"]);
    assert_eq!(filter_tags(&tags, "pg", "policy"), vec!["policy.pg_loss".to_string()]);
}

#[test]
fn filter_tags_searches_every_group_and_ignores_case() {
    let tags = tags(&["reward.mean", "policy.entropy", "Policy.Mean"]);
    assert_eq!(filter_tags(&tags, " MEAN ", "all"), vec!["reward.mean", "Policy.Mean"]);
    assert_eq!(filter_tags(&tags, "", "policy"), vec!["policy.entropy"]);
}

#[test]
fn tag_tree_groups_by_prefix() {
    let tree = tag_tree(&tags(&["reward.mean", "policy.entropy", "policy.pg_loss"]));
    assert_eq!(tree.len(), 2);
    assert_eq!(tree[0].0, "policy");
    assert_eq!(tree[0].1.len(), 2);
}

#[test]
fn tag_groups_are_the_text_before_the_first_dot() {
    assert_eq!(tag_group("a.b.c"), "a");
    assert_eq!(tag_group("plain"), "plain");
    assert_eq!(tag_group(".hidden"), "");
    let tree = tag_tree(&tags(&["loss", "a.x", "loss", "a.y"]));
    assert_eq!(tree[0], ("a".to_string(), vec!["a.x".to_string(), "a.y".to_string()]));
    assert_eq!(tree[1], ("loss".to_string(), vec!["loss".to_string(), "loss".to_string()]));
}

#[test]
fn tag_pages_hold_eighteen_tags_and_clamp_to_the_last_page() {
    let tags: Vec<String> = (0..40).map(|i| format!("train.metric{i:02}")).collect();
    let first = tag_page(&tags, 0);
    assert_eq!(first.page_count, 3);
    assert_eq!(first.page, 0);
    assert_eq!(first.tags.len(), 18);
    assert_eq!(first.showing, "Showing 1-18 of 40 tags");
    let past = tag_page(&tags, 9);
    assert_eq!(past.page, 2);
    assert_eq!(past.tags, tags[36..].to_vec());
    assert_eq!(past.showing, "Showing 37-40 of 40 tags");
    let none = tag_page(&Vec::new(), 3);
    assert_eq!((none.page_count, none.page, none.tags.len()), (1, 0, 0));
    assert_eq!(none.showing, "Showing 0-0 of 0 tags");
}

#[test]
fn compared_runs_overlay_after_the_primary_and_keep_their_colour_places() {
    let runs = vec![("a".to_string(), true), ("b".to_string(), false), ("c".to_string(), true)];
    assert_eq!(
        overlay_runs("c", &runs),
        vec![("c".to_string(), "#2563eb"), ("a".to_string(), "#dc2626")]
    );
    // "b" has no series for the metric: it draws nothing but keeps its colour slot.
    assert_eq!(
        overlay_runs("a", &runs),
        vec![("a".to_string(), "#2563eb"), ("c".to_string(), "#16a34a")]
    );
    // A primary run without loaded series draws nothing.
    assert_eq!(overlay_runs("z", &runs), vec![("a".to_string(), "#dc2626"), ("c".to_string(), "#9333ea")]);
}

fn known(ids: &[&str]) -> Vec<RlRunSummary> {
    ids.iter().map(|id| RlRunSummary { run_id: id.to_string(), ..Default::default() }).collect()
}

#[test]
fn compared_runs_are_known_distinct_and_at_most_two() {
    let runs = known(&["a", "b", "c", "d"]);
    let wanted = tags(&["b", "a", "b", "zz", "c", "d"]);
    assert_eq!(compare_run_ids("a", &wanted, &runs), tags(&["a", "b", "c"]));
    assert_eq!(compare_run_ids("a", &Vec::new(), &runs), tags(&["a"]));
}

#[test]
fn series_requests_name_at_most_sixty_four_tags() {
    let all: Vec<String> = (0..130).map(|i| format!("m{i}")).collect();
    let chunks = tag_chunks(&all);
    assert_eq!(chunks.iter().map(Vec::len).collect::<Vec<_>>(), vec![64, 64, 2]);
    assert_eq!(chunks.concat(), all);
    assert!(tag_chunks(&Vec::new()).is_empty());
    assert_eq!(tag_chunks(&all[..64].to_vec()).len(), 1);
}

#[test]
fn compare_checkbox_toggles_within_the_limit() {
    let none: Vec<String> = Vec::new();
    assert_eq!(toggle_compare_run(&none, "run-a"), tags(&["run-a"]));
    assert_eq!(toggle_compare_run(&tags(&["run-a"]), "run-b"), tags(&["run-a", "run-b"]));
    assert_eq!(toggle_compare_run(&tags(&["run-a", "run-b"]), "run-c"), tags(&["run-a", "run-b"]));
    assert_eq!(toggle_compare_run(&tags(&["run-a", "run-b"]), "run-a"), tags(&["run-b"]));
    assert_eq!(toggle_compare_run(&tags(&["run-a", "run-b", "run-a"]), "run-a"), tags(&["run-b"]));
}
