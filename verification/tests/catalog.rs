use probing_web::catalog::{canonical_capability_routes, capability_items, matches_catalog_filter};
use probing_web::registry::NextRoute;

#[test]
fn catalog_uses_registered_metadata_and_filters_paths() {
    let memory = NextRoute::Memory {}.page_spec();
    assert_eq!(memory.title, "Memory");
    assert!(matches_catalog_filter(&memory, "/memory"));
    assert!(!matches_catalog_filter(&memory, "/training"));
}

#[test]
fn catalog_contains_only_canonical_routes() {
    let routes = canonical_capability_routes();
    assert!(routes.iter().all(|route| {
        route.page_spec().canonical_path != "/explore"
            && !matches!(route, NextRoute::ClassicFallback { .. })
    }));
}

#[test]
fn catalog_filter_trims_and_ignores_case() {
    let all = capability_items("   ");
    assert_eq!(all.len(), canonical_capability_routes().len());
    let memory = capability_items("  MEMORY ");
    assert!(memory.iter().any(|item| item.path == "/memory"));
    assert!(memory.iter().all(|item| {
        format!("{} {} {} {}", item.title, item.group, item.path, item.description)
            .to_ascii_lowercase()
            .contains("memory")
    }));
    assert!(capability_items("no workspace is called this").is_empty());
}

#[test]
fn a_narrower_search_finds_no_more_workspaces() {
    let wide = capability_items("dis");
    let narrow = capability_items("distributed");
    assert!(!narrow.is_empty());
    assert!(narrow.len() <= wide.len());
    assert!(narrow.iter().all(|item| wide.contains(item)));
    let every = capability_items("");
    let routes = canonical_capability_routes();
    assert_eq!(every.len(), routes.len());
    for (item, route) in every.iter().zip(routes.iter()) {
        assert_eq!(item.path, route.page_spec().canonical_path);
    }
}
