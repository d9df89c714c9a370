//! The capability catalog of the explore page: the canonical workspaces,
//! found by their registered title, group, path and description.

use vstd::prelude::*;

use crate::registry::{page_of, page_spec_of, NextRoute, PageSpec};
use crate::text::{chars_of, contains_chars, contains_seq, lower_chars, lower_seq, owned, trim_seq, trimmed};

verus! {

/// The workspaces the catalog lists, in sidebar order.
pub open spec fn catalog_routes() -> Seq<NextRoute> {
    seq![
        NextRoute::Dashboard {},
        NextRoute::Investigate {},
        NextRoute::Distributed {},
        NextRoute::Cluster {},
        NextRoute::DistributedStatus {},
        NextRoute::Training {},
        NextRoute::Inference {},
        NextRoute::Rollout {},
        NextRoute::Memory {},
        NextRoute::Profiles {},
        NextRoute::Stack {},
        NextRoute::Spans {},
        NextRoute::Analytics {},
        NextRoute::Python {},
        NextRoute::Pulsing {},
        NextRoute::System {},
    ]
}

/// The canonical workspaces of the catalog.
pub fn canonical_capability_routes() -> (r: Vec<NextRoute>)
    ensures
        r@ == catalog_routes(),
{
    let r = vec![
        NextRoute::Dashboard {},
        NextRoute::Investigate {},
        NextRoute::Distributed {},
        NextRoute::Cluster {},
        NextRoute::DistributedStatus {},
        NextRoute::Training {},
        NextRoute::Inference {},
        NextRoute::Rollout {},
        NextRoute::Memory {},
        NextRoute::Profiles {},
        NextRoute::Stack {},
        NextRoute::Spans {},
        NextRoute::Analytics {},
        NextRoute::Python {},
        NextRoute::Pulsing {},
        NextRoute::System {},
    ];
    assert(r@ =~= catalog_routes());
    r
}

/// What the catalog searches in a workspace: its title, group, path and
/// description, space-separated.
pub open spec fn catalog_text(spec: PageSpec) -> Seq<char> {
    spec.title@ + " "@ + spec.sidebar_group@ + " "@ + spec.canonical_path@ + " "@
        + spec.description@
}

/// A workspace matches a needle (already trimmed and lowered) when the
/// needle is empty or its catalog text, lowered, contains it.
pub open spec fn catalog_match(spec: PageSpec, needle: Seq<char>) -> bool {
    needle.len() == 0 || contains_seq(lower_seq(catalog_text(spec)), needle)
}

/// Whether a workspace matches the catalog filter.
pub fn matches_catalog_filter(spec: &PageSpec, needle: &str) -> (r: bool)
    ensures
        r == catalog_match(*spec, needle@),
{
    proof {
        reveal_strlit(" ");
    }
    let wanted = chars_of(needle);
    if wanted.len() == 0 {
        return true;
    }
    let mut text = owned(spec.title);
    text.append(" ");
    text.append(spec.sidebar_group);
    text.append(" ");
    text.append(spec.canonical_path);
    text.append(" ");
    text.append(spec.description);
    contains_chars(&lower_chars(text.as_str()), &wanted)
}

/// One workspace of the catalog.
#[derive(Clone, Debug, PartialEq, Eq)]
pub struct CapabilityItem {
    pub title: String,
    pub group: String,
    pub description: String,
    pub path: String,
}

/// The catalog's workspaces that match a filter (trimmed, ASCII case
/// ignored), in catalog order.
pub open spec fn catalog_hits(routes: Seq<NextRoute>, needle: Seq<char>) -> Seq<PageSpec>
    decreases routes.len(),
{
    if routes.len() == 0 {
        seq![]
    } else {
        let rest = catalog_hits(routes.drop_last(), needle);
        let spec = page_spec_of(page_of(routes.last()));
        if catalog_match(spec, needle) {
            rest.push(spec)
        } else {
            rest
        }
    }
}

/// The catalog entries that match a filter, in catalog order.
pub fn capability_items(filter: &str) -> (r: Vec<CapabilityItem>)
    ensures
        r@.len() == catalog_hits(catalog_routes(), lower_seq(trim_seq(filter@))).len(),
        forall|i: int|
            0 <= i < r@.len() ==> {
                let spec = #[trigger] catalog_hits(catalog_routes(), lower_seq(trim_seq(filter@)))[i];
                &&& r@[i].title@ == spec.title@
                &&& r@[i].group@ == spec.sidebar_group@
                &&& r@[i].description@ == spec.description@
                &&& r@[i].path@ == spec.canonical_path@
            },
{
    let t = trimmed(filter);
    let lowered = lower_chars(t.as_str());
    let mut needle = String::new();
    let mut k: usize = 0;
    while k < lowered.len()
        invariant
            k <= lowered@.len(),
            needle@ == lowered@.take(k as int),
        decreases lowered@.len() - k,
    {
        crate::text::push_char(&mut needle, lowered[k]);
        assert(needle@ =~= lowered@.take(k + 1));
        k = k + 1;
    }
    assert(lowered@.take(lowered@.len() as int) =~= lowered@);
    let ghost nd = needle@;
    let routes = canonical_capability_routes();
    let mut items: Vec<CapabilityItem> = Vec::new();
    let mut i: usize = 0;
    assert(routes@.take(0) =~= Seq::<NextRoute>::empty());
    while i < routes.len()
        invariant
            i <= routes@.len(),
            routes@ == catalog_routes(),
            nd == needle@,
            items@.len() == catalog_hits(routes@.take(i as int), nd).len(),
            forall|j: int|
                0 <= j < items@.len() ==> {
                    let spec = #[trigger] catalog_hits(routes@.take(i as int), nd)[j];
                    &&& items@[j].title@ == spec.title@
                    &&& items@[j].group@ == spec.sidebar_group@
                    &&& items@[j].description@ == spec.description@
                    &&& items@[j].path@ == spec.canonical_path@
                },
        decreases routes@.len() - i,
    {
        let ghost cur = routes@.take(i as int);
        let ghost next = routes@.take(i + 1);
        proof {
            assert(next.drop_last() =~= cur);
            assert(next.last() == routes@[i as int]);
        }
        let spec = routes[i].page_spec();
        if matches_catalog_filter(&spec, needle.as_str()) {
            items.push(
                CapabilityItem {
                    title: owned(spec.title),
                    group: owned(spec.sidebar_group),
                    description: owned(spec.description),
                    path: owned(spec.canonical_path),
                },
            );
        }
        i = i + 1;
    }
    assert(routes@.take(routes@.len() as int) =~= routes@);
    items
}

} // verus!
