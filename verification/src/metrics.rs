//! The RL metrics page's tag browser: tags grouped by the prefix before
//! their first dot, the tags a group and a search keep, their pages, the
//! runs compared and the order in which a chart overlays them.

use vstd::prelude::*;

use crate::inference::{palette, palette_color};
use crate::rl::{run_ids, RlRunSummary};
use crate::text::{
    chars_of, contains_chars, contains_seq, lemma_text_less_irreflexive, lemma_text_less_total,
    lemma_text_less_transitive, lemma_views_push, lower_chars, lower_seq, push_char, str_eq,
    text_less, text_lt, trim_seq, trimmed, views, nat_text, owned, usize_text,
};

verus! {

/// The text before the first `.`, or the whole text when it has none.
pub open spec fn group_of(t: Seq<char>) -> Seq<char>
    decreases t.len(),
{
    if t.len() == 0 {
        seq![]
    } else if t[0] == '.' {
        seq![]
    } else {
        seq![t[0]] + group_of(t.drop_first())
    }
}

/// The group a tag belongs to: the prefix before its first dot.
pub fn tag_group(tag: &str) -> (r: String)
    ensures
        r@ == group_of(tag@),
{
    let c = chars_of(tag);
    let mut s = String::new();
    let mut i: usize = 0;
    assert(c@.skip(0) =~= c@);
    while i < c.len() && c[i] != '.'
        invariant
            i <= c@.len(),
            c@ == tag@,
            group_of(tag@) == s@ + group_of(c@.skip(i as int)),
        decreases c@.len() - i,
    {
        assert(c@.skip(i as int)[0] == c@[i as int]);
        assert(c@.skip(i as int).drop_first() =~= c@.skip(i + 1));
        let ghost before = s@;
        push_char(&mut s, c[i]);
        assert(s@ == before.push(c@[i as int]));
        assert(before + group_of(c@.skip(i as int)) =~= s@ + group_of(c@.skip(i + 1)));
        i = i + 1;
    }
    if i < c.len() {
        assert(c@.skip(i as int)[0] == '.');
    }
    assert(s@ + group_of(c@.skip(i as int)) =~= s@);
    s
}

/// A tag is kept when it is in the group (or the group is `all`) and,
/// lowered, contains the needle (or the needle is empty).
pub open spec fn tag_kept(tag: Seq<char>, needle: Seq<char>, group: Seq<char>) -> bool {
    (group == "all"@ || group_of(tag) == group) && (needle.len() == 0 || contains_seq(
        lower_seq(tag),
        needle,
    ))
}

pub open spec fn kept_tags(tags: Seq<Seq<char>>, needle: Seq<char>, group: Seq<char>) -> Seq<Seq<char>>
    decreases tags.len(),
{
    if tags.len() == 0 {
        seq![]
    } else {
        let rest = kept_tags(tags.drop_last(), needle, group);
        if tag_kept(tags.last(), needle, group) {
            rest.push(tags.last())
        } else {
            rest
        }
    }
}

/// The tags of a group (or of every group, `all`) that contain the search
/// text, trimmed and with ASCII case ignored, in order.
pub fn filter_tags(tags: &Vec<String>, query: &str, group: &str) -> (r: Vec<String>)
    ensures
        views(r@) == kept_tags(views(tags@), lower_seq(trim_seq(query@)), group@),
{
    proof {
        reveal_strlit("all");
    }
    let t = trimmed(query);
    let needle = lower_chars(t.as_str());
    let all_groups = str_eq(group, "all");
    let ghost ts = views(tags@);
    let mut out: Vec<String> = Vec::new();
    let mut i: usize = 0;
    assert(ts.take(0) =~= Seq::<Seq<char>>::empty());
    while i < tags.len()
        invariant
            i <= tags@.len(),
            ts == views(tags@),
            needle@ == lower_seq(trim_seq(query@)),
            all_groups == (group@ == "all"@),
            views(out@) == kept_tags(ts.take(i as int), needle@, group@),
        decreases tags@.len() - i,
    {
        proof {
            assert(ts.take(i + 1).drop_last() =~= ts.take(i as int));
            assert(ts.take(i + 1).last() == tags@[i as int]@);
        }
        let tag = &tags[i];
        let in_group = all_groups || str_eq(tag_group(tag.as_str()).as_str(), group);
        let found = needle.len() == 0 || contains_chars(&lower_chars(tag.as_str()), &needle);
        if in_group && found {
            let c = tag.clone();
            let ghost before = out@;
            out.push(c);
            proof {
                lemma_views_push(before, c);
            }
        }
        i = i + 1;
    }
    assert(ts.take(tags@.len() as int) =~= ts);
    out
}

/// The tags of a group, in order.
pub open spec fn tags_in(tags: Seq<Seq<char>>, g: Seq<char>) -> Seq<Seq<char>>
    decreases tags.len(),
{
    if tags.len() == 0 {
        seq![]
    } else {
        let rest = tags_in(tags.drop_last(), g);
        if group_of(tags.last()) == g {
            rest.push(tags.last())
        } else {
            rest
        }
    }
}

/// Some tag belongs to the group.
pub open spec fn has_group(tags: Seq<Seq<char>>, g: Seq<char>) -> bool {
    exists|k: int| 0 <= k < tags.len() && group_of(#[trigger] tags[k]) == g
}

proof fn lemma_tags_in_absent(tags: Seq<Seq<char>>, g: Seq<char>)
    requires
        !has_group(tags, g),
    ensures
        tags_in(tags, g) == Seq::<Seq<char>>::empty(),
    decreases tags.len(),
{
    if tags.len() > 0 {
        let d = tags.drop_last();
        assert(!has_group(d, g)) by {
            if has_group(d, g) {
                let k = choose|k: int| 0 <= k < d.len() && group_of(#[trigger] d[k]) == g;
                assert(tags[k] == d[k]);
            }
        }
        assert(group_of(tags[tags.len() - 1]) != g);
        lemma_tags_in_absent(d, g);
    }
}

/// The tags grouped by prefix: the groups in text order, each with its tags
/// in order.
pub fn tag_tree(tags: &Vec<String>) -> (r: Vec<(String, Vec<String>)>)
    ensures
        forall|a: int, b: int| 0 <= a < b < r@.len() ==> text_less(r@[a].0@, r@[b].0@),
        forall|a: int|
            0 <= a < r@.len() ==> views((#[trigger] r@[a]).1@) == tags_in(views(tags@), r@[a].0@),
        forall|g: Seq<char>|
            has_group(views(tags@), g) <==> exists|a: int| 0 <= a < r@.len() && (#[trigger] r@[a]).0@ == g,
{
    let ghost ts = views(tags@);
    let mut tree: Vec<(String, Vec<String>)> = Vec::new();
    let mut i: usize = 0;
    assert(ts.take(0) =~= Seq::<Seq<char>>::empty());
    while i < tags.len()
        invariant
            i <= tags@.len(),
            ts == views(tags@),
            forall|a: int, b: int| 0 <= a < b < tree@.len() ==> text_less(tree@[a].0@, tree@[b].0@),
            forall|a: int|
                0 <= a < tree@.len() ==> views((#[trigger] tree@[a]).1@) == tags_in(
                    ts.take(i as int),
                    tree@[a].0@,
                ),
            forall|g: Seq<char>|
                has_group(ts.take(i as int), g) <==> exists|a: int|
                    0 <= a < tree@.len() && (#[trigger] tree@[a]).0@ == g,
        decreases tags@.len() - i,
    {
        let ghost cur = ts.take(i as int);
        let ghost next = ts.take(i + 1);
        proof {
            assert(next.drop_last() =~= cur);
            assert(next.last() == tags@[i as int]@);
        }
        let tag = tags[i].clone();
        let key = tag_group(tag.as_str());
        let ghost k0 = key@;
        let mut a: usize = 0;
        while a < tree.len() && !str_eq(tree[a].0.as_str(), key.as_str())
            invariant
                a <= tree@.len(),
                key@ == k0,
                forall|b: int| 0 <= b < a ==> (#[trigger] tree@[b]).0@ != k0,
            decreases tree@.len() - a,
        {
            a = a + 1;
        }
        let ghost old_tree = tree@;
        if a < tree.len() {
            let (name, mut members) = tree.remove(a);
            let ghost before = members@;
            members.push(tag);
            proof {
                lemma_views_push(before, tag);
            }
            tree.insert(a, (name, members));
            assert(tree@ =~= old_tree.update(a as int, (name, members)));
            assert forall|b: int| 0 <= b < tree@.len() implies views((#[trigger] tree@[b]).1@)
                == tags_in(next, tree@[b].0@) by {
                if b != a {
                    assert(tree@[b] == old_tree[b]);
                    assert(old_tree[b].0@ != k0) by {
                        if old_tree[b].0@ == k0 {
                            if b < a {
                                assert(text_less(old_tree[b].0@, old_tree[a as int].0@));
                            } else {
                                assert(text_less(old_tree[a as int].0@, old_tree[b].0@));
                            }
                            lemma_text_less_irreflexive(k0);
                        }
                    }
                }
            }
            assert forall|g: Seq<char>| has_group(next, g) <==> exists|b: int|
                0 <= b < tree@.len() && (#[trigger] tree@[b]).0@ == g by {
                if has_group(next, g) {
                    let k = choose|k: int| 0 <= k < next.len() && group_of(#[trigger] next[k]) == g;
                    if k < cur.len() {
                        assert(cur[k] == next[k]);
                        assert(has_group(cur, g));
                        let b = choose|b: int| 0 <= b < old_tree.len() && (#[trigger] old_tree[b]).0@ == g;
                        assert(tree@[b].0 == old_tree[b].0);
                    } else {
                        assert(tree@[a as int].0@ == g);
                    }
                }
                if exists|b: int| 0 <= b < tree@.len() && (#[trigger] tree@[b]).0@ == g {
                    let b = choose|b: int| 0 <= b < tree@.len() && (#[trigger] tree@[b]).0@ == g;
                    assert(old_tree[b].0 == tree@[b].0);
                    assert(has_group(cur, g));
                    let k = choose|k: int| 0 <= k < cur.len() && group_of(#[trigger] cur[k]) == g;
                    assert(next[k] == cur[k]);
                }
            }
        } else {
            proof {
                assert(!has_group(cur, k0));
                lemma_tags_in_absent(cur, k0);
            }
            let mut p: usize = 0;
            while p < tree.len() && text_lt(tree[p].0.as_str(), key.as_str())
                invariant
                    p <= tree@.len(),
                    key@ == k0,
                    forall|b: int| 0 <= b < p ==> text_less((#[trigger] tree@[b]).0@, k0),
                decreases tree@.len() - p,
            {
                p = p + 1;
            }
            proof {
                if p < tree@.len() {
                    lemma_text_less_total(tree@[p as int].0@, k0);
                }
            }
            let mut members: Vec<String> = Vec::new();
            members.push(tag);
            assert(views(members@) =~= seq![tag@]);
            tree.insert(p, (key, members));
            proof {
                let nt = tree@;
                assert(nt[p as int].0@ == k0);
                assert(tags_in(next, k0) =~= seq![tag@]);
                assert forall|x: int, y: int| 0 <= x < y < nt.len() implies text_less(nt[x].0@, nt[y].0@) by {
                    if y < p {
                        assert(nt[x] == old_tree[x]);
                        assert(nt[y] == old_tree[y]);
                    } else if y == p {
                        assert(nt[x] == old_tree[x]);
                    } else if x < p {
                        assert(nt[x] == old_tree[x]);
                        assert(nt[y] == old_tree[y - 1]);
                        if y - 1 > p {
                            assert(text_less(old_tree[p as int].0@, old_tree[y - 1].0@));
                            lemma_text_less_transitive(k0, old_tree[p as int].0@, old_tree[y - 1].0@);
                        }
                        lemma_text_less_transitive(old_tree[x].0@, k0, old_tree[y - 1].0@);
                    } else if x == p {
                        assert(nt[y] == old_tree[y - 1]);
                        if y - 1 > p {
                            assert(text_less(old_tree[p as int].0@, old_tree[y - 1].0@));
                            lemma_text_less_transitive(k0, old_tree[p as int].0@, old_tree[y - 1].0@);
                        }
                    } else {
                        assert(nt[x] == old_tree[x - 1]);
                        assert(nt[y] == old_tree[y - 1]);
                    }
                }
                assert forall|b: int| 0 <= b < nt.len() implies views((#[trigger] nt[b]).1@) == tags_in(
                    next,
                    nt[b].0@,
                ) by {
                    if b < p {
                        assert(nt[b] == old_tree[b]);
                    } else if b > p {
                        assert(nt[b] == old_tree[b - 1]);
                        assert(old_tree[b - 1].0@ != k0);
                    }
                }
                assert forall|g: Seq<char>| has_group(next, g) <==> exists|b: int|
                    0 <= b < nt.len() && (#[trigger] nt[b]).0@ == g by {
                    if has_group(next, g) {
                        let k = choose|k: int| 0 <= k < next.len() && group_of(#[trigger] next[k]) == g;
                        if k < cur.len() {
                            assert(cur[k] == next[k]);
                            assert(has_group(cur, g));
                            let b = choose|b: int| 0 <= b < old_tree.len() && (#[trigger] old_tree[b]).0@ == g;
                            if b < p {
                                assert(nt[b] == old_tree[b]);
                            } else {
                                assert(nt[b + 1] == old_tree[b]);
                            }
                        } else {
                            assert(nt[p as int].0@ == g);
                        }
                    }
                    if exists|b: int| 0 <= b < nt.len() && (#[trigger] nt[b]).0@ == g {
                        let b = choose|b: int| 0 <= b < nt.len() && (#[trigger] nt[b]).0@ == g;
                        if b == p {
                            assert(group_of(next[i as int]) == g);
                        } else {
                            let ob = if b < p { b } else { b - 1 };
                            assert(nt[b] == old_tree[ob]);
                            assert(has_group(cur, g));
                            let k = choose|k: int| 0 <= k < cur.len() && group_of(#[trigger] cur[k]) == g;
                            assert(next[k] == cur[k]);
                        }
                    }
                }
            }
        }
        i = i + 1;
    }
    assert(ts.take(tags@.len() as int) =~= ts);
    tree
}

/// Tags the browser shows per page.
pub const PAGE_SIZE: usize = 18;

/// One page of the tag browser.
pub struct TagPage {
    /// How many pages the tags fill, at least one.
    pub page_count: usize,
    /// The page shown: the one asked for, or the last when it asked past it.
    pub page: usize,
    /// The tags of the page shown.
    pub tags: Vec<String>,
    /// `Showing <first>-<last> of <total> tags`, counting from one.
    pub showing: String,
}

/// How many pages `n` tags fill, at least one.
pub open spec fn page_count_of(n: nat) -> nat {
    if n == 0 {
        1
    } else {
        ((n + PAGE_SIZE - 1) / PAGE_SIZE as int) as nat
    }
}

/// The label of a page that starts at `start` and shows `shown` of `total`.
pub open spec fn showing_text(start: nat, shown: nat, total: nat) -> Seq<char> {
    "Showing "@ + nat_text(if total == 0 { 0 } else { start + 1 }) + "-"@ + nat_text(
        if start + shown <= total { start + shown } else { total },
    ) + " of "@ + nat_text(total) + " tags"@
}

/// The page of the filtered tags that was asked for, or the last page when
/// the request lies past it.
pub fn tag_page(filtered: &Vec<String>, requested: usize) -> (r: TagPage)
    ensures
        r.page_count == page_count_of(filtered@.len()),
        r.page == (if requested < r.page_count { requested } else { (r.page_count - 1) as usize }),
        r.tags@ == filtered@.subrange(
            r.page * PAGE_SIZE,
            if r.page * PAGE_SIZE + PAGE_SIZE <= filtered@.len() {
                r.page * PAGE_SIZE + PAGE_SIZE
            } else {
                filtered@.len() as int
            },
        ),
        r.showing@ == showing_text((r.page * PAGE_SIZE) as nat, r.tags@.len(), filtered@.len()),
{
    let n = filtered.len();
    let page_count: usize = if n == 0 {
        1
    } else {
        n / PAGE_SIZE + if n % PAGE_SIZE == 0 {
            0
        } else {
            1
        }
    };
    assert(page_count == page_count_of(n as nat)) by (nonlinear_arith)
        requires
            page_count == (if n == 0 { 1 } else { n / 18 + if n % 18 == 0 { 0int } else { 1int } }),
            PAGE_SIZE == 18,
    {
    }
    let page: usize = if requested < page_count {
        requested
    } else {
        page_count - 1
    };
    assert(page * 18 <= n) by (nonlinear_arith)
        requires
            page < page_count,
            page_count == (if n == 0 { 1 } else { n / 18 + if n % 18 == 0 { 0int } else { 1int } }),
    {
    }
    let start: usize = page * PAGE_SIZE;
    let end: usize = if n - start >= PAGE_SIZE {
        start + PAGE_SIZE
    } else {
        n
    };
    let mut tags: Vec<String> = Vec::new();
    let mut k: usize = start;
    while k < end
        invariant
            start <= k <= end,
            end <= filtered@.len(),
            tags@ == filtered@.subrange(start as int, k as int),
        decreases end - k,
    {
        tags.push(filtered[k].clone());
        assert(tags@ =~= filtered@.subrange(start as int, k + 1));
        k = k + 1;
    }
    proof {
        reveal_strlit("Showing ");
        reveal_strlit("-");
        reveal_strlit(" of ");
        reveal_strlit(" tags");
    }
    let first: usize = if n == 0 {
        0
    } else {
        start + 1
    };
    let mut showing = owned("Showing ");
    showing.append(usize_text(first).as_str());
    showing.append("-");
    showing.append(usize_text(end).as_str());
    showing.append(" of ");
    showing.append(usize_text(n).as_str());
    showing.append(" tags");
    TagPage { page_count, page, tags, showing }
}

/// The runs other than the primary, in the order listed.
pub open spec fn other_runs(runs: Seq<(String, bool)>, primary: Seq<char>) -> Seq<Seq<char>>
    decreases runs.len(),
{
    if runs.len() == 0 {
        seq![]
    } else if runs.last().0@ == primary {
        other_runs(runs.drop_last(), primary)
    } else {
        other_runs(runs.drop_last(), primary).push(runs.last().0@)
    }
}

/// The order in which a metric's chart overlays runs: the primary run
/// first, then the other runs with series in the order listed.
pub open spec fn overlay_order(runs: Seq<(String, bool)>, primary: Seq<char>) -> Seq<Seq<char>> {
    seq![primary] + other_runs(runs, primary)
}

/// The first listing of a run says that it has the metric.
pub open spec fn has_metric(runs: Seq<(String, bool)>, id: Seq<char>) -> bool
    decreases runs.len(),
{
    if runs.len() == 0 {
        false
    } else if runs[0].0@ == id {
        runs[0].1
    } else {
        has_metric(runs.drop_first(), id)
    }
}

/// The lines of the first `n` runs in overlay order: each run that has the
/// metric, in the colour of its place in the order.
pub open spec fn overlay_lines(order: Seq<Seq<char>>, runs: Seq<(String, bool)>, n: nat) -> Seq<
    (Seq<char>, Seq<char>),
>
    decreases n,
{
    if n == 0 {
        seq![]
    } else {
        overlay_lines(order, runs, (n - 1) as nat) + if has_metric(runs, order[n - 1]) {
            seq![(order[n - 1], palette_color(n - 1))]
        } else {
            seq![]
        }
    }
}

fn run_has_metric(runs: &Vec<(String, bool)>, id: &str) -> (r: bool)
    ensures
        r == has_metric(runs@, id@),
{
    let mut i: usize = 0;
    assert(runs@.skip(0) =~= runs@);
    while i < runs.len()
        invariant
            i <= runs@.len(),
            has_metric(runs@, id@) == has_metric(runs@.skip(i as int), id@),
        decreases runs@.len() - i,
    {
        assert(runs@.skip(i as int)[0] == runs@[i as int]);
        if str_eq(runs[i].0.as_str(), id) {
            return runs[i].1;
        }
        assert(runs@.skip(i as int).drop_first() =~= runs@.skip(i + 1));
        i = i + 1;
    }
    false
}

/// The runs a metric's chart overlays and their colours: the primary run
/// first, then the others in the order listed (the runs whose series were
/// loaded, each with whether it has this metric); a run without the metric
/// draws no line but keeps its place in the colour order.
pub fn overlay_runs(primary: &str, runs: &Vec<(String, bool)>) -> (r: Vec<(String, &'static str)>)
    ensures
        r@.len() == overlay_lines(overlay_order(runs@, primary@), runs@, overlay_order(runs@, primary@).len()).len(),
        forall|k: int|
            0 <= k < r@.len() ==> ((#[trigger] r@[k]).0@, r@[k].1@) == overlay_lines(
                overlay_order(runs@, primary@),
                runs@,
                overlay_order(runs@, primary@).len(),
            )[k],
{
    let mut order: Vec<String> = Vec::new();
    order.push(owned(primary));
    let mut i: usize = 0;
    assert(runs@.take(0) =~= Seq::<(String, bool)>::empty());
    assert(views(order@) =~= seq![primary@] + other_runs(runs@.take(0), primary@));
    while i < runs.len()
        invariant
            i <= runs@.len(),
            views(order@) == seq![primary@] + other_runs(runs@.take(i as int), primary@),
        decreases runs@.len() - i,
    {
        assert(runs@.take(i + 1).drop_last() =~= runs@.take(i as int));
        assert(runs@.take(i + 1).last() == runs@[i as int]);
        if !str_eq(runs[i].0.as_str(), primary) {
            let id = runs[i].0.clone();
            proof {
                lemma_views_push(order@, id);
            }
            order.push(id);
        }
        i = i + 1;
    }
    assert(runs@.take(runs@.len() as int) =~= runs@);
    let ghost ord = views(order@);
    let mut r: Vec<(String, &'static str)> = Vec::new();
    let mut k: usize = 0;
    while k < order.len()
        invariant
            k <= order@.len(),
            ord == views(order@),
            ord == overlay_order(runs@, primary@),
            r@.len() == overlay_lines(ord, runs@, k as nat).len(),
            forall|y: int|
                0 <= y < r@.len() ==> ((#[trigger] r@[y]).0@, r@[y].1@) == overlay_lines(ord, runs@, k as nat)[y],
        decreases order@.len() - k,
    {
        assert(ord[k as int] == order@[k as int]@);
        if run_has_metric(runs, order[k].as_str()) {
            r.push((order[k].clone(), palette(k)));
        }
        k = k + 1;
    }
    r
}

/// Runs the metrics page compares with the primary run at most.
pub const MAX_COMPARE_RUNS: usize = 2;

/// Rows a series request reads at most.
pub const SERIES_LIMIT: usize = 8000;

/// Tags one series request names at most.
pub const SERIES_CHUNK: usize = 64;

/// The runs whose series the page loads: the primary run, then each
/// requested run that is a known run other than the primary, once, up to
/// `MAX_COMPARE_RUNS` of them.
pub open spec fn compare_ids(primary: Seq<char>, compare: Seq<Seq<char>>, known: Seq<Seq<char>>) -> Seq<
    Seq<char>,
>
    decreases compare.len(),
{
    if compare.len() == 0 {
        seq![primary]
    } else {
        let acc = compare_ids(primary, compare.drop_last(), known);
        let c = compare.last();
        if c != primary && !acc.contains(c) && acc.len() < 1 + MAX_COMPARE_RUNS && known.contains(c) {
            acc.push(c)
        } else {
            acc
        }
    }
}

proof fn lemma_compare_ids_len(primary: Seq<char>, compare: Seq<Seq<char>>, known: Seq<Seq<char>>)
    ensures
        1 <= compare_ids(primary, compare, known).len() <= 1 + MAX_COMPARE_RUNS,
    decreases compare.len(),
{
    if compare.len() > 0 {
        lemma_compare_ids_len(primary, compare.drop_last(), known);
    }
}

fn lists_text(list: &Vec<String>, x: &str) -> (r: bool)
    ensures
        r == views(list@).contains(x@),
{
    let mut i: usize = 0;
    while i < list.len()
        invariant
            i <= list@.len(),
            forall|j: int| 0 <= j < i ==> views(list@)[j] != x@,
        decreases list@.len() - i,
    {
        if str_eq(list[i].as_str(), x) {
            assert(views(list@)[i as int] == x@);
            return true;
        }
        i = i + 1;
    }
    false
}

fn known_run(runs: &Vec<RlRunSummary>, x: &str) -> (r: bool)
    ensures
        r == run_ids(runs@).contains(x@),
{
    let mut i: usize = 0;
    while i < runs.len()
        invariant
            i <= runs@.len(),
            forall|j: int| 0 <= j < i ==> run_ids(runs@)[j] != x@,
        decreases runs@.len() - i,
    {
        if str_eq(runs[i].run_id.as_str(), x) {
            assert(run_ids(runs@)[i as int] == x@);
            return true;
        }
        i = i + 1;
    }
    false
}

/// The runs whose series the metrics page loads.
pub fn compare_run_ids(primary: &str, compare: &Vec<String>, runs: &Vec<RlRunSummary>) -> (r: Vec<String>)
    ensures
        views(r@) == compare_ids(primary@, views(compare@), run_ids(runs@)),
{
    let ghost cs = views(compare@);
    let mut ids: Vec<String> = Vec::new();
    ids.push(owned(primary));
    assert(views(ids@) =~= seq![primary@]);
    let mut i: usize = 0;
    assert(cs.take(0) =~= Seq::<Seq<char>>::empty());
    while i < compare.len()
        invariant
            i <= compare@.len(),
            cs == views(compare@),
            views(ids@) == compare_ids(primary@, cs.take(i as int), run_ids(runs@)),
        decreases compare@.len() - i,
    {
        proof {
            lemma_compare_ids_len(primary@, cs.take(i as int), run_ids(runs@));
            assert(cs.take(i + 1).drop_last() =~= cs.take(i as int));
            assert(cs.take(i + 1).last() == compare@[i as int]@);
        }
        let c = compare[i].as_str();
        if !str_eq(c, primary) && !lists_text(&ids, c) && ids.len() < 1 + MAX_COMPARE_RUNS && known_run(runs, c) {
            let id = owned(c);
            proof {
                lemma_views_push(ids@, id);
            }
            ids.push(id);
        }
        i = i + 1;
    }
    assert(cs.take(compare@.len() as int) =~= cs);
    ids
}

/// The selection without `id`, in order.
pub open spec fn without_id(s: Seq<Seq<char>>, id: Seq<char>) -> Seq<Seq<char>>
    decreases s.len(),
{
    if s.len() == 0 {
        seq![]
    } else if s.last() == id {
        without_id(s.drop_last(), id)
    } else {
        without_id(s.drop_last(), id).push(s.last())
    }
}

/// A compare run's checkbox: a selected run leaves the selection; another
/// joins it at the end while fewer than `MAX_COMPARE_RUNS` are chosen.
pub open spec fn toggled_runs(selected: Seq<Seq<char>>, id: Seq<char>) -> Seq<Seq<char>> {
    if selected.contains(id) {
        without_id(selected, id)
    } else if selected.len() < MAX_COMPARE_RUNS {
        selected.push(id)
    } else {
        selected
    }
}

/// The selection after a compare run's checkbox is clicked.
pub fn toggle_compare_run(selected: &Vec<String>, run_id: &str) -> (r: Vec<String>)
    ensures
        views(r@) == toggled_runs(views(selected@), run_id@),
{
    let ghost s = views(selected@);
    let mut kept: Vec<String> = Vec::new();
    let mut found = false;
    let mut i: usize = 0;
    assert(s.take(0) =~= Seq::<Seq<char>>::empty());
    while i < selected.len()
        invariant
            i <= selected@.len(),
            s == views(selected@),
            views(kept@) == without_id(s.take(i as int), run_id@),
            found == s.take(i as int).contains(run_id@),
        decreases selected@.len() - i,
    {
        let ghost before = kept@;
        assert(s.take(i + 1).drop_last() =~= s.take(i as int));
        assert(s.take(i + 1).last() == selected@[i as int]@);
        if str_eq(selected[i].as_str(), run_id) {
            found = true;
            assert(s.take(i + 1)[i as int] == run_id@);
        } else {
            let id = selected[i].clone();
            proof {
                lemma_views_push(before, id);
            }
            kept.push(id);
        }
        assert(s.take(i + 1).contains(run_id@) == (s.take(i as int).contains(run_id@)
            || s.take(i + 1)[i as int] == run_id@)) by {
            let t1 = s.take(i + 1);
            let t0 = s.take(i as int);
            if t1.contains(run_id@) {
                let k = choose|k: int| 0 <= k < t1.len() && #[trigger] t1[k] == run_id@;
                if k < i {
                    assert(t0[k] == t1[k]);
                }
            }
            if t0.contains(run_id@) {
                let k = choose|k: int| 0 <= k < t0.len() && #[trigger] t0[k] == run_id@;
                assert(t1[k] == t0[k]);
            }
        }
        i = i + 1;
    }
    assert(s.take(selected@.len() as int) =~= s);
    if found {
        kept
    } else if selected.len() < MAX_COMPARE_RUNS {
        let mut next: Vec<String> = Vec::new();
        let mut j: usize = 0;
        while j < selected.len()
            invariant
                j <= selected@.len(),
                s == views(selected@),
                views(next@) == s.take(j as int),
            decreases selected@.len() - j,
        {
            let id = selected[j].clone();
            let ghost before = next@;
            proof {
                lemma_views_push(before, id);
            }
            next.push(id);
            assert(s.take(j + 1) =~= s.take(j as int).push(s[j as int]));
            j = j + 1;
        }
        let id = owned(run_id);
        proof {
            lemma_views_push(next@, id);
        }
        next.push(id);
        next
    } else {
        let mut same: Vec<String> = Vec::new();
        let mut j: usize = 0;
        while j < selected.len()
            invariant
                j <= selected@.len(),
                s == views(selected@),
                views(same@) == s.take(j as int),
            decreases selected@.len() - j,
        {
            let id = selected[j].clone();
            let ghost before = same@;
            proof {
                lemma_views_push(before, id);
            }
            same.push(id);
            assert(s.take(j + 1) =~= s.take(j as int).push(s[j as int]));
            j = j + 1;
        }
        same
    }
}

/// The tags of each series request: consecutive groups of `SERIES_CHUNK`
/// tags, the last one holding the rest.
pub fn tag_chunks(tags: &Vec<String>) -> (r: Vec<Vec<String>>)
    ensures
        r@.len() * SERIES_CHUNK >= tags@.len(),
        r@.len() * SERIES_CHUNK < tags@.len() + SERIES_CHUNK,
        forall|k: int|
            0 <= k < r@.len() ==> (#[trigger] r@[k])@ == tags@.subrange(
                k * SERIES_CHUNK,
                if (k + 1) * SERIES_CHUNK <= tags@.len() { (k + 1) * SERIES_CHUNK } else { tags@.len() as int },
            ),
{
    let mut r: Vec<Vec<String>> = Vec::new();
    let mut start: usize = 0;
    while start < tags.len()
        invariant
            start <= tags@.len(),
            r@.len() * SERIES_CHUNK < tags@.len() + SERIES_CHUNK,
            start == (if r@.len() * SERIES_CHUNK <= tags@.len() { r@.len() * SERIES_CHUNK } else { tags@.len() as int }),
            forall|k: int|
                0 <= k < r@.len() ==> (#[trigger] r@[k])@ == tags@.subrange(
                    k * SERIES_CHUNK,
                    if (k + 1) * SERIES_CHUNK <= tags@.len() { (k + 1) * SERIES_CHUNK } else { tags@.len() as int },
                ),
        decreases tags@.len() - start,
    {
        let end: usize = if tags.len() - start > SERIES_CHUNK {
            start + SERIES_CHUNK
        } else {
            tags.len()
        };
        let mut chunk: Vec<String> = Vec::new();
        let mut k: usize = start;
        while k < end
            invariant
                start <= k <= end,
                end <= tags@.len(),
                chunk@ == tags@.subrange(start as int, k as int),
            decreases end - k,
        {
            chunk.push(tags[k].clone());
            assert(chunk@ =~= tags@.subrange(start as int, k + 1));
            k = k + 1;
        }
        assert(start == r@.len() * SERIES_CHUNK);
        assert((r@.len() + 1) * SERIES_CHUNK == start + SERIES_CHUNK) by (nonlinear_arith)
            requires
                start == r@.len() * SERIES_CHUNK,
        {
        }
        r.push(chunk);
        start = end;
    }
    r
}

} // verus!
