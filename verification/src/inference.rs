//! The inference page's metric history: which engine draws in which colour,
//! and which lines a metric's chart holds.

use vstd::prelude::*;

use crate::text::{insert_sorted_text, sorted_texts, str_eq, text_less, views};

verus! {

/// The colour at position `i` of the six-colour palette that the charts
/// cycle through.
pub open spec fn palette_color(i: int) -> Seq<char> {
    let m = i % 6;
    if m == 0 {
        "#2563eb"@
    } else if m == 1 {
        "#dc2626"@
    } else if m == 2 {
        "#16a34a"@
    } else if m == 3 {
        "#9333ea"@
    } else if m == 4 {
        "#ea580c"@
    } else {
        "#0891b2"@
    }
}

pub(crate) fn palette(i: usize) -> (r: &'static str)
    ensures
        r@ == palette_color(i as int),
{
    let m = i % 6;
    if m == 0 {
        "#2563eb"
    } else if m == 1 {
        "#dc2626"
    } else if m == 2 {
        "#16a34a"
    } else if m == 3 {
        "#9333ea"
    } else if m == 4 {
        "#ea580c"
    } else {
        "#0891b2"
    }
}

/// Some line of the list is drawn for the engine `x`.
pub open spec fn line_listed(r: Seq<(String, &'static str)>, x: Seq<char>) -> bool {
    exists|k: int| 0 <= k < r.len() && (#[trigger] r[k]).0@ == x
}

/// Some history key, a metric and an engine, names the engine `x` (for
/// the metric `metric`, when one is given).
pub open spec fn key_names(keys: Seq<(String, String)>, metric: Option<Seq<char>>, x: Seq<char>) -> bool {
    exists|j: int|
        0 <= j < keys.len() && (#[trigger] keys[j]).1@ == x && (metric matches Some(m) ==> keys[j].0@ == m)
}

/// Lines in strictly increasing order of their engines' names.
pub open spec fn lines_sorted(r: Seq<(String, &'static str)>) -> bool {
    forall|a: int, b: int| 0 <= a < b < r.len() ==> text_less(r[a].0@, r[b].0@)
}

/// The engines that the history keys name (for one metric, when given),
/// once each and in name order.
fn engines_of(keys: &Vec<(String, String)>, metric: Option<&str>) -> (names: Vec<String>)
    ensures
        sorted_texts(views(names@)),
        forall|x: Seq<char>| #[trigger] views(names@).contains(x) <==> key_names(
            keys@,
            match metric {
                Some(m) => Some(m@),
                None => None,
            },
            x,
        ),
{
    let ghost wanted: Option<Seq<char>> = match metric {
        Some(m) => Some(m@),
        None => None,
    };
    let mut names: Vec<String> = Vec::new();
    let mut i: usize = 0;
    while i < keys.len()
        invariant
            i <= keys@.len(),
            wanted == (match metric {
                Some(m) => Some(m@),
                None => None,
            }),
            sorted_texts(views(names@)),
            forall|x: Seq<char>| #[trigger] views(names@).contains(x) <==> key_names(
                keys@.take(i as int),
                wanted,
                x,
            ),
        decreases keys@.len() - i,
    {
        let wanted_here = match metric {
            Some(m) => str_eq(keys[i].0.as_str(), m),
            None => true,
        };
        let ghost before = views(names@);
        if wanted_here {
            insert_sorted_text(&mut names, &keys[i].1);
        }
        proof {
            let pre = keys@.take(i as int);
            let post = keys@.take(i + 1);
            assert forall|x: Seq<char>| #[trigger] views(names@).contains(x) <==> key_names(post, wanted, x) by {
                if key_names(post, wanted, x) {
                    let j = choose|j: int|
                        0 <= j < post.len() && (#[trigger] post[j]).1@ == x && (wanted matches Some(m)
                            ==> post[j].0@ == m);
                    if j < i {
                        assert(pre[j] == post[j]);
                        assert(key_names(pre, wanted, x));
                    }
                }
                if before.contains(x) {
                    assert(key_names(pre, wanted, x));
                    let j = choose|j: int|
                        0 <= j < pre.len() && (#[trigger] pre[j]).1@ == x && (wanted matches Some(m)
                            ==> pre[j].0@ == m);
                    assert(post[j] == pre[j]);
                }
                if wanted_here && x == keys@[i as int].1@ {
                    assert(post[i as int] == keys@[i as int]);
                }
            }
        }
        i = i + 1;
    }
    assert(keys@.take(keys@.len() as int) =~= keys@);
    names
}

/// Pairs each name with the colour of its position.
fn with_palette(names: &Vec<String>) -> (r: Vec<(String, &'static str)>)
    ensures
        r@.len() == names@.len(),
        forall|k: int| 0 <= k < r@.len() ==> (#[trigger] r@[k]).0@ == names@[k]@ && r@[k].1@
            == palette_color(k),
{
    let mut r: Vec<(String, &'static str)> = Vec::new();
    let mut k: usize = 0;
    while k < names.len()
        invariant
            k <= names@.len(),
            r@.len() == k,
            forall|y: int| 0 <= y < k ==> (#[trigger] r@[y]).0@ == names@[y]@ && r@[y].1@
                == palette_color(y),
        decreases names@.len() - k,
    {
        r.push((names[k].clone(), palette(k)));
        k = k + 1;
    }
    r
}

/// The colour of each engine of a metric history, from its (metric,
/// engine) keys: the engines once each, in name order, coloured by their
/// position.
pub fn engine_colors(keys: &Vec<(String, String)>) -> (r: Vec<(String, &'static str)>)
    ensures
        lines_sorted(r@),
        forall|k: int| 0 <= k < r@.len() ==> (#[trigger] r@[k]).1@ == palette_color(k),
        forall|x: Seq<char>| #[trigger] line_listed(r@, x) <==> key_names(keys@, None, x),
{
    let names = engines_of(keys, None);
    let r = with_palette(&names);
    proof {
        let v = views(names@);
        assert forall|a: int, b: int| 0 <= a < b < r@.len() implies text_less(r@[a].0@, r@[b].0@) by {
            assert(v[a] == names@[a]@);
            assert(v[b] == names@[b]@);
        }
        assert forall|x: Seq<char>| #[trigger] line_listed(r@, x) <==> key_names(keys@, None, x) by {
            if line_listed(r@, x) {
                let k = choose|k: int| 0 <= k < r@.len() && (#[trigger] r@[k]).0@ == x;
                assert(v[k] == x);
            }
            if v.contains(x) {
                let k = choose|k: int| 0 <= k < v.len() && v[k] == x;
                assert(r@[k].0@ == x);
            }
        }
    }
    r
}

/// The colour listed for an engine: the first entry with its name, grey
/// when there is none.
pub open spec fn listed_color(colors: Seq<(String, &'static str)>, x: Seq<char>) -> Seq<char>
    decreases colors.len(),
{
    if colors.len() == 0 {
        "#64748b"@
    } else if colors[0].0@ == x {
        colors[0].1@
    } else {
        listed_color(colors.drop_first(), x)
    }
}

fn color_for(colors: &Vec<(String, &'static str)>, engine: &str) -> (r: &'static str)
    ensures
        r@ == listed_color(colors@, engine@),
{
    let mut i: usize = 0;
    assert(colors@.skip(0) =~= colors@);
    while i < colors.len()
        invariant
            i <= colors@.len(),
            listed_color(colors@, engine@) == listed_color(colors@.skip(i as int), engine@),
        decreases colors@.len() - i,
    {
        assert(colors@.skip(i as int)[0] == colors@[i as int]);
        if str_eq(colors[i].0.as_str(), engine) {
            return colors[i].1;
        }
        assert(colors@.skip(i as int).drop_first() =~= colors@.skip(i + 1));
        i = i + 1;
    }
    assert(colors@.skip(i as int).len() == 0);
    "#64748b"
}

/// The lines of one metric's chart: each engine with history for the
/// metric, once and in name order, with the colour listed for it. The
/// caller attaches each line's points.
pub fn chart_series(keys: &Vec<(String, String)>, colors: &Vec<(String, &'static str)>, metric: &str) -> (r: Vec<(String, &'static str)>)
    ensures
        lines_sorted(r@),
        forall|k: int| 0 <= k < r@.len() ==> (#[trigger] r@[k]).1@ == listed_color(colors@, r@[k].0@),
        forall|x: Seq<char>| #[trigger] line_listed(r@, x) <==> key_names(keys@, Some(metric@), x),
{
    let names = engines_of(keys, Some(metric));
    let mut r: Vec<(String, &'static str)> = Vec::new();
    let mut k: usize = 0;
    while k < names.len()
        invariant
            k <= names@.len(),
            r@.len() == k,
            forall|y: int| 0 <= y < k ==> (#[trigger] r@[y]).0@ == names@[y]@ && r@[y].1@
                == listed_color(colors@, names@[y]@),
        decreases names@.len() - k,
    {
        let c = color_for(colors, names[k].as_str());
        r.push((names[k].clone(), c));
        k = k + 1;
    }
    proof {
        let v = views(names@);
        assert forall|a: int, b: int| 0 <= a < b < r@.len() implies text_less(r@[a].0@, r@[b].0@) by {
            assert(v[a] == names@[a]@);
            assert(v[b] == names@[b]@);
        }
        assert forall|x: Seq<char>| #[trigger] line_listed(r@, x) <==> key_names(keys@, Some(metric@), x) by {
            if line_listed(r@, x) {
                let k = choose|k: int| 0 <= k < r@.len() && (#[trigger] r@[k]).0@ == x;
                assert(v[k] == x);
            }
            if v.contains(x) {
                let k = choose|k: int| 0 <= k < v.len() && v[k] == x;
                assert(r@[k].0@ == x);
            }
        }
    }
    r
}

} // verus!
