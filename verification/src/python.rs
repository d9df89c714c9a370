//! The python page's watch list: the variables a trace is asked to record.

use vstd::prelude::*;

use crate::text::{lemma_views_push, push_char, trim_seq, trimmed, views};

verus! {

/// The text cut at each comma, as `str::split(',')` cuts it: one piece more
/// than there are commas.
pub open spec fn split_commas(s: Seq<char>) -> Seq<Seq<char>>
    decreases s.len(),
{
    if s.len() == 0 {
        seq![seq![]]
    } else {
        let ps = split_commas(s.drop_last());
        if s.last() == ',' {
            ps.push(seq![])
        } else {
            ps.update(ps.len() - 1, ps.last().push(s.last()))
        }
    }
}

/// The trimmed pieces that are not empty, in order.
pub open spec fn kept_items(ps: Seq<Seq<char>>) -> Seq<Seq<char>>
    decreases ps.len(),
{
    if ps.len() == 0 {
        seq![]
    } else {
        let rest = kept_items(ps.drop_last());
        if trim_seq(ps.last()).len() > 0 {
            rest.push(trim_seq(ps.last()))
        } else {
            rest
        }
    }
}

/// The variables of a watch list: the comma-separated names, trimmed, blank
/// ones left out.
pub open spec fn watch_items(s: Seq<char>) -> Seq<Seq<char>> {
    kept_items(split_commas(s))
}

proof fn lemma_split_nonempty(s: Seq<char>)
    ensures
        split_commas(s).len() >= 1,
    decreases s.len(),
{
    if s.len() > 0 {
        lemma_split_nonempty(s.drop_last());
    }
}

/// The variables to watch, none when the list names none.
pub fn watch_variables(text: &str) -> (r: Option<Vec<String>>)
    ensures
        r is None <==> watch_items(text@).len() == 0,
        r matches Some(v) ==> views(v@) == watch_items(text@),
{
    let mut out: Vec<String> = Vec::new();
    let mut cur = String::new();
    let mut i: usize = 0;
    let mut chars: Vec<char> = Vec::new();
    for c in iter: text.chars()
        invariant
            iter.seq() == text@,
            chars@ == text@.take(iter.index() as int),
    {
        chars.push(c);
        assert(text@.take(iter.index() + 1) =~= text@.take(iter.index() as int).push(c));
    }
    assert(text@.take(text@.len() as int) =~= text@);
    assert(split_commas(chars@.take(0)) =~= seq![Seq::<char>::empty()]);
    while i < chars.len()
        invariant
            i <= chars@.len(),
            chars@ == text@,
            split_commas(chars@.take(i as int)).len() >= 1,
            views(out@) == kept_items(split_commas(chars@.take(i as int)).drop_last()),
            cur@ == split_commas(chars@.take(i as int)).last(),
        decreases chars@.len() - i,
    {
        let c = chars[i];
        let ghost ps = split_commas(chars@.take(i as int));
        proof {
            assert(chars@.take(i + 1).drop_last() =~= chars@.take(i as int));
            assert(chars@.take(i + 1).last() == c);
        }
        if c == ',' {
            let t = trimmed(cur.as_str());
            proof {
                assert(split_commas(chars@.take(i + 1)) == ps.push(seq![]));
                assert(ps.push(seq![]).drop_last() =~= ps);
                assert(ps.drop_last().push(ps.last()) =~= ps);
            }
            if !t.as_str().is_empty() {
                let ghost before = out@;
                out.push(t);
                proof {
                    lemma_views_push(before, t);
                }
            }
            cur = String::new();
            assert(cur@ =~= Seq::<char>::empty());
        } else {
            push_char(&mut cur, c);
            proof {
                let nps = ps.update(ps.len() - 1, ps.last().push(c));
                assert(split_commas(chars@.take(i + 1)) == nps);
                assert(nps.drop_last() =~= ps.drop_last());
            }
        }
        i = i + 1;
    }
    assert(chars@.take(chars@.len() as int) =~= chars@);
    let ghost ps = split_commas(text@);
    assert(ps.drop_last().push(ps.last()) =~= ps);
    let t = trimmed(cur.as_str());
    if !t.as_str().is_empty() {
        let ghost before = out@;
        out.push(t);
        proof {
            lemma_views_push(before, t);
        }
    }
    if out.len() == 0 {
        None
    } else {
        Some(out)
    }
}

} // verus!
