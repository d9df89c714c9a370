//! The investigation assistant: the workspaces its view names lead to, the
//! skills its messages suggest, and what the diagnostic session submits and
//! shows.

use vstd::prelude::*;

use crate::registry::NextRoute;
use crate::text::{
    chars_equal, chars_of, is_space, lemma_views_push, owned, space_char, str_eq, string_of,
    trim_seq, trim_start_seq, trimmed, views,
};

verus! {

/// The text without the character at its start, however often it repeats.
pub open spec fn strip_start(s: Seq<char>, c: char) -> Seq<char>
    decreases s.len(),
{
    if s.len() > 0 && s[0] == c {
        strip_start(s.drop_first(), c)
    } else {
        s
    }
}

/// The text without the character at its end, however often it repeats.
pub open spec fn strip_end(s: Seq<char>, c: char) -> Seq<char>
    decreases s.len(),
{
    if s.len() > 0 && s.last() == c {
        strip_end(s.drop_last(), c)
    } else {
        s
    }
}

/// The text without a prefix, however often it repeats
/// (`str::trim_start_matches`).
pub open spec fn strip_prefix_all(s: Seq<char>, p: Seq<char>) -> Seq<char>
    decreases s.len(),
{
    if p.len() > 0 && p.len() <= s.len() && s.take(p.len() as int) == p {
        strip_prefix_all(s.skip(p.len() as int), p)
    } else {
        s
    }
}

/// A view name as written: trimmed, without slashes at either end.
pub open spec fn normalized_view(v: Seq<char>) -> Seq<char> {
    strip_end(strip_start(trim_seq(v), '/'), '/')
}

/// The workspace a view name leads to.
pub enum ViewTarget {
    Analytics,
    Profile(Seq<char>),
    Spans,
    Python,
    Training,
    Cluster,
    Stack,
    Rollout,
    Inference,
}

pub open spec fn view_target(n: Seq<char>) -> Option<ViewTarget> {
    if n == "analytics"@ {
        Some(ViewTarget::Analytics)
    } else if n == "pprof"@ {
        Some(ViewTarget::Profile("pprof"@))
    } else if n == "torch"@ {
        Some(ViewTarget::Profile("torch"@))
    } else if n == "trace"@ || n == "chrome-trace"@ {
        Some(ViewTarget::Profile("trace"@))
    } else if n == "traces"@ || n == "spans"@ {
        Some(ViewTarget::Spans)
    } else if n == "python"@ {
        Some(ViewTarget::Python)
    } else if n == "training"@ {
        Some(ViewTarget::Training)
    } else if n == "cluster"@ {
        Some(ViewTarget::Cluster)
    } else if n == "stack"@ || n == "stacks"@ {
        Some(ViewTarget::Stack)
    } else if n == "rollout"@ || n == "rl"@ {
        Some(ViewTarget::Rollout)
    } else if n == "inference"@ {
        Some(ViewTarget::Inference)
    } else if "profiling/"@.len() <= n.len() && n.take("profiling/"@.len() as int) == "profiling/"@ {
        Some(ViewTarget::Profile(strip_prefix_all(n, "profiling/"@)))
    } else {
        None
    }
}

/// The workspace a route shows, as a view target.
pub open spec fn route_target(r: NextRoute) -> Option<ViewTarget> {
    match r {
        NextRoute::Analytics {} => Some(ViewTarget::Analytics),
        NextRoute::ProfileView { view } => Some(ViewTarget::Profile(view@)),
        NextRoute::Spans {} => Some(ViewTarget::Spans),
        NextRoute::Python {} => Some(ViewTarget::Python),
        NextRoute::Training {} => Some(ViewTarget::Training),
        NextRoute::Cluster {} => Some(ViewTarget::Cluster),
        NextRoute::Stack {} => Some(ViewTarget::Stack),
        NextRoute::Rollout {} => Some(ViewTarget::Rollout),
        NextRoute::Inference {} => Some(ViewTarget::Inference),
        _ => None,
    }
}

fn strip_slashes(s: &Vec<char>) -> (r: Vec<char>)
    ensures
        r@ == strip_end(strip_start(s@, '/'), '/'),
{
    let mut start: usize = 0;
    assert(s@.skip(0) =~= s@);
    while start < s.len() && s[start] == '/'
        invariant
            start <= s@.len(),
            strip_start(s@, '/') == strip_start(s@.skip(start as int), '/'),
        decreases s@.len() - start,
    {
        assert(s@.skip(start as int).drop_first() =~= s@.skip(start + 1));
        start = start + 1;
    }
    let ghost front = s@.skip(start as int);
    assert(strip_start(s@, '/') == front) by {
        assert(s@.skip(0) =~= s@);
    }
    let mut end: usize = s.len();
    while end > start && s[end - 1] == '/'
        invariant
            start <= end <= s@.len(),
            front == s@.skip(start as int),
            strip_end(front, '/') == strip_end(s@.subrange(start as int, end as int), '/'),
        decreases end - start,
    {
        assert(s@.subrange(start as int, end as int).drop_last() =~= s@.subrange(
            start as int,
            end - 1,
        ));
        end = end - 1;
    }
    assert(front =~= s@.subrange(start as int, s@.len() as int));
    let mut r: Vec<char> = Vec::new();
    let mut k: usize = start;
    while k < end
        invariant
            start <= k <= end,
            end <= s@.len(),
            r@ == s@.subrange(start as int, k as int),
        decreases end - k,
    {
        r.push(s[k]);
        assert(r@ =~= s@.subrange(start as int, k + 1));
        k = k + 1;
    }
    r
}

fn strip_profiling(n: &Vec<char>) -> (r: Vec<char>)
    ensures
        r@ == strip_prefix_all(n@, "profiling/"@),
{
    proof {
        reveal_strlit("profiling/");
    }
    let p = chars_of("profiling/");
    assert(p@.len() == 10);
    let mut start: usize = 0;
    let total = n.len();
    assert(n@.skip(0) =~= n@);
    loop
        invariant
            start <= n@.len(),
            n@.len() == total,
            p@ == "profiling/"@,
            p@.len() == 10,
            strip_prefix_all(n@, p@) == strip_prefix_all(n@.skip(start as int), p@),
        ensures
            strip_prefix_all(n@, p@) == n@.skip(start as int),
        decreases n@.len() - start,
    {
        if p.len() > n.len() - start {
            break;
        }
        let mut same = true;
        let mut k: usize = 0;
        while k < p.len()
            invariant
                start + p@.len() <= n@.len(),
                n@.len() == total,
                k <= p@.len(),
                same == (forall|j: int| 0 <= j < k ==> n@[start + j] == p@[j]),
            decreases p@.len() - k,
        {
            if n[start + k] != p[k] {
                same = false;
            }
            k = k + 1;
        }
        if !same {
            assert(n@.skip(start as int).take(p@.len() as int) != p@) by {
                let j = choose|j: int| 0 <= j < p@.len() && n@[start + j] != p@[j];
                assert(n@.skip(start as int).take(p@.len() as int)[j] == n@[start + j]);
            }
            break;
        }
        assert(n@.skip(start as int).take(p@.len() as int) =~= p@);
        assert(n@.skip(start as int).skip(p@.len() as int) =~= n@.skip(start + p@.len()));
        start = start + p.len();
    }
    let mut r: Vec<char> = Vec::new();
    let mut k: usize = start;
    while k < n.len()
        invariant
            start <= k <= n@.len(),
            r@ == n@.subrange(start as int, k as int),
        decreases n@.len() - k,
    {
        r.push(n[k]);
        assert(r@ =~= n@.subrange(start as int, k + 1));
        k = k + 1;
    }
    assert(r@ =~= n@.skip(start as int));
    r
}

/// The workspace a view name leads to, when it names one: the name is
/// trimmed and loses its slashes at either end; `profiling/<view>` opens
/// that profile view.
pub fn next_route_for_view(view: &str) -> (r: Option<NextRoute>)
    ensures
        r is None <==> view_target(normalized_view(view@)) is None,
        r matches Some(route) ==> route_target(route) == view_target(normalized_view(view@)),
{
    proof {
        reveal_strlit("analytics");
        reveal_strlit("pprof");
        reveal_strlit("torch");
        reveal_strlit("trace");
        reveal_strlit("chrome-trace");
        reveal_strlit("traces");
        reveal_strlit("spans");
        reveal_strlit("python");
        reveal_strlit("training");
        reveal_strlit("cluster");
        reveal_strlit("stack");
        reveal_strlit("stacks");
        reveal_strlit("rollout");
        reveal_strlit("rl");
        reveal_strlit("inference");
        reveal_strlit("profiling/");
    }
    let t = trimmed(view);
    let n = strip_slashes(&chars_of(t.as_str()));
    let name = string_of(&n);
    let s = name.as_str();
    assert(s@ == normalized_view(view@));
    if str_eq(s, "analytics") {
        Some(NextRoute::Analytics {})
    } else if str_eq(s, "pprof") {
        Some(NextRoute::ProfileView { view: owned("pprof") })
    } else if str_eq(s, "torch") {
        Some(NextRoute::ProfileView { view: owned("torch") })
    } else if str_eq(s, "trace") || str_eq(s, "chrome-trace") {
        Some(NextRoute::ProfileView { view: owned("trace") })
    } else if str_eq(s, "traces") || str_eq(s, "spans") {
        Some(NextRoute::Spans {})
    } else if str_eq(s, "python") {
        Some(NextRoute::Python {})
    } else if str_eq(s, "training") {
        Some(NextRoute::Training {})
    } else if str_eq(s, "cluster") {
        Some(NextRoute::Cluster {})
    } else if str_eq(s, "stack") || str_eq(s, "stacks") {
        Some(NextRoute::Stack {})
    } else if str_eq(s, "rollout") || str_eq(s, "rl") {
        Some(NextRoute::Rollout {})
    } else if str_eq(s, "inference") {
        Some(NextRoute::Inference {})
    } else {
        let p = chars_of("profiling/");
        let mut prefixed = n.len() >= p.len();
        let mut k: usize = 0;
        while prefixed && k < p.len()
            invariant
                n@.len() >= p@.len() || !prefixed,
                k <= p@.len(),
                prefixed ==> forall|j: int| 0 <= j < k ==> n@[j] == p@[j],
                !prefixed ==> (n@.len() < p@.len() || exists|j: int|
                    0 <= j < k && j < n@.len() && n@[j] != p@[j]),
            decreases p@.len() - k,
        {
            if n[k] != p[k] {
                prefixed = false;
            }
            k = k + 1;
        }
        if prefixed {
            assert(n@.take(p@.len() as int) =~= p@);
            Some(NextRoute::ProfileView { view: string_of(&strip_profiling(&n)) })
        } else {
            proof {
                if p@.len() <= n@.len() && n@.take(p@.len() as int) == p@ {
                    let j = choose|j: int| 0 <= j < k && j < n@.len() && n@[j] != p@[j];
                    assert(n@.take(p@.len() as int)[j] == n@[j]);
                }
            }
            None
        }
    }
}

/// A character that may stand in a skill id: an ASCII letter or digit, or
/// the underscore.
pub open spec fn id_char(c: char) -> bool {
    ('a' <= c <= 'z') || ('A' <= c <= 'Z') || ('0' <= c <= '9') || c == '_'
}

/// The text without the characters at its start that cannot stand in an id.
pub open spec fn strip_start_non_id(s: Seq<char>) -> Seq<char>
    decreases s.len(),
{
    if s.len() > 0 && !id_char(s[0]) {
        strip_start_non_id(s.drop_first())
    } else {
        s
    }
}

/// The text without the characters at its end that cannot stand in an id.
pub open spec fn strip_end_non_id(s: Seq<char>) -> Seq<char>
    decreases s.len(),
{
    if s.len() > 0 && !id_char(s.last()) {
        strip_end_non_id(s.drop_last())
    } else {
        s
    }
}

/// The characters before the first whitespace.
pub open spec fn word_prefix(s: Seq<char>) -> Seq<char>
    decreases s.len(),
{
    if s.len() > 0 && !is_space(s[0]) {
        seq![s[0]] + word_prefix(s.drop_first())
    } else {
        Seq::empty()
    }
}

/// Where `needle` first occurs in `hay` at or after position `i`.
pub open spec fn find_from(hay: Seq<char>, needle: Seq<char>, i: int) -> Option<int>
    decreases hay.len() - i,
{
    if i < 0 || i + needle.len() > hay.len() {
        None
    } else if needle.len() == 0 || hay.subrange(i, i + needle.len()) == needle {
        Some(i)
    } else {
        find_from(hay, needle, i + 1)
    }
}

/// The skill a line names: the first word after its first `skill:`, without
/// the characters at either end that cannot stand in an id; empty when the
/// line names none.
pub open spec fn skill_in_line(line: Seq<char>) -> Seq<char> {
    match find_from(line, "skill:"@, 0) {
        None => Seq::empty(),
        Some(i) => strip_end_non_id(
            strip_start_non_id(word_prefix(trim_start_seq(line.skip(i + "skill:"@.len())))),
        ),
    }
}

/// The length of the first line: the characters before the first newline.
pub open spec fn line_len(t: Seq<char>) -> nat
    decreases t.len(),
{
    if t.len() == 0 || t[0] == '\n' {
        0
    } else {
        1 + line_len(t.drop_first())
    }
}

/// The ids with one more: a non-empty id that is known and not yet listed
/// goes at the end.
pub open spec fn add_skill(acc: Seq<Seq<char>>, id: Seq<char>, known: Seq<Seq<char>>) -> Seq<
    Seq<char>,
> {
    if id.len() > 0 && known.contains(id) && !acc.contains(id) {
        acc.push(id)
    } else {
        acc
    }
}

/// The ids that `acc` grows to over the lines of `t`, in order of first
/// mention. A carriage return before a newline is whitespace, so it ends a
/// word as the line ending would.
pub open spec fn skill_ids_from(t: Seq<char>, known: Seq<Seq<char>>, acc: Seq<Seq<char>>) -> Seq<
    Seq<char>,
>
    decreases t.len(),
{
    if t.len() == 0 {
        acc
    } else {
        let n = line_len(t);
        let next = add_skill(acc, skill_in_line(t.take(n as int)), known);
        if n < t.len() {
            skill_ids_from(t.skip(n + 1int), known, next)
        } else {
            next
        }
    }
}

fn id_char_exec(c: char) -> (b: bool)
    ensures
        b == id_char(c),
{
    ('a' <= c && c <= 'z') || ('A' <= c && c <= 'Z') || ('0' <= c && c <= '9') || c == '_'
}

proof fn lemma_find_from_bounds(hay: Seq<char>, needle: Seq<char>, i: int)
    ensures
        find_from(hay, needle, i) matches Some(k) ==> i <= k && k + needle.len() <= hay.len(),
    decreases hay.len() - i,
{
    if i < 0 || i + needle.len() > hay.len() {
    } else if needle.len() == 0 || hay.subrange(i, i + needle.len()) == needle {
    } else {
        lemma_find_from_bounds(hay, needle, i + 1);
    }
}

fn find_first(hay: &Vec<char>, needle: &Vec<char>) -> (r: Option<usize>)
    ensures
        r is None ==> find_from(hay@, needle@, 0) is None,
        r matches Some(i) ==> find_from(hay@, needle@, 0) == Some(i as int),
{
    let mut i: usize = 0;
    loop
        invariant
            i <= hay@.len(),
            find_from(hay@, needle@, 0) == find_from(hay@, needle@, i as int),
        decreases hay@.len() - i,
    {
        if needle.len() > hay.len() - i {
            return None;
        }
        if needle.len() == 0 {
            return Some(i);
        }
        let mut same = true;
        let mut k: usize = 0;
        while k < needle.len()
            invariant
                i + needle@.len() <= hay@.len(),
                hay@.len() <= usize::MAX,
                k <= needle@.len(),
                same == (forall|j: int| 0 <= j < k ==> hay@[i + j] == needle@[j]),
            decreases needle@.len() - k,
        {
            if hay[i + k] != needle[k] {
                same = false;
            }
            k = k + 1;
        }
        if same {
            assert(hay@.subrange(i as int, i + needle@.len()) =~= needle@);
            return Some(i);
        }
        assert(hay@.subrange(i as int, i + needle@.len()) != needle@) by {
            let j = choose|j: int| 0 <= j < needle@.len() && hay@[i + j] != needle@[j];
            assert(hay@.subrange(i as int, i + needle@.len())[j] == hay@[i + j]);
        }
        i = i + 1;
    }
}

fn copy_range(v: &Vec<char>, from: usize, to: usize) -> (r: Vec<char>)
    requires
        from <= to <= v@.len(),
    ensures
        r@ == v@.subrange(from as int, to as int),
{
    let mut r: Vec<char> = Vec::new();
    let mut k: usize = from;
    while k < to
        invariant
            from <= k <= to,
            to <= v@.len(),
            r@ == v@.subrange(from as int, k as int),
        decreases to - k,
    {
        r.push(v[k]);
        assert(r@ =~= v@.subrange(from as int, k + 1));
        k = k + 1;
    }
    r
}

/// The skill a line names, empty when it names none.
fn line_skill(line: &Vec<char>) -> (r: Vec<char>)
    ensures
        r@ == skill_in_line(line@),
{
    let needle = chars_of("skill:");
    match find_first(line, &needle) {
        None => Vec::new(),
        Some(i) => {
            proof {
                lemma_find_from_bounds(line@, needle@, 0);
            }
            let total = line.len();
            let start = i + needle.len();
            let mut j: usize = start;
            while j < line.len() && space_char(line[j])
                invariant
                    start <= j <= line@.len(),
                    trim_start_seq(line@.skip(start as int)) == trim_start_seq(line@.skip(j as int)),
                decreases line@.len() - j,
            {
                assert(line@.skip(j as int).drop_first() =~= line@.skip(j + 1));
                j = j + 1;
            }
            assert(j < line@.len() ==> line@.skip(j as int)[0] == line@[j as int]);
            assert(trim_start_seq(line@.skip(j as int)) == line@.skip(j as int));
            let mut k: usize = j;
            assert(line@.subrange(j as int, j as int) + word_prefix(line@.skip(j as int))
                =~= word_prefix(line@.skip(j as int)));
            while k < line.len() && !space_char(line[k])
                invariant
                    j <= k <= line@.len(),
                    word_prefix(line@.skip(j as int)) == line@.subrange(j as int, k as int)
                        + word_prefix(line@.skip(k as int)),
                decreases line@.len() - k,
            {
                let ghost rest = line@.skip(k as int);
                assert(rest[0] == line@[k as int]);
                assert(rest.drop_first() =~= line@.skip(k + 1));
                assert(line@.subrange(j as int, k as int) + (seq![line@[k as int]] + word_prefix(
                    line@.skip(k + 1),
                )) =~= line@.subrange(j as int, k + 1) + word_prefix(line@.skip(k + 1)));
                k = k + 1;
            }
            assert(k < line@.len() ==> line@.skip(k as int)[0] == line@[k as int]);
            assert(word_prefix(line@.skip(k as int)) =~= Seq::<char>::empty());
            assert(line@.subrange(j as int, k as int) + Seq::<char>::empty() =~= line@.subrange(
                j as int,
                k as int,
            ));
            let mut a: usize = j;
            while a < k && !id_char_exec(line[a])
                invariant
                    j <= a <= k,
                    k <= line@.len(),
                    strip_start_non_id(line@.subrange(j as int, k as int)) == strip_start_non_id(
                        line@.subrange(a as int, k as int),
                    ),
                decreases k - a,
            {
                assert(line@.subrange(a as int, k as int).drop_first() =~= line@.subrange(
                    a + 1,
                    k as int,
                ));
                a = a + 1;
            }
            assert(a < k ==> line@.subrange(a as int, k as int)[0] == line@[a as int]);
            assert(strip_start_non_id(line@.subrange(a as int, k as int)) == line@.subrange(
                a as int,
                k as int,
            ));
            let mut b: usize = k;
            while b > a && !id_char_exec(line[b - 1])
                invariant
                    a <= b <= k,
                    k <= line@.len(),
                    strip_end_non_id(line@.subrange(a as int, k as int)) == strip_end_non_id(
                        line@.subrange(a as int, b as int),
                    ),
                decreases b,
            {
                assert(line@.subrange(a as int, b as int).drop_last() =~= line@.subrange(
                    a as int,
                    b - 1,
                ));
                b = b - 1;
            }
            assert(b > a ==> line@.subrange(a as int, b as int).last() == line@[b - 1]);
            assert(strip_end_non_id(line@.subrange(a as int, b as int)) == line@.subrange(
                a as int,
                b as int,
            ));
            copy_range(line, a, b)
        },
    }
}

/// Whether the list holds the id.
fn lists(list: &Vec<String>, id: &Vec<char>) -> (b: bool)
    ensures
        b == views(list@).contains(id@),
{
    let mut i: usize = 0;
    while i < list.len()
        invariant
            i <= list@.len(),
            forall|j: int| 0 <= j < i ==> views(list@)[j] != id@,
        decreases list@.len() - i,
    {
        if chars_equal(&chars_of(list[i].as_str()), id) {
            assert(views(list@)[i as int] == id@);
            return true;
        }
        i = i + 1;
    }
    false
}

/// The skills an assistant message suggests, in order of first mention:
/// each line that holds `skill:` names the first word after it, without
/// the characters at either end that cannot stand in an id. Only ids among
/// `known`, the skills that can be loaded, are kept, each once.
pub fn extract_skill_ids(text: &str, known: &Vec<String>) -> (r: Vec<String>)
    ensures
        views(r@) == skill_ids_from(text@, views(known@), Seq::empty()),
{
    let t = chars_of(text);
    let mut r: Vec<String> = Vec::new();
    let mut pos: usize = 0;
    assert(t@.skip(0) =~= t@);
    assert(views(r@) =~= Seq::<Seq<char>>::empty());
    while pos < t.len()
        invariant
            pos <= t@.len(),
            t@ == text@,
            skill_ids_from(text@, views(known@), Seq::empty()) == skill_ids_from(
                t@.skip(pos as int),
                views(known@),
                views(r@),
            ),
        decreases t@.len() - pos,
    {
        let mut end: usize = pos;
        while end < t.len() && t[end] != '\n'
            invariant
                pos <= end <= t@.len(),
                line_len(t@.skip(pos as int)) == (end - pos) + line_len(t@.skip(end as int)),
            decreases t@.len() - end,
        {
            assert(t@.skip(end as int)[0] == t@[end as int]);
            assert(t@.skip(end as int).drop_first() =~= t@.skip(end + 1));
            end = end + 1;
        }
        assert(end < t@.len() ==> t@.skip(end as int)[0] == t@[end as int]);
        assert(line_len(t@.skip(end as int)) == 0);
        let line = copy_range(&t, pos, end);
        assert(t@.skip(pos as int).take((end - pos) as int) =~= line@);
        let id = line_skill(&line);
        let ghost before = views(r@);
        if id.len() > 0 && lists(known, &id) && !lists(&r, &id) {
            let s = string_of(&id);
            proof {
                lemma_views_push(r@, s);
            }
            r.push(s);
        }
        assert(views(r@) == add_skill(before, skill_in_line(line@), views(known@)));
        if end < t.len() {
            assert(t@.skip(pos as int).skip((end - pos) + 1) =~= t@.skip(end + 1));
            pos = end + 1;
        } else {
            assert(t@.skip(t@.len() as int) =~= Seq::<char>::empty());
            pos = t.len();
        }
    }
    assert(t@.skip(pos as int) =~= Seq::<char>::empty());
    r
}

/// What the session sends when the user submits: the trimmed input, unless
/// it is empty or a skill is already running.
pub fn submitted_prompt(input: &str, busy: bool) -> (r: Option<String>)
    ensures
        r is None <==> (busy || trim_seq(input@).len() == 0),
        r matches Some(t) ==> t@ == trim_seq(input@),
{
    let text = trimmed(input);
    if busy || text.as_str().is_empty() {
        None
    } else {
        Some(text)
    }
}

/// The subtitle of the diagnostic session.
pub fn session_subtitle(busy: bool) -> (r: &'static str)
    ensures
        r@ == (if busy {
            "A diagnostic skill is running."@
        } else {
            "Ask in plain language or run a focused skill."@
        }),
{
    if busy {
        "A diagnostic skill is running."
    } else {
        "Ask in plain language or run a focused skill."
    }
}

/// How a step of a skill run ended.
#[derive(Clone, Copy, Debug, PartialEq, Eq, Structural)]
pub enum AgentStepStatus {
    Passed,
    Warn,
    Skipped,
    Error,
}

/// The border of a step card, by how the step ended.
pub fn step_tone(status: AgentStepStatus) -> (r: &'static str)
    ensures
        r@ == (match status {
            AgentStepStatus::Passed => "border-emerald-200"@,
            AgentStepStatus::Warn => "border-amber-200"@,
            AgentStepStatus::Skipped => "border-gray-200"@,
            AgentStepStatus::Error => "border-red-200"@,
        }),
{
    match status {
        AgentStepStatus::Passed => "border-emerald-200",
        AgentStepStatus::Warn => "border-amber-200",
        AgentStepStatus::Skipped => "border-gray-200",
        AgentStepStatus::Error => "border-red-200",
    }
}

/// The heading of a skill run: its category, `skill` when it has none, and
/// its title, else the skill's id, else nothing.
pub fn skill_run_heading(category: &Option<String>, title: &Option<String>, skill_id: &Option<String>) -> (r: (String, String))
    ensures
        r.0@ == (match category {
            Some(c) => c@,
            None => "skill"@,
        }),
        r.1@ == (match title {
            Some(t) => t@,
            None => match skill_id {
                Some(id) => id@,
                None => Seq::empty(),
            },
        }),
{
    let heading = match category {
        Some(c) => c.clone(),
        None => owned("skill"),
    };
    let name = match title {
        Some(t) => t.clone(),
        None => match skill_id {
            Some(id) => id.clone(),
            None => String::new(),
        },
    };
    (heading, name)
}

} // verus!
