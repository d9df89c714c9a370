//! The cluster registry page: which registered processes a pinned context
//! selects, which match a search, the order and labels of the registry
//! table, and how old each heartbeat is.

use vstd::prelude::*;

use chrono::{DateTime, Utc};

use crate::api::Node;
use crate::context::InvestigationContext;
use crate::text::{
    chars_equal, chars_of, concat2, contains_chars, contains_seq, i32_text, int_text, lower_chars,
    lower_seq, nat_text, owned, str_eq, string_of, blank, is_blank, text_less, text_lt, trim_seq, trimmed, u64_text,
};

verus! {

/// The process has every pinned node coordinate: rank, host and device.
pub open spec fn node_selected(n: Node, c: InvestigationContext) -> bool {
    &&& (c.rank is Some || c.host is Some || c.device_id is Some)
    &&& (c.rank matches Some(r) ==> n.rank == Some(r))
    &&& (c.host matches Some(h) ==> n.host@ == h@)
    &&& (c.device_id matches Some(d) ==> n.local_rank == Some(d))
}

/// A pinned process matches a registry row only when every coordinate that
/// was pinned is the one the row reports.
pub fn node_matches_context(node: &Node, context: &InvestigationContext) -> (r: bool)
    ensures
        r == node_selected(*node, *context),
{
    if !context.has_node_coordinates() {
        return false;
    }
    let rank_ok = match context.rank {
        Some(rank) => node.rank == Some(rank),
        None => true,
    };
    let host_ok = match &context.host {
        Some(host) => node.host == *host,
        None => true,
    };
    let device_ok = match context.device_id {
        Some(device) => node.local_rank == Some(device),
        None => true,
    };
    rank_ok && host_ok && device_ok
}

/// The texts that a registry search looks in: host, endpoint, rank, GPU,
/// role, role name and status (empty when not reported).
pub open spec fn query_fields(n: Node) -> Seq<Seq<char>> {
    seq![
        n.host@,
        n.addr@,
        match n.rank {
            Some(r) => int_text(r as int),
            None => seq![],
        },
        match n.local_rank {
            Some(d) => "gpu "@ + int_text(d as int),
            None => seq![],
        },
        match n.role {
            Some(s) => s@,
            None => seq![],
        },
        match n.role_name {
            Some(s) => s@,
            None => seq![],
        },
        match n.status {
            Some(s) => s@,
            None => seq![],
        },
    ]
}

/// The search is empty, or some field, lower-cased, contains it.
pub open spec fn node_query_match(n: Node, q: Seq<char>) -> bool {
    q.len() == 0 || exists|k: int|
        0 <= k < 7 && #[trigger] contains_seq(lower_seq(query_fields(n)[k]), q)
}

fn field_contains(field: &str, needle: &Vec<char>) -> (r: bool)
    ensures
        r == contains_seq(lower_seq(field@), needle@),
{
    let lowered = lower_chars(field);
    contains_chars(&lowered, needle)
}

/// Whether a registry row matches a search term (already lower-case).
pub fn node_matches_query(node: &Node, query: &str) -> (r: bool)
    ensures
        r == node_query_match(*node, query@),
        contains_seq(lower_seq(node.host@), query@) ==> r,
        node.status matches Some(s) && contains_seq(lower_seq(s@), query@) ==> r,
        node.role matches Some(s) && contains_seq(lower_seq(s@), query@) ==> r,
{
    proof {
        crate::laws::law_registry_search_reads_every_field(*node, query@);
    }
    if query.is_empty() {
        return true;
    }
    let needle = chars_of(query);
    let empty = String::new();
    let rank = match node.rank {
        Some(v) => i32_text(v),
        None => String::new(),
    };
    proof {
        reveal_strlit("gpu ");
    }
    let gpu = match node.local_rank {
        Some(v) => concat2("gpu ", i32_text(v).as_str()),
        None => String::new(),
    };
    let role = match &node.role {
        Some(s) => s.clone(),
        None => String::new(),
    };
    let role_name = match &node.role_name {
        Some(s) => s.clone(),
        None => String::new(),
    };
    let status = match &node.status {
        Some(s) => s.clone(),
        None => String::new(),
    };
    let ghost fs = query_fields(*node);
    assert(fs[0] == node.host@);
    assert(fs[1] == node.addr@);
    assert(fs[2] == rank@);
    assert(fs[3] == gpu@);
    assert(fs[4] == role@);
    assert(fs[5] == role_name@);
    assert(fs[6] == status@);
    let r0 = field_contains(node.host.as_str(), &needle);
    let r1 = field_contains(node.addr.as_str(), &needle);
    let r2 = field_contains(rank.as_str(), &needle);
    let r3 = field_contains(gpu.as_str(), &needle);
    let r4 = field_contains(role.as_str(), &needle);
    let r5 = field_contains(role_name.as_str(), &needle);
    let r6 = field_contains(status.as_str(), &needle);
    let found = r0 || r1 || r2 || r3 || r4 || r5 || r6;
    assert(found == (exists|k: int|
        0 <= k < 7 && #[trigger] contains_seq(lower_seq(fs[k]), query@))) by {
        if found {
            if r0 {
                assert(contains_seq(lower_seq(fs[0]), query@));
            } else if r1 {
                assert(contains_seq(lower_seq(fs[1]), query@));
            } else if r2 {
                assert(contains_seq(lower_seq(fs[2]), query@));
            } else if r3 {
                assert(contains_seq(lower_seq(fs[3]), query@));
            } else if r4 {
                assert(contains_seq(lower_seq(fs[4]), query@));
            } else if r5 {
                assert(contains_seq(lower_seq(fs[5]), query@));
            } else {
                assert(contains_seq(lower_seq(fs[6]), query@));
            }
        }
    }
    found
}

/// How long ago a heartbeat was, in whole seconds, minutes, hours or days;
/// a dash when no heartbeat was reported.
pub open spec fn heartbeat_age_text(now_micros: u64, timestamp: u64) -> Seq<char> {
    let elapsed: nat = if now_micros > timestamp {
        (now_micros - timestamp) as nat
    } else {
        0
    };
    let seconds: nat = elapsed / 1_000_000;
    if timestamp == 0 {
        "—"@
    } else if seconds == 0 {
        "<1s ago"@
    } else if seconds < 60 {
        nat_text(seconds) + "s ago"@
    } else if seconds < 3_600 {
        nat_text(seconds / 60) + "m ago"@
    } else if seconds < 86_400 {
        nat_text(seconds / 3_600) + "h ago"@
    } else {
        nat_text(seconds / 86_400) + "d ago"@
    }
}

/// The age of a heartbeat at `now_micros`.
pub fn format_heartbeat_age(now_micros: u64, timestamp: u64) -> (r: String)
    ensures
        r@ == heartbeat_age_text(now_micros, timestamp),
{
    if timestamp == 0 {
        proof {
            reveal_strlit("—");
        }
        return owned("—");
    }
    let elapsed: u64 = if now_micros > timestamp {
        now_micros - timestamp
    } else {
        0
    };
    let seconds = elapsed / 1_000_000;
    proof {
        reveal_strlit("<1s ago");
        reveal_strlit("s ago");
        reveal_strlit("m ago");
        reveal_strlit("h ago");
        reveal_strlit("d ago");
    }
    if seconds == 0 {
        owned("<1s ago")
    } else if seconds < 60 {
        concat2(u64_text(seconds).as_str(), "s ago")
    } else if seconds < 3_600 {
        concat2(u64_text(seconds / 60).as_str(), "m ago")
    } else if seconds < 86_400 {
        concat2(u64_text(seconds / 3_600).as_str(), "h ago")
    } else {
        concat2(u64_text(seconds / 86_400).as_str(), "d ago")
    }
}

/// Whether `chrono` can represent the instant `micros` microseconds after
/// the Unix epoch as a `DateTime<Utc>`: a function of `micros` alone.
pub uninterp spec fn utc_micros_representable(micros: i64) -> bool;

/// The text `chrono` renders for the instant `micros` microseconds after the
/// Unix epoch with the format pattern `pattern`: a function of the two
/// alone (the calendar arithmetic is chrono's and is not restated here).
pub uninterp spec fn utc_formatted(micros: i64, pattern: Seq<char>) -> Seq<char>;

/// The heartbeat pattern: UTC date and time to the second.
pub open spec fn heartbeat_pattern() -> Seq<char> {
    "%Y-%m-%d %H:%M:%S UTC"@
}

/// `DateTime::<Utc>::from_timestamp_micros`, then `DateTime::format` with
/// `pattern` rendered by `to_string`. `None` exactly when chrono cannot
/// represent the instant (about 262,000 years away from the common era);
/// otherwise the text chrono renders, named `utc_formatted`. Only the
/// heartbeat pattern is admitted: its specifiers are all valid, so the
/// rendering cannot fail.
#[verifier::external_body]
fn utc_micros_text(micros: i64, pattern: &str) -> (r: Option<String>)
    requires
        pattern@ == heartbeat_pattern(),
    ensures
        r is Some <==> utc_micros_representable(micros),
        r matches Some(s) ==> s@ == utc_formatted(micros, pattern@),
{
    match DateTime::<Utc>::from_timestamp_micros(micros) {
        Some(instant) => Some(instant.format(pattern).to_string()),
        None => None,
    }
}

/// The heartbeat as a UTC date and time to the second; a note when no
/// heartbeat was reported or the value is out of range.
pub fn format_heartbeat_timestamp(timestamp: u64) -> (r: String)
    ensures
        timestamp == 0 ==> r@ == "timestamp not reported"@,
        timestamp != 0 && (timestamp > i64::MAX || !utc_micros_representable(timestamp as i64))
            ==> r@ == "invalid timestamp"@,
        timestamp != 0 && timestamp <= i64::MAX && utc_micros_representable(timestamp as i64)
            ==> r@ == utc_formatted(timestamp as i64, heartbeat_pattern()),
{
    proof {
        reveal_strlit("timestamp not reported");
        reveal_strlit("invalid timestamp");
        reveal_strlit("%Y-%m-%d %H:%M:%S UTC");
    }
    if timestamp == 0 {
        return owned("timestamp not reported");
    }
    if timestamp > i64::MAX as u64 {
        return owned("invalid timestamp");
    }
    match utc_micros_text(timestamp as i64, "%Y-%m-%d %H:%M:%S UTC") {
        Some(text) => text,
        None => owned("invalid timestamp"),
    }
}

/// The badge classes of a process state, read from its text trimmed and
/// lowered: green for a healthy state, red for a failed one, grey when none
/// is reported, amber for anything else.
pub open spec fn status_class_text(s: Seq<char>) -> Seq<char> {
    if s == "ok"@ || s == "healthy"@ || s == "running"@ || s == "ready"@ || s == "online"@ {
        "border-emerald-200 bg-emerald-50 text-emerald-700"@
    } else if s == "failed"@ || s == "error"@ || s == "offline"@ || s == "unhealthy"@ {
        "border-red-200 bg-red-50 text-red-700"@
    } else if s.len() == 0 {
        "border-gray-200 bg-gray-100 text-gray-600"@
    } else {
        "border-amber-200 bg-amber-50 text-amber-700"@
    }
}

/// The text of a reported state, empty when none is reported.
pub open spec fn status_text(status: Option<&str>) -> Seq<char> {
    match status {
        Some(s) => s@,
        None => Seq::empty(),
    }
}

fn chars_are(l: &Vec<char>, word: &str) -> (r: bool)
    ensures
        r == (l@ == word@),
{
    chars_equal(l, &chars_of(word))
}

/// The badge classes of a registered process's reported state.
pub fn status_classes(status: Option<&str>) -> (r: &'static str)
    ensures
        r@ == status_class_text(lower_seq(trim_seq(status_text(status)))),
{
    let raw: &str = match status {
        Some(s) => s,
        None => "",
    };
    proof {
        reveal_strlit("");
        assert(raw@ == status_text(status));
    }
    let t = trimmed(raw);
    let l = lower_chars(t.as_str());
    if chars_are(&l, "ok") || chars_are(&l, "healthy") || chars_are(&l, "running") || chars_are(
        &l,
        "ready",
    ) || chars_are(&l, "online") {
        "border-emerald-200 bg-emerald-50 text-emerald-700"
    } else if chars_are(&l, "failed") || chars_are(&l, "error") || chars_are(&l, "offline")
        || chars_are(&l, "unhealthy") {
        "border-red-200 bg-red-50 text-red-700"
    } else if l.len() == 0 {
        "border-gray-200 bg-gray-100 text-gray-600"
    } else {
        "border-amber-200 bg-amber-50 text-amber-700"
    }
}

/// The rank a registry row sorts by: unranked rows go last.
pub open spec fn rank_key(n: Node) -> int {
    match n.rank {
        Some(r) => r as int,
        None => i32::MAX as int,
    }
}

/// GPU indexes in order, an unreported index first.
pub open spec fn gpu_before(a: Option<i32>, b: Option<i32>) -> bool {
    match (a, b) {
        (None, Some(_)) => true,
        (Some(x), Some(y)) => x < y,
        _ => false,
    }
}

/// Registry row `a` sorts before `b`: by rank, then host, then GPU index.
pub open spec fn node_before(a: Node, b: Node) -> bool {
    rank_key(a) < rank_key(b) || (rank_key(a) == rank_key(b) && (text_less(a.host@, b.host@) || (a.host@
        == b.host@ && gpu_before(a.local_rank, b.local_rank))))
}

/// Inserts a row after every row that does not sort after it.
pub open spec fn insert_node(s: Seq<Node>, x: Node) -> Seq<Node>
    decreases s.len(),
{
    if s.len() == 0 {
        seq![x]
    } else if node_before(x, s[0]) {
        seq![x] + s
    } else {
        seq![s[0]] + insert_node(s.drop_first(), x)
    }
}

/// The registry rows sorted stably by rank, host and GPU index.
pub open spec fn node_order(s: Seq<Node>) -> Seq<Node>
    decreases s.len(),
{
    if s.len() == 0 {
        seq![]
    } else {
        insert_node(node_order(s.drop_last()), s.last())
    }
}

/// The rows that a search keeps, and, when only the pinned process is
/// shown, that are pinned.
pub open spec fn kept_rows(s: Seq<Node>, c: InvestigationContext, q: Seq<char>, pinned: bool) -> Seq<Node>
    decreases s.len(),
{
    if s.len() == 0 {
        seq![]
    } else {
        let rest = kept_rows(s.drop_last(), c, q, pinned);
        if (!pinned || node_selected(s.last(), c)) && node_query_match(s.last(), q) {
            rest.push(s.last())
        } else {
            rest
        }
    }
}

fn copy_text(t: &Option<String>) -> (r: Option<String>)
    ensures
        r == *t,
{
    match t {
        Some(s) => Some(s.clone()),
        None => None,
    }
}

fn copy_node(n: &Node) -> (r: Node)
    ensures
        r == *n,
{
    Node {
        host: n.host.clone(),
        addr: n.addr.clone(),
        rank: n.rank,
        group_rank: n.group_rank,
        local_rank: n.local_rank,
        world_size: n.world_size,
        role: copy_text(&n.role),
        role_name: copy_text(&n.role_name),
        status: copy_text(&n.status),
        timestamp: n.timestamp,
    }
}

fn node_before_exec(a: &Node, b: &Node) -> (r: bool)
    ensures
        r == node_before(*a, *b),
{
    let ra: i32 = match a.rank {
        Some(r) => r,
        None => i32::MAX,
    };
    let rb: i32 = match b.rank {
        Some(r) => r,
        None => i32::MAX,
    };
    let gpu = match (a.local_rank, b.local_rank) {
        (None, Some(_)) => true,
        (Some(x), Some(y)) => x < y,
        _ => false,
    };
    ra < rb || (ra == rb && (text_lt(a.host.as_str(), b.host.as_str()) || (str_eq(
        a.host.as_str(),
        b.host.as_str(),
    ) && gpu)))
}

proof fn lemma_insert_node(s: Seq<Node>, x: Node, p: int)
    requires
        0 <= p <= s.len(),
        forall|j: int| 0 <= j < p ==> !node_before(x, #[trigger] s[j]),
        p < s.len() ==> node_before(x, s[p]),
    ensures
        insert_node(s, x) == s.insert(p, x),
    decreases p,
{
    if p == 0 {
        if s.len() == 0 {
            assert(s.insert(0, x) =~= seq![x]);
        } else {
            assert(s.insert(0, x) =~= seq![x] + s);
        }
    } else {
        let rest = s.drop_first();
        assert(!node_before(x, s[0]));
        assert forall|j: int| 0 <= j < p - 1 implies !node_before(x, #[trigger] rest[j]) by {
            assert(rest[j] == s[j + 1]);
        }
        if p - 1 < rest.len() {
            assert(rest[p - 1] == s[p]);
        }
        lemma_insert_node(rest, x, p - 1);
        assert(s.insert(p, x) =~= seq![s[0]] + rest.insert(p - 1, x));
    }
}

/// The rows of the registry table: sorted by rank (unranked last), host and
/// GPU index, keeping the order of equal rows; only those that match the
/// search (trimmed, lower-cased), and, when only the pinned process is asked
/// for and a node coordinate is pinned, only the pinned rows.
pub fn registry_rows(nodes: &Vec<Node>, context: &InvestigationContext, filter: &str, pinned_only: bool) -> (r: Vec<Node>)
    ensures
        r@ == kept_rows(
            node_order(nodes@),
            *context,
            lower_seq(trim_seq(filter@)),
            pinned_only && (context.rank is Some || context.host is Some || context.device_id is Some),
        ),
{
    let mut sorted: Vec<Node> = Vec::new();
    let mut i: usize = 0;
    assert(nodes@.take(0) =~= Seq::<Node>::empty());
    while i < nodes.len()
        invariant
            i <= nodes@.len(),
            sorted@ == node_order(nodes@.take(i as int)),
        decreases nodes@.len() - i,
    {
        let x = copy_node(&nodes[i]);
        let mut p: usize = 0;
        while p < sorted.len() && !node_before_exec(&x, &sorted[p])
            invariant
                p <= sorted@.len(),
                forall|j: int| 0 <= j < p ==> !node_before(x, #[trigger] sorted@[j]),
            decreases sorted@.len() - p,
        {
            p = p + 1;
        }
        proof {
            lemma_insert_node(sorted@, x, p as int);
            assert(nodes@.take(i + 1).drop_last() =~= nodes@.take(i as int));
            assert(nodes@.take(i + 1).last() == x);
        }
        sorted.insert(p, x);
        i = i + 1;
    }
    assert(nodes@.take(nodes@.len() as int) =~= nodes@);
    let trimmed_filter = trimmed(filter);
    let query = string_of(&lower_chars(trimmed_filter.as_str()));
    let pinned = pinned_only && context.has_node_coordinates();
    let ghost ordered = sorted@;
    let mut r: Vec<Node> = Vec::new();
    let mut k: usize = 0;
    assert(ordered.take(0) =~= Seq::<Node>::empty());
    while k < sorted.len()
        invariant
            k <= sorted@.len(),
            sorted@ == ordered,
            r@ == kept_rows(ordered.take(k as int), *context, query@, pinned),
        decreases sorted@.len() - k,
    {
        assert(ordered.take(k + 1).drop_last() =~= ordered.take(k as int));
        assert(ordered.take(k + 1).last() == ordered[k as int]);
        if (!pinned || node_matches_context(&sorted[k], context)) && node_matches_query(
            &sorted[k],
            query.as_str(),
        ) {
            r.push(copy_node(&sorted[k]));
        }
        k = k + 1;
    }
    assert(ordered.take(ordered.len() as int) =~= ordered);
    r
}

/// What a registry row shows of a process.
pub struct NodeRowLabels {
    pub endpoint: String,
    pub rank: String,
    pub world: String,
    pub node_rank: String,
    pub local_rank: String,
    pub coordinates: String,
    pub role: String,
    pub state: String,
    pub select_label: String,
}

/// A reported number, or a dash.
pub open spec fn number_or_dash(v: Option<i32>) -> Seq<char> {
    match v {
        Some(x) => int_text(x as int),
        None => "—"@,
    }
}

/// A reported text, or a dash.
pub open spec fn text_or_dash(v: Option<String>) -> Seq<char> {
    match v {
        Some(t) => t@,
        None => "—"@,
    }
}

/// The reported state, or `not reported` when it is missing or blank.
pub open spec fn state_text(v: Option<String>) -> Seq<char> {
    match v {
        Some(t) => if is_blank(t@) {
            "not reported"@
        } else {
            t@
        },
        None => "not reported"@,
    }
}

fn number_label(v: Option<i32>) -> (r: String)
    ensures
        r@ == number_or_dash(v),
{
    match v {
        Some(x) => i32_text(x),
        None => owned("—"),
    }
}

fn text_label(v: &Option<String>) -> (r: String)
    ensures
        r@ == text_or_dash(*v),
{
    match v {
        Some(t) => t.clone(),
        None => owned("—"),
    }
}

/// The labels of a registry row: its endpoint link, its ranks and GPU
/// index (a dash for each one not reported), the world size after a slash,
/// its coordinates and role, its state, and the label of its select button.
pub fn node_row_labels(node: &Node) -> (r: NodeRowLabels)
    ensures
        r.endpoint@ == "http://"@ + node.addr@,
        r.rank@ == number_or_dash(node.rank),
        r.world@ == (match node.world_size {
            Some(w) => " / "@ + int_text(w as int),
            None => Seq::empty(),
        }),
        r.node_rank@ == number_or_dash(node.group_rank),
        r.local_rank@ == number_or_dash(node.local_rank),
        r.coordinates@ == text_or_dash(node.role),
        r.role@ == text_or_dash(node.role_name),
        r.state@ == state_text(node.status),
        r.select_label@ == "Select rank "@ + number_or_dash(node.rank) + " on "@ + node.host@ + " GPU "@
            + number_or_dash(node.local_rank),
{
    let endpoint = concat2("http://", node.addr.as_str());
    let rank = number_label(node.rank);
    let world = match node.world_size {
        Some(w) => concat2(" / ", i32_text(w).as_str()),
        None => String::new(),
    };
    let local_rank = number_label(node.local_rank);
    let state = match &node.status {
        Some(t) => if blank(t.as_str()) {
            owned("not reported")
        } else {
            t.clone()
        },
        None => owned("not reported"),
    };
    let mut select_label = owned("Select rank ");
    select_label.append(rank.as_str());
    select_label.append(" on ");
    select_label.append(node.host.as_str());
    select_label.append(" GPU ");
    select_label.append(local_rank.as_str());
    NodeRowLabels {
        endpoint,
        rank,
        world,
        node_rank: number_label(node.group_rank),
        local_rank,
        coordinates: text_label(&node.role),
        role: text_label(&node.role_name),
        state,
        select_label,
    }
}

} // verus!
