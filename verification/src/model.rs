//! View models of the cluster registry: how many processes, hosts and ranks
//! are registered and which world sizes they report.

use vstd::prelude::*;

use crate::api::{Node, StepDurationSample};
use crate::text::{blank, i32_text, int_text, is_blank, join, join_seq, lemma_views_push, nat_text, owned, usize_text, views};

verus! {

broadcast use vstd::set::group_set_axioms;

/// The hosts that report a name, as text.
pub open spec fn host_set(ns: Seq<Node>) -> Set<Seq<char>> {
    Set::new(|h: Seq<char>| exists|i: int| 0 <= i < ns.len() && ns[i].host@ == h && !is_blank(h))
}

/// The ranks that processes report.
pub open spec fn rank_set(ns: Seq<Node>) -> Set<i32> {
    Set::new(|r: i32| exists|i: int| 0 <= i < ns.len() && ns[i].rank == Some(r))
}

/// The positive world sizes that processes report.
pub open spec fn world_size_set(ns: Seq<Node>) -> Set<i32> {
    Set::new(|w: i32| w > 0 && exists|i: int| 0 <= i < ns.len() && ns[i].world_size == Some(w))
}

pub open spec fn strictly_sorted(s: Seq<i32>) -> bool {
    forall|i: int, j: int| 0 <= i < j < s.len() ==> s[i] < s[j]
}

pub(crate) proof fn lemma_host_set_push(s: Seq<Node>, n: Node)
    ensures
        host_set(s.push(n)) == (if !is_blank(n.host@) {
            host_set(s).insert(n.host@)
        } else {
            host_set(s)
        }),
{
    let t = s.push(n);
    assert forall|h: Seq<char>| #[trigger] host_set(t).contains(h) implies (if !is_blank(n.host@) {
        host_set(s).insert(n.host@)
    } else {
        host_set(s)
    }).contains(h) by {
        let i = choose|i: int| 0 <= i < t.len() && t[i].host@ == h && !is_blank(h);
        if i < s.len() {
            assert(s[i] == t[i]);
        }
    }
    assert forall|h: Seq<char>| (if !is_blank(n.host@) {
        host_set(s).insert(n.host@)
    } else {
        host_set(s)
    }).contains(h) implies #[trigger] host_set(t).contains(h) by {
        if host_set(s).contains(h) {
            let i = choose|i: int| 0 <= i < s.len() && s[i].host@ == h && !is_blank(h);
            assert(t[i] == s[i]);
        } else {
            assert(t[s.len() as int] == n);
        }
    }
    assert(host_set(t) =~= (if !is_blank(n.host@) {
        host_set(s).insert(n.host@)
    } else {
        host_set(s)
    }));
}

pub(crate) proof fn lemma_rank_set_push(s: Seq<Node>, n: Node)
    ensures
        rank_set(s.push(n)) == (match n.rank {
            Some(r) => rank_set(s).insert(r),
            None => rank_set(s),
        }),
{
    let t = s.push(n);
    let target = match n.rank {
        Some(r) => rank_set(s).insert(r),
        None => rank_set(s),
    };
    assert forall|r: i32| #[trigger] rank_set(t).contains(r) implies target.contains(r) by {
        let i = choose|i: int| 0 <= i < t.len() && t[i].rank == Some(r);
        if i < s.len() {
            assert(s[i] == t[i]);
        }
    }
    assert forall|r: i32| target.contains(r) implies #[trigger] rank_set(t).contains(r) by {
        if rank_set(s).contains(r) {
            let i = choose|i: int| 0 <= i < s.len() && s[i].rank == Some(r);
            assert(t[i] == s[i]);
        } else {
            assert(t[s.len() as int] == n);
        }
    }
    assert(rank_set(t) =~= target);
}

proof fn lemma_world_size_set_push(s: Seq<Node>, n: Node)
    ensures
        world_size_set(s.push(n)) == (match n.world_size {
            Some(w) => if w > 0 {
                world_size_set(s).insert(w)
            } else {
                world_size_set(s)
            },
            None => world_size_set(s),
        }),
{
    let t = s.push(n);
    let target = match n.world_size {
        Some(w) => if w > 0 {
            world_size_set(s).insert(w)
        } else {
            world_size_set(s)
        },
        None => world_size_set(s),
    };
    assert forall|w: i32| #[trigger] world_size_set(t).contains(w) implies target.contains(w) by {
        let i = choose|i: int| 0 <= i < t.len() && t[i].world_size == Some(w);
        if i < s.len() {
            assert(s[i] == t[i]);
        }
    }
    assert forall|w: i32| target.contains(w) implies #[trigger] world_size_set(t).contains(w) by {
        if world_size_set(s).contains(w) {
            let i = choose|i: int| 0 <= i < s.len() && s[i].world_size == Some(w);
            assert(t[i] == s[i]);
        } else {
            assert(t[s.len() as int] == n);
        }
    }
    assert(world_size_set(t) =~= target);
}

fn contains_text(v: &Vec<String>, s: &String) -> (r: bool)
    ensures
        r == views(v@).contains(s@),
{
    let mut i: usize = 0;
    while i < v.len()
        invariant
            i <= v@.len(),
            forall|j: int| 0 <= j < i ==> v@[j]@ != s@,
        decreases v@.len() - i,
    {
        if v[i] == *s {
            assert(views(v@)[i as int] == s@);
            return true;
        }
        i = i + 1;
    }
    assert forall|j: int| 0 <= j < views(v@).len() implies views(v@)[j] != s@ by {
        assert(views(v@)[j] == v@[j]@);
    }
    false
}

fn contains_i32(v: &Vec<i32>, x: i32) -> (r: bool)
    ensures
        r == v@.contains(x),
{
    let mut i: usize = 0;
    while i < v.len()
        invariant
            i <= v@.len(),
            forall|j: int| 0 <= j < i ==> v@[j] != x,
        decreases v@.len() - i,
    {
        if v[i] == x {
            return true;
        }
        i = i + 1;
    }
    false
}

/// Inserts a value into a strictly increasing vector, keeping it so.
pub(crate) fn insert_sorted(v: &mut Vec<i32>, x: i32)
    requires
        strictly_sorted(old(v)@),
    ensures
        strictly_sorted(final(v)@),
        final(v)@.to_set() == old(v)@.to_set().insert(x),
{
    let mut p: usize = 0;
    while p < v.len() && v[p] < x
        invariant
            p <= v@.len(),
            forall|j: int| 0 <= j < p ==> v@[j] < x,
        decreases v@.len() - p,
    {
        p = p + 1;
    }
    if p < v.len() && v[p] == x {
        assert(v@.to_set() =~= v@.to_set().insert(x)) by {
            assert(v@.to_set().contains(v@[p as int]));
        }
        return;
    }
    let ghost old_v = v@;
    v.insert(p, x);
    assert(strictly_sorted(v@)) by {
        assert forall|i: int, j: int| 0 <= i < j < v@.len() implies v@[i] < v@[j] by {
            if j < p {
            } else if j == p {
            } else if i < p {
                assert(old_v[i] < x);
                assert(v@[j] == old_v[j - 1]);
                assert(x <= old_v[p as int]);
            } else if i == p {
                assert(v@[j] == old_v[j - 1]);
                assert(x <= old_v[p as int]);
                assert(x != old_v[p as int]);
            } else {
                assert(v@[j] == old_v[j - 1]);
                assert(v@[i] == old_v[i - 1]);
            }
        }
    }
    assert(v@.to_set() =~= old_v.to_set().insert(x)) by {
        assert forall|y: i32| #[trigger] v@.to_set().contains(y) implies old_v.to_set().insert(
            x,
        ).contains(y) by {
            let k = choose|k: int| 0 <= k < v@.len() && v@[k] == y;
            if k < p {
                assert(old_v[k] == y);
            } else if k > p {
                assert(old_v[k - 1] == y);
            }
        }
        assert forall|y: i32| old_v.to_set().insert(x).contains(y) implies #[trigger] v@.to_set().contains(
            y,
        ) by {
            if y == x {
                assert(v@[p as int] == x);
            } else {
                let k = choose|k: int| 0 <= k < old_v.len() && old_v[k] == y;
                if k < p {
                    assert(v@[k] == y);
                } else {
                    assert(v@[k + 1] == y);
                }
            }
        }
    }
}

/// Registry completeness: processes, hosts and ranks, and the world sizes
/// that the processes report.
#[derive(Clone, Debug, Default, PartialEq, Eq)]
pub struct RegistryHealth {
    pub processes: usize,
    pub hosts: usize,
    pub observed_ranks: usize,
    pub expected_ranks: Option<usize>,
    pub world_sizes: Vec<i32>,
}

/// The rank coverage: observed ranks out of the expected ones, or just the
/// observed ranks when no single world size is reported.
pub open spec fn coverage_text(h: RegistryHealth) -> Seq<char> {
    match h.expected_ranks {
        Some(e) => nat_text(h.observed_ranks as nat) + " / "@ + nat_text(e as nat),
        None => nat_text(h.observed_ranks as nat),
    }
}

/// The reported world sizes, comma-separated, or a dash when none is.
pub open spec fn world_size_text(h: RegistryHealth) -> Seq<char> {
    if h.world_sizes@.len() == 0 {
        "—"@
    } else {
        join_seq(h.world_sizes@.map_values(|w: i32| int_text(w as int)), ", "@)
    }
}

impl RegistryHealth {
    /// Counts the registered processes, the distinct named hosts and the
    /// distinct reported ranks, and collects the distinct positive world
    /// sizes in increasing order; the expected rank count is the world size
    /// when exactly one is reported.
    pub fn from_nodes(nodes: &Vec<Node>) -> (r: Self)
        ensures
            r.processes == nodes@.len(),
            r.hosts == host_set(nodes@).len(),
            r.observed_ranks == rank_set(nodes@).len(),
            strictly_sorted(r.world_sizes@),
            r.world_sizes@.to_set() == world_size_set(nodes@),
            r.expected_ranks == (if r.world_sizes@.len() == 1 {
                Some(r.world_sizes@[0] as usize)
            } else {
                None
            }),
            r.expected_ranks matches Some(e) ==> e > 0,
    {
        let ghost ns = nodes@;
        let mut hosts: Vec<String> = Vec::new();
        let mut ranks: Vec<i32> = Vec::new();
        let mut sizes: Vec<i32> = Vec::new();
        let mut i: usize = 0;
        assert(host_set(ns.take(0)) =~= Set::<Seq<char>>::empty());
        assert(rank_set(ns.take(0)) =~= Set::<i32>::empty());
        assert(world_size_set(ns.take(0)) =~= Set::<i32>::empty());
        assert(views(hosts@).to_set() =~= Set::<Seq<char>>::empty());
        assert(ranks@.to_set() =~= Set::<i32>::empty());
        assert(sizes@.to_set() =~= Set::<i32>::empty());
        while i < nodes.len()
            invariant
                ns == nodes@,
                i <= ns.len(),
                views(hosts@).no_duplicates(),
                views(hosts@).to_set() == host_set(ns.take(i as int)),
                ranks@.no_duplicates(),
                ranks@.to_set() == rank_set(ns.take(i as int)),
                strictly_sorted(sizes@),
                sizes@.to_set() == world_size_set(ns.take(i as int)),
            decreases ns.len() - i,
        {
            let node = &nodes[i];
            assert(ns.take(i + 1) == ns.take(i as int).push(ns[i as int]));
            proof {
                lemma_host_set_push(ns.take(i as int), ns[i as int]);
                lemma_rank_set_push(ns.take(i as int), ns[i as int]);
                lemma_world_size_set_push(ns.take(i as int), ns[i as int]);
            }
            if !blank(node.host.as_str()) && !contains_text(&hosts, &node.host) {
                let h = node.host.clone();
                let ghost before = hosts@;
                hosts.push(h);
                proof {
                    lemma_views_push(before, h);
                    views(before).lemma_push_to_set_commute(h@);
                }
            } else if !blank(node.host.as_str()) {
                assert(views(hosts@).to_set() =~= views(hosts@).to_set().insert(node.host@));
            }
            if let Some(rank) = node.rank {
                if !contains_i32(&ranks, rank) {
                    let ghost before = ranks@;
                    ranks.push(rank);
                    proof {
                        before.lemma_push_to_set_commute(rank);
                    }
                } else {
                    assert(ranks@.to_set() =~= ranks@.to_set().insert(rank));
                }
            }
            if let Some(size) = node.world_size {
                if size > 0 {
                    insert_sorted(&mut sizes, size);
                }
            }
            i = i + 1;
        }
        assert(ns.take(ns.len() as int) == ns);
        proof {
            views(hosts@).unique_seq_to_set();
            ranks@.unique_seq_to_set();
        }
        let expected_ranks = if sizes.len() == 1 {
            assert(sizes@.to_set().contains(sizes@[0]));
            Some(sizes[0] as usize)
        } else {
            None
        };
        RegistryHealth {
            processes: nodes.len(),
            hosts: hosts.len(),
            observed_ranks: ranks.len(),
            expected_ranks,
            world_sizes: sizes,
        }
    }

    /// `observed / expected` ranks, or the observed count alone.
    pub fn rank_coverage(&self) -> (r: String)
        ensures
            r@ == coverage_text(*self),
    {
        match self.expected_ranks {
            Some(expected) => {
                proof {
                    reveal_strlit(" / ");
                }
                let mut s = usize_text(self.observed_ranks);
                s.append(" / ");
                s.append(usize_text(expected).as_str());
                s
            },
            None => usize_text(self.observed_ranks),
        }
    }

    /// The reported world sizes, or a dash.
    pub fn world_size_label(&self) -> (r: String)
        ensures
            r@ == world_size_text(*self),
    {
        if self.world_sizes.len() == 0 {
            proof {
                reveal_strlit("—");
            }
            return owned("—");
        }
        let ghost target = self.world_sizes@.map_values(|w: i32| int_text(w as int));
        let mut parts: Vec<String> = Vec::new();
        let mut k: usize = 0;
        while k < self.world_sizes.len()
            invariant
                k <= self.world_sizes@.len(),
                target == self.world_sizes@.map_values(|w: i32| int_text(w as int)),
                views(parts@) == target.take(k as int),
            decreases self.world_sizes@.len() - k,
        {
            let t = i32_text(self.world_sizes[k]);
            let ghost before = parts@;
            parts.push(t);
            proof {
                lemma_views_push(before, t);
            }
            k = k + 1;
            assert(views(parts@) =~= target.take(k as int));
        }
        assert(target.take(self.world_sizes@.len() as int) =~= target);
        proof {
            reveal_strlit(", ");
        }
        join(&parts, ", ")
    }
}

/// The step a sample belongs to: its coordinated step, or its local step
/// when no coordinated step was recorded.
pub open spec fn coordinate_of(s: StepDurationSample) -> i64 {
    if s.coord_step != 0 {
        s.coord_step
    } else {
        s.local_step
    }
}

/// The step a sample belongs to.
pub fn sample_coordinate(sample: &StepDurationSample) -> (r: i64)
    ensures
        r == coordinate_of(*sample),
{
    if sample.coord_step != 0 {
        sample.coord_step
    } else {
        sample.local_step
    }
}

} // verus!
