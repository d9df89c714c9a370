//! The investigation coordinates that a user pins while moving between pages:
//! a process, a thread, a rank, a host, a device, a trace, a span and a step.

use vstd::prelude::*;

use crate::registry::InvestigationSupport;
use crate::text::{concat2, i64_text, int_text, join, join_seq, views};

verus! {

#[derive(Clone, Debug, Default, PartialEq, Eq)]
pub struct InvestigationContext {
    pub pid: Option<i32>,
    pub tid: Option<i32>,
    pub rank: Option<i32>,
    pub host: Option<String>,
    pub device_id: Option<i32>,
    pub trace_id: Option<i64>,
    pub span_name: Option<String>,
    pub local_step: Option<i64>,
}

/// No coordinate is pinned.
pub open spec fn context_empty(c: InvestigationContext) -> bool {
    c.pid is None && c.tid is None && c.rank is None && c.host is None && c.device_id is None
        && c.trace_id is None && c.span_name is None && c.local_step is None
}

/// One labelled coordinate, or nothing when it is not pinned.
pub open spec fn int_part(label: Seq<char>, v: Option<int>) -> Seq<Seq<char>> {
    match v {
        Some(x) => seq![label + int_text(x)],
        None => seq![],
    }
}

pub open spec fn text_part(label: Seq<char>, v: Option<String>) -> Seq<Seq<char>> {
    match v {
        Some(s) => seq![label + s@],
        None => seq![],
    }
}

pub open spec fn opt_i32(v: Option<i32>) -> Option<int> {
    match v {
        Some(x) => Some(x as int),
        None => None,
    }
}

pub open spec fn opt_i64(v: Option<i64>) -> Option<int> {
    match v {
        Some(x) => Some(x as int),
        None => None,
    }
}

/// The pinned coordinates, each as `name=value`, in chip order.
pub open spec fn summary_parts(c: InvestigationContext) -> Seq<Seq<char>> {
    int_part("pid="@, opt_i32(c.pid)) + int_part("step="@, opt_i64(c.local_step)) + int_part(
        "rank="@,
        opt_i32(c.rank),
    ) + text_part("host="@, c.host) + int_part("gpu="@, opt_i32(c.device_id)) + int_part(
        "trace="@,
        opt_i64(c.trace_id),
    ) + int_part("tid="@, opt_i32(c.tid)) + text_part("span="@, c.span_name)
}

/// The one-line description of the pinned coordinates used in evidence headers.
pub open spec fn summary_text(c: InvestigationContext) -> Seq<char> {
    if summary_parts(c).len() == 0 {
        "unpinned"@
    } else {
        join_seq(summary_parts(c), ", "@)
    }
}

/// The names of the pinned coordinates that a page does not use, in the order
/// pid, thread, rank, host, GPU, trace, span, step.
pub open spec fn unused_names(c: InvestigationContext, s: InvestigationSupport) -> Seq<
    &'static str,
> {
    (if c.pid is Some && !s.pid {
        seq!["pid"]
    } else {
        seq![]
    }) + (if c.tid is Some && !s.tid {
        seq!["thread"]
    } else {
        seq![]
    }) + (if c.rank is Some && !s.rank {
        seq!["rank"]
    } else {
        seq![]
    }) + (if c.host is Some && !s.host {
        seq!["host"]
    } else {
        seq![]
    }) + (if c.device_id is Some && !s.device {
        seq!["GPU"]
    } else {
        seq![]
    }) + (if c.trace_id is Some && !s.trace {
        seq!["trace"]
    } else {
        seq![]
    }) + (if c.span_name is Some && !s.span {
        seq!["span"]
    } else {
        seq![]
    }) + (if c.local_step is Some && !s.step {
        seq!["step"]
    } else {
        seq![]
    })
}

fn push_if(fields: &mut Vec<&'static str>, cond: bool, name: &'static str)
    ensures
        final(fields)@ == old(fields)@ + (if cond {
            seq![name]
        } else {
            seq![]
        }),
{
    if cond {
        fields.push(name);
    }
    assert(fields@ =~= old(fields)@ + (if cond {
        seq![name]
    } else {
        seq![]
    }));
}

fn clone_text(v: &Option<String>) -> (r: Option<String>)
    ensures
        r == *v,
{
    match v {
        Some(s) => Some(s.clone()),
        None => None,
    }
}

fn push_int_part(parts: &mut Vec<String>, label: &str, v: Option<i64>)
    ensures
        views(final(parts)@) == views(old(parts)@) + int_part(
            label@,
            match v {
                Some(x) => Some(x as int),
                None => None,
            },
        ),
{
    if let Some(x) = v {
        let t = i64_text(x);
        let s = concat2(label, t.as_str());
        parts.push(s);
    }
    assert(views(parts@) =~= views(old(parts)@) + int_part(
        label@,
        match v {
            Some(x) => Some(x as int),
            None => None,
        },
    ));
}

fn push_text_part(parts: &mut Vec<String>, label: &str, v: &Option<String>)
    ensures
        views(final(parts)@) == views(old(parts)@) + text_part(label@, *v),
{
    if let Some(s) = v {
        let t = concat2(label, s.as_str());
        parts.push(t);
    }
    assert(views(parts@) =~= views(old(parts)@) + text_part(label@, *v));
}

fn widen(v: Option<i32>) -> (r: Option<i64>)
    ensures
        match r {
            Some(x) => Some(x as int),
            None => None::<int>,
        } == opt_i32(v),
{
    match v {
        Some(x) => Some(x as i64),
        None => None,
    }
}

impl InvestigationContext {
    /// No coordinate is pinned.
    pub fn is_empty(&self) -> (r: bool)
        ensures
            r == context_empty(*self),
    {
        self.pid.is_none() && self.tid.is_none() && self.rank.is_none() && self.host.is_none()
            && self.device_id.is_none() && self.trace_id.is_none() && self.span_name.is_none()
            && self.local_step.is_none()
    }

    /// A copy of the context.
    pub fn copied(&self) -> (r: Self)
        ensures
            r == *self,
    {
        InvestigationContext {
            pid: self.pid,
            tid: self.tid,
            rank: self.rank,
            host: clone_text(&self.host),
            device_id: self.device_id,
            trace_id: self.trace_id,
            span_name: clone_text(&self.span_name),
            local_step: self.local_step,
        }
    }

    /// The pinned coordinates as `name=value` pairs joined by `, `, or
    /// `unpinned` when nothing is pinned.
    pub fn coordinates_summary(&self) -> (r: String)
        ensures
            r@ == summary_text(*self),
    {
        let mut parts: Vec<String> = Vec::new();
        proof {
            reveal_strlit("pid=");
            reveal_strlit("step=");
            reveal_strlit("rank=");
            reveal_strlit("host=");
            reveal_strlit("gpu=");
            reveal_strlit("trace=");
            reveal_strlit("tid=");
            reveal_strlit("span=");
        }
        assert(views(parts@) =~= Seq::<Seq<char>>::empty());
        push_int_part(&mut parts, "pid=", widen(self.pid));
        push_int_part(&mut parts, "step=", self.local_step);
        push_int_part(&mut parts, "rank=", widen(self.rank));
        push_text_part(&mut parts, "host=", &self.host);
        push_int_part(&mut parts, "gpu=", widen(self.device_id));
        push_int_part(&mut parts, "trace=", self.trace_id);
        push_int_part(&mut parts, "tid=", widen(self.tid));
        push_text_part(&mut parts, "span=", &self.span_name);
        assert(views(parts@) == summary_parts(*self));
        if parts.len() == 0 {
            proof {
                reveal_strlit("unpinned");
            }
            String::from_str("unpinned")
        } else {
            join(&parts, ", ")
        }
    }

    /// Whether a rank, a host or a device is pinned.
    pub fn has_node_coordinates(&self) -> (r: bool)
        ensures
            r == (self.rank is Some || self.host is Some || self.device_id is Some),
    {
        self.rank.is_some() || self.host.is_some() || self.device_id.is_some()
    }

    /// The pinned coordinates that a page with `support` does not use, named.
    pub fn unused_context_fields(&self, support: InvestigationSupport) -> (r: Vec<&'static str>)
        ensures
            r@ == unused_names(*self, support),
    {
        let mut fields: Vec<&'static str> = Vec::new();
        push_if(&mut fields, self.pid.is_some() && !support.pid, "pid");
        push_if(&mut fields, self.tid.is_some() && !support.tid, "thread");
        push_if(&mut fields, self.rank.is_some() && !support.rank, "rank");
        push_if(&mut fields, self.host.is_some() && !support.host, "host");
        push_if(&mut fields, self.device_id.is_some() && !support.device, "GPU");
        push_if(&mut fields, self.trace_id.is_some() && !support.trace, "trace");
        push_if(&mut fields, self.span_name.is_some() && !support.span, "span");
        push_if(&mut fields, self.local_step.is_some() && !support.step, "step");
        assert(fields@ =~= unused_names(*self, support));
        fields
    }
}

} // verus!
