//! The profiles page: which views need the runtime's profiler settings, and
//! what each view shows.

use vstd::prelude::*;

use crate::text::{i32_text, int_text, nat_text, owned, str_eq, u64_text, usize_text};

verus! {

/// Flamegraphs read the runtime's profiler settings; traces and captured
/// timelines do not.
pub open spec fn needs_runtime_config(view: Seq<char>) -> bool {
    view == "pprof"@ || view == "torch"@
}

/// Whether a profile view is backed by the runtime's profiler settings.
pub fn profile_requires_runtime_config(view: &str) -> (r: bool)
    ensures
        r == needs_runtime_config(view@),
{
    str_eq(view, "pprof") || str_eq(view, "torch")
}

/// A failed settings request is shown as the failure it is, never as a
/// loaded configuration.
pub fn profiler_config_failure(result: &Result<Vec<(String, String)>, String>) -> (r: Option<String>)
    ensures
        match result {
            Ok(_) => r is None,
            Err(e) => r matches Some(m) && m@ == e@,
        },
{
    match result {
        Ok(_) => None,
        Err(error) => Some(error.clone()),
    }
}

/// What a profile view shows.
pub open spec fn view_subtitle_text(view: Seq<char>) -> Seq<char> {
    if view == "pprof"@ {
        "SIGPROF statistical samples rendered as a call hierarchy."@
    } else if view == "torch"@ {
        "Measured module hooks rendered as a flamegraph."@
    } else if view == "trace"@ {
        "Chrome trace events from probing buffers, separate from distributed spans."@
    } else if view == "pytorch"@ {
        "PyTorch profiler Chrome trace capture."@
    } else if view == "ray"@ {
        "Ray task timeline capture."@
    } else {
        "Profiler evidence."@
    }
}

/// The subtitle of a profile view.
pub fn view_subtitle(view: &str) -> (r: &'static str)
    ensures
        r@ == view_subtitle_text(view@),
{
    if str_eq(view, "pprof") {
        "SIGPROF statistical samples rendered as a call hierarchy."
    } else if str_eq(view, "torch") {
        "Measured module hooks rendered as a flamegraph."
    } else if str_eq(view, "trace") {
        "Chrome trace events from probing buffers, separate from distributed spans."
    } else if str_eq(view, "pytorch") {
        "PyTorch profiler Chrome trace capture."
    } else if str_eq(view, "ray") {
        "Ray task timeline capture."
    } else {
        "Profiler evidence."
    }
}

/// The profiler settings of the page that the evidence bar reports.
#[derive(Clone, Copy, Debug, Default, PartialEq, Eq)]
pub struct ProfilerSettings {
    /// pprof sampling frequency in Hz; zero when sampling is off.
    pub pprof_frequency: u32,
    pub torch_enabled: bool,
    /// Reload requests of the trace, PyTorch and Ray views.
    pub trace_reload: u32,
    pub pytorch_reload: u32,
    pub ray_reload: u32,
    /// Buffer events a trace reads at most.
    pub chrome_limit: usize,
    /// Steps a PyTorch capture records.
    pub pytorch_steps: u32,
    /// The thread that pprof samples are filtered to.
    pub thread_filter: Option<i32>,
}

/// What the evidence bar of a profile view says.
pub struct ProfilingEvidence {
    pub thread: String,
    pub state: String,
    pub sample_window: String,
    pub settings: &'static str,
}

/// The capture state of a view.
pub open spec fn capture_state_text(view: Seq<char>, s: ProfilerSettings) -> Seq<char> {
    if view == "pprof"@ {
        if s.pprof_frequency > 0 {
            "Enabled · "@ + nat_text(s.pprof_frequency as nat) + " Hz"@
        } else {
            "Disabled"@
        }
    } else if view == "torch"@ {
        if s.torch_enabled {
            "Enabled"@
        } else {
            "Disabled"@
        }
    } else if view == "trace"@ {
        if s.trace_reload > 0 {
            "Reload requested"@
        } else {
            "No reload requested"@
        }
    } else if view == "pytorch"@ {
        if s.pytorch_reload > 0 {
            "Load requested"@
        } else {
            "No load requested"@
        }
    } else if view == "ray"@ {
        if s.ray_reload > 0 {
            "Reload requested"@
        } else {
            "No reload requested"@
        }
    } else {
        "Unknown view"@
    }
}

/// The sample window of a view.
pub open spec fn sample_window_text(view: Seq<char>, s: ProfilerSettings) -> Seq<char> {
    if view == "pprof"@ {
        "Accumulated statistical samples"@
    } else if view == "torch"@ {
        "Reported module-hook samples"@
    } else if view == "trace"@ {
        "Up to "@ + nat_text(s.chrome_limit as nat) + " buffer events"@
    } else if view == "pytorch"@ {
        nat_text(s.pytorch_steps as nat) + " steps per requested capture"@
    } else if view == "ray"@ {
        "Latest requested Ray timeline"@
    } else {
        "—"@
    }
}

/// The threads a view samples: for pprof, the filtered thread or all of
/// them; the current process for the others.
pub open spec fn thread_scope_text(view: Seq<char>, s: ProfilerSettings) -> Seq<char> {
    if view == "pprof"@ {
        match s.thread_filter {
            Some(tid) => "Thread "@ + int_text(tid as int),
            None => "All sampled threads"@,
        }
    } else {
        "Current process"@
    }
}

/// Whether a view's settings were read: flamegraphs need them loaded, the
/// other views do not depend on them.
pub open spec fn settings_text(view: Seq<char>, config_loaded: bool) -> Seq<char> {
    if needs_runtime_config(view) {
        if config_loaded {
            "Loaded"@
        } else {
            "Unavailable"@
        }
    } else {
        "Independent"@
    }
}

/// The evidence bar of a profile view.
pub fn profiling_evidence(view: &str, settings: ProfilerSettings, config_loaded: bool) -> (r: ProfilingEvidence)
    ensures
        r.thread@ == thread_scope_text(view@, settings),
        r.state@ == capture_state_text(view@, settings),
        r.sample_window@ == sample_window_text(view@, settings),
        r.settings@ == settings_text(view@, config_loaded),
{
    let (state, sample_window) = if str_eq(view, "pprof") {
        let state = if settings.pprof_frequency > 0 {
            let mut t = owned("Enabled · ");
            t.append(u64_text(settings.pprof_frequency as u64).as_str());
            t.append(" Hz");
            t
        } else {
            owned("Disabled")
        };
        (state, owned("Accumulated statistical samples"))
    } else if str_eq(view, "torch") {
        (owned(if settings.torch_enabled { "Enabled" } else { "Disabled" }), owned("Reported module-hook samples"))
    } else if str_eq(view, "trace") {
        let mut w = owned("Up to ");
        w.append(usize_text(settings.chrome_limit).as_str());
        w.append(" buffer events");
        (owned(if settings.trace_reload > 0 { "Reload requested" } else { "No reload requested" }), w)
    } else if str_eq(view, "pytorch") {
        let mut w = u64_text(settings.pytorch_steps as u64);
        w.append(" steps per requested capture");
        (owned(if settings.pytorch_reload > 0 { "Load requested" } else { "No load requested" }), w)
    } else if str_eq(view, "ray") {
        (owned(if settings.ray_reload > 0 { "Reload requested" } else { "No reload requested" }), owned("Latest requested Ray timeline"))
    } else {
        (owned("Unknown view"), owned("—"))
    };
    let thread = if str_eq(view, "pprof") {
        match settings.thread_filter {
            Some(tid) => {
                let mut t = owned("Thread ");
                t.append(i32_text(tid).as_str());
                t
            },
            None => owned("All sampled threads"),
        }
    } else {
        owned("Current process")
    };
    let settings_label = if profile_requires_runtime_config(view) {
        if config_loaded {
            "Loaded"
        } else {
            "Unavailable"
        }
    } else {
        "Independent"
    };
    ProfilingEvidence { thread, state, sample_window, settings: settings_label }
}

/// The flamegraph a view loads, and whether its profiler is capturing:
/// pprof when sampling at some frequency, torch when its hooks are on.
pub fn flamegraph_source(view: &str, settings: ProfilerSettings) -> (r: (&'static str, bool))
    ensures
        r.0@ == (if view@ == "pprof"@ { "pprof"@ } else { "torch"@ }),
        r.1 == (if view@ == "pprof"@ {
            settings.pprof_frequency > 0
        } else if view@ == "torch"@ {
            settings.torch_enabled
        } else {
            false
        }),
{
    if str_eq(view, "pprof") {
        ("pprof", settings.pprof_frequency > 0)
    } else if str_eq(view, "torch") {
        ("torch", settings.torch_enabled)
    } else {
        ("torch", false)
    }
}

} // verus!
