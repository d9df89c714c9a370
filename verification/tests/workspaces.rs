use probing_web::stacks::{distributed_stack_subtitle, stack_tab};
use probing_web::investigate::{
    extract_skill_ids, next_route_for_view, session_subtitle, skill_run_heading, step_tone,
    submitted_prompt, AgentStepStatus,
};
use probing_web::profiles::{
    flamegraph_source, profile_requires_runtime_config, profiler_config_failure, profiling_evidence,
    view_subtitle, ProfilerSettings,
};
use probing_web::python::watch_variables;
use probing_web::registry::NextRoute;

#[test]
fn profiler_config_failure_is_not_treated_as_loaded_configuration() {
    let failure: Result<Vec<(String, String)>, String> = Err("settings query failed".into());
    assert_eq!(profiler_config_failure(&failure).as_deref(), Some("settings query failed"));

    let success: Result<Vec<(String, String)>, String> =
        Ok(vec![("probing.pprof.frequency".into(), "99".into())]);
    assert_eq!(profiler_config_failure(&success), None);
}

#[test]
fn only_config_backed_flamegraphs_are_blocked_by_config_failure() {
    assert!(profile_requires_runtime_config("pprof"));
    assert!(profile_requires_runtime_config("torch"));
    assert!(!profile_requires_runtime_config("trace"));
    assert!(!profile_requires_runtime_config("pytorch"));
    assert!(!profile_requires_runtime_config("ray"));
}

#[test]
fn profile_views_have_their_own_subtitles() {
    assert_eq!(view_subtitle("ray"), "Ray task timeline capture.");
    assert_eq!(view_subtitle("unknown"), "Profiler evidence.");
}

#[test]
fn watch_list_ignores_empty_items() {
    let items = watch_variables("loss, , hidden").unwrap();
    assert_eq!(items, vec!["loss", "hidden"]);
}

#[test]
fn blank_watch_lists_watch_nothing() {
    assert_eq!(watch_variables(" , ,"), None);
    assert_eq!(watch_variables(""), None);
    assert_eq!(watch_variables("x,"), Some(vec!["x".to_string()]));
}

#[test]
fn assistant_view_names_resolve_to_workspaces() {
    assert_eq!(next_route_for_view(" /analytics/ "), Some(NextRoute::Analytics {}));
    assert_eq!(
        next_route_for_view("chrome-trace"),
        Some(NextRoute::ProfileView { view: "trace".to_string() })
    );
    assert_eq!(next_route_for_view("rl"), Some(NextRoute::Rollout {}));
    assert_eq!(
        next_route_for_view("profiling/pytorch"),
        Some(NextRoute::ProfileView { view: "pytorch".to_string() })
    );
    assert_eq!(next_route_for_view("memory"), None);
    assert_eq!(next_route_for_view(""), None);
}

#[test]
fn suggested_skills_are_known_ids_in_order_of_first_mention() {
    let known = vec!["gpu_memory".to_string(), "comm_skew".to_string()];
    let text = "Next, run skill: `comm_skew` to compare ranks.\nThen skill:gpu_memory, please.\r\nAgain skill:comm_skew\nskill: unknown_one\nno skill here";
    assert_eq!(extract_skill_ids(text, &known), vec!["comm_skew".to_string(), "gpu_memory".to_string()]);
}

#[test]
fn a_line_without_a_skill_word_suggests_nothing() {
    let known = vec!["gpu_memory".to_string()];
    assert!(extract_skill_ids("", &known).is_empty());
    assert!(extract_skill_ids("skill:", &known).is_empty());
    assert!(extract_skill_ids("skill:   \n", &known).is_empty());
    assert!(extract_skill_ids("skill: ***", &known).is_empty());
    // Only the first `skill:` of a line counts.
    assert!(extract_skill_ids("skill: other skill:gpu_memory", &known).is_empty());
    assert_eq!(extract_skill_ids("skill:(gpu_memory).", &known), vec!["gpu_memory".to_string()]);
}

#[test]
fn profiling_evidence_bar_reports_each_view() {
    let settings = ProfilerSettings {
        pprof_frequency: 99,
        chrome_limit: 5000,
        pytorch_steps: 3,
        thread_filter: Some(4242),
        ..Default::default()
    };
    let pprof = profiling_evidence("pprof", settings, true);
    assert_eq!(pprof.state, "Enabled · 99 Hz");
    assert_eq!(pprof.sample_window, "Accumulated statistical samples");
    assert_eq!(pprof.thread, "Thread 4242");
    assert_eq!(pprof.settings, "Loaded");
    let torch = profiling_evidence("torch", settings, false);
    assert_eq!((torch.state.as_str(), torch.settings), ("Disabled", "Unavailable"));
    let trace = profiling_evidence("trace", settings, false);
    assert_eq!(trace.sample_window, "Up to 5000 buffer events");
    assert_eq!(trace.state, "No reload requested");
    assert_eq!(trace.thread, "Current process");
    assert_eq!(trace.settings, "Independent");
    let pytorch = profiling_evidence("pytorch", ProfilerSettings { pytorch_reload: 1, ..settings }, false);
    assert_eq!(pytorch.state, "Load requested");
    assert_eq!(pytorch.sample_window, "3 steps per requested capture");
    let other = profiling_evidence("other", settings, false);
    assert_eq!((other.state.as_str(), other.sample_window.as_str()), ("Unknown view", "—"));
}

#[test]
fn flamegraphs_load_only_from_a_capturing_profiler() {
    let off = ProfilerSettings::default();
    assert_eq!(flamegraph_source("pprof", off), ("pprof", false));
    assert_eq!(flamegraph_source("pprof", ProfilerSettings { pprof_frequency: 99, ..off }), ("pprof", true));
    assert_eq!(flamegraph_source("torch", ProfilerSettings { torch_enabled: true, ..off }), ("torch", true));
    assert_eq!(flamegraph_source("trace", ProfilerSettings { torch_enabled: true, ..off }), ("torch", false));
}

#[test]
fn stack_tabs_fill_the_active_mode() {
    assert_eq!(stack_tab(true), "rounded-lg bg-blue-600 px-3 py-1.5 text-xs font-medium text-white");
    assert_eq!(stack_tab(false), "rounded-lg border border-gray-300 bg-white px-3 py-1.5 text-xs text-gray-700");
}

#[test]
fn the_session_submits_trimmed_prompts_only_when_idle() {
    assert_eq!(submitted_prompt("  which rank is slow? ", false).as_deref(), Some("which rank is slow?"));
    assert_eq!(submitted_prompt("   ", false), None);
    assert_eq!(submitted_prompt("why?", true), None);
    assert_eq!(session_subtitle(true), "A diagnostic skill is running.");
    assert_eq!(session_subtitle(false), "Ask in plain language or run a focused skill.");
}

#[test]
fn skill_messages_read_their_status_and_heading() {
    assert_eq!(step_tone(AgentStepStatus::Passed), "border-emerald-200");
    assert_eq!(step_tone(AgentStepStatus::Warn), "border-amber-200");
    assert_eq!(step_tone(AgentStepStatus::Skipped), "border-gray-200");
    assert_eq!(step_tone(AgentStepStatus::Error), "border-red-200");
    assert_eq!(
        skill_run_heading(&None, &None, &Some("gpu_memory".to_string())),
        ("skill".to_string(), "gpu_memory".to_string())
    );
    assert_eq!(
        skill_run_heading(&Some("memory".to_string()), &Some("GPU memory".to_string()), &None),
        ("memory".to_string(), "GPU memory".to_string())
    );
    assert_eq!(skill_run_heading(&None, &None, &None), ("skill".to_string(), String::new()));
}

#[test]
fn distributed_stacks_say_what_they_merged() {
    assert_eq!(distributed_stack_subtitle("py", true), "Identical Python call paths merged by sample count · cluster fan-out.");
    assert_eq!(distributed_stack_subtitle("mixed", false), "Identical mixed-language call paths merged by sample count · this node.");
}
