//! Reinforcement-learning pages: time labels of a run, the spacing and
//! colours of the composition chart, the names and definitions of the
//! published metrics, the latest benchmark results, the merged event list,
//! the compared run, and the span evidence of the RL views.

use vstd::prelude::*;

use crate::tracing::{
    copy_spans, dedupe_and_sort_spans, first_of_each, lemma_spans_view_concat, spans_view, start_order, SpanInfo,
    SpanView,
};
use crate::text::{
    concat2, contains_chars, contains_seq, i64_text, int_text, join, join_seq, lemma_views_push,
    blank, is_blank, lower_chars, lower_seq, nat_text, owned, padded_text, padded_u64_text, str_eq, trim_seq,
    text_less, text_lt, trimmed, u64_text, usize_text, views, lemma_text_less_asymmetric,
    lemma_text_less_irreflexive, lemma_text_less_total,
    lemma_text_less_transitive,
};

verus! {

/// Widest step window the stacked composition chart renders.
pub const MAX_COMPOSITION_COLUMNS: usize = 48;

/// The metrics the overview charts, in chart order.
pub const HEADLINE_METRICS: [&'static str; 18] = [
    "sampler.avg_pass",
    "reward.mean",
    "policy.entropy",
    "policy.pg_loss",
    "policy.grad_norm",
    "policy.train_infer_kl",
    "context.total_tokens.mean",
    "agent.turns.mean",
    "train.tokens",
    "time.step_s",
    "time.rollout_s",
    "time.training_s",
    "sampler.pass_zero_ratio",
    "sampler.pass_one_ratio",
    "sampler.infra_error_ratio",
    "environment.active",
    "sampler.avg_staleness",
    "sampler.measurable_prompts"
];

/// Every metric the overview knows: its name, its label and what it measures.
pub const OVERVIEW_METRICS: [(&'static str, &'static str, &'static str); 87] = [
    ("progress.total_steps", "Total steps", "Planned training steps for the whole run"),
    ("progress.completed_steps", "Completed steps", "Training steps finished so far"),
    ("progress.completed_ratio", "Completed share", "Finished share of the planned training steps"),
    ("progress.eta_s", "Estimated time remaining", "Projected seconds remaining at the recent step rate"),
    ("reward.mean", "Mean reward", "Mean reward over trajectories trained in one step"),
    ("reward.raw_mean", "Mean raw reward", "Mean reward before shaping or normalization"),
    ("reward.min", "Min reward", "Lowest reward in the trained batch"),
    ("reward.max", "Max reward", "Highest reward in the trained batch"),
    ("advantage.mean", "Mean advantage", "Mean advantage over the trained batch"),
    ("advantage.min", "Min advantage", "Lowest advantage in the trained batch"),
    ("advantage.max", "Max advantage", "Highest advantage in the trained batch"),
    ("policy.entropy", "Policy entropy", "Mean per-token policy entropy"),
    ("policy.entropy_rollout", "Rollout entropy", "Mean per-token entropy as measured by the sampler"),
    ("policy.pg_loss", "Policy-gradient loss", "Policy-gradient loss"),
    ("policy.base_loss", "Base loss", "Unweighted language-model loss before RL terms"),
    ("policy.grad_norm", "Gradient norm", "Global gradient norm before clipping"),
    ("policy.clip_frac_high", "Clip fraction (high)", "Share of tokens clipped at the upper ratio bound"),
    ("policy.clip_frac_low", "Clip fraction (low)", "Share of tokens clipped at the lower ratio bound"),
    ("policy.kl1", "Policy KL (k1)", "k1 estimator of KL against the reference policy"),
    ("policy.kl3", "Policy KL (k3)", "k3 estimator of KL against the reference policy"),
    ("policy.ratio_max", "Max policy ratio", "Largest importance ratio in the trained batch"),
    ("policy.ratio_min", "Min policy ratio", "Smallest importance ratio in the trained batch"),
    ("policy.ratio_abs_dev_mean", "Mean ratio deviation", "Mean absolute deviation of importance ratios from 1"),
    ("policy.train_infer_kl", "Train / inference KL", "KL between rollout and trainer token distributions"),
    ("policy.train_infer_k3_kl", "Train / inference KL (k3)", "k3 estimator of the rollout-versus-trainer KL"),
    ("policy.train_infer_logprob_abs_diff", "Logprob gap (abs)", "Mean absolute per-token logprob gap between sampler and trainer"),
    ("policy.train_infer_log_ppl_diff", "Log-ppl gap", "Log-perplexity gap between sampler and trainer"),
    ("policy.train_infer_log_ppl_abs_diff", "Log-ppl gap (abs)", "Absolute log-perplexity gap between sampler and trainer"),
    ("policy.train_infer_log_ppl_diff_max", "Log-ppl gap max", "Largest observed log-perplexity gap"),
    ("policy.train_infer_log_ppl_diff_min", "Log-ppl gap min", "Smallest observed log-perplexity gap"),
    ("policy.train_infer_ppl_ratio", "Perplexity ratio", "Trainer perplexity divided by sampler perplexity"),
    ("policy.rollout_ppl", "Rollout perplexity", "Sequence perplexity as scored by the sampler"),
    ("policy.rollout_log_ppl", "Rollout log-ppl", "Sequence log-perplexity as scored by the sampler"),
    ("policy.training_ppl", "Training perplexity", "Sequence perplexity as scored by the trainer"),
    ("policy.training_log_ppl", "Training log-ppl", "Sequence log-perplexity as scored by the trainer"),
    ("context.prompt_tokens.mean", "Prompt tokens", "Mean prompt token count per trajectory"),
    ("context.prompt_tokens.min", "Shortest prompt", "Shortest prompt in the batch, in tokens"),
    ("context.prompt_tokens.max", "Longest prompt", "Longest prompt in the batch, in tokens"),
    ("context.response_tokens.mean", "Response tokens", "Mean generated token count per trajectory"),
    ("context.response_tokens.min", "Shortest response", "Shortest response in the batch, in tokens"),
    ("context.response_tokens.max", "Longest response", "Longest response in the batch, in tokens"),
    ("context.response_tokens.std", "Response length spread", "Standard deviation of response length in tokens"),
    ("context.total_tokens.mean", "Total context tokens", "Mean prompt plus response token count"),
    ("agent.turns.mean", "Agent turns", "Mean agent turns per trajectory"),
    ("train.tokens", "Tokens trained", "Tokens trained in one step"),
    ("train.img_tokens", "Image tokens", "Image tokens trained in one step"),
    ("train.seqlen_tokens", "Sequence tokens", "Padded sequence capacity consumed in one step"),
    ("train.efficient_attn_ratio", "Efficient attention share", "Share of attention compute spent on real tokens"),
    ("train.img_efficient_attn_ratio", "Image attn share", "Image-token share of efficient attention compute"),
    ("time.step_s", "Step time", "Whole-step wall-clock duration in seconds"),
    ("time.rollout_s", "Rollout time", "Rollout generation wall-clock duration in seconds"),
    ("time.training_s", "Training time", "Policy training wall-clock duration in seconds"),
    ("time.onload_s", "Weight onload time", "Seconds spent loading weights onto the accelerator"),
    ("time.offload_s", "Weight offload time", "Seconds spent offloading weights off the accelerator"),
    ("time.switch_to_rollout_s", "Switch-to-rollout time", "Seconds spent handing weights to the sampler"),
    ("time.save_ckpt_s", "Checkpoint save time", "Seconds spent writing a checkpoint"),
    ("time.prepare_data_s", "Data prep time", "Seconds spent preparing the training batch"),
    ("sampler.avg_pass", "Average pass rate", "Mean success fraction across prompt attempt groups"),
    ("sampler.pass_zero_ratio", "No-pass prompt share", "Share of prompt groups with no successful attempt"),
    ("sampler.pass_one_ratio", "All-pass prompt share", "Share of prompt groups with every attempt successful"),
    ("sampler.infra_error_ratio", "Infrastructure error share", "Share of attempts lost to infrastructure failures"),
    ("sampler.measurable_prompts", "Measurable prompts", "Prompt groups with a measurable pass rate"),
    ("sampler.avg_staleness", "Average staleness", "Mean policy-version distance at training time"),
    ("sampler.batch_size", "Rollout batch size", "Trajectories accepted into the trained batch"),
    ("sampler.group_size", "Responses per prompt", "Responses sampled per prompt in the trained batch"),
    ("sampler.task_count", "Rollout tasks", "Rollout tasks timed in the step"),
    ("sampler.task_mean_s", "Mean task latency", "Mean rollout task duration in seconds"),
    ("sampler.task_p50_s", "Task latency p50", "Median rollout task duration in seconds"),
    ("sampler.task_p99_s", "Task latency p99", "99th-percentile rollout task duration in seconds"),
    ("sampler.task_p99_p50_ratio", "Task straggler ratio", "Straggler spread, as p99 over p50 task duration"),
    ("environment.active", "Active environments", "Active sandbox or environment count"),
    ("environment.sandbox_total", "Sandbox total", "Cumulative sandbox or environment executions"),
    ("environment.setup_error_ratio", "Env setup errors", "Share of environment setups that failed"),
    ("environment.queue_s", "Env queue wait", "Mean environment queue wait in seconds"),
    ("environment.leak_count", "Env leaks", "Environments still open after sample completion"),
    ("throughput.e2e_samples_s", "End-to-end samples / s", "End-to-end trajectories trained per second"),
    ("throughput.e2e_tokens_s", "End-to-end tokens / s", "End-to-end tokens trained per second"),
    ("throughput.effective_samples_s", "Effective samples / s", "Trajectories per second excluding idle time"),
    ("throughput.effective_tokens_s", "Effective tokens / s", "Tokens per second excluding idle time"),
    ("throughput.training_tokens_s", "Training tokens / s", "Tokens per second during the training phase"),
    ("throughput.rollout_samples_s", "Rollout samples / s", "Trajectories per second during rollout"),
    ("throughput.rollout_tokens_s", "Rollout tokens / s", "Tokens per second during rollout"),
    ("cost.usd_total", "Compute spend ($)", "Cumulative reported compute spend in USD"),
    ("cost.usd_per_hour", "Spend rate ($/h)", "Recent compute spend rate in USD per hour"),
    ("hardware.restart_count", "Hardware restarts", "Cumulative hardware or node restart count"),
    ("hardware.max_memory_gb", "Peak GPU memory (GB)", "Peak accelerator memory allocated, in GiB"),
    ("hardware.reserved_memory_gb", "Reserved GPU memory (GB)", "Accelerator memory reserved by the allocator, in GiB")
];

/// The summary of one run that its labels read.
#[derive(Clone, Debug, Default, PartialEq, Eq)]
pub struct RlRunSummary {
    pub run_id: String,
    pub phase: String,
    /// Start, end and latest telemetry, in nanoseconds since the Unix epoch;
    /// zero or negative when not reported.
    pub start_time_ns: i64,
    pub end_time_ns: i64,
    pub timestamp_ns: i64,
}

/// What a benchmark result reports about how it was produced.
#[derive(Clone, Debug, Default, PartialEq, Eq)]
pub struct RlBenchmarkPoint {
    pub name: String,
    pub step: i64,
    pub sample_count: i64,
    pub version: String,
    pub timestamp_ns: i64,
    pub harness: String,
    pub aggregation: String,
}

pub open spec fn two_digits(n: nat) -> Seq<char> {
    padded_text(n, 2)
}

/// How long before `reference_ns` something happened: days and hours, hours
/// and minutes, minutes, or "just now"; nothing when either time is unknown.
pub open spec fn age_text(reference_ns: i64, timestamp_ns: i64) -> Seq<char> {
    let delta: int = reference_ns - timestamp_ns;
    let seconds: nat = if delta > 0 {
        (delta / 1_000_000_000) as nat
    } else {
        0
    };
    if reference_ns <= 0 || timestamp_ns <= 0 {
        seq![]
    } else if seconds >= 86_400 {
        nat_text(seconds / 86_400) + "d "@ + two_digits((seconds % 86_400) / 3_600) + "h"@
    } else if seconds >= 3_600 {
        nat_text(seconds / 3_600) + "h "@ + two_digits((seconds % 3_600) / 60) + "m"@
    } else if seconds >= 60 {
        nat_text(seconds / 60) + "m"@
    } else {
        "just now"@
    }
}

/// The age of a timestamp relative to the newest telemetry.
pub fn age_label(reference_ns: i64, timestamp_ns: i64) -> (r: String)
    ensures
        r@ == age_text(reference_ns, timestamp_ns),
{
    if reference_ns <= 0 || timestamp_ns <= 0 {
        return String::new();
    }
    let delta: i64 = reference_ns - timestamp_ns;
    let seconds: u64 = if delta > 0 {
        (delta / 1_000_000_000) as u64
    } else {
        0
    };
    proof {
        reveal_strlit("d ");
        reveal_strlit("h");
        reveal_strlit("h ");
        reveal_strlit("m");
        reveal_strlit("just now");
    }
    if seconds >= 86_400 {
        let mut s = u64_text(seconds / 86_400);
        s.append("d ");
        s.append(padded_u64_text((seconds % 86_400) / 3_600, 2).as_str());
        s.append("h");
        s
    } else if seconds >= 3_600 {
        let mut s = u64_text(seconds / 3_600);
        s.append("h ");
        s.append(padded_u64_text((seconds % 3_600) / 60, 2).as_str());
        s.append("m");
        s
    } else if seconds >= 60 {
        concat2(u64_text(seconds / 60).as_str(), "m")
    } else {
        owned("just now")
    }
}

/// The offset of a timestamp into a run: `T+mm:ss` in the first hour,
/// `T+<days>d hh:mm` after it; nothing when a time is unknown or the
/// timestamp precedes the start.
pub open spec fn offset_text(start_ns: i64, timestamp_ns: i64) -> Seq<char> {
    let seconds: nat = ((timestamp_ns - start_ns) / 1_000_000_000) as nat;
    if start_ns <= 0 || timestamp_ns <= 0 || timestamp_ns < start_ns {
        seq![]
    } else if seconds < 3_600 {
        "T+"@ + two_digits(seconds / 60) + ":"@ + two_digits(seconds % 60)
    } else {
        "T+"@ + nat_text(seconds / 86_400) + "d "@ + two_digits((seconds % 86_400) / 3_600) + ":"@
            + two_digits((seconds % 3_600) / 60)
    }
}

/// The offset of a timestamp from the start of its run.
pub fn offset_label(start_ns: i64, timestamp_ns: i64) -> (r: String)
    ensures
        r@ == offset_text(start_ns, timestamp_ns),
{
    if start_ns <= 0 || timestamp_ns <= 0 || timestamp_ns < start_ns {
        return String::new();
    }
    let seconds: u64 = ((timestamp_ns - start_ns) / 1_000_000_000) as u64;
    proof {
        reveal_strlit("T+");
        reveal_strlit(":");
        reveal_strlit("d ");
    }
    let mut s = owned("T+");
    if seconds < 3_600 {
        s.append(padded_u64_text(seconds / 60, 2).as_str());
        s.append(":");
        s.append(padded_u64_text(seconds % 60, 2).as_str());
    } else {
        s.append(u64_text(seconds / 86_400).as_str());
        s.append("d ");
        s.append(padded_u64_text((seconds % 86_400) / 3_600, 2).as_str());
        s.append(":");
        s.append(padded_u64_text((seconds % 3_600) / 60, 2).as_str());
    }
    s
}

/// Columns between axis labels: a column count divided by how many columns a
/// label of the widest step needs (15 up to three digits, 12 for four, 9
/// beyond), and at least one.
pub open spec fn label_stride(columns: nat, widest_step: int) -> nat {
    let digits = nat_text(if widest_step < 0 {
        (-widest_step) as nat
    } else {
        widest_step as nat
    }).len();
    let target: nat = if digits <= 3 {
        15
    } else if digits == 4 {
        12
    } else {
        9
    };
    if columns / target >= 1 {
        columns / target
    } else {
        1
    }
}

/// Space the axis by how wide the step numbers actually are.
pub fn composition_label_stride(columns: usize, widest_step: i64) -> (r: usize)
    requires
        widest_step != i64::MIN,
    ensures
        r == label_stride(columns as nat, widest_step as int),
{
    let magnitude: u64 = if widest_step < 0 {
        (0 - widest_step) as u64
    } else {
        widest_step as u64
    };
    let digits = u64_text(magnitude).as_str().unicode_len();
    let target: usize = if digits <= 3 {
        15
    } else if digits == 4 {
        12
    } else {
        9
    };
    let stride = columns / target;
    if stride >= 1 {
        stride
    } else {
        1
    }
}

/// Labels are counted back from the newest column: a column is labelled when
/// its distance from the last one is a multiple of the stride.
pub fn composition_shows_label(column: usize, last_column: usize, stride: usize) -> (r: bool)
    requires
        column <= last_column,
    ensures
        r == (if stride == 0 {
            last_column == column
        } else {
            (last_column - column) % (stride as int) == 0
        }),
{
    let distance = last_column - column;
    if stride == 0 {
        distance == 0
    } else {
        distance % stride == 0
    }
}

/// The wording of the composition dimension picker.
pub open spec fn dimension_text(d: Seq<char>) -> Seq<char> {
    if d == "task"@ {
        "data source"@
    } else if d == "filter_reason"@ {
        "filter reason"@
    } else {
        d
    }
}

/// The wording the dimension picker shows, so a caption cannot disagree with it.
pub fn dimension_label<'a>(dimension: &'a str) -> (r: &'a str)
    ensures
        r@ == dimension_text(dimension@),
{
    proof {
        reveal_strlit("task");
        reveal_strlit("filter_reason");
        reveal_strlit("data source");
        reveal_strlit("filter reason");
    }
    if str_eq(dimension, "task") {
        "data source"
    } else if str_eq(dimension, "filter_reason") {
        "filter reason"
    } else {
        dimension
    }
}

/// The composition chart's caption: the dimension, and how many of the loaded
/// steps are drawn when they do not all fit.
pub open spec fn caption_text(steps: nat, dimension: Seq<char>) -> Seq<char> {
    if steps > 48 {
        "Samples per step, by "@ + dimension_text(dimension) + " · last 48 of "@ + nat_text(steps)
            + " loaded steps"@
    } else {
        "Samples per step, by "@ + dimension_text(dimension)
    }
}

/// The caption of a composition chart of `steps` loaded steps.
pub fn composition_chart_caption(steps: usize, dimension: &str) -> (r: String)
    ensures
        r@ == caption_text(steps as nat, dimension@),
{
    proof {
        reveal_strlit("Samples per step, by ");
        reveal_strlit(" · last 48 of ");
        reveal_strlit(" loaded steps");
    }
    let mut s = owned("Samples per step, by ");
    s.append(dimension_label(dimension));
    if steps > MAX_COMPOSITION_COLUMNS {
        s.append(" · last 48 of ");
        s.append(usize_text(steps).as_str());
        s.append(" loaded steps");
    }
    s
}

/// A duration in seconds as hours and minutes, minutes and seconds, or
/// seconds.
pub open spec fn duration_text(seconds: int) -> Seq<char> {
    if seconds >= 3600 {
        int_text(seconds / 3600) + "h "@ + int_text((seconds % 3600) / 60) + "m"@
    } else if seconds >= 60 {
        int_text(seconds / 60) + "m "@ + int_text(seconds % 60) + "s"@
    } else {
        int_text(seconds) + "s"@
    }
}

pub fn format_duration(seconds: i64) -> (r: String)
    ensures
        r@ == duration_text(seconds as int),
{
    proof {
        reveal_strlit("h ");
        reveal_strlit("m");
        reveal_strlit("m ");
        reveal_strlit("s");
    }
    if seconds >= 3600 {
        let mut s = i64_text(seconds / 3600);
        s.append("h ");
        s.append(i64_text((seconds % 3600) / 60).as_str());
        s.append("m");
        s
    } else if seconds >= 60 {
        let mut s = i64_text(seconds / 60);
        s.append("m ");
        s.append(i64_text(seconds % 60).as_str());
        s.append("s");
        s
    } else {
        concat2(i64_text(seconds).as_str(), "s")
    }
}

/// The end of a run: its end time when reported, its latest telemetry otherwise.
pub open spec fn run_end(run: RlRunSummary) -> int {
    if run.end_time_ns > 0 {
        run.end_time_ns as int
    } else {
        run.timestamp_ns as int
    }
}

/// How long a run has run: a dash when its start is unknown.
pub open spec fn runtime_text(run: RlRunSummary) -> Seq<char> {
    let elapsed = run_end(run) - run.start_time_ns;
    if run.start_time_ns <= 0 {
        "—"@
    } else {
        duration_text(if elapsed > 0 {
            elapsed / 1_000_000_000
        } else {
            0
        })
    }
}

/// The runtime of a run.
pub fn runtime_label(run: &RlRunSummary) -> (r: String)
    requires
        run.start_time_ns > 0 ==> run_end(*run) - run.start_time_ns >= i64::MIN,
    ensures
        r@ == runtime_text(*run),
{
    if run.start_time_ns <= 0 {
        proof {
            reveal_strlit("—");
        }
        return owned("—");
    }
    let end = if run.end_time_ns > 0 {
        run.end_time_ns
    } else {
        run.timestamp_ns
    };
    let elapsed = end - run.start_time_ns;
    let clamped: i64 = if elapsed > 0 {
        elapsed
    } else {
        0
    };
    format_duration(clamped / 1_000_000_000)
}

/// The phase of a run, "running" when none is reported.
pub fn run_phase_label(run: &RlRunSummary) -> (r: String)
    ensures
        r@ == (if run.phase@.len() == 0 {
            "running"@
        } else {
            run.phase@
        }),
{
    if run.phase.as_str().is_empty() {
        proof {
            reveal_strlit("running");
        }
        owned("running")
    } else {
        run.phase.clone()
    }
}

/// A value, or "unknown" when it is empty.
pub fn nonempty(value: &str) -> (r: String)
    ensures
        r@ == (if value@.len() == 0 {
            "unknown"@
        } else {
            value@
        }),
{
    if value.is_empty() {
        proof {
            reveal_strlit("unknown");
        }
        owned("unknown")
    } else {
        owned(value)
    }
}

/// The text colour of a timeline row by its level.
pub fn timeline_level_class(level: &str) -> (r: &'static str)
    ensures
        r == (if level@ == "error"@ {
            "text-red-700"
        } else if level@ == "warning"@ {
            "text-amber-700"
        } else {
            "text-gray-700"
        }),
{
    if str_eq(level, "error") {
        "text-red-700"
    } else if str_eq(level, "warning") {
        "text-amber-700"
    } else {
        "text-gray-700"
    }
}

/// The frame of a notice by its level: warnings and errors stand out.
pub fn notice_level_class(level: &str) -> (r: &'static str)
    ensures
        r == (if level@ == "warning"@ || level@ == "error"@ {
            "border-amber-200 bg-amber-50 text-amber-950"
        } else {
            "border-blue-200 bg-blue-50 text-blue-950"
        }),
{
    if str_eq(level, "warning") || str_eq(level, "error") {
        "border-amber-200 bg-amber-50 text-amber-950"
    } else {
        "border-blue-200 bg-blue-50 text-blue-950"
    }
}

/// The rank of a benchmark when one is pinned: accuracy first, then average
/// pass rate, then online evaluation, then the rest.
pub open spec fn priority_of(name: Seq<char>) -> i32 {
    let lower = lower_seq(name);
    if contains_seq(lower, "accuracy"@) {
        400
    } else if contains_seq(lower, "avg_pass"@) {
        300
    } else if contains_seq(lower, "online"@) {
        200
    } else {
        100
    }
}

pub fn benchmark_priority(name: &str) -> (r: i32)
    ensures
        r == priority_of(name@),
{
    let lower = lower_chars(name);
    proof {
        reveal_strlit("accuracy");
        reveal_strlit("avg_pass");
        reveal_strlit("online");
    }
    if contains_chars(&lower, &crate::text::chars_of("accuracy")) {
        400
    } else if contains_chars(&lower, &crate::text::chars_of("avg_pass")) {
        300
    } else if contains_chars(&lower, &crate::text::chars_of("online")) {
        200
    } else {
        100
    }
}

/// The reported harness, aggregation and version (trimmed, when not blank)
/// and the sample count (when positive), joined by " · ".
pub open spec fn harness_parts(p: RlBenchmarkPoint) -> Seq<Seq<char>> {
    (if trim_seq(p.harness@).len() > 0 {
        seq![trim_seq(p.harness@)]
    } else {
        seq![]
    }) + (if trim_seq(p.aggregation@).len() > 0 {
        seq![trim_seq(p.aggregation@)]
    } else {
        seq![]
    }) + (if trim_seq(p.version@).len() > 0 {
        seq![trim_seq(p.version@)]
    } else {
        seq![]
    }) + (if p.sample_count > 0 {
        seq!["n="@ + int_text(p.sample_count as int)]
    } else {
        seq![]
    })
}

fn push_trimmed(parts: &mut Vec<String>, field: &String)
    ensures
        views(final(parts)@) == views(old(parts)@) + (if trim_seq(field@).len() > 0 {
            seq![trim_seq(field@)]
        } else {
            seq![]
        }),
{
    let t = trimmed(field.as_str());
    if !t.as_str().is_empty() {
        let ghost before = parts@;
        parts.push(t);
        proof {
            lemma_views_push(before, t);
        }
    }
    assert(views(parts@) =~= views(old(parts)@) + (if trim_seq(field@).len() > 0 {
        seq![trim_seq(field@)]
    } else {
        seq![]
    }));
}

/// How a benchmark result was produced, skipping what was not reported.
pub fn harness_caption(point: &RlBenchmarkPoint) -> (r: String)
    ensures
        r@ == join_seq(harness_parts(*point), " · "@),
{
    let mut parts: Vec<String> = Vec::new();
    assert(views(parts@) =~= Seq::<Seq<char>>::empty());
    push_trimmed(&mut parts, &point.harness);
    push_trimmed(&mut parts, &point.aggregation);
    push_trimmed(&mut parts, &point.version);
    if point.sample_count > 0 {
        proof {
            reveal_strlit("n=");
        }
        let n = concat2("n=", i64_text(point.sample_count).as_str());
        let ghost before = parts@;
        parts.push(n);
        proof {
            lemma_views_push(before, n);
        }
    }
    assert(views(parts@) =~= harness_parts(*point));
    join(&parts, " · ")
}

/// The first entry of the metric table with the given name.
pub open spec fn metric_entry(table: Seq<(&'static str, &'static str, &'static str)>, name: Seq<
    char,
>) -> Option<(&'static str, &'static str, &'static str)>
    decreases table.len(),
{
    if table.len() == 0 {
        None
    } else if table[0].0@ == name {
        Some(table[0])
    } else {
        metric_entry(table.drop_first(), name)
    }
}

fn find_metric(name: &str) -> (r: Option<(&'static str, &'static str, &'static str)>)
    ensures
        r == metric_entry(OVERVIEW_METRICS@, name@),
{
    let ghost table = OVERVIEW_METRICS@;
    let mut i: usize = 0;
    assert(table.skip(0) == table);
    while i < OVERVIEW_METRICS.len()
        invariant
            table == OVERVIEW_METRICS@,
            i <= table.len(),
            metric_entry(table, name@) == metric_entry(table.skip(i as int), name@),
        decreases table.len() - i,
    {
        let entry = OVERVIEW_METRICS[i];
        assert(table.skip(i as int)[0] == entry);
        if str_eq(entry.0, name) {
            return Some(entry);
        }
        assert(table.skip(i as int).drop_first() == table.skip(i + 1));
        i = i + 1;
    }
    None
}

/// The chart title of a metric, "RL metric" for one the table lacks.
pub fn metric_label(name: &str) -> (r: &'static str)
    ensures
        r == (match metric_entry(OVERVIEW_METRICS@, name@) {
            Some(e) => e.1,
            None => "RL metric",
        }),
{
    match find_metric(name) {
        Some(entry) => entry.1,
        None => "RL metric",
    }
}

/// One-line explanation of what a canonical metric measures, for hover text.
/// Empty when the name is not one Probing publishes a definition for.
pub fn metric_description(name: &str) -> (r: &'static str)
    ensures
        r == (match metric_entry(OVERVIEW_METRICS@, name@) {
            Some(e) => e.2,
            None => "",
        }),
{
    match find_metric(name) {
        Some(entry) => entry.2,
        None => "",
    }
}

/// Hover text pairing the raw metric name with its definition.
pub fn metric_tooltip(name: &str) -> (r: String)
    ensures
        r@ == (match metric_entry(OVERVIEW_METRICS@, name@) {
            Some(e) => if e.2@.len() == 0 {
                name@
            } else {
                name@ + " — "@ + e.2@
            },
            None => name@,
        }),
{
    let description = metric_description(name);
    proof {
        reveal_strlit("");
    }
    if description.is_empty() {
        owned(name)
    } else {
        proof {
            reveal_strlit(" — ");
        }
        let mut s = owned(name);
        s.append(" — ");
        s.append(description);
        s
    }
}

/// The order in which benchmarks compete to be pinned: priority, then the
/// newer step, then the name.
pub open spec fn benchmark_key_less(a: (String, i64), b: (String, i64)) -> bool {
    let pa = priority_of(a.0@);
    let pb = priority_of(b.0@);
    pa < pb || (pa == pb && (a.1 < b.1 || (a.1 == b.1 && text_less(a.0@, b.0@))))
}

/// The benchmark shown first among the latest results (name and step of
/// each): the highest priority, then the newest step, then the last name in
/// order; of equal ones, the last listed. `None` when there is none.
pub fn pinned_benchmark(latest: &Vec<(String, i64)>) -> (r: Option<usize>)
    ensures
        latest@.len() == 0 <==> r is None,
        r matches Some(k) ==> {
            &&& k < latest@.len()
            &&& forall|j: int| 0 <= j < k ==> !benchmark_key_less(latest@[k as int], #[trigger] latest@[j])
            &&& forall|j: int| k < j < latest@.len() ==> benchmark_key_less(#[trigger] latest@[j], latest@[k as int])
        },
{
    if latest.len() == 0 {
        return None;
    }
    let mut best: usize = 0;
    let mut best_priority = benchmark_priority(latest[0].0.as_str());
    let mut i: usize = 1;
    while i < latest.len()
        invariant
            1 <= i <= latest@.len(),
            best < i,
            best_priority == priority_of(latest@[best as int].0@),
            forall|j: int| 0 <= j < best ==> !benchmark_key_less(latest@[best as int], #[trigger] latest@[j]),
            forall|j: int| best < j < i ==> benchmark_key_less(#[trigger] latest@[j], latest@[best as int]),
        decreases latest@.len() - i,
    {
        let p = benchmark_priority(latest[i].0.as_str());
        let candidate_less = p < best_priority || (p == best_priority && (latest[i].1 < latest[best].1
            || (latest[i].1 == latest[best].1 && text_lt(latest[i].0.as_str(), latest[best].0.as_str()))));
        assert(candidate_less == benchmark_key_less(latest@[i as int], latest@[best as int]));
        if !candidate_less {
            proof {
                lemma_key_order(latest@, best as int, i as int);
            }
            best = i;
            best_priority = p;
        }
        i = i + 1;
    }
    Some(best)
}

/// Text order is a strict total order: the facts the ranking proof needs.
proof fn lemma_text_order(a: Seq<char>, b: Seq<char>)
    ensures
        a != b ==> (text_less(a, b) || text_less(b, a)),
        !(text_less(a, b) && text_less(b, a)),
        !text_less(a, a),
{
    lemma_text_less_total(a, b);
    lemma_text_less_asymmetric(a, b);
    lemma_text_less_irreflexive(a);
}

/// Replacing the best by a candidate that is not below it keeps every earlier
/// entry not above the new best, and every entry after the old best below it.
proof fn lemma_key_order(s: Seq<(String, i64)>, best: int, cand: int)
    requires
        0 <= best < cand < s.len(),
        !benchmark_key_less(s[cand], s[best]),
        forall|j: int| 0 <= j < best ==> !benchmark_key_less(s[best], #[trigger] s[j]),
        forall|j: int| best < j < cand ==> benchmark_key_less(#[trigger] s[j], s[best]),
    ensures
        forall|j: int| 0 <= j < cand ==> !benchmark_key_less(s[cand], #[trigger] s[j]),
{
    assert forall|j: int| 0 <= j < cand implies !benchmark_key_less(s[cand], #[trigger] s[j]) by {
        lemma_text_order(s[cand].0@, s[best].0@);
        lemma_text_order(s[j].0@, s[best].0@);
        lemma_text_order(s[cand].0@, s[j].0@);
        if benchmark_key_less(s[cand], s[j]) {
            if j == best {
            } else if j < best {
                // s[best] <= s[cand] < s[j] <= s[best] is impossible.
                if text_less(s[best].0@, s[cand].0@) && text_less(s[cand].0@, s[j].0@) {
                    lemma_text_less_transitive(s[best].0@, s[cand].0@, s[j].0@);
                }
            } else {
                // s[j] < s[best] <= s[cand] contradicts s[cand] < s[j].
                if text_less(s[j].0@, s[best].0@) && text_less(s[best].0@, s[cand].0@) {
                    lemma_text_less_transitive(s[j].0@, s[best].0@, s[cand].0@);
                }
                if text_less(s[cand].0@, s[j].0@) && text_less(s[j].0@, s[best].0@) {
                    lemma_text_less_transitive(s[cand].0@, s[j].0@, s[best].0@);
                }
            }
        }
    }
}

/// What a sample reports about being left out of training.
#[derive(Clone, Debug, Default, PartialEq, Eq)]
pub struct RlSampleSummary {
    pub timestamp_ns: i64,
    pub step: i64,
    pub rollout_id: String,
    pub group_id: String,
    pub sample_id: String,
    pub task: String,
    pub status: String,
    /// The reward in ten-thousandths, when the sample was scored.
    pub reward: Option<i64>,
    pub reward_pass: bool,
    pub filter_reason: String,
    pub drop_reason: String,
    pub prompt_tokens: i64,
    pub response_tokens: i64,
    pub staleness: i64,
}

/// Why a sample was left out: its filter reason first, then its drop reason,
/// a dash when it reports neither.
pub fn sample_reason(sample: &RlSampleSummary) -> (r: String)
    ensures
        r@ == (if sample.filter_reason@.len() > 0 {
            "filter: "@ + sample.filter_reason@
        } else if sample.drop_reason@.len() > 0 {
            "drop: "@ + sample.drop_reason@
        } else {
            "—"@
        }),
{
    proof {
        reveal_strlit("filter: ");
        reveal_strlit("drop: ");
        reveal_strlit("—");
    }
    if !sample.filter_reason.as_str().is_empty() {
        concat2("filter: ", sample.filter_reason.as_str())
    } else if !sample.drop_reason.as_str().is_empty() {
        concat2("drop: ", sample.drop_reason.as_str())
    } else {
        owned("—")
    }
}

/// A reward to four decimals, a dash when the sample was not scored.
pub fn format_reward(reward: Option<i64>) -> (r: String)
    ensures
        r@ == (match reward {
            Some(v) => crate::text::fixed_text(v as int, 4),
            None => "—"@,
        }),
{
    match reward {
        Some(v) => crate::text::fixed_text_exec(v, 4),
        None => {
            proof {
                reveal_strlit("—");
            }
            owned("—")
        },
    }
}

/// Where a frame sits in a stack of `total` frames: the root, the current
/// frame, both, or neither.
pub fn frame_position(index: usize, total: usize) -> (r: Option<String>)
    requires
        index < usize::MAX,
    ensures
        (match r {
            Some(t) => Some(t@),
            None => None,
        }) == (if index == 0 && index + 1 == total {
            Some("root · current"@)
        } else if index == 0 {
            Some("root"@)
        } else if index + 1 == total {
            Some("current"@)
        } else {
            None::<Seq<char>>
        }),
{
    proof {
        reveal_strlit("root · current");
        reveal_strlit("root");
        reveal_strlit("current");
    }
    if index == 0 && index + 1 == total {
        Some(owned("root · current"))
    } else if index == 0 {
        Some(owned("root"))
    } else if index + 1 == total {
        Some(owned("current"))
    } else {
        None
    }
}


/// The position of the first id equal to `x`, the length when none is.
pub open spec fn first_equal(ids: Seq<Seq<char>>, x: Seq<char>) -> int
    decreases ids.len(),
{
    if ids.len() == 0 {
        0
    } else if ids[0] == x {
        0
    } else {
        1 + first_equal(ids.drop_first(), x)
    }
}

/// The position of the first id other than `x`, the length when none is.
pub open spec fn first_other(ids: Seq<Seq<char>>, x: Seq<char>) -> int
    decreases ids.len(),
{
    if ids.len() == 0 {
        0
    } else if ids[0] != x {
        0
    } else {
        1 + first_other(ids.drop_first(), x)
    }
}

/// The run compared with by default: the run listed right after the primary
/// one when it is another run, else the first run that is not the primary
/// one; none when the primary run is not listed or no other run is.
pub open spec fn secondary_of(ids: Seq<Seq<char>>, primary: Seq<char>) -> Option<Seq<char>> {
    let p = first_equal(ids, primary);
    let k = first_other(ids, primary);
    if p >= ids.len() {
        None
    } else if p + 1 < ids.len() && ids[p + 1] != primary {
        Some(ids[p + 1])
    } else if k >= ids.len() {
        None
    } else {
        Some(ids[k])
    }
}

pub open spec fn run_ids(runs: Seq<RlRunSummary>) -> Seq<Seq<char>> {
    runs.map_values(|r: RlRunSummary| r.run_id@)
}

pub open spec fn opt_text(v: Option<String>) -> Option<Seq<char>> {
    match v {
        Some(s) => Some(s@),
        None => None,
    }
}

proof fn lemma_first_equal(ids: Seq<Seq<char>>, x: Seq<char>, p: int)
    requires
        0 <= p <= ids.len(),
        forall|j: int| 0 <= j < p ==> ids[j] != x,
        p < ids.len() ==> ids[p] == x,
    ensures
        first_equal(ids, x) == p,
    decreases p,
{
    if p > 0 {
        let rest = ids.drop_first();
        assert forall|j: int| 0 <= j < p - 1 implies rest[j] != x by {
            assert(rest[j] == ids[j + 1]);
        }
        if p - 1 < rest.len() {
            assert(rest[p - 1] == ids[p]);
        }
        lemma_first_equal(rest, x, p - 1);
    }
}

proof fn lemma_first_other(ids: Seq<Seq<char>>, x: Seq<char>, p: int)
    requires
        0 <= p <= ids.len(),
        forall|j: int| 0 <= j < p ==> ids[j] == x,
        p < ids.len() ==> ids[p] != x,
    ensures
        first_other(ids, x) == p,
    decreases p,
{
    if p > 0 {
        let rest = ids.drop_first();
        assert forall|j: int| 0 <= j < p - 1 implies rest[j] == x by {
            assert(rest[j] == ids[j + 1]);
        }
        if p - 1 < rest.len() {
            assert(rest[p - 1] == ids[p]);
        }
        lemma_first_other(rest, x, p - 1);
    }
}

/// The run that the overview compares with by default.
pub fn default_secondary_run(runs: &Vec<RlRunSummary>, primary_id: &str) -> (r: Option<String>)
    ensures
        opt_text(r) == secondary_of(run_ids(runs@), primary_id@),
{
    let ghost ids = run_ids(runs@);
    let mut p: usize = 0;
    while p < runs.len() && !str_eq(runs[p].run_id.as_str(), primary_id)
        invariant
            p <= runs@.len(),
            ids == run_ids(runs@),
            forall|j: int| 0 <= j < p ==> ids[j] != primary_id@,
        decreases runs@.len() - p,
    {
        p = p + 1;
    }
    let mut k: usize = 0;
    while k < runs.len() && str_eq(runs[k].run_id.as_str(), primary_id)
        invariant
            k <= runs@.len(),
            ids == run_ids(runs@),
            forall|j: int| 0 <= j < k ==> ids[j] == primary_id@,
        decreases runs@.len() - k,
    {
        k = k + 1;
    }
    proof {
        lemma_first_equal(ids, primary_id@, p as int);
        lemma_first_other(ids, primary_id@, k as int);
    }
    if p == runs.len() {
        return None;
    }
    if p + 1 < runs.len() && !str_eq(runs[p + 1].run_id.as_str(), primary_id) {
        return Some(runs[p + 1].run_id.clone());
    }
    if k == runs.len() {
        return None;
    }
    Some(runs[k].run_id.clone())
}

/// The preferred run is named, is not the primary run, and is listed.
pub open spec fn preferred_usable(ids: Seq<Seq<char>>, primary: Seq<char>, preferred: Seq<char>) -> bool {
    !is_blank(preferred) && preferred != primary && ids.contains(preferred)
}

/// The run to compare with: the preferred one when it is usable, else the
/// default.
pub fn resolve_compare_run(runs: &Vec<RlRunSummary>, primary_id: &str, preferred: &str) -> (r: Option<String>)
    ensures
        opt_text(r) == (if preferred_usable(run_ids(runs@), primary_id@, preferred@) {
            Some(preferred@)
        } else {
            secondary_of(run_ids(runs@), primary_id@)
        }),
{
    let ghost ids = run_ids(runs@);
    let named = !blank(preferred) && !str_eq(preferred, primary_id);
    if named {
        let mut i: usize = 0;
        while i < runs.len()
            invariant
                i <= runs@.len(),
                ids == run_ids(runs@),
                !is_blank(preferred@) && preferred@ != primary_id@,
                forall|j: int| 0 <= j < i ==> ids[j] != preferred@,
            decreases runs@.len() - i,
        {
            if str_eq(runs[i].run_id.as_str(), preferred) {
                assert(ids[i as int] == preferred@);
                return Some(owned(preferred));
            }
            i = i + 1;
        }
    }
    default_secondary_run(runs, primary_id)
}

/// The trends' subtitle: the click hint, and, once the earliest step still
/// in the table is more than two bucket widths in, that earlier history has
/// aged out.
pub open spec fn trends_subtitle_text(first_steps: Seq<i64>, bucket_steps: i64) -> Seq<char> {
    let width: int = if bucket_steps > 1 {
        bucket_steps as int
    } else {
        1
    };
    if first_steps.len() > 0 && min_step(first_steps) > width * 2 {
        "Click a point to open samples at that step. History starts at step "@ + int_text(
            min_step(first_steps) as int,
        ) + "; earlier metrics have aged out of the table."@
    } else {
        "Click a point to open samples at that step."@
    }
}

/// The smallest step of a non-empty list.
pub open spec fn min_step(s: Seq<i64>) -> i64
    decreases s.len(),
{
    if s.len() <= 1 {
        s[0]
    } else {
        let m = min_step(s.drop_last());
        if s.last() < m {
            s.last()
        } else {
            m
        }
    }
}

/// The subtitle of the trend charts, from the first step of each charted
/// series and the steps a bucket spans.
pub fn trends_subtitle(first_steps: &Vec<i64>, bucket_steps: i64) -> (r: String)
    ensures
        r@ == trends_subtitle_text(first_steps@, bucket_steps),
{
    proof {
        reveal_strlit("Click a point to open samples at that step. History starts at step ");
        reveal_strlit("; earlier metrics have aged out of the table.");
        reveal_strlit("Click a point to open samples at that step.");
    }
    if first_steps.len() == 0 {
        return owned("Click a point to open samples at that step.");
    }
    let mut earliest = first_steps[0];
    let mut i: usize = 1;
    assert(first_steps@.take(1) =~= seq![first_steps@[0]]);
    while i < first_steps.len()
        invariant
            1 <= i <= first_steps@.len(),
            earliest == min_step(first_steps@.take(i as int)),
        decreases first_steps@.len() - i,
    {
        assert(first_steps@.take(i + 1).drop_last() =~= first_steps@.take(i as int));
        if first_steps[i] < earliest {
            earliest = first_steps[i];
        }
        i = i + 1;
    }
    assert(first_steps@.take(first_steps@.len() as int) =~= first_steps@);
    let width: i128 = if bucket_steps > 1 {
        bucket_steps as i128
    } else {
        1
    };
    if (earliest as i128) > width * 2 {
        let mut s = owned("Click a point to open samples at that step. History starts at step ");
        s.append(i64_text(earliest).as_str());
        s.append("; earlier metrics have aged out of the table.");
        s
    } else {
        owned("Click a point to open samples at that step.")
    }
}

/// The views of the RL span workspace.
#[derive(Clone, Copy, Debug, PartialEq, Eq, Structural)]
pub enum RlMode {
    Rollout,
    Train,
    Spans,
    ProcessTimeline,
    Perfetto,
}

impl RlMode {
    /// The page title of the view.
    pub fn title(self) -> (r: &'static str)
        ensures
            r@ == (match self {
                RlMode::Rollout => "RL Rollout"@,
                RlMode::Train => "Policy Training"@,
                RlMode::Spans => "RL Spans"@,
                RlMode::ProcessTimeline => "Process Timeline"@,
                RlMode::Perfetto => "RL Perfetto Export"@,
            }),
    {
        match self {
            RlMode::Rollout => "RL Rollout",
            RlMode::Train => "Policy Training",
            RlMode::Spans => "RL Spans",
            RlMode::ProcessTimeline => "Process Timeline",
            RlMode::Perfetto => "RL Perfetto Export",
        }
    }

    /// The one-line description under the title.
    pub fn subtitle(self) -> (r: &'static str)
        ensures
            r@ == (match self {
                RlMode::Rollout => "Reported rollout spans, optionally restricted by rollout ID."@,
                RlMode::Train => "Training-related spans and their nested phase timing."@,
                RlMode::Spans => "Cross-process span trees at the requested event limit."@,
                RlMode::ProcessTimeline => "The same span set grouped by its reported process and thread fields."@,
                RlMode::Perfetto => "Inspect the loaded hierarchy or export it as a Chrome trace."@,
            }),
    {
        match self {
            RlMode::Rollout => "Reported rollout spans, optionally restricted by rollout ID.",
            RlMode::Train => "Training-related spans and their nested phase timing.",
            RlMode::Spans => "Cross-process span trees at the requested event limit.",
            RlMode::ProcessTimeline => "The same span set grouped by its reported process and thread fields.",
            RlMode::Perfetto => "Inspect the loaded hierarchy or export it as a Chrome trace.",
        }
    }
}

/// A row of the latest results: a benchmark's name, the step of its newest
/// point among the first `n`, and where that point stands. Of points at the
/// same newest step, the last listed wins.
pub open spec fn latest_entry(points: Seq<RlBenchmarkPoint>, n: int, e: (String, i64, usize)) -> bool {
    &&& e.2 < n
    &&& points[e.2 as int].name@ == e.0@
    &&& points[e.2 as int].step == e.1
    &&& forall|j: int|
        0 <= j < n && (#[trigger] points[j]).name@ == e.0@ ==> points[j].step < e.1 || (
        points[j].step == e.1 && j <= e.2)
}

/// Rows in strictly increasing name order.
pub open spec fn names_sorted(r: Seq<(String, i64, usize)>) -> bool {
    forall|a: int, b: int| 0 <= a < b < r.len() ==> text_less(r[a].0@, r[b].0@)
}

/// Every row holds the newest of the first `n` points of its benchmark.
pub open spec fn entries_latest(points: Seq<RlBenchmarkPoint>, n: int, r: Seq<(String, i64, usize)>) -> bool {
    forall|k: int| 0 <= k < r.len() ==> latest_entry(points, n, #[trigger] r[k])
}

/// Every benchmark among the first `n` points has a row.
pub open spec fn names_covered(points: Seq<RlBenchmarkPoint>, n: int, r: Seq<(String, i64, usize)>) -> bool {
    forall|j: int|
        #![trigger points[j]]
        0 <= j < n ==> exists|k: int| 0 <= k < r.len() && (#[trigger] r[k]).0@ == points[j].name@
}

/// The latest results of the first `n` points: one row per benchmark name,
/// in name order.
pub open spec fn latest_table(points: Seq<RlBenchmarkPoint>, n: int, r: Seq<(String, i64, usize)>) -> bool {
    &&& names_sorted(r)
    &&& entries_latest(points, n, r)
    &&& names_covered(points, n, r)
}

proof fn lemma_latest_names_differ(r: Seq<(String, i64, usize)>, k: int)
    requires
        0 <= k < r.len(),
        forall|a: int, b: int| 0 <= a < b < r.len() ==> text_less(r[a].0@, r[b].0@),
    ensures
        forall|y: int| 0 <= y < r.len() && y != k ==> (#[trigger] r[y]).0@ != r[k].0@,
{
    assert forall|y: int| 0 <= y < r.len() && y != k implies (#[trigger] r[y]).0@ != r[k].0@ by {
        lemma_text_less_irreflexive(r[k].0@);
        if y < k {
            assert(text_less(r[y].0@, r[k].0@));
        } else {
            assert(text_less(r[k].0@, r[y].0@));
        }
    }
}

/// A newer point of a listed benchmark takes its row.
proof fn lemma_latest_update(
    points: Seq<RlBenchmarkPoint>,
    i: int,
    r: Seq<(String, i64, usize)>,
    k: int,
    e: (String, i64, usize),
)
    requires
        0 <= i < points.len(),
        latest_table(points, i, r),
        0 <= k < r.len(),
        r[k].0@ == points[i].name@,
        e.0@ == points[i].name@,
        e.1 == points[i].step,
        e.2 == i,
        e.1 >= r[k].1,
    ensures
        latest_table(points, i + 1, r.update(k, e)),
{
    lemma_latest_names_differ(r, k);
    let nr = r.update(k, e);
    let prev = r[k];
    assert forall|a: int, b: int| 0 <= a < b < nr.len() implies text_less(nr[a].0@, nr[b].0@) by {
        assert(nr[a].0@ == r[a].0@);
        assert(nr[b].0@ == r[b].0@);
    }
    assert forall|y: int| 0 <= y < nr.len() implies latest_entry(points, i + 1, #[trigger] nr[y]) by {
        if y == k {
            assert(latest_entry(points, i, prev));
            assert forall|j: int| 0 <= j < i + 1 && (#[trigger] points[j]).name@ == e.0@ implies
                points[j].step < e.1 || (points[j].step == e.1 && j <= e.2) by {
                if j < i {
                    assert(points[j].name@ == prev.0@);
                }
            }
        } else {
            assert(nr[y] == r[y]);
            assert(latest_entry(points, i, r[y]));
            assert(r[y].0@ != r[k].0@);
        }
    }
    assert forall|j: int| #![trigger points[j]] 0 <= j < i + 1 implies exists|x: int|
        0 <= x < nr.len() && (#[trigger] nr[x]).0@ == points[j].name@ by {
        if j < i {
            let x = choose|x: int| 0 <= x < r.len() && (#[trigger] r[x]).0@ == points[j].name@;
            assert(nr[x].0@ == r[x].0@);
        } else {
            assert(nr[k].0@ == points[j].name@);
        }
    }
}

/// An older point of a listed benchmark leaves the rows as they are.
proof fn lemma_latest_keep(points: Seq<RlBenchmarkPoint>, i: int, r: Seq<(String, i64, usize)>, k: int)
    requires
        0 <= i < points.len(),
        latest_table(points, i, r),
        0 <= k < r.len(),
        r[k].0@ == points[i].name@,
        points[i].step < r[k].1,
    ensures
        latest_table(points, i + 1, r),
{
    lemma_latest_names_differ(r, k);
    assert forall|y: int| 0 <= y < r.len() implies latest_entry(points, i + 1, #[trigger] r[y]) by {
        assert(latest_entry(points, i, r[y]));
        if y != k {
            assert(r[y].0@ != r[k].0@);
        }
    }
    assert forall|j: int| #![trigger points[j]] 0 <= j < i + 1 implies exists|x: int|
        0 <= x < r.len() && (#[trigger] r[x]).0@ == points[j].name@ by {
        if j == i {
            assert(r[k].0@ == points[j].name@);
        }
    }
}

/// Inserting a name where it sorts keeps the rows in name order.
proof fn lemma_insert_sorted(r: Seq<(String, i64, usize)>, q: int, e: (String, i64, usize))
    requires
        0 <= q <= r.len(),
        forall|a: int, b: int| 0 <= a < b < r.len() ==> text_less(r[a].0@, r[b].0@),
        forall|y: int| 0 <= y < r.len() ==> (#[trigger] r[y]).0@ != e.0@,
        forall|y: int| 0 <= y < q ==> text_less((#[trigger] r[y]).0@, e.0@),
        q < r.len() ==> !text_less(r[q].0@, e.0@),
    ensures
        forall|a: int, b: int| 0 <= a < b < r.insert(q, e).len() ==> text_less(r.insert(q, e)[a].0@, r.insert(q, e)[b].0@),
{
    let name = e.0@;
    if q < r.len() {
        lemma_text_less_total(r[q].0@, name);
    }
    let nr = r.insert(q, e);
    assert(nr[q] == e);
    assert forall|a: int, b: int| 0 <= a < b < nr.len() implies text_less(nr[a].0@, nr[b].0@) by {
        if b < q {
            assert(nr[a] == r[a]);
            assert(nr[b] == r[b]);
        } else if b == q {
            assert(nr[a] == r[a]);
        } else if a < q {
            assert(nr[a] == r[a]);
            assert(nr[b] == r[b - 1]);
            if b - 1 > q {
                assert(text_less(r[q].0@, r[b - 1].0@));
                lemma_text_less_transitive(name, r[q].0@, r[b - 1].0@);
            }
            lemma_text_less_transitive(r[a].0@, name, r[b - 1].0@);
        } else if a == q {
            assert(nr[b] == r[b - 1]);
            if b - 1 > q {
                assert(text_less(r[q].0@, r[b - 1].0@));
                lemma_text_less_transitive(name, r[q].0@, r[b - 1].0@);
            }
        } else {
            assert(nr[a] == r[a - 1]);
            assert(nr[b] == r[b - 1]);
        }
    }
}

/// A row of the first `i` points whose benchmark differs from point `i`'s
/// stays the newest of its benchmark once point `i` is read.
proof fn lemma_entry_stays_latest(points: Seq<RlBenchmarkPoint>, i: int, x: (String, i64, usize))
    requires
        0 <= i < points.len(),
        latest_entry(points, i, x),
        x.0@ != points[i].name@,
    ensures
        latest_entry(points, i + 1, x),
{
    assert forall|j: int| 0 <= j < i + 1 && (#[trigger] points[j]).name@ == x.0@ implies
        points[j].step < x.1 || (points[j].step == x.1 && j <= x.2) by {
        assert(j < i);
    }
}

/// The first point of a benchmark not yet seen is its newest so far.
proof fn lemma_new_entry_latest(
    points: Seq<RlBenchmarkPoint>,
    i: int,
    r: Seq<(String, i64, usize)>,
    e: (String, i64, usize),
)
    requires
        0 <= i < points.len(),
        names_covered(points, i, r),
        forall|y: int| 0 <= y < r.len() ==> (#[trigger] r[y]).0@ != points[i].name@,
        e.0@ == points[i].name@,
        e.1 == points[i].step,
        e.2 == i,
    ensures
        latest_entry(points, i + 1, e),
{
    assert forall|j: int| 0 <= j < i + 1 && (#[trigger] points[j]).name@ == e.0@ implies
        points[j].step < e.1 || (points[j].step == e.1 && j <= e.2) by {
        if j < i {
            let x = choose|x: int| 0 <= x < r.len() && (#[trigger] r[x]).0@ == points[j].name@;
            assert(r[x].0@ != points[i].name@);
        }
    }
}

proof fn lemma_insert_entries(
    points: Seq<RlBenchmarkPoint>,
    i: int,
    r: Seq<(String, i64, usize)>,
    q: int,
    e: (String, i64, usize),
)
    requires
        0 <= i < points.len(),
        entries_latest(points, i, r),
        names_covered(points, i, r),
        0 <= q <= r.len(),
        forall|y: int| 0 <= y < r.len() ==> (#[trigger] r[y]).0@ != points[i].name@,
        e.0@ == points[i].name@,
        e.1 == points[i].step,
        e.2 == i,
    ensures
        entries_latest(points, i + 1, r.insert(q, e)),
{
    let nr = r.insert(q, e);
    lemma_new_entry_latest(points, i, r, e);
    assert forall|y: int| 0 <= y < nr.len() implies latest_entry(points, i + 1, #[trigger] nr[y]) by {
        if y == q {
            assert(nr[q] == e);
        } else {
            let o = if y < q { y } else { y - 1 };
            assert(nr[y] == r[o]);
            lemma_entry_stays_latest(points, i, r[o]);
        }
    }
}

proof fn lemma_insert_covered(
    points: Seq<RlBenchmarkPoint>,
    i: int,
    r: Seq<(String, i64, usize)>,
    q: int,
    e: (String, i64, usize),
)
    requires
        0 <= i < points.len(),
        names_covered(points, i, r),
        0 <= q <= r.len(),
        e.0@ == points[i].name@,
    ensures
        names_covered(points, i + 1, r.insert(q, e)),
{
    let nr = r.insert(q, e);
    assert(nr[q] == e);
    assert forall|j: int| #![trigger points[j]] 0 <= j < i + 1 implies exists|x: int|
        0 <= x < nr.len() && (#[trigger] nr[x]).0@ == points[j].name@ by {
        if j < i {
            let x = choose|x: int| 0 <= x < r.len() && (#[trigger] r[x]).0@ == points[j].name@;
            if x < q {
                assert(nr[x] == r[x]);
            } else {
                assert(nr[x + 1] == r[x]);
            }
        } else {
            assert(nr[q].0@ == points[j].name@);
        }
    }
}

/// The newest result of each benchmark, in name order: its name, its step,
/// and the position of its point in the list (which stands for the score it
/// carries). Of points at the same newest step, the last listed wins.
pub fn latest_benchmarks(points: &Vec<RlBenchmarkPoint>) -> (r: Vec<(String, i64, usize)>)
    ensures
        latest_table(points@, points@.len() as int, r@),
{
    let mut r: Vec<(String, i64, usize)> = Vec::new();
    let mut i: usize = 0;
    while i < points.len()
        invariant
            i <= points@.len(),
            latest_table(points@, i as int, r@),
        decreases points@.len() - i,
    {
        let ghost old_r = r@;
        let step = points[i].step;
        let mut k: usize = 0;
        while k < r.len() && !str_eq(r[k].0.as_str(), points[i].name.as_str())
            invariant
                r@ == old_r,
                i < points@.len(),
                k <= r@.len(),
                forall|y: int| 0 <= y < k ==> (#[trigger] r@[y]).0@ != points@[i as int].name@,
            decreases r@.len() - k,
        {
            k = k + 1;
        }
        if k < r.len() {
            if step >= r[k].1 {
                let e = (points[i].name.clone(), step, i);
                r.set(k, e);
                proof {
                    lemma_latest_update(points@, i as int, old_r, k as int, e);
                }
            } else {
                proof {
                    lemma_latest_keep(points@, i as int, old_r, k as int);
                }
            }
        } else {
            let mut q: usize = 0;
            while q < r.len() && text_lt(r[q].0.as_str(), points[i].name.as_str())
                invariant
                    r@ == old_r,
                    i < points@.len(),
                    q <= r@.len(),
                    forall|y: int| 0 <= y < q ==> text_less((#[trigger] r@[y]).0@, points@[i as int].name@),
                decreases r@.len() - q,
            {
                q = q + 1;
            }
            let e = (points[i].name.clone(), step, i);
            r.insert(q, e);
            proof {
                lemma_insert_sorted(old_r, q as int, e);
                lemma_insert_entries(points@, i as int, old_r, q as int, e);
                lemma_insert_covered(points@, i as int, old_r, q as int, e);
            }
        }
        i = i + 1;
    }
    r
}

/// Events the overview lists at most.
pub const EVENTS_LIMIT: usize = 40;

/// Something a run reported: when, at which step (negative when none), how
/// loudly, and what.
#[derive(Clone, Debug, Default, PartialEq, Eq)]
pub struct RlEvent {
    pub timestamp_ns: i64,
    pub step: i64,
    pub level: String,
    pub message: String,
}

/// `a` comes before `b` in the overview's event list: newer first, then by
/// message.
pub open spec fn event_before(a: RlEvent, b: RlEvent) -> bool {
    a.timestamp_ns > b.timestamp_ns || (a.timestamp_ns == b.timestamp_ns && text_less(
        a.message@,
        b.message@,
    ))
}

/// Inserts an event after every event that does not come after it.
pub open spec fn insert_event(s: Seq<RlEvent>, x: RlEvent) -> Seq<RlEvent>
    decreases s.len(),
{
    if s.len() == 0 {
        seq![x]
    } else if event_before(x, s[0]) {
        seq![x] + s
    } else {
        seq![s[0]] + insert_event(s.drop_first(), x)
    }
}

/// The events in list order, sorted stably: newer first, then by message.
pub open spec fn event_order(s: Seq<RlEvent>) -> Seq<RlEvent>
    decreases s.len(),
{
    if s.len() == 0 {
        seq![]
    } else {
        insert_event(event_order(s.drop_last()), s.last())
    }
}

/// The events without those that repeat the message of the event before.
pub open spec fn dedup_messages(s: Seq<RlEvent>) -> Seq<RlEvent>
    decreases s.len(),
{
    if s.len() <= 1 {
        s
    } else if s.last().message@ == s[s.len() - 2].message@ {
        dedup_messages(s.drop_last())
    } else {
        dedup_messages(s.drop_last()).push(s.last())
    }
}

/// The overview's event list from the events of the runs shown: newest
/// first, then by message, a message repeated by the next event shown once,
/// and at most `EVENTS_LIMIT` of them.
pub open spec fn merged_events(all: Seq<RlEvent>) -> Seq<RlEvent> {
    let d = dedup_messages(event_order(all));
    if d.len() <= EVENTS_LIMIT {
        d
    } else {
        d.take(EVENTS_LIMIT as int)
    }
}

fn copy_event(e: &RlEvent) -> (r: RlEvent)
    ensures
        r == *e,
{
    RlEvent {
        timestamp_ns: e.timestamp_ns,
        step: e.step,
        level: e.level.clone(),
        message: e.message.clone(),
    }
}

proof fn lemma_insert_event(s: Seq<RlEvent>, x: RlEvent, p: int)
    requires
        0 <= p <= s.len(),
        forall|j: int| 0 <= j < p ==> !event_before(x, #[trigger] s[j]),
        p < s.len() ==> event_before(x, s[p]),
    ensures
        insert_event(s, x) == s.insert(p, x),
    decreases p,
{
    if p == 0 {
        if s.len() == 0 {
            assert(s.insert(0, x) =~= seq![x]);
        } else {
            assert(s.insert(0, x) =~= seq![x] + s);
        }
    } else {
        let rest = s.drop_first();
        assert(!event_before(x, s[0]));
        assert forall|j: int| 0 <= j < p - 1 implies !event_before(x, #[trigger] rest[j]) by {
            assert(rest[j] == s[j + 1]);
        }
        if p - 1 < rest.len() {
            assert(rest[p - 1] == s[p]);
        }
        lemma_insert_event(rest, x, p - 1);
        assert(s.insert(p, x) =~= seq![s[0]] + rest.insert(p - 1, x));
    }
}

fn event_before_exec(a: &RlEvent, b: &RlEvent) -> (r: bool)
    ensures
        r == event_before(*a, *b),
{
    a.timestamp_ns > b.timestamp_ns || (a.timestamp_ns == b.timestamp_ns && text_lt(
        a.message.as_str(),
        b.message.as_str(),
    ))
}

/// The events of the primary run and, when one is compared, of the second
/// run, as the overview lists them.
pub fn merge_run_events(primary: &Vec<RlEvent>, secondary: Option<&Vec<RlEvent>>) -> (r: Vec<RlEvent>)
    ensures
        r@ == merged_events(
            primary@ + match secondary {
                Some(v) => v@,
                None => Seq::<RlEvent>::empty(),
            },
        ),
{
    let ghost all = primary@ + match secondary {
        Some(v) => v@,
        None => Seq::<RlEvent>::empty(),
    };
    let mut events: Vec<RlEvent> = Vec::new();
    let mut i: usize = 0;
    while i < primary.len()
        invariant
            i <= primary@.len(),
            events@ == primary@.take(i as int),
        decreases primary@.len() - i,
    {
        events.push(copy_event(&primary[i]));
        assert(events@ =~= primary@.take(i + 1));
        i = i + 1;
    }
    assert(primary@.take(primary@.len() as int) =~= primary@);
    if let Some(more) = secondary {
        let mut j: usize = 0;
        while j < more.len()
            invariant
                j <= more@.len(),
                events@ == primary@ + more@.take(j as int),
            decreases more@.len() - j,
        {
            events.push(copy_event(&more[j]));
            assert(events@ =~= primary@ + more@.take(j + 1));
            j = j + 1;
        }
        assert(more@.take(more@.len() as int) =~= more@);
    } else {
        assert(events@ =~= all);
    }
    assert(events@ =~= all);
    let mut sorted: Vec<RlEvent> = Vec::new();
    let mut k: usize = 0;
    assert(all.take(0) =~= Seq::<RlEvent>::empty());
    while k < events.len()
        invariant
            k <= events@.len(),
            events@ == all,
            sorted@ == event_order(all.take(k as int)),
        decreases events@.len() - k,
    {
        let x = copy_event(&events[k]);
        let mut p: usize = 0;
        while p < sorted.len() && !event_before_exec(&x, &sorted[p])
            invariant
                p <= sorted@.len(),
                forall|j: int| 0 <= j < p ==> !event_before(x, #[trigger] sorted@[j]),
            decreases sorted@.len() - p,
        {
            p = p + 1;
        }
        proof {
            lemma_insert_event(sorted@, x, p as int);
            assert(all.take(k + 1).drop_last() =~= all.take(k as int));
            assert(all.take(k + 1).last() == x);
        }
        sorted.insert(p, x);
        k = k + 1;
    }
    assert(all.take(all.len() as int) =~= all);
    let ghost ordered = sorted@;
    let mut out: Vec<RlEvent> = Vec::new();
    let mut m: usize = 0;
    assert(ordered.take(0) =~= Seq::<RlEvent>::empty());
    while m < sorted.len()
        invariant
            m <= sorted@.len(),
            sorted@ == ordered,
            out@ == dedup_messages(ordered.take(m as int)),
        decreases sorted@.len() - m,
    {
        let ghost t = ordered.take(m + 1);
        assert(t.drop_last() =~= ordered.take(m as int));
        assert(t.last() == ordered[m as int]);
        if m == 0 {
            assert(t =~= seq![ordered[0]]);
            out.push(copy_event(&sorted[m]));
            assert(out@ =~= t);
        } else {
            assert(t[t.len() - 2] == ordered[m - 1]);
            if !str_eq(sorted[m].message.as_str(), sorted[m - 1].message.as_str()) {
                out.push(copy_event(&sorted[m]));
            }
        }
        m = m + 1;
    }
    assert(ordered.take(ordered.len() as int) =~= ordered);
    out.truncate(EVENTS_LIMIT);
    out
}

/// The newest telemetry among the runs, zero when there is none.
pub open spec fn newest_telemetry(runs: Seq<RlRunSummary>) -> i64
    decreases runs.len(),
{
    if runs.len() == 0 {
        0
    } else {
        let rest = newest_telemetry(runs.drop_last());
        if runs.len() == 1 || runs.last().timestamp_ns > rest {
            runs.last().timestamp_ns
        } else {
            rest
        }
    }
}

/// The instant the overview ages its notices against: the newest
/// telemetry of any run rather than the browser clock, zero when no run
/// has reported.
pub fn latest_telemetry_ns(runs: &Vec<RlRunSummary>) -> (r: i64)
    ensures
        r == newest_telemetry(runs@),
        runs@.len() > 0 ==> exists|k: int| 0 <= k < runs@.len() && r == (#[trigger] runs@[k]).timestamp_ns,
        forall|k: int| 0 <= k < runs@.len() ==> (#[trigger] runs@[k]).timestamp_ns <= r,
{
    let mut best: i64 = 0;
    let mut i: usize = 0;
    assert(runs@.take(0) =~= Seq::<RlRunSummary>::empty());
    while i < runs.len()
        invariant
            i <= runs@.len(),
            best == newest_telemetry(runs@.take(i as int)),
            i > 0 ==> exists|k: int| 0 <= k < i && best == (#[trigger] runs@[k]).timestamp_ns,
            forall|k: int| 0 <= k < i ==> (#[trigger] runs@[k]).timestamp_ns <= best,
        decreases runs@.len() - i,
    {
        assert(runs@.take(i + 1).drop_last() =~= runs@.take(i as int));
        assert(runs@.take(i + 1).last() == runs@[i as int]);
        if i == 0 || runs[i].timestamp_ns > best {
            best = runs[i].timestamp_ns;
        }
        i = i + 1;
    }
    assert(runs@.take(runs@.len() as int) =~= runs@);
    best
}

/// The subtitle of the run broadcast: how many runs reported, and the run
/// compared, or that the next run is compared by default.
pub open spec fn broadcast_subtitle_text(runs: nat, compare: Option<Seq<char>>) -> Seq<char> {
    nat_text(runs) + " reported run(s) · compare "@ + match compare {
        Some(id) => id,
        None => "auto (next run)"@,
    }
}

/// The subtitle of the run broadcast.
pub fn broadcast_subtitle(run_count: usize, compare_run_id: Option<&str>) -> (r: String)
    ensures
        r@ == broadcast_subtitle_text(
            run_count as nat,
            match compare_run_id {
                Some(id) => Some(id@),
                None => None,
            },
        ),
{
    let mut s = usize_text(run_count);
    s.append(" reported run(s) · compare ");
    match compare_run_id {
        Some(id) => s.append(id),
        None => s.append("auto (next run)"),
    }
    s
}

/// How the RL page asks a process for spans: its recent span trees up to a
/// limit, or, when a rollout is named, the spans of that rollout.
pub enum SpanQuery {
    Recent { limit: usize },
    Rollout { rollout_id: String },
}

/// The span request for a rollout filter (empty for none).
pub fn span_query(limit: usize, rollout: &str) -> (r: SpanQuery)
    ensures
        match r {
            SpanQuery::Recent { limit: l } => rollout@.len() == 0 && l == limit,
            SpanQuery::Rollout { rollout_id } => rollout@.len() > 0 && rollout_id@ == rollout@,
        },
{
    if rollout.is_empty() {
        SpanQuery::Recent { limit }
    } else {
        SpanQuery::Rollout { rollout_id: owned(rollout) }
    }
}

/// The span limit and rollout filter of an RL view: the Perfetto export
/// reads a fixed 2000 spans, the others the chosen limit; only the rollout
/// and Perfetto views filter by the (trimmed) rollout id.
pub fn rl_evidence_request(mode: RlMode, event_limit: usize, rollout_filter: &str) -> (r: (usize, String))
    ensures
        r.0 == (if mode == RlMode::Perfetto { 2000 } else { event_limit }),
        r.1@ == (if mode == RlMode::Rollout || mode == RlMode::Perfetto {
            trim_seq(rollout_filter@)
        } else {
            Seq::empty()
        }),
{
    let limit = match mode {
        RlMode::Perfetto => 2000,
        _ => event_limit,
    };
    let rollout = match mode {
        RlMode::Rollout | RlMode::Perfetto => trimmed(rollout_filter),
        _ => String::new(),
    };
    (limit, rollout)
}

/// The spans that the other processes returned, in the order asked.
pub open spec fn reply_views(replies: Seq<(i32, Option<Vec<SpanInfo>>)>) -> Seq<SpanView>
    decreases replies.len(),
{
    if replies.len() == 0 {
        seq![]
    } else {
        reply_views(replies.drop_last()) + match replies.last().1 {
            Some(v) => spans_view(v@),
            None => seq![],
        }
    }
}

/// The processes that returned no spans, in the order asked.
pub open spec fn failed_pids(replies: Seq<(i32, Option<Vec<SpanInfo>>)>) -> Seq<i32>
    decreases replies.len(),
{
    if replies.len() == 0 {
        seq![]
    } else {
        failed_pids(replies.drop_last()) + match replies.last().1 {
            Some(_) => seq![],
            None => seq![replies.last().0],
        }
    }
}

/// The spans the RL page shows, and which processes were asked and failed.
pub struct RlEvidence {
    pub spans: Vec<SpanInfo>,
    pub processes_queried: usize,
    pub processes_failed: Vec<i32>,
}

/// The RL page's evidence from the local process's spans and the replies
/// of the other processes (a pid with its spans, or none when it failed):
/// every span once, by start time; the local process counts as asked.
pub fn rl_evidence(local: Vec<SpanInfo>, replies: Vec<(i32, Option<Vec<SpanInfo>>)>) -> (r: RlEvidence)
    requires
        replies@.len() < usize::MAX,
    ensures
        spans_view(r.spans@) == start_order(first_of_each(spans_view(local@) + reply_views(replies@))),
        r.processes_queried == replies@.len() + 1,
        r.processes_failed@ == failed_pids(replies@),
{
    let mut spans = local;
    let ghost base = spans_view(spans@);
    let mut failed: Vec<i32> = Vec::new();
    let mut i: usize = 0;
    assert(replies@.take(0) =~= Seq::<(i32, Option<Vec<SpanInfo>>)>::empty());
    assert(base + reply_views(replies@.take(0)) =~= base);
    while i < replies.len()
        invariant
            i <= replies@.len(),
            spans_view(spans@) == base + reply_views(replies@.take(i as int)),
            failed@ == failed_pids(replies@.take(i as int)),
        decreases replies@.len() - i,
    {
        let ghost pre = replies@.take(i as int);
        let ghost post = replies@.take(i + 1);
        assert(post.drop_last() =~= pre);
        assert(post.last() == replies@[i as int]);
        match &replies[i].1 {
            Some(more) => {
                let mut copied = copy_spans(more);
                let ghost before = spans@;
                let ghost added = copied@;
                spans.append(&mut copied);
                proof {
                    lemma_spans_view_concat(before, added);
                    assert(spans_view(spans@) =~= base + reply_views(post));
                }
                assert(failed@ =~= failed_pids(post));
            },
            None => {
                failed.push(replies[i].0);
                assert(failed@ =~= failed_pids(post));
                assert(spans_view(spans@) =~= base + reply_views(post));
            },
        }
        i = i + 1;
    }
    assert(replies@.take(replies@.len() as int) =~= replies@);
    dedupe_and_sort_spans(&mut spans);
    RlEvidence { spans, processes_queried: replies.len() + 1, processes_failed: failed }
}

/// The pids that returned no spans, comma-separated.
pub open spec fn pid_list_text(pids: Seq<i32>) -> Seq<char> {
    join_seq(pids.map_values(|p: i32| int_text(p as int)), ", "@)
}

/// The pids that returned no spans, as the RL page lists them.
pub fn failed_pids_text(pids: &Vec<i32>) -> (r: String)
    ensures
        r@ == pid_list_text(pids@),
{
    let mut parts: Vec<String> = Vec::new();
    let mut i: usize = 0;
    while i < pids.len()
        invariant
            i <= pids@.len(),
            views(parts@) == pids@.take(i as int).map_values(|p: i32| int_text(p as int)),
        decreases pids@.len() - i,
    {
        let t = i64_text(pids[i] as i64);
        proof {
            lemma_views_push(parts@, t);
        }
        parts.push(t);
        assert(pids@.take(i + 1).map_values(|p: i32| int_text(p as int)) =~= pids@.take(i as int).map_values(
            |p: i32| int_text(p as int),
        ).push(int_text(pids@[i as int] as int)));
        i = i + 1;
    }
    assert(pids@.take(pids@.len() as int) =~= pids@);
    join(&parts, ", ")
}

/// The samples of the step the table is filtered to, in list order.
pub open spec fn samples_at(s: Seq<RlSampleSummary>, step: Option<i64>) -> Seq<RlSampleSummary>
    decreases s.len(),
{
    if s.len() == 0 {
        seq![]
    } else if step matches Some(k) && s.last().step != k {
        samples_at(s.drop_last(), step)
    } else {
        samples_at(s.drop_last(), step).push(s.last())
    }
}

fn copy_sample(s: &RlSampleSummary) -> (r: RlSampleSummary)
    ensures
        r == *s,
{
    RlSampleSummary {
        timestamp_ns: s.timestamp_ns,
        step: s.step,
        rollout_id: s.rollout_id.clone(),
        group_id: s.group_id.clone(),
        sample_id: s.sample_id.clone(),
        task: s.task.clone(),
        status: s.status.clone(),
        reward: s.reward,
        reward_pass: s.reward_pass,
        filter_reason: s.filter_reason.clone(),
        drop_reason: s.drop_reason.clone(),
        prompt_tokens: s.prompt_tokens,
        response_tokens: s.response_tokens,
        staleness: s.staleness,
    }
}

/// The samples the table shows: those of the filtered step, or all of them
/// without a step filter.
pub fn visible_samples(samples: &Vec<RlSampleSummary>, step: Option<i64>) -> (r: Vec<RlSampleSummary>)
    ensures
        r@ == samples_at(samples@, step),
{
    let mut r: Vec<RlSampleSummary> = Vec::new();
    let mut i: usize = 0;
    assert(samples@.take(0) =~= Seq::<RlSampleSummary>::empty());
    while i < samples.len()
        invariant
            i <= samples@.len(),
            r@ == samples_at(samples@.take(i as int), step),
        decreases samples@.len() - i,
    {
        assert(samples@.take(i + 1).drop_last() =~= samples@.take(i as int));
        assert(samples@.take(i + 1).last() == samples@[i as int]);
        let keep = match step {
            Some(k) => samples[i].step == k,
            None => true,
        };
        if keep {
            r.push(copy_sample(&samples[i]));
        }
        i = i + 1;
    }
    assert(samples@.take(samples@.len() as int) =~= samples@);
    r
}

/// The colour of the composition bucket at position `i` of the legend; the
/// palette repeats every six buckets.
pub open spec fn composition_palette(i: int) -> Seq<char> {
    let m = i % 6;
    if m == 0 {
        "#2563eb"@
    } else if m == 1 {
        "#16a34a"@
    } else if m == 2 {
        "#ea580c"@
    } else if m == 3 {
        "#9333ea"@
    } else if m == 4 {
        "#0891b2"@
    } else {
        "#64748b"@
    }
}

/// Where a bucket first stands in the legend, if it is listed.
pub open spec fn legend_place(legend: Seq<String>, key: Seq<char>) -> Option<int>
    decreases legend.len(),
{
    if legend.len() == 0 {
        None
    } else if legend[0]@ == key {
        Some(0)
    } else {
        match legend_place(legend.drop_first(), key) {
            Some(i) => Some(i + 1),
            None => None,
        }
    }
}

/// A place counted from `k` further on.
pub open spec fn shifted(p: Option<int>, k: int) -> Option<int> {
    match p {
        Some(j) => Some(j + k),
        None => None,
    }
}

/// The colour of a composition bucket: that of its first place in the
/// legend, so a bucket keeps its colour as the per-step order changes; the
/// first colour when it is not listed.
pub fn composition_color(legend: &Vec<String>, key: &str) -> (r: &'static str)
    ensures
        r@ == composition_palette(
            match legend_place(legend@, key@) {
                Some(i) => i,
                None => 0,
            },
        ),
{
    let mut index: usize = 0;
    let mut found = false;
    let mut i: usize = 0;
    assert(legend@.skip(0) =~= legend@);
    while !found && i < legend.len()
        invariant
            i <= legend@.len(),
            !found ==> index == 0,
            found ==> legend_place(legend@, key@) == Some(index as int),
            !found ==> legend_place(legend@, key@) == shifted(legend_place(legend@.skip(i as int), key@), i as int),
        decreases legend@.len() - i,
    {
        assert(legend@.skip(i as int)[0] == legend@[i as int]);
        if str_eq(legend[i].as_str(), key) {
            index = i;
            found = true;
        } else {
            assert(legend@.skip(i as int).drop_first() =~= legend@.skip(i + 1));
        }
        i = i + 1;
    }
    if !found {
        assert(legend@.skip(legend@.len() as int) =~= Seq::<String>::empty());
    }
    let m = index % 6;
    if m == 0 {
        "#2563eb"
    } else if m == 1 {
        "#16a34a"
    } else if m == 2 {
        "#ea580c"
    } else if m == 3 {
        "#9333ea"
    } else if m == 4 {
        "#0891b2"
    } else {
        "#64748b"
    }
}

/// The names of the overview's metrics, in table order: the series the
/// overview asks each run for.
pub fn overview_metric_names() -> (r: Vec<&'static str>)
    ensures
        r@.len() == OVERVIEW_METRICS@.len(),
        forall|i: int| 0 <= i < r@.len() ==> r@[i] == (#[trigger] OVERVIEW_METRICS@[i]).0,
{
    let mut r: Vec<&'static str> = Vec::new();
    let mut i: usize = 0;
    while i < OVERVIEW_METRICS.len()
        invariant
            i <= OVERVIEW_METRICS@.len(),
            r@.len() == i,
            forall|k: int| 0 <= k < i ==> r@[k] == (#[trigger] OVERVIEW_METRICS@[k]).0,
        decreases OVERVIEW_METRICS@.len() - i,
    {
        r.push(OVERVIEW_METRICS[i].0);
        i = i + 1;
    }
    r
}

/// The largest value of a list, if it has one.
pub open spec fn seq_max(s: Seq<i64>) -> Option<i64>
    decreases s.len(),
{
    if s.len() == 0 {
        None
    } else {
        match seq_max(s.drop_last()) {
            Some(m) => Some(if s.last() > m { s.last() } else { m }),
            None => Some(s.last()),
        }
    }
}

/// The columns of the composition chart.
pub struct CompositionColumns {
    /// Where the window of columns drawn starts among the steps.
    pub first: usize,
    /// The largest sample count of a drawn step, at least one.
    pub max_total: i64,
    /// The largest step number drawn, zero when none is.
    pub widest_step: i64,
    /// Every how many columns a step label is drawn.
    pub label_every: usize,
}

/// The window of the composition chart over its steps (each a step number
/// and its sample count): the newest `MAX_COMPOSITION_COLUMNS` steps, the
/// largest total that scales the bars, and the spacing of the labels.
pub fn composition_columns(steps: &Vec<i64>, counts: &Vec<i64>) -> (r: CompositionColumns)
    requires
        steps@.len() == counts@.len(),
        seq_max(steps@.skip(if steps@.len() > MAX_COMPOSITION_COLUMNS { steps@.len() - MAX_COMPOSITION_COLUMNS } else { 0 })) != Some(i64::MIN),
    ensures
        r.first == (if steps@.len() > MAX_COMPOSITION_COLUMNS { steps@.len() - MAX_COMPOSITION_COLUMNS } else { 0 }),
        r.max_total == (match seq_max(counts@.skip(r.first as int)) {
            Some(m) => if m > 1 { m } else { 1 },
            None => 1,
        }),
        r.widest_step == (match seq_max(steps@.skip(r.first as int)) {
            Some(m) => m,
            None => 0,
        }),
        r.label_every == label_stride((steps@.len() - r.first) as nat, r.widest_step as int),
{
    let n = steps.len();
    let first: usize = if n > MAX_COMPOSITION_COLUMNS {
        n - MAX_COMPOSITION_COLUMNS
    } else {
        0
    };
    let mut widest: Option<i64> = None;
    let mut most: Option<i64> = None;
    let mut i: usize = first;
    assert(steps@.skip(first as int).take(0) =~= Seq::<i64>::empty());
    assert(counts@.skip(first as int).take(0) =~= Seq::<i64>::empty());
    while i < n
        invariant
            first <= i <= n,
            n == steps@.len(),
            n == counts@.len(),
            widest == seq_max(steps@.skip(first as int).take(i - first)),
            most == seq_max(counts@.skip(first as int).take(i - first)),
        decreases n - i,
    {
        let ghost k = i - first;
        assert(steps@.skip(first as int).take(k + 1).drop_last() =~= steps@.skip(first as int).take(k));
        assert(steps@.skip(first as int).take(k + 1).last() == steps@[i as int]);
        assert(counts@.skip(first as int).take(k + 1).drop_last() =~= counts@.skip(first as int).take(k));
        assert(counts@.skip(first as int).take(k + 1).last() == counts@[i as int]);
        widest = match widest {
            Some(m) => Some(if steps[i] > m { steps[i] } else { m }),
            None => Some(steps[i]),
        };
        most = match most {
            Some(m) => Some(if counts[i] > m { counts[i] } else { m }),
            None => Some(counts[i]),
        };
        i = i + 1;
    }
    assert(steps@.skip(first as int).take(n - first) =~= steps@.skip(first as int));
    assert(counts@.skip(first as int).take(n - first) =~= counts@.skip(first as int));
    let max_total: i64 = match most {
        Some(m) => if m > 1 { m } else { 1 },
        None => 1,
    };
    let widest_step: i64 = match widest {
        Some(m) => m,
        None => 0,
    };
    let label_every = composition_label_stride(n - first, widest_step);
    CompositionColumns { first, max_total, widest_step, label_every }
}

/// The item `offset` places before the last one, if the list is that long.
pub fn nth_from_last<T: Copy>(items: &Vec<T>, offset: usize) -> (r: Option<T>)
    requires
        offset < usize::MAX,
    ensures
        r == (if offset + 1 <= items@.len() {
            Some(items@[items@.len() - offset - 1])
        } else {
            None
        }),
{
    if offset + 1 <= items.len() {
        Some(items[items.len() - offset - 1])
    } else {
        None
    }
}

} // verus!
