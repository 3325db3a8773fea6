//! Runs: the records a run keeps, the step results it builds, how a run's
//! verdict follows from its steps, how a module failure is summarised, and
//! the exit code the command line reports.
//!
//! Measured floats (progress, CPU figures) are kept as `f64` bit patterns.
use crate::strs::{
    char_vecs_view, concat2, concat3, contains_seq, decimal, usize_to_string, contains_str, is_ws, lines_of, newline_pieces, starts_with,
    str_eq, string_from_chars, trim_chars, trim_spec,
};
use crate::catalog::{model_path_from_config, model_path_from_config_spec, ModuleInfo, START_MODULE_ID};
use crate::flow::{FlowNode, NodeView};
use vstd::prelude::*;

verus! {

/// A file or folder chosen for a run, or a note.
#[derive(Debug)]
pub struct AuditAsset {
    pub id: String,
    pub kind: String,
    pub path: String,
    pub name: String,
    pub extension: String,
}

/// A file that a run audits, with the asset it came from.
#[derive(Debug)]
pub struct AuditFile {
    pub path: String,
    pub name: String,
    pub extension: String,
    pub file_type: String,
    pub source_asset_id: String,
    pub source_asset_name: String,
    pub relative_path: String,
}

/// What a step's process cost; the float figures are `f64` bit patterns.
#[derive(Debug)]
pub struct StepPerformance {
    pub start_time: u64,
    pub end_time: u64,
    pub duration_ms: u64,
    pub sample_count: usize,
    pub cpu_time_ms_bits: u64,
    pub cpu_share_percent_bits: u64,
    pub average_cpu_percent_bits: u64,
    pub peak_cpu_percent_bits: u64,
    pub peak_memory_bytes: u64,
    pub artifact_bytes: u64,
    pub gpu_available: bool,
    pub gpu_sample_count: usize,
    pub peak_gpu_memory_bytes: Option<u64>,
    pub sampling_note: String,
}

/// The step that leads a performance figure; `value_bits` is an `f64` bit pattern.
#[derive(Debug)]
pub struct PerformanceLeader {
    pub step_id: String,
    pub label: String,
    pub module_name: String,
    pub value_bits: u64,
}

/// What a whole run cost; `total_cpu_time_ms_bits` is an `f64` bit pattern.
#[derive(Debug)]
pub struct RunPerformanceSummary {
    pub total_duration_ms: u64,
    pub total_cpu_time_ms_bits: u64,
    pub total_artifact_bytes: u64,
    pub measured_steps: usize,
    pub gpu_available: bool,
    pub gpu_sampled: bool,
    pub cpu_leader: Option<PerformanceLeader>,
    pub duration_leader: Option<PerformanceLeader>,
    pub memory_leader: Option<PerformanceLeader>,
    pub sampling_note: String,
}

/// The result of one step of a run; `progress_bits` is an `f64` bit pattern.
#[derive(Debug)]
pub struct StepRun {
    pub step_id: String,
    pub module_id: String,
    pub module_name: String,
    pub label: String,
    pub status: String,
    pub verdict: String,
    pub message: String,
    pub execution_group: usize,
    pub progress_bits: u64,
    pub processed_files: usize,
    pub matched_files: usize,
    pub artifact_count: usize,
    pub performance: Option<StepPerformance>,
    pub report_section: String,
}

/// What a module process writes as its result.
#[derive(Debug)]
pub struct ModuleStepOutput {
    pub status: String,
    pub verdict: String,
    pub message: String,
    pub processed_files: usize,
    pub matched_files: usize,
    pub artifact_count: usize,
    pub report_section: String,
}

/// The record of a run.
#[derive(Debug)]
pub struct RunRecord {
    pub id: String,
    pub flow_id: String,
    pub flow_name: String,
    pub created_at: u64,
    pub status: String,
    pub verdict: String,
    pub task_name: String,
    pub input_note: String,
    pub assets: Vec<AuditAsset>,
    pub data_root: String,
    pub run_dir: String,
    pub resource_root: String,
    pub artifact_root: String,
    pub artifact_dir: String,
    pub report_path: String,
    pub performance_summary: Option<RunPerformanceSummary>,
    pub steps: Vec<StepRun>,
}

/// The answer to a request to start a run.
#[derive(Debug)]
pub struct RunStartResponse {
    pub run_id: String,
}

/// A progress event of a run; `progress_bits` is an `f64` bit pattern.
#[derive(Debug)]
pub struct RunProgressEvent {
    pub run_id: String,
    pub node_id: Option<String>,
    pub status: String,
    pub progress_bits: Option<u64>,
    pub message: String,
    pub processed: Option<usize>,
    pub total: Option<usize>,
    pub step: Option<StepRun>,
    pub run: Option<RunRecord>,
}

/// A line of the run history.
#[derive(Debug)]
pub struct RunSummary {
    pub id: String,
    pub flow_name: String,
    pub created_at: u64,
    pub status: String,
    pub verdict: String,
    pub report_path: String,
}

/// The status a module result has when it names none.
pub fn default_output_status() -> (r: String)
    ensures
        r@ == "completed"@,
{
    "completed".to_owned()
}

/// The verdict a module result has when it names none.
pub fn default_output_verdict() -> (r: String)
    ensures
        r@ == "review"@,
{
    "review".to_owned()
}

/// The report wording of a step status.
pub open spec fn status_label_spec(status: Seq<char>) -> Seq<char> {
    if status == "system"@ {
        "系统节点"@
    } else if status == "ready"@ {
        "本地入口已配置"@
    } else if status == "completed"@ {
        "已完成"@
    } else if status == "skipped"@ {
        "已跳过"@
    } else if status == "cancelled"@ {
        "已中断"@
    } else if status == "error"@ {
        "执行失败"@
    } else if status == "needs_model"@ {
        "未配置模型"@
    } else if status == "invalid_model_path"@ {
        "路径不可用"@
    } else {
        "已记录"@
    }
}

/// The report wording of a step status.
pub fn status_label(status: &str) -> (r: &'static str)
    ensures
        r@ == status_label_spec(status@),
{
    if str_eq(status, "system") {
        "系统节点"
    } else if str_eq(status, "ready") {
        "本地入口已配置"
    } else if str_eq(status, "completed") {
        "已完成"
    } else if str_eq(status, "skipped") {
        "已跳过"
    } else if str_eq(status, "cancelled") {
        "已中断"
    } else if str_eq(status, "error") {
        "执行失败"
    } else if str_eq(status, "needs_model") {
        "未配置模型"
    } else if str_eq(status, "invalid_model_path") {
        "路径不可用"
    } else {
        "已记录"
    }
}

/// The report wording of a verdict.
pub open spec fn verdict_label_spec(verdict: Seq<char>) -> Seq<char> {
    if verdict == "pass"@ {
        "通过"@
    } else if verdict == "reject"@ {
        "不通过"@
    } else if verdict == "error"@ {
        "执行失败"@
    } else {
        "需要人工复审"@
    }
}

/// The report wording of a verdict.
pub fn verdict_label(verdict: &str) -> (r: &'static str)
    ensures
        r@ == verdict_label_spec(verdict@),
{
    if str_eq(verdict, "pass") {
        "通过"
    } else if str_eq(verdict, "reject") {
        "不通过"
    } else if str_eq(verdict, "error") {
        "执行失败"
    } else {
        "需要人工复审"
    }
}

/// The report wording of an asset kind.
pub open spec fn asset_kind_label_spec(kind: Seq<char>) -> Seq<char> {
    if kind == "directory"@ {
        "文件夹"@
    } else if kind == "note"@ {
        "文字说明"@
    } else {
        "文件"@
    }
}

/// The report wording of an asset kind.
pub fn asset_kind_label(kind: &str) -> (r: &'static str)
    ensures
        r@ == asset_kind_label_spec(kind@),
{
    if str_eq(kind, "directory") {
        "文件夹"
    } else if str_eq(kind, "note") {
        "文字说明"
    } else {
        "文件"
    }
}

/// The report wording of a module source.
pub open spec fn module_source_label_spec(source: Seq<char>) -> Seq<char> {
    if source == "system"@ {
        "流程系统节点"@
    } else if source == "preset"@ {
        "预置模块"@
    } else {
        "自定义模块"@
    }
}

/// The report wording of a module source.
pub fn module_source_label(source: &str) -> (r: &'static str)
    ensures
        r@ == module_source_label_spec(source@),
{
    if str_eq(source, "system") {
        "流程系统节点"
    } else if str_eq(source, "preset") {
        "预置模块"
    } else {
        "自定义模块"
    }
}

/// Some step has status `status`.
pub open spec fn some_status(steps: Seq<StepRun>, status: Seq<char>) -> bool {
    exists|i: int| 0 <= i < steps.len() && #[trigger] steps[i].status@ == status
}

/// Some step has verdict `verdict`.
pub open spec fn some_verdict(steps: Seq<StepRun>, verdict: Seq<char>) -> bool {
    exists|i: int| 0 <= i < steps.len() && #[trigger] steps[i].verdict@ == verdict
}

/// The verdict of a run from its steps: review when a step was cancelled,
/// else reject, error or review when any step has that verdict (in that
/// order of precedence), else pass.
pub open spec fn verdict_from_steps_spec(steps: Seq<StepRun>) -> Seq<char> {
    if some_status(steps, "cancelled"@) {
        "review"@
    } else if some_verdict(steps, "reject"@) {
        "reject"@
    } else if some_verdict(steps, "error"@) {
        "error"@
    } else if some_verdict(steps, "review"@) {
        "review"@
    } else {
        "pass"@
    }
}

/// Whether some step has status `status`.
fn any_status(steps: &Vec<StepRun>, status: &str) -> (r: bool)
    ensures
        r == some_status(steps@, status@),
{
    let mut i: usize = 0;
    while i < steps.len()
        invariant
            i <= steps.len(),
            forall|j: int| 0 <= j < i ==> #[trigger] steps@[j].status@ != status@,
        decreases steps.len() - i,
    {
        if str_eq(steps[i].status.as_str(), status) {
            return true;
        }
        i += 1;
    }
    false
}

/// Whether some step has verdict `verdict`.
fn any_verdict(steps: &Vec<StepRun>, verdict: &str) -> (r: bool)
    ensures
        r == some_verdict(steps@, verdict@),
{
    let mut i: usize = 0;
    while i < steps.len()
        invariant
            i <= steps.len(),
            forall|j: int| 0 <= j < i ==> #[trigger] steps@[j].verdict@ != verdict@,
        decreases steps.len() - i,
    {
        if str_eq(steps[i].verdict.as_str(), verdict) {
            return true;
        }
        i += 1;
    }
    false
}

/// The verdict of a run from its steps.
pub fn verdict_from_steps(steps: &Vec<StepRun>) -> (r: String)
    ensures
        r@ == verdict_from_steps_spec(steps@),
{
    if any_status(steps, "cancelled") {
        "review".to_owned()
    } else if any_verdict(steps, "reject") {
        "reject".to_owned()
    } else if any_verdict(steps, "error") {
        "error".to_owned()
    } else if any_verdict(steps, "review") {
        "review".to_owned()
    } else {
        "pass".to_owned()
    }
}

/// The verdict of a run that went through every step in order: reject,
/// error or review when any step has that verdict (in that order of
/// precedence), else pass.
pub open spec fn sequential_verdict_spec(steps: Seq<StepRun>) -> Seq<char> {
    if some_verdict(steps, "reject"@) {
        "reject"@
    } else if some_verdict(steps, "error"@) {
        "error"@
    } else if some_verdict(steps, "review"@) {
        "review"@
    } else {
        "pass"@
    }
}

/// The verdict of a run that went through every step in order.
pub fn sequential_verdict(steps: &Vec<StepRun>) -> (r: String)
    ensures
        r@ == sequential_verdict_spec(steps@),
{
    if any_verdict(steps, "reject") {
        "reject".to_owned()
    } else if any_verdict(steps, "error") {
        "error".to_owned()
    } else if any_verdict(steps, "review") {
        "review".to_owned()
    } else {
        "pass".to_owned()
    }
}

/// The input note as a run records it: trimmed, or a placeholder when blank.
pub open spec fn input_note_label_spec(note: Seq<char>) -> Seq<char> {
    if trim_spec(note).len() == 0 {
        "未填写输入说明"@
    } else {
        trim_spec(note)
    }
}

/// The input note as a run records it.
pub fn input_note_label(note: &str) -> (r: String)
    ensures
        r@ == input_note_label_spec(note@),
{
    let t = crate::strs::trim(note);
    if t.as_str().is_empty() {
        "未填写输入说明".to_owned()
    } else {
        t
    }
}

/// The exit code of the command line for a run: 0 when it passed, 2 when it
/// needs review or was rejected, 1 otherwise.
pub open spec fn exit_code_spec(verdict: Seq<char>) -> i32 {
    if verdict == "pass"@ {
        0
    } else if verdict == "review"@ || verdict == "reject"@ {
        2
    } else {
        1
    }
}

/// The exit code of the command line for a run.
pub fn cli_exit_code_for_run(run: &RunRecord) -> (r: i32)
    ensures
        r == exit_code_spec(run.verdict@),
{
    let v = run.verdict.as_str();
    if str_eq(v, "pass") {
        0
    } else if str_eq(v, "review") || str_eq(v, "reject") {
        2
    } else {
        1
    }
}

/// A progress event of a run with just a status and a message.
pub fn run_event(run_id: &str, node_id: Option<&str>, status: &str, message: &str) -> (r: RunProgressEvent)
    ensures
        r.run_id@ == run_id@,
        r.node_id is Some <==> node_id is Some,
        node_id matches Some(n) ==> r.node_id->0@ == n@,
        r.status@ == status@,
        r.progress_bits is None,
        r.message@ == message@,
        r.processed is None,
        r.total is None,
        r.step is None,
        r.run is None,
{
    RunProgressEvent {
        run_id: run_id.to_owned(),
        node_id: match node_id {
            Some(n) => Some(n.to_owned()),
            None => None,
        },
        status: status.to_owned(),
        progress_bits: None,
        message: message.to_owned(),
        processed: None,
        total: None,
        step: None,
        run: None,
    }
}

/// Whether a run has been asked to stop.
#[derive(Debug)]
pub struct RunControl {
    pub cancelled: bool,
}

impl RunControl {
    /// A control for a run that has not been asked to stop.
    pub fn new() -> (r: Self)
        ensures
            !r.cancelled,
    {
        RunControl { cancelled: false }
    }

    /// Asks the run to stop; a stopped run stays stopped.
    pub fn cancel(&mut self)
        ensures
            final(self).cancelled,
    {
        self.cancelled = true;
    }

    /// Whether the run has been asked to stop.
    pub fn is_cancelled(&self) -> (r: bool)
        ensures
            r == self.cancelled,
    {
        self.cancelled
    }
}

impl Default for RunControl {
    /// A fresh control has not been asked to stop.
    fn default() -> (r: Self)
        ensures
            !r.cancelled,
    {
        RunControl { cancelled: false }
    }
}

/// The note that comes with every performance figure.
pub fn performance_sampling_note() -> (r: String)
    ensures
        r@ == "约每 1 秒采样；CPU 和内存统计当前模块进程及其子进程；NVIDIA GPU 仅统计可读取到的进程显存。"@,
{
    "约每 1 秒采样；CPU 和内存统计当前模块进程及其子进程；NVIDIA GPU 仅统计可读取到的进程显存。".to_owned()
}

/// A trimmed stderr line that is a warning or an informational note.
pub open spec fn is_warning_text(t: Seq<char>) -> bool {
    ||| contains_seq(t, "UserWarning:"@)
    ||| "warnings.warn("@.is_prefix_of(t)
    ||| "WARNING:"@.is_prefix_of(t)
    ||| "INFO:"@.is_prefix_of(t)
    ||| "I0"@.is_prefix_of(t)
}

/// A trimmed stderr line that reports an error.
pub open spec fn is_error_text(t: Seq<char>) -> bool {
    ||| contains_seq(t, "Error"@)
    ||| contains_seq(t, "Exception"@)
    ||| contains_seq(t, "Traceback"@)
    ||| contains_seq(t, "ModuleNotFoundError"@)
    ||| contains_seq(t, "ImportError"@)
    ||| contains_seq(t, "RuntimeError"@)
}

/// Whether a stderr line is a warning or an informational note.
pub fn stderr_line_is_warning(line: &str) -> (r: bool)
    ensures
        r == is_warning_text(trim_spec(line@)),
{
    let t = crate::strs::trim(line);
    let t = t.as_str();
    contains_str(t, "UserWarning:") || starts_with(t, "warnings.warn(") || starts_with(t, "WARNING:")
        || starts_with(t, "INFO:") || starts_with(t, "I0")
}

/// Whether a stderr line reports an error.
pub fn stderr_line_is_error(line: &str) -> (r: bool)
    ensures
        r == is_error_text(trim_spec(line@)),
{
    let t = crate::strs::trim(line);
    let t = t.as_str();
    contains_str(t, "Error") || contains_str(t, "Exception") || contains_str(t, "Traceback") || contains_str(
        t,
        "ModuleNotFoundError",
    ) || contains_str(t, "ImportError") || contains_str(t, "RuntimeError")
}

/// A line that begins with whitespace.
pub open spec fn begins_indented(l: Seq<char>) -> bool {
    l.len() > 0 && is_ws(l[0])
}

/// Line `i` belongs to a warning: it is one, or it is an indented line right
/// after a line that belongs to a warning (the source line a warning echoes).
pub open spec fn warning_at(lines: Seq<Seq<char>>, i: int) -> bool
    decreases i,
{
    if i < 0 || i >= lines.len() {
        false
    } else {
        is_warning_text(trim_spec(lines[i])) || (i > 0 && begins_indented(lines[i]) && warning_at(lines, i - 1))
    }
}

/// The last of the first `k` lines that reports an error, trimmed.
pub open spec fn last_error_line(lines: Seq<Seq<char>>, k: int) -> Option<Seq<char>>
    decreases k,
{
    if k <= 0 {
        None
    } else if is_error_text(trim_spec(lines[k - 1])) {
        Some(trim_spec(lines[k - 1]))
    } else {
        last_error_line(lines, k - 1)
    }
}

/// The last of the first `k` lines that is neither blank nor part of a warning, trimmed.
pub open spec fn last_plain_line(lines: Seq<Seq<char>>, k: int) -> Option<Seq<char>>
    decreases k,
{
    if k <= 0 {
        None
    } else if trim_spec(lines[k - 1]).len() > 0 && !warning_at(lines, k - 1) {
        Some(trim_spec(lines[k - 1]))
    } else {
        last_plain_line(lines, k - 1)
    }
}

/// What stderr says went wrong: its last error line; else its last line that
/// is not part of a warning; else nothing.
pub open spec fn failure_detail_spec(stderr: Seq<char>) -> Seq<char> {
    let lines = newline_pieces(stderr);
    match last_error_line(lines, lines.len() as int) {
        Some(l) => l,
        None => match last_plain_line(lines, lines.len() as int) {
            Some(l) => l,
            None => Seq::empty(),
        },
    }
}

/// What stderr says went wrong.
pub fn stderr_failure_detail(stderr: &str) -> (r: String)
    ensures
        r@ == failure_detail_spec(stderr@),
{
    let lines = lines_of(stderr);
    let ghost lv = char_vecs_view(lines@);
    let n = lines.len();
    let mut trimmed: Vec<Vec<char>> = Vec::new();
    let mut warn: Vec<bool> = Vec::new();
    let mut i: usize = 0;
    while i < n
        invariant
            lv == char_vecs_view(lines@),
            n == lv.len(),
            i <= n,
            trimmed@.len() == i,
            warn@.len() == i,
            forall|j: int| 0 <= j < i ==> #[trigger] trimmed@[j]@ == trim_spec(lv[j]),
            forall|j: int| 0 <= j < i ==> #[trigger] warn@[j] == warning_at(lv, j),
        decreases n - i,
    {
        assert(lines@[i as int]@ == lv[i as int]);
        let t = trim_chars(&lines[i]);
        let raw = string_from_chars(&lines[i]);
        let w_text = stderr_line_is_warning(raw.as_str());
        let indented = lines[i].len() > 0 && crate::strs::char_is_whitespace(lines[i][0]);
        let w = w_text || (i > 0 && indented && warn[i - 1]);
        trimmed.push(t);
        warn.push(w);
        i += 1;
    }
    let mut k: usize = n;
    while k > 0
        invariant
            lv == char_vecs_view(lines@),
            lv == newline_pieces(stderr@),
            n == lv.len(),
            k <= n,
            trimmed@.len() == n,
            forall|j: int| 0 <= j < n ==> #[trigger] trimmed@[j]@ == trim_spec(lv[j]),
            last_error_line(lv, n as int) == last_error_line(lv, k as int),
        decreases k,
    {
        assert(lines@[k - 1]@ == lv[k - 1]);
        let raw = string_from_chars(&lines[k - 1]);
        if stderr_line_is_error(raw.as_str()) {
            assert(last_error_line(lv, k as int) == Some(trim_spec(lv[k - 1])));
            return string_from_chars(&trimmed[k - 1]);
        }
        k -= 1;
    }
    let mut k: usize = n;
    while k > 0
        invariant
            lv == char_vecs_view(lines@),
            lv == newline_pieces(stderr@),
            n == lv.len(),
            k <= n,
            trimmed@.len() == n,
            warn@.len() == n,
            forall|j: int| 0 <= j < n ==> #[trigger] trimmed@[j]@ == trim_spec(lv[j]),
            forall|j: int| 0 <= j < n ==> #[trigger] warn@[j] == warning_at(lv, j),
            last_error_line(lv, n as int) is None,
            last_plain_line(lv, n as int) == last_plain_line(lv, k as int),
        decreases k,
    {
        if trimmed[k - 1].len() > 0 && !warn[k - 1] {
            assert(last_plain_line(lv, k as int) == Some(trim_spec(lv[k - 1])));
            return string_from_chars(&trimmed[k - 1]);
        }
        k -= 1;
    }
    String::new()
}

/// How a failed module step is summarised: what stderr says went wrong when
/// it says anything; otherwise that no result file was written, when none was;
/// otherwise that the module failed.
pub open spec fn module_failure_message_spec(module_name: Seq<char>, stderr: Seq<char>, missing_output: bool) -> Seq<char> {
    let detail = failure_detail_spec(stderr);
    if detail.len() > 0 {
        "模块 "@ + module_name + " 执行失败："@ + detail
    } else if missing_output {
        "模块 "@ + module_name + " 没有生成结果文件，进程可能异常退出。"@
    } else {
        "模块 "@ + module_name + " 执行失败。"@
    }
}

/// How a failed module step is summarised.
pub fn module_failure_message(module_name: &str, stderr: &str, missing_output: bool) -> (r: String)
    ensures
        r@ == module_failure_message_spec(module_name@, stderr@, missing_output),
{
    let detail = stderr_failure_detail(stderr);
    if !detail.as_str().is_empty() {
        let mut m = concat3("模块 ", module_name, " 执行失败：");
        m.append(detail.as_str());
        m
    } else if missing_output {
        concat3("模块 ", module_name, " 没有生成结果文件，进程可能异常退出。")
    } else {
        concat3("模块 ", module_name, " 执行失败。")
    }
}

/// The bit pattern of the `f64` value 1.0, the progress of a finished step.
pub const PROGRESS_DONE_BITS: u64 = 0x3ff0000000000000;

/// `step` has exactly these fields, no performance figures, and the given counts.
pub open spec fn step_is(
    step: StepRun,
    step_id: Seq<char>,
    module_id: Seq<char>,
    module_name: Seq<char>,
    label: Seq<char>,
    status: Seq<char>,
    verdict: Seq<char>,
    message: Seq<char>,
    execution_group: usize,
    progress_bits: u64,
    counts: (usize, usize, usize),
    report_section: Seq<char>,
) -> bool {
    &&& step.step_id@ == step_id
    &&& step.module_id@ == module_id
    &&& step.module_name@ == module_name
    &&& step.label@ == label
    &&& step.status@ == status
    &&& step.verdict@ == verdict
    &&& step.message@ == message
    &&& step.execution_group == execution_group
    &&& step.progress_bits == progress_bits
    &&& step.processed_files == counts.0
    &&& step.matched_files == counts.1
    &&& step.artifact_count == counts.2
    &&& step.performance is None
    &&& step.report_section@ == report_section
}

/// The report section of a step that ran no module process.
pub open spec fn synthetic_section(
    label: Seq<char>,
    module_name: Seq<char>,
    source: Seq<char>,
    verdict: Seq<char>,
    status: Seq<char>,
    message: Seq<char>,
) -> Seq<char> {
    "### "@ + label + "\n\n- 模块："@ + module_name + "\n- 模块来源："@ + module_source_label_spec(source)
        + "\n- 结论："@ + verdict_label_spec(verdict) + "\n- 状态："@ + status_label_spec(status) + "\n- 说明："@
        + message + "\n"@
}

/// A step result written without running a module process (a data step, or
/// a step a stopped run never started).
pub fn synthetic_step_result(
    module: &ModuleInfo,
    node: &FlowNode,
    execution_group: usize,
    status: &str,
    verdict: &str,
    message: &str,
    progress_bits: u64,
) -> (r: StepRun)
    ensures
        step_is(
            r,
            node.id@,
            module.id@,
            module.name@,
            node.label@,
            status@,
            verdict@,
            message@,
            execution_group,
            progress_bits,
            (0, 0, 0),
            synthetic_section(node.label@, module.name@, module.source@, verdict@, status@, message@),
        ),
{
    let mut section = concat3("### ", node.label.as_str(), "\n\n- 模块：");
    section.append(module.name.as_str());
    section.append("\n- 模块来源：");
    section.append(module_source_label(module.source.as_str()));
    section.append("\n- 结论：");
    section.append(verdict_label(verdict));
    section.append("\n- 状态：");
    section.append(status_label(status));
    section.append("\n- 说明：");
    section.append(message);
    section.append("\n");
    assert(section@ =~= synthetic_section(node.label@, module.name@, module.source@, verdict@, status@, message@));
    StepRun {
        step_id: node.id.clone(),
        module_id: module.id.clone(),
        module_name: module.name.clone(),
        label: node.label.clone(),
        status: status.to_owned(),
        verdict: verdict.to_owned(),
        message: message.to_owned(),
        execution_group,
        progress_bits,
        processed_files: 0,
        matched_files: 0,
        artifact_count: 0,
        performance: None,
        report_section: section,
    }
}

/// The report section written for a module result that brings none.
pub open spec fn output_section(
    label: Seq<char>,
    module_name: Seq<char>,
    source: Seq<char>,
    verdict: Seq<char>,
    status: Seq<char>,
    processed: usize,
    matched: usize,
    message: Seq<char>,
) -> Seq<char> {
    "### "@ + label + "\n\n- 模块："@ + module_name + "\n- 模块来源："@ + module_source_label_spec(source)
        + "\n- 结论："@ + verdict_label_spec(verdict) + "\n- 状态："@ + status_label_spec(status) + "\n- 处理文件："@
        + decimal(processed as nat) + "\n- 命中文件："@ + decimal(matched as nat) + "\n- 说明："@ + message + "\n"@
}

/// The step result of a module process's result: its fields taken over, and
/// its report section, or one written from its fields when it brings a blank one.
pub fn step_from_module_output(module: &ModuleInfo, node: &FlowNode, execution_group: usize, output: ModuleStepOutput) -> (r: StepRun)
    ensures
        step_is(
            r,
            node.id@,
            module.id@,
            module.name@,
            node.label@,
            output.status@,
            output.verdict@,
            output.message@,
            execution_group,
            PROGRESS_DONE_BITS,
            (output.processed_files, output.matched_files, output.artifact_count),
            if trim_spec(output.report_section@).len() == 0 {
                output_section(
                    node.label@,
                    module.name@,
                    module.source@,
                    output.verdict@,
                    output.status@,
                    output.processed_files,
                    output.matched_files,
                    output.message@,
                )
            } else {
                output.report_section@
            },
        ),
{
    let blank = crate::strs::trim(output.report_section.as_str()).as_str().is_empty();
    let section = if blank {
        let mut s = concat3("### ", node.label.as_str(), "\n\n- 模块：");
        s.append(module.name.as_str());
        s.append("\n- 模块来源：");
        s.append(module_source_label(module.source.as_str()));
        s.append("\n- 结论：");
        s.append(verdict_label(output.verdict.as_str()));
        s.append("\n- 状态：");
        s.append(status_label(output.status.as_str()));
        s.append("\n- 处理文件：");
        s.append(usize_to_string(output.processed_files).as_str());
        s.append("\n- 命中文件：");
        s.append(usize_to_string(output.matched_files).as_str());
        s.append("\n- 说明：");
        s.append(output.message.as_str());
        s.append("\n");
        assert(s@ =~= output_section(
            node.label@,
            module.name@,
            module.source@,
            output.verdict@,
            output.status@,
            output.processed_files,
            output.matched_files,
            output.message@,
        ));
        s
    } else {
        output.report_section
    };
    StepRun {
        step_id: node.id.clone(),
        module_id: module.id.clone(),
        module_name: module.name.clone(),
        label: node.label.clone(),
        status: output.status,
        verdict: output.verdict,
        message: output.message,
        execution_group,
        progress_bits: PROGRESS_DONE_BITS,
        processed_files: output.processed_files,
        matched_files: output.matched_files,
        artifact_count: output.artifact_count,
        performance: None,
        report_section: section,
    }
}

/// The message of a system step.
pub open spec fn system_step_message(module_id: Seq<char>) -> Seq<char> {
    if module_id == START_MODULE_ID@ {
        "流程开始，已接收本次审核素材。"@
    } else {
        "流程结束，审核结果将汇总到 Markdown 报告。"@
    }
}

/// Status, verdict and message of a module step that only checks its model
/// path: no path configured; a path that does not exist (`exists` false); or
/// a path that does.
pub open spec fn model_check_outcome(model_label: Seq<char>, path: Option<Seq<char>>, exists: bool) -> (Seq<char>, Seq<char>, Seq<char>) {
    match path {
        None => ("needs_model"@, "review"@, model_label + " 未配置，本轮没有执行真实识别，也没有下载模型。"@),
        Some(p) => if !exists {
            ("invalid_model_path"@, "review"@, "配置的本地路径不存在："@ + p + "。本轮没有执行真实识别。"@)
        } else {
            ("ready"@, "review"@, "已收到模块参数，本地入口："@ + p + "。首版只完成入口检查，尚未执行真实识别。"@)
        },
    }
}

/// The step result of a node that only checks its module: a system step
/// passes; another step reports on its model path, which exists on disk
/// exactly when `exists` (asked only when a path is configured).
pub open spec fn module_step_spec(module: ModuleInfo, node: NodeView, execution_group: usize, exists: bool, step: StepRun) -> bool {
    if module.source@ == "system"@ {
        let message = system_step_message(module.id@);
        step_is(
            step,
            node.id,
            module.id@,
            module.name@,
            node.label,
            "system"@,
            "pass"@,
            message,
            execution_group,
            PROGRESS_DONE_BITS,
            (0, 0, 0),
            "### "@ + node.label + "\n\n- 模块："@ + module.name@ + "\n- 模块来源：流程系统节点\n- 结论：通过\n- 状态：系统节点\n- 说明："@
                + message + "\n"@,
        )
    } else {
        let o = model_check_outcome(module.model_label@, model_path_from_config_spec(node.config), exists);
        step_is(
            step,
            node.id,
            module.id@,
            module.name@,
            node.label,
            o.0,
            o.1,
            o.2,
            execution_group,
            PROGRESS_DONE_BITS,
            (0, 0, 0),
            "### "@ + node.label + "\n\n- 模块："@ + module.name@ + "\n- 模块来源：自定义模块\n- 结论：需要人工复审\n- 状态："@
                + status_label_spec(o.0) + "\n- 说明："@ + o.2 + "\n"@,
        )
    }
}

/// The step result of a node that only checks its module, given whether its
/// configured model path exists on disk.
pub fn module_step_result_for(module: &ModuleInfo, node: &FlowNode, execution_group: usize, model_path_exists: bool) -> (r: StepRun)
    ensures
        module_step_spec(*module, node@, execution_group, model_path_exists, r),
{
    if str_eq(module.source.as_str(), "system") {
        let message = if str_eq(module.id.as_str(), START_MODULE_ID) {
            "流程开始，已接收本次审核素材。"
        } else {
            "流程结束，审核结果将汇总到 Markdown 报告。"
        };
        let mut section = concat3("### ", node.label.as_str(), "\n\n- 模块：");
        section.append(module.name.as_str());
        section.append("\n- 模块来源：流程系统节点\n- 结论：通过\n- 状态：系统节点\n- 说明：");
        section.append(message);
        section.append("\n");
        assert(section@ =~= "### "@ + node.label@ + "\n\n- 模块："@ + module.name@
            + "\n- 模块来源：流程系统节点\n- 结论：通过\n- 状态：系统节点\n- 说明："@ + system_step_message(module.id@) + "\n"@);
        return StepRun {
            step_id: node.id.clone(),
            module_id: module.id.clone(),
            module_name: module.name.clone(),
            label: node.label.clone(),
            status: "system".to_owned(),
            verdict: "pass".to_owned(),
            message: message.to_owned(),
            execution_group,
            progress_bits: PROGRESS_DONE_BITS,
            processed_files: 0,
            matched_files: 0,
            artifact_count: 0,
            performance: None,
            report_section: section,
        };
    }
    let (status, message) = match model_path_from_config(&node.config) {
        None => ("needs_model", concat2(module.model_label.as_str(), " 未配置，本轮没有执行真实识别，也没有下载模型。")),
        Some(path) => if !model_path_exists {
            ("invalid_model_path", concat3("配置的本地路径不存在：", path.as_str(), "。本轮没有执行真实识别。"))
        } else {
            ("ready", concat3("已收到模块参数，本地入口：", path.as_str(), "。首版只完成入口检查，尚未执行真实识别。"))
        },
    };
    let mut section = concat3("### ", node.label.as_str(), "\n\n- 模块：");
    section.append(module.name.as_str());
    section.append("\n- 模块来源：自定义模块\n- 结论：需要人工复审\n- 状态：");
    section.append(status_label(status));
    section.append("\n- 说明：");
    section.append(message.as_str());
    section.append("\n");
    let ghost o = model_check_outcome(module.model_label@, model_path_from_config_spec(node@.config), model_path_exists);
    assert(status@ == o.0 && message@ == o.2);
    assert(section@ =~= "### "@ + node.label@ + "\n\n- 模块："@ + module.name@
        + "\n- 模块来源：自定义模块\n- 结论：需要人工复审\n- 状态："@ + status_label_spec(o.0) + "\n- 说明："@ + o.2 + "\n"@);
    StepRun {
        step_id: node.id.clone(),
        module_id: module.id.clone(),
        module_name: module.name.clone(),
        label: node.label.clone(),
        status: status.to_owned(),
        verdict: "review".to_owned(),
        message,
        execution_group,
        progress_bits: PROGRESS_DONE_BITS,
        processed_files: 0,
        matched_files: 0,
        artifact_count: 0,
        performance: None,
        report_section: section,
    }
}

/// The sort keys of run summaries: newer runs first.
pub open spec fn run_keys(runs: Seq<RunSummary>) -> Seq<(u128, Seq<char>)> {
    runs.map_values(|r: RunSummary| ((u64::MAX - r.created_at) as u128, Seq::<char>::empty()))
}

/// The run history as the list shows it: newest first, runs of the same
/// time keeping their order.
pub fn sort_run_summaries(runs: Vec<RunSummary>) -> (r: Vec<RunSummary>)
    ensures
        crate::order::sorted_by_rank(runs@, run_keys(runs@), r@),
{
    let mut keys: Vec<(u128, String)> = Vec::new();
    let mut i: usize = 0;
    while i < runs.len()
        invariant
            i <= runs@.len(),
            keys@.len() == i,
            forall|k: int| 0 <= k < i ==> #[trigger] crate::order::keys_view(keys@)[k] == run_keys(runs@)[k],
        decreases runs@.len() - i,
    {
        let rank: u128 = (u64::MAX - runs[i].created_at) as u128;
        let empty = String::new();
        assert(empty@ =~= Seq::<char>::empty());
        let ghost before = crate::order::keys_view(keys@);
        keys.push((rank, empty));
        assert(crate::order::keys_view(keys@) =~= before.push(run_keys(runs@)[i as int]));
        i += 1;
    }
    assert(crate::order::keys_view(keys@) =~= run_keys(runs@));
    crate::order::sort_by_rank(runs, keys)
}


/// The report names each verdict by its own word: only a passing verdict reads
/// 通过, and pass, reject, error and review read four different words.
pub proof fn lemma_verdict_labels_name_the_verdict(v: Seq<char>)
    ensures
        verdict_label_spec(v) == "通过"@ ==> v == "pass"@,
        verdict_label_spec("pass"@) != verdict_label_spec("reject"@),
        verdict_label_spec("pass"@) != verdict_label_spec("error"@),
        verdict_label_spec("pass"@) != verdict_label_spec("review"@),
        verdict_label_spec("reject"@) != verdict_label_spec("error"@),
        verdict_label_spec("reject"@) != verdict_label_spec("review"@),
        verdict_label_spec("error"@) != verdict_label_spec("review"@),
{
    reveal_strlit("pass");
    reveal_strlit("reject");
    reveal_strlit("error");
    reveal_strlit("review");
    reveal_strlit("通过");
    reveal_strlit("不通过");
    reveal_strlit("执行失败");
    reveal_strlit("需要人工复审");
    lemma_verdict_words_differ();
    assert("通过"@.len() == 2);
    assert("不通过"@.len() == 3);
    assert("执行失败"@.len() == 4);
    assert("需要人工复审"@.len() == 6);
}

/// The literal verdict words differ from one another.
proof fn lemma_verdict_words_differ()
    ensures
        "pass"@ != "reject"@,
        "pass"@ != "error"@,
        "pass"@ != "review"@,
        "reject"@ != "error"@,
        "reject"@ != "review"@,
        "error"@ != "review"@,
{
    reveal_strlit("pass");
    reveal_strlit("reject");
    reveal_strlit("error");
    reveal_strlit("review");
    assert("pass"@[0] != "reject"@[0]);
    assert("pass"@[0] != "error"@[0]);
    assert("pass"@[0] != "review"@[0]);
    assert("reject"@[0] != "error"@[0]);
    assert("reject"@[2] != "review"@[2]);
    assert("error"@[0] != "review"@[0]);
}

/// What a live run's verdict says of its steps: a run with an interrupted
/// step needs review; otherwise one rejected step rejects the run, and a failed
/// step (without a rejected one) makes it an error; a run passes only when no
/// step was interrupted, rejected, failed or sent to review.
pub proof fn lemma_live_verdict_follows_steps(steps: Seq<StepRun>)
    ensures
        some_status(steps, "cancelled"@) ==> verdict_from_steps_spec(steps) == "review"@,
        !some_status(steps, "cancelled"@) && some_verdict(steps, "reject"@) ==> verdict_from_steps_spec(steps)
            == "reject"@,
        !some_status(steps, "cancelled"@) && !some_verdict(steps, "reject"@) && some_verdict(steps, "error"@)
            ==> verdict_from_steps_spec(steps) == "error"@,
        verdict_from_steps_spec(steps) == "pass"@ ==> forall|i: int|
            0 <= i < steps.len() ==> #[trigger] steps[i].status@ != "cancelled"@ && steps[i].verdict@ != "reject"@
                && steps[i].verdict@ != "error"@ && steps[i].verdict@ != "review"@,
{
    lemma_verdict_words_differ();
}

/// What a completed run's verdict says of its steps: one rejected step rejects
/// the run; a failed step (without a rejected one) makes it an error; a run
/// passes only when no step was rejected, failed or sent to review.
pub proof fn lemma_sequential_verdict_follows_steps(steps: Seq<StepRun>)
    ensures
        some_verdict(steps, "reject"@) ==> sequential_verdict_spec(steps) == "reject"@,
        !some_verdict(steps, "reject"@) && some_verdict(steps, "error"@) ==> sequential_verdict_spec(steps)
            == "error"@,
        sequential_verdict_spec(steps) == "pass"@ ==> forall|i: int|
            0 <= i < steps.len() ==> #[trigger] steps[i].verdict@ != "reject"@ && steps[i].verdict@ != "error"@
                && steps[i].verdict@ != "review"@,
{
    lemma_verdict_words_differ();
}

/// The command line exits 0 only for a passing run, and 2 for a run that was
/// rejected or needs review.
pub proof fn lemma_exit_code_follows_verdict(v: Seq<char>)
    ensures
        exit_code_spec(v) == 0 <==> v == "pass"@,
        v == "reject"@ || v == "review"@ ==> exit_code_spec(v) == 2,
{
    lemma_verdict_words_differ();
}

} // verus!
