//! The Markdown report of a run, and the JSON a finished step hands to the
//! steps after it.
use crate::json::{JsonNumber, JsonValue, JsonView};
use crate::run::{
    asset_kind_label, asset_kind_label_spec, status_label, status_label_spec, verdict_label,
    verdict_label_spec, AuditAsset, RunRecord, StepPerformance, StepRun,
};
use crate::strs::{decimal, trim, trim_spec, usize_to_string};
use crate::text::{report_file_link, report_file_link_spec, table_cell, table_cell_spec};
use vstd::prelude::*;

verus! {

/// The table rows of the first `k` assets.
pub open spec fn asset_rows(assets: Seq<AuditAsset>, k: int) -> Seq<char>
    decreases k,
{
    if k <= 0 {
        Seq::empty()
    } else {
        asset_rows(assets, k - 1) + asset_row(assets[k - 1])
    }
}

/// The table row of an asset.
pub open spec fn asset_row(a: AuditAsset) -> Seq<char> {
    "| "@ + asset_kind_label_spec(a.kind@) + " | "@ + table_cell_spec(a.name@) + " | "@ + report_file_link_spec(
        a.path@,
        a.path@,
    ) + " |\n"@
}

/// The result table rows of the first `k` steps.
pub open spec fn step_rows(steps: Seq<StepRun>, k: int) -> Seq<char>
    decreases k,
{
    if k <= 0 {
        Seq::empty()
    } else {
        step_rows(steps, k - 1) + step_row(steps[k - 1])
    }
}

/// The result table row of a step.
pub open spec fn step_row(s: StepRun) -> Seq<char> {
    "| "@ + table_cell_spec(s.label@) + " | "@ + table_cell_spec(s.module_name@) + " | "@ + status_label_spec(
        s.status@,
    ) + " | "@ + verdict_label_spec(s.verdict@) + " | "@ + decimal(s.processed_files as nat) + " | "@ + decimal(
        s.matched_files as nat,
    ) + " | "@ + table_cell_spec(s.message@) + " |\n"@
}

/// The report sections of the first `k` steps, each followed by a blank line.
pub open spec fn step_sections(steps: Seq<StepRun>, k: int) -> Seq<char>
    decreases k,
{
    if k <= 0 {
        Seq::empty()
    } else {
        step_sections(steps, k - 1) + steps[k - 1].report_section@ + "\n"@
    }
}

/// `text` when `cond` holds, nothing otherwise.
pub open spec fn opt_text(cond: bool, text: Seq<char>) -> Seq<char> {
    if cond {
        text
    } else {
        Seq::empty()
    }
}

/// The opening lines of the summary: title, verdict and run id.
pub open spec fn summary_head(run: RunRecord) -> Seq<char> {
    "# UGC 审核报告\n\n## 总结\n\n- 最终结论："@ + verdict_label_spec(run.verdict@) + "\n- 运行编号："@ + run.id@ + "\n"@
}

/// The task line of the summary, when the run has a task name.
pub open spec fn summary_task(run: RunRecord) -> Seq<char> {
    opt_text(trim_spec(run.task_name@).len() > 0, "- 任务名称："@ + run.task_name@ + "\n"@)
}

/// The flow, input and asset count lines of the summary.
pub open spec fn summary_middle(run: RunRecord) -> Seq<char> {
    "- 流程："@ + run.flow_name@ + "\n- 输入："@ + run.input_note@ + "\n- 素材数量："@ + decimal(run.assets@.len())
        + "\n"@
}

/// The resource root line of the summary, when the run has one.
pub open spec fn summary_root(run: RunRecord) -> Seq<char> {
    opt_text(run.resource_root@.len() > 0, "- 资源根目录："@ + run.resource_root@ + "\n"@)
}

/// The summary part of the report.
pub open spec fn summary_part(run: RunRecord) -> Seq<char> {
    summary_head(run) + summary_task(run) + summary_middle(run) + summary_root(run) + "- 模型来源：本地模型目录\n\n"@
}

/// The input part of the report.
pub open spec fn assets_part(run: RunRecord) -> Seq<char> {
    "## 输入素材\n\n"@ + if run.assets@.len() == 0 {
        "- 未选择本地素材。\n- 说明："@ + run.input_note@ + "\n\n"@
    } else {
        "| 类型 | 名称 | 路径 |\n| --- | --- | --- |\n"@ + asset_rows(run.assets@, run.assets@.len() as int) + "\n"@
    }
}

/// The result table of the report.
pub open spec fn steps_part(run: RunRecord) -> Seq<char> {
    "## 流程结果\n\n| 步骤 | 模块 | 状态 | 结论 | 处理文件 | 命中文件 | 说明 |\n| --- | --- | --- | --- | --- | --- | --- |\n"@
        + step_rows(run.steps@, run.steps@.len() as int) + "\n"@
}

/// The artifact folder line, when the run has one.
pub open spec fn artifact_line(run: RunRecord) -> Seq<char> {
    opt_text(
        trim_spec(run.artifact_dir@).len() > 0,
        "- 产物目录："@ + report_file_link_spec(run.artifact_dir@, run.artifact_dir@) + "\n"@,
    )
}

/// The resource root line of the local files, when the run has one.
pub open spec fn root_line(run: RunRecord) -> Seq<char> {
    opt_text(
        run.resource_root@.len() > 0,
        "- 资源根目录："@ + report_file_link_spec(run.resource_root@, run.resource_root@) + "\n"@,
    )
}

/// The local files section.
pub open spec fn local_files(run: RunRecord) -> Seq<char> {
    "## 本地文件\n\n- 运行目录："@ + report_file_link_spec(run.run_dir@, run.run_dir@) + "\n"@ + artifact_line(run)
        + root_line(run) + "- 报告文件："@ + report_file_link_spec(run.report_path@, run.report_path@) + "\n"@
}

/// The closing part of the report: the step sections and the local files.
pub open spec fn files_part(run: RunRecord) -> Seq<char> {
    "\n## 模块结论\n\n"@ + step_sections(run.steps@, run.steps@.len() as int) + local_files(run)
}

/// The report of a run, with its performance section as given.
pub open spec fn report_spec(run: RunRecord, performance_section: Seq<char>) -> Seq<char> {
    summary_part(run) + assets_part(run) + steps_part(run) + performance_section + files_part(run)
}

/// The table row of an asset.
fn asset_row_text(a: &AuditAsset) -> (r: String)
    ensures
        r@ == asset_row(*a),
{
    let mut row = String::new();
    row.append("| ");
    row.append(asset_kind_label(a.kind.as_str()));
    row.append(" | ");
    row.append(table_cell(a.name.as_str()).as_str());
    row.append(" | ");
    row.append(report_file_link(a.path.as_str(), a.path.as_str()).as_str());
    row.append(" |\n");
    assert(row@ =~= asset_row(*a));
    row
}

/// The result table row of a step.
fn step_row_text(s: &StepRun) -> (r: String)
    ensures
        r@ == step_row(*s),
{
    let mut row = String::new();
    row.append("| ");
    row.append(table_cell(s.label.as_str()).as_str());
    row.append(" | ");
    row.append(table_cell(s.module_name.as_str()).as_str());
    row.append(" | ");
    row.append(status_label(s.status.as_str()));
    row.append(" | ");
    row.append(verdict_label(s.verdict.as_str()));
    row.append(" | ");
    row.append(usize_to_string(s.processed_files).as_str());
    row.append(" | ");
    row.append(usize_to_string(s.matched_files).as_str());
    row.append(" | ");
    row.append(table_cell(s.message.as_str()).as_str());
    row.append(" |\n");
    assert(row@ =~= step_row(*s));
    row
}

/// The opening lines of the summary.
fn summary_head_text(run: &RunRecord) -> (r: String)
    ensures
        r@ == summary_head(*run),
{
    let mut t = String::new();
    t.append("# UGC 审核报告\n\n## 总结\n\n- 最终结论：");
    t.append(verdict_label(run.verdict.as_str()));
    t.append("\n- 运行编号：");
    t.append(run.id.as_str());
    t.append("\n");
    assert(t@ =~= summary_head(*run));
    t
}

/// The task line of the summary.
fn summary_task_text(run: &RunRecord) -> (r: String)
    ensures
        r@ == summary_task(*run),
{
    let mut t = String::new();
    if !trim(run.task_name.as_str()).as_str().is_empty() {
        t.append("- 任务名称：");
        t.append(run.task_name.as_str());
        t.append("\n");
    }
    assert(t@ =~= summary_task(*run));
    t
}

/// The flow, input and asset count lines of the summary.
fn summary_middle_text(run: &RunRecord) -> (r: String)
    ensures
        r@ == summary_middle(*run),
{
    let mut t = String::new();
    t.append("- 流程：");
    t.append(run.flow_name.as_str());
    t.append("\n- 输入：");
    t.append(run.input_note.as_str());
    t.append("\n- 素材数量：");
    t.append(usize_to_string(run.assets.len()).as_str());
    t.append("\n");
    assert(t@ =~= summary_middle(*run));
    t
}

/// The resource root line of the summary.
fn summary_root_text(run: &RunRecord) -> (r: String)
    ensures
        r@ == summary_root(*run),
{
    let mut t = String::new();
    if !run.resource_root.as_str().is_empty() {
        t.append("- 资源根目录：");
        t.append(run.resource_root.as_str());
        t.append("\n");
    }
    assert(t@ =~= summary_root(*run));
    t
}

/// Appends the summary part.
fn push_summary(report: &mut String, run: &RunRecord)
    ensures
        final(report)@ == old(report)@ + summary_part(*run),
{
    let ghost r0 = report@;
    let a = summary_head_text(run);
    let b = summary_task_text(run);
    let c = summary_middle_text(run);
    let d = summary_root_text(run);
    report.append(a.as_str());
    report.append(b.as_str());
    report.append(c.as_str());
    report.append(d.as_str());
    report.append("- 模型来源：本地模型目录\n\n");
    assert(report@ =~= r0 + summary_part(*run));
}

/// Appends the input part.
fn push_assets(report: &mut String, run: &RunRecord)
    ensures
        final(report)@ == old(report)@ + assets_part(*run),
{
    let ghost r0 = report@;
    report.append("## 输入素材\n\n");
    if run.assets.len() == 0 {
        report.append("- 未选择本地素材。\n- 说明：");
        report.append(run.input_note.as_str());
        report.append("\n\n");
    } else {
        report.append("| 类型 | 名称 | 路径 |\n| --- | --- | --- |\n");
        let ghost r1 = report@;
        let mut i: usize = 0;
        while i < run.assets.len()
            invariant
                i <= run.assets@.len(),
                report@ == r1 + asset_rows(run.assets@, i as int),
            decreases run.assets@.len() - i,
        {
            let row = asset_row_text(&run.assets[i]);
            let ghost prev = report@;
            report.append(row.as_str());
            proof {
                vstd::seq_lib::lemma_concat_associative(r1, asset_rows(run.assets@, i as int), row@);
            }
            i += 1;
            assert(asset_rows(run.assets@, i as int) == asset_rows(run.assets@, i - 1) + asset_row(run.assets@[i - 1]));
        }
        report.append("\n");
    }
    assert(report@ =~= r0 + assets_part(*run));
}

/// Appends the result table.
fn push_steps(report: &mut String, run: &RunRecord)
    ensures
        final(report)@ == old(report)@ + steps_part(*run),
{
    let ghost r0 = report@;
    report.append(
        "## 流程结果\n\n| 步骤 | 模块 | 状态 | 结论 | 处理文件 | 命中文件 | 说明 |\n| --- | --- | --- | --- | --- | --- | --- |\n",
    );
    let ghost r1 = report@;
    let mut i: usize = 0;
    while i < run.steps.len()
        invariant
            i <= run.steps@.len(),
            report@ == r1 + step_rows(run.steps@, i as int),
        decreases run.steps@.len() - i,
    {
        let row = step_row_text(&run.steps[i]);
        report.append(row.as_str());
        proof {
            vstd::seq_lib::lemma_concat_associative(r1, step_rows(run.steps@, i as int), row@);
        }
        i += 1;
        assert(step_rows(run.steps@, i as int) == step_rows(run.steps@, i - 1) + step_row(run.steps@[i - 1]));
    }
    report.append("\n");
    assert(report@ =~= r0 + steps_part(*run));
}

/// The artifact folder line.
fn artifact_line_text(run: &RunRecord) -> (r: String)
    ensures
        r@ == artifact_line(*run),
{
    let mut t = String::new();
    if !trim(run.artifact_dir.as_str()).as_str().is_empty() {
        let link = report_file_link(run.artifact_dir.as_str(), run.artifact_dir.as_str());
        t.append("- 产物目录：");
        t.append(link.as_str());
        t.append("\n");
    }
    assert(t@ =~= artifact_line(*run));
    t
}

/// The resource root line of the local files.
fn root_line_text(run: &RunRecord) -> (r: String)
    ensures
        r@ == root_line(*run),
{
    let mut t = String::new();
    if !run.resource_root.as_str().is_empty() {
        let link = report_file_link(run.resource_root.as_str(), run.resource_root.as_str());
        t.append("- 资源根目录：");
        t.append(link.as_str());
        t.append("\n");
    }
    assert(t@ =~= root_line(*run));
    t
}

/// The local files section.
fn local_files_text(run: &RunRecord) -> (r: String)
    ensures
        r@ == local_files(*run),
{
    let run_link = report_file_link(run.run_dir.as_str(), run.run_dir.as_str());
    let art = artifact_line_text(run);
    let root = root_line_text(run);
    let report_link = report_file_link(run.report_path.as_str(), run.report_path.as_str());
    let mut t = String::new();
    t.append("## 本地文件\n\n- 运行目录：");
    t.append(run_link.as_str());
    t.append("\n");
    t.append(art.as_str());
    t.append(root.as_str());
    t.append("- 报告文件：");
    t.append(report_link.as_str());
    t.append("\n");
    assert(t@ =~= local_files(*run));
    t
}

/// Appends the closing part.
fn push_files(report: &mut String, run: &RunRecord)
    ensures
        final(report)@ == old(report)@ + files_part(*run),
{
    let ghost r0 = report@;
    report.append("\n## 模块结论\n\n");
    let ghost r1 = report@;
    let mut i: usize = 0;
    while i < run.steps.len()
        invariant
            i <= run.steps@.len(),
            report@ == r1 + step_sections(run.steps@, i as int),
        decreases run.steps@.len() - i,
    {
        let ghost before = report@;
        report.append(run.steps[i].report_section.as_str());
        report.append("\n");
        proof {
            let sec = run.steps@[i as int].report_section@;
            assert(report@ =~= before + (sec + "\n"@));
            vstd::seq_lib::lemma_concat_associative(r1, step_sections(run.steps@, i as int), sec + "\n"@);
            assert(step_sections(run.steps@, i + 1) =~= step_sections(run.steps@, i as int) + (sec + "\n"@));
        }
        i += 1;
    }
    let files = local_files_text(run);
    report.append(files.as_str());
    assert(report@ =~= r0 + files_part(*run));
}

/// The Markdown report of a run: its summary, its input, the table of step
/// results, the performance section as given, each step's section and the
/// local files.
pub fn build_report(run: &RunRecord, performance_section: &str) -> (r: String)
    ensures
        r@ == report_spec(*run, performance_section@),
{
    let mut report = String::new();
    push_summary(&mut report, run);
    push_assets(&mut report, run);
    push_steps(&mut report, run);
    report.append(performance_section);
    push_files(&mut report, run);
    assert(report@ =~= report_spec(*run, performance_section@));
    report
}

} // verus!
