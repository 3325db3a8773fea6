//! Starting and closing a run: the flow a run executes, the names it writes
//! under, and the record it leaves.
use crate::catalog::ModuleInfo;
use crate::flow::{FlowDefinition, FlowNode};
use crate::graph::strings_view;
use crate::normalize::{normalize_flow, normalize_flow_spec};
use crate::plan::{
    always, execution_plan, followers_mark, lists_dependencies, ordered_view, run_matrix, schedules,
    sequence_matrix, topological_order, ExecutionPlan,
};
use crate::run::{
    input_note_label, input_note_label_spec, sequential_verdict, sequential_verdict_spec, verdict_from_steps,
    verdict_from_steps_spec, AuditAsset, RunRecord, StepRun,
};
use crate::strs::{concat3, join_spec, trim, trim_spec};
use crate::text::{sanitize_path_segment, sanitize_path_segment_spec, task_name_from_note, task_name_from_note_spec};
use crate::validate::{lemma_valid_flow_can_be_ordered, lemma_valid_flow_shape, validate_flow_inner, validation_messages};
use vstd::prelude::*;

verus! {

/// `parts` joined with `sep` between neighbours.
pub fn join_strings(parts: &Vec<String>, sep: &str) -> (r: String)
    ensures
        r@ == join_spec(strings_view(parts@), sep@),
{
    let ghost pv = strings_view(parts@);
    let mut out = String::new();
    let mut i: usize = 0;
    while i < parts.len()
        invariant
            pv == strings_view(parts@),
            i <= parts@.len(),
            out@ == join_spec(pv.take(i as int), sep@),
        decreases parts@.len() - i,
    {
        let ghost before = out@;
        if i > 0 {
            out.append(sep);
        }
        out.append(parts[i].as_str());
        proof {
            let t = pv.take(i + 1);
            assert(t.drop_last() =~= pv.take(i as int));
            assert(t.last() == parts@[i as int]@);
            if i == 0 {
                assert(out@ =~= t[0]);
            } else {
                assert(out@ =~= join_spec(t.drop_last(), sep@) + sep@ + t.last());
            }
        }
        i += 1;
    }
    assert(pv.take(parts@.len() as int) =~= pv);
    out
}

/// The messages a flow earns once normalised against the modules.
pub open spec fn run_flow_messages(flow: crate::flow::FlowView, ms: Seq<ModuleInfo>) -> Seq<Seq<char>> {
    validation_messages(normalize_flow_spec(flow, ms), ms)
}

/// The flow a run executes, normalised against the modules, with its steps
/// in start order; a flow that is not valid is refused with its messages,
/// one space between each.
pub fn prepare_run(flow: FlowDefinition, modules: &Vec<ModuleInfo>) -> (r: Result<(FlowDefinition, Vec<(FlowNode, usize)>), String>)
    ensures
        r is Ok <==> run_flow_messages(flow@, modules@).len() == 0,
        match r {
            Ok((f, ordered)) => {
                &&& f@ == normalize_flow_spec(flow@, modules@)
                &&& schedules(
                    f@.nodes,
                    sequence_matrix(f@.nodes, f@.edges),
                    followers_mark(f@.nodes, f@.edges),
                    ordered_view(ordered@),
                )
            },
            Err(e) => e@ == join_spec(run_flow_messages(flow@, modules@), " "@),
        },
{
    let f = normalize_flow(flow, modules);
    let v = validate_flow_inner(&f, modules);
    if !v.valid {
        return Err(join_strings(&v.messages, " "));
    }
    proof {
        lemma_valid_flow_can_be_ordered(f@, modules@);
    }
    match topological_order(&f) {
        Ok(ordered) => Ok((f, ordered)),
        Err(e) => {
            assert(false);
            Err(e)
        },
    }
}

/// The flow a live run executes, normalised against the modules, with its
/// execution plan; a flow that is not valid is refused with its messages,
/// one space between each.
pub fn prepare_live_run(flow: FlowDefinition, modules: &Vec<ModuleInfo>) -> (r: Result<(FlowDefinition, ExecutionPlan), String>)
    ensures
        r is Ok <==> run_flow_messages(flow@, modules@).len() == 0,
        match r {
            Ok((f, plan)) => {
                &&& f@ == normalize_flow_spec(flow@, modules@)
                &&& schedules(
                    f@.nodes,
                    run_matrix(f@.nodes, f@.edges, modules@),
                    always(f@.nodes.len()),
                    ordered_view(plan.ordered@),
                )
                &&& lists_dependencies(f@.nodes, run_matrix(f@.nodes, f@.edges, modules@), crate::plan::deps_view(plan.dependencies@))
            },
            Err(e) => e@ == join_spec(run_flow_messages(flow@, modules@), " "@),
        },
{
    let f = normalize_flow(flow, modules);
    let v = validate_flow_inner(&f, modules);
    if !v.valid {
        return Err(join_strings(&v.messages, " "));
    }
    proof {
        lemma_valid_flow_shape(f@, modules@);
    }
    match execution_plan(&f, modules) {
        Ok(plan) => Ok((f, plan)),
        Err(e) => {
            assert(false);
            Err(e)
        },
    }
}

/// The task name of a run: the override when it is not blank (trimmed), else
/// the one the input note gives, else the flow's name.
pub open spec fn run_task_name_spec(task_override: Option<Seq<char>>, input_note: Seq<char>, flow_name: Seq<char>) -> Seq<char> {
    match task_override {
        Some(v) => if trim_spec(v).len() > 0 {
            trim_spec(v)
        } else {
            task_name_from_note_spec(input_note, flow_name)
        },
        None => task_name_from_note_spec(input_note, flow_name),
    }
}

/// The task name of a run.
pub fn run_task_name(task_override: Option<String>, input_note: &str, flow_name: &str) -> (r: String)
    ensures
        r@ == run_task_name_spec(
            match task_override {
                Some(v) => Some(v@),
                None => None,
            },
            input_note@,
            flow_name@,
        ),
{
    match task_override {
        Some(v) => {
            let t = trim(v.as_str());
            if t.as_str().is_empty() {
                task_name_from_note(input_note, flow_name)
            } else {
                t
            }
        },
        None => task_name_from_note(input_note, flow_name),
    }
}

/// The folder a run's products go to under the products root: the task name
/// and the run id, each made safe, joined by a hyphen.
pub open spec fn artifact_folder_name_spec(task_name: Seq<char>, run_id: Seq<char>) -> Seq<char> {
    sanitize_path_segment_spec(task_name, "审核任务"@) + "-"@ + sanitize_path_segment_spec(run_id, "run"@)
}

/// The folder a run's products go to under the products root.
pub fn artifact_folder_name(task_name: &str, run_id: &str) -> (r: String)
    ensures
        r@ == artifact_folder_name_spec(task_name@, run_id@),
{
    let a = sanitize_path_segment(task_name, "审核任务");
    let b = sanitize_path_segment(run_id, "run");
    concat3(a.as_str(), "-", b.as_str())
}

/// Where a run keeps its files.
#[derive(Debug)]
pub struct RunPaths {
    pub data_root: String,
    pub run_dir: String,
    pub resource_root: String,
    pub artifact_root: String,
    pub artifact_dir: String,
    pub report_path: String,
}

/// What a run is, before its steps: its id, its flow, when it started, its
/// task, its input and its files.
#[derive(Debug)]
pub struct RunHeader {
    pub id: String,
    pub flow_id: String,
    pub flow_name: String,
    pub created_at: u64,
    pub task_name: String,
    pub input_note: String,
    pub assets: Vec<AuditAsset>,
    pub paths: RunPaths,
}

/// `run` holds the header's fields (the input note as recorded), the given
/// steps, status and verdict, and no performance summary yet.
pub open spec fn record_of(run: RunRecord, h: RunHeader, steps: Seq<StepRun>, status: Seq<char>, verdict: Seq<char>) -> bool {
    &&& run.id == h.id
    &&& run.flow_id == h.flow_id
    &&& run.flow_name == h.flow_name
    &&& run.created_at == h.created_at
    &&& run.task_name == h.task_name
    &&& run.input_note@ == input_note_label_spec(h.input_note@)
    &&& run.assets == h.assets
    &&& run.data_root == h.paths.data_root
    &&& run.run_dir == h.paths.run_dir
    &&& run.resource_root == h.paths.resource_root
    &&& run.artifact_root == h.paths.artifact_root
    &&& run.artifact_dir == h.paths.artifact_dir
    &&& run.report_path == h.paths.report_path
    &&& run.performance_summary is None
    &&& run.steps@ == steps
    &&& run.status@ == status
    &&& run.verdict@ == verdict
}

/// A run record from its parts.
fn assemble_record(h: RunHeader, steps: Vec<StepRun>, status: String, verdict: String) -> (r: RunRecord)
    ensures
        record_of(r, h, steps@, status@, verdict@),
{
    let input_note = input_note_label(h.input_note.as_str());
    let RunHeader { id, flow_id, flow_name, created_at, task_name, input_note: _, assets, paths } = h;
    let RunPaths { data_root, run_dir, resource_root, artifact_root, artifact_dir, report_path } = paths;
    RunRecord {
        id,
        flow_id,
        flow_name,
        created_at,
        status,
        verdict,
        task_name,
        input_note,
        assets,
        data_root,
        run_dir,
        resource_root,
        artifact_root,
        artifact_dir,
        report_path,
        performance_summary: None,
        steps,
    }
}

/// The record of a run that went through its steps one after another: it is
/// completed, with the verdict of its steps taken in order.
pub fn completed_run_record(h: RunHeader, steps: Vec<StepRun>) -> (r: RunRecord)
    ensures
        record_of(r, h, steps@, "completed"@, sequential_verdict_spec(steps@)),
{
    let verdict = sequential_verdict(&steps);
    assemble_record(h, steps, "completed".to_owned(), verdict)
}

/// The record of a live run: cancelled when it was stopped, else completed,
/// with the verdict of its steps (a run with an interrupted step needs review).
pub fn live_run_record(h: RunHeader, steps: Vec<StepRun>, stopped: bool) -> (r: RunRecord)
    ensures
        record_of(
            r,
            h,
            steps@,
            if stopped {
                "cancelled"@
            } else {
                "completed"@
            },
            verdict_from_steps_spec(steps@),
        ),
{
    let verdict = verdict_from_steps(&steps);
    let status = if stopped {
        "cancelled".to_owned()
    } else {
        "completed".to_owned()
    };
    assemble_record(h, steps, status, verdict)
}

} // verus!
