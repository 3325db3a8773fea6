use ugc_audit::catalog::{ModuleInfo, START_MODULE_ID};
use ugc_audit::cli::{parse_cli_args, CliCommand};
use ugc_audit::flow::{FlowNode, Position};
use ugc_audit::json::JsonValue;
use ugc_audit::modules::system_launch;
use ugc_audit::report::build_report;
use ugc_audit::run::{
    cli_exit_code_for_run, default_output_status, default_output_verdict, input_note_label,
    module_failure_message, module_step_result_for, performance_sampling_note, run_event,
    sequential_verdict, stderr_failure_detail, stderr_line_is_error, stderr_line_is_warning,
    verdict_from_steps, AuditAsset, RunControl, RunRecord, StepRun, PROGRESS_DONE_BITS,
};

fn args(list: &[&str]) -> Vec<String> {
    list.iter().map(|a| a.to_string()).collect()
}

fn empty_run() -> RunRecord {
    RunRecord {
        id: "run_test".to_string(),
        flow_id: "flow".to_string(),
        flow_name: "flow".to_string(),
        created_at: 1_700_000_000,
        status: "completed".to_string(),
        verdict: "pass".to_string(),
        task_name: String::new(),
        input_note: String::new(),
        assets: Vec::new(),
        data_root: String::new(),
        run_dir: String::new(),
        resource_root: String::new(),
        artifact_root: String::new(),
        artifact_dir: String::new(),
        report_path: String::new(),
        performance_summary: None,
        steps: Vec::new(),
    }
}

fn step(status: &str, verdict: &str) -> StepRun {
    StepRun {
        step_id: "s".to_string(),
        module_id: "m".to_string(),
        module_name: "模块".to_string(),
        label: "步骤".to_string(),
        status: status.to_string(),
        verdict: verdict.to_string(),
        message: "说明".to_string(),
        execution_group: 1,
        progress_bits: PROGRESS_DONE_BITS,
        processed_files: 2,
        matched_files: 1,
        artifact_count: 0,
        performance: None,
        report_section: "### 步骤\n".to_string(),
    }
}

fn module(id: &str, source: &str) -> ModuleInfo {
    ModuleInfo {
        id: id.to_string(),
        name: "模块名".to_string(),
        kind: "text_safety".to_string(),
        summary: String::new(),
        model_label: "Model".to_string(),
        icon: "file-check".to_string(),
        built_in: true,
        source: source.to_string(),
        definition_dir: String::new(),
        icon_path: None,
        icon_data_url: None,
        model_path: None,
        model_configured: true,
        launch: system_launch("test"),
        parameters: Vec::new(),
        data_outputs: Vec::new(),
    }
}

fn flow_node(config: JsonValue) -> FlowNode {
    FlowNode {
        id: "node_a".to_string(),
        module_id: "custom.a".to_string(),
        label: "检查".to_string(),
        position: Position { x_bits: 0, y_bits: 0 },
        config,
    }
}

#[test]
fn cli_args_parse_run_command_with_ugcaudit_scheme() {
    let command = parse_cli_args(args(&[
        "run",
        "--scheme",
        "D:\\AuditSchemes\\image.ugcaudit",
        "--input",
        "D:\\UGCProject",
        "--output",
        "D:\\AuditRuns\\run-001",
        "--task-name",
        "每日审核",
    ]))
    .expect("parse")
    .expect("command");

    let CliCommand::Run(args) = command else {
        panic!("expected run command");
    };
    assert_eq!(args.scheme, "D:\\AuditSchemes\\image.ugcaudit");
    assert_eq!(args.input, "D:\\UGCProject");
    assert_eq!(args.output.as_deref(), Some("D:\\AuditRuns\\run-001"));
    assert_eq!(args.task_name.as_deref(), Some("每日审核"));
}

#[test]
fn cli_reports_each_argument_problem() {
    assert!(parse_cli_args(Vec::new()).expect("empty").is_none());
    assert!(matches!(parse_cli_args(args(&["--help"])), Ok(Some(CliCommand::Help))));
    assert!(matches!(parse_cli_args(args(&["help"])), Ok(Some(CliCommand::Help))));
    assert_eq!(
        parse_cli_args(args(&["audit"])).unwrap_err(),
        "未知命令。请使用 run --scheme <方案文件> --input <待审文件夹>。"
    );
    assert_eq!(parse_cli_args(args(&["run", "--scheme"])).unwrap_err(), "参数 --scheme 缺少值。");
    assert_eq!(parse_cli_args(args(&["run", "--bogus", "x"])).unwrap_err(), "未知参数：--bogus");
    assert_eq!(parse_cli_args(args(&["run", "--input", "x"])).unwrap_err(), "缺少参数 --scheme。");
    assert_eq!(parse_cli_args(args(&["run", "--scheme", "x"])).unwrap_err(), "缺少参数 --input。");
    let Ok(Some(CliCommand::Run(a))) =
        parse_cli_args(args(&["run", "--scheme", "a", "--input", "b", "--scheme", "c", "--note", "n"]))
    else {
        panic!("expected run command");
    };
    assert_eq!(a.scheme, "c");
    assert_eq!(a.note, "n");
    assert!(a.output.is_none());
}

#[test]
fn cli_exit_codes_match_pipeline_contract() {
    let mut run = empty_run();
    assert_eq!(cli_exit_code_for_run(&run), 0);
    run.verdict = "review".to_string();
    assert_eq!(cli_exit_code_for_run(&run), 2);
    run.verdict = "error".to_string();
    assert_eq!(cli_exit_code_for_run(&run), 1);
    run.verdict = "reject".to_string();
    assert_eq!(cli_exit_code_for_run(&run), 2);
}

#[test]
fn module_failure_summary_ignores_warning_only_stderr() {
    let message = module_failure_message(
        "图片文字识别",
        "D:\\UGCAuditModels\\preset.custom.paddleocr\\main.py:63: UserWarning: warning\n  return PaddleOCR(\n",
        true,
    );
    assert!(message.contains("没有生成结果文件"));
    assert!(!message.contains("UserWarning"));
}

#[test]
fn module_failure_summary_prefers_real_error() {
    let message = module_failure_message(
        "图片文字识别",
        "some.py:1: UserWarning: warning\nTraceback (most recent call last):\nModuleNotFoundError: No module named 'x'\n",
        true,
    );
    assert!(message.contains("ModuleNotFoundError"));
}

#[test]
fn module_failure_messages_are_exact() {
    assert_eq!(
        module_failure_message("OCR", "boom\n", false),
        "模块 OCR 执行失败：boom"
    );
    assert_eq!(
        module_failure_message("OCR", "", true),
        "模块 OCR 没有生成结果文件，进程可能异常退出。"
    );
    assert_eq!(module_failure_message("OCR", "  \n", false), "模块 OCR 执行失败。");
    assert_eq!(stderr_failure_detail("a\nRuntimeError: x\nb\n"), "RuntimeError: x");
    assert!(stderr_line_is_warning("INFO: loading"));
    assert!(stderr_line_is_error("ImportError: y"));
    assert!(!stderr_line_is_error("all good"));
}

#[test]
fn run_control_can_be_cancelled() {
    let mut control = RunControl::default();
    assert!(!control.is_cancelled());
    control.cancel();
    assert!(control.is_cancelled());
    control.cancel();
    assert!(control.is_cancelled());
}

#[test]
fn run_verdicts_follow_precedence() {
    assert_eq!(verdict_from_steps(&Vec::new()), "pass");
    assert_eq!(verdict_from_steps(&vec![step("completed", "pass"), step("completed", "review")]), "review");
    assert_eq!(verdict_from_steps(&vec![step("completed", "error"), step("completed", "reject")]), "reject");
    assert_eq!(verdict_from_steps(&vec![step("completed", "error"), step("completed", "review")]), "error");
    assert_eq!(verdict_from_steps(&vec![step("cancelled", "reject")]), "review");
    assert_eq!(sequential_verdict(&vec![step("cancelled", "reject")]), "reject");
    assert_eq!(default_output_status(), "completed");
    assert_eq!(default_output_verdict(), "review");
    assert_eq!(input_note_label("  "), "未填写输入说明");
    assert_eq!(input_note_label(" 每日 "), "每日");
}

#[test]
fn module_steps_report_their_model_path() {
    let start = module(START_MODULE_ID, "system");
    let s = module_step_result_for(&start, &flow_node(JsonValue::Object(Vec::new())), 0, false);
    assert_eq!(s.status, "system");
    assert_eq!(s.verdict, "pass");
    assert_eq!(s.message, "流程开始，已接收本次审核素材。");

    let custom = module("custom.a", "custom");
    let s = module_step_result_for(&custom, &flow_node(JsonValue::Object(Vec::new())), 2, false);
    assert_eq!(s.status, "needs_model");
    assert_eq!(s.verdict, "review");
    assert_eq!(s.message, "Model 未配置，本轮没有执行真实识别，也没有下载模型。");
    assert_eq!(s.execution_group, 2);

    let config = JsonValue::Object(vec![("modelPath".to_string(), JsonValue::Str("D:/m".to_string()))]);
    let s = module_step_result_for(&custom, &flow_node(config), 1, false);
    assert_eq!(s.status, "invalid_model_path");
    assert_eq!(s.message, "配置的本地路径不存在：D:/m。本轮没有执行真实识别。");
    assert_eq!(
        s.report_section,
        "### 检查\n\n- 模块：模块名\n- 模块来源：自定义模块\n- 结论：需要人工复审\n- 状态：路径不可用\n- 说明：配置的本地路径不存在：D:/m。本轮没有执行真实识别。\n"
    );
}

#[test]
fn report_of_an_empty_run_is_exact() {
    let mut run = empty_run();
    run.id = "run_1".to_string();
    run.flow_name = "流程".to_string();
    run.input_note = "说明".to_string();
    run.run_dir = "D:/runs/run_1".to_string();
    run.report_path = "D:/runs/r.md".to_string();
    let report = build_report(&run, "## 性能开销\n\n未采集到模块性能数据。\n\n");
    let expected = "# UGC 审核报告\n\n## 总结\n\n- 最终结论：通过\n- 运行编号：run_1\n- 流程：流程\n- 输入：说明\n- 素材数量：0\n- 模型来源：本地模型目录\n\n\
## 输入素材\n\n- 未选择本地素材。\n- 说明：说明\n\n\
## 流程结果\n\n| 步骤 | 模块 | 状态 | 结论 | 处理文件 | 命中文件 | 说明 |\n| --- | --- | --- | --- | --- | --- | --- |\n\n\
## 性能开销\n\n未采集到模块性能数据。\n\n\
\n## 模块结论\n\n\
## 本地文件\n\n- 运行目录：[D:/runs/run_1](ugcaudit://reveal?path=D%3A%2Fruns%2Frun_1)\n\
- 报告文件：[D:/runs/r.md](ugcaudit://reveal?path=D%3A%2Fruns%2Fr.md)\n";
    assert_eq!(report, expected);
}

#[test]
fn report_lists_assets_and_steps() {
    let mut run = empty_run();
    run.verdict = "reject".to_string();
    run.task_name = "每日".to_string();
    run.assets.push(AuditAsset {
        id: "a".to_string(),
        kind: "directory".to_string(),
        path: "D:/in".to_string(),
        name: "in|put".to_string(),
        extension: String::new(),
    });
    run.steps.push(step("completed", "reject"));
    let report = build_report(&run, "");
    assert!(report.contains("- 最终结论：不通过\n"));
    assert!(report.contains("- 任务名称：每日\n"));
    assert!(report.contains("| 文件夹 | in\\|put | [D:/in](ugcaudit://reveal?path=D%3A%2Fin) |\n"));
    assert!(report.contains("| 步骤 | 模块 | 已完成 | 不通过 | 2 | 1 | 说明 |\n"));
    assert!(report.contains("### 步骤\n\n"));
}

#[test]
fn progress_events_carry_what_they_are_given() {
    let event = run_event("run_1", Some("node"), "running", "开始");
    assert_eq!(event.run_id, "run_1");
    assert_eq!(event.node_id.as_deref(), Some("node"));
    assert_eq!(event.status, "running");
    assert_eq!(event.message, "开始");
    assert!(event.step.is_none() && event.run.is_none());
    assert!(performance_sampling_note().starts_with("约每 1 秒采样"));
}
