use ugc_audit::catalog::{
    ModuleInfo, DATA_ALL_IMAGES_MODULE_ID, DATA_MERGE_TEXTS_MODULE_ID, HANDLE_IMAGES_IN,
    HANDLE_IMAGES_OUT, HANDLE_TEXTS_A_IN, HANDLE_TEXTS_B_IN, HANDLE_TEXTS_IN, HANDLE_TEXTS_OUT,
    START_MODULE_ID,
};
use ugc_audit::cli::{cli_input_note, cli_task_name};
use ugc_audit::flow::{data_edge, FlowDefinition, FlowNode, Position};
use ugc_audit::json::JsonValue;
use ugc_audit::modules::{builtin_module_definitions, module_removal_check, system_launch};
use ugc_audit::ports::{file_type_from_extension, sort_dedup_files};
use ugc_audit::run::AuditFile;
use ugc_audit::smi::gpu_memory_from_smi;
use ugc_audit::text::path_matches_relative_file;
use ugc_audit::previous::collect_previous_output_sources;
use ugc_audit::procs::process_is_descendant;
use ugc_audit::registry::{register_modules, ModuleOrigin};
use ugc_audit::run::{sort_run_summaries, synthetic_step_result, RunSummary};
use ugc_audit::scheme::{is_scheme_extension, scheme_list_item, sort_scheme_items, SchemeListItem};

fn module(id: &str, name: &str, kind: &str, source: &str) -> ModuleInfo {
    ModuleInfo {
        id: id.to_string(),
        name: name.to_string(),
        kind: kind.to_string(),
        summary: String::new(),
        model_label: "Model".to_string(),
        icon: "file-check".to_string(),
        built_in: source != "custom",
        source: source.to_string(),
        definition_dir: String::new(),
        icon_path: None,
        icon_data_url: None,
        model_path: None,
        model_configured: false,
        launch: system_launch("x"),
        parameters: Vec::new(),
        data_outputs: Vec::new(),
    }
}

fn node(id: &str, module_id: &str) -> FlowNode {
    FlowNode {
        id: id.to_string(),
        module_id: module_id.to_string(),
        label: id.to_string(),
        position: Position { x_bits: 0, y_bits: 0 },
        config: JsonValue::Object(Vec::new()),
    }
}

#[test]
fn processes_belong_to_a_step_through_their_parents() {
    let table = vec![(10, Some(1)), (11, Some(10)), (12, Some(11)), (20, Some(2)), (30, None), (40, Some(41)), (41, Some(40))];
    assert!(process_is_descendant(&table, 1, 1));
    assert!(process_is_descendant(&table, 12, 1));
    assert!(process_is_descendant(&table, 10, 1));
    assert!(!process_is_descendant(&table, 20, 1));
    assert!(!process_is_descendant(&table, 30, 1));
    assert!(!process_is_descendant(&table, 99, 1));
    assert!(!process_is_descendant(&table, 40, 1));
}

#[test]
fn module_steps_see_outputs_of_the_steps_feeding_them() {
    let flow = FlowDefinition {
        id: "f".to_string(),
        name: "f".to_string(),
        version: 1,
        nodes: vec![
            node("all", DATA_ALL_IMAGES_MODULE_ID),
            node("ocr", "preset.custom.paddleocr"),
            node("ocr2", "preset.custom.paddleocr"),
            node("merge", DATA_MERGE_TEXTS_MODULE_ID),
            node("check", "preset.custom.qwen3guard"),
        ],
        edges: vec![
            data_edge("a", "all", HANDLE_IMAGES_OUT, "ocr", HANDLE_IMAGES_IN),
            data_edge("b", "ocr", HANDLE_TEXTS_OUT, "merge", HANDLE_TEXTS_A_IN),
            data_edge("c", "ocr2", HANDLE_TEXTS_OUT, "merge", HANDLE_TEXTS_B_IN),
            data_edge("d", "merge", HANDLE_TEXTS_OUT, "check", HANDLE_TEXTS_IN),
        ],
    };
    let mut modules = builtin_module_definitions();
    modules.push(module("preset.custom.paddleocr", "OCR", "image_ocr", "preset"));
    modules.push(module("preset.custom.qwen3guard", "Guard", "text_safety", "preset"));
    let outputs = vec![
        ("ocr".to_string(), JsonValue::Str("one".to_string())),
        ("check".to_string(), JsonValue::Str("late".to_string())),
    ];
    let previous = collect_previous_output_sources(&flow, &modules, &outputs, "check");
    assert_eq!(previous.len(), 1);
    assert_eq!(previous[0].0, "ocr");
    assert!(matches!(&previous[0].1, JsonValue::Str(s) if s == "one"));
    assert!(collect_previous_output_sources(&flow, &modules, &outputs, "ocr").is_empty());
}

#[test]
fn registry_keeps_the_last_definition_of_each_id() {
    let paths = vec![("custom.a".to_string(), "  D:/models/a ".to_string())];
    let mut legacy = module("preset.custom.paddleocr", "旧 OCR", "image_ocr", "preset");
    legacy.model_path = Some("x".to_string());
    let found = vec![
        (ModuleOrigin::DataFolder, module(START_MODULE_ID, "开始", "system_start", "system")),
        (ModuleOrigin::DataFolder, legacy),
        (ModuleOrigin::DataFolder, module("custom.a", "A 旧", "text_safety", "custom")),
        (ModuleOrigin::PresetFolder, module("preset.custom.qwen3guard", "Guard", "text_safety", "preset")),
        (ModuleOrigin::PresetFolder, module(START_MODULE_ID, "开始", "system_start", "system")),
        (ModuleOrigin::Imported, module("custom.a", "A", "text_safety", "preset")),
    ];
    let registry = register_modules(found, &paths);
    let ids: Vec<&str> = registry.iter().map(|m| m.id.as_str()).collect();
    assert_eq!(ids.iter().filter(|id| **id == START_MODULE_ID).count(), 1);
    assert!(!ids.contains(&"preset.custom.paddleocr"));
    assert_eq!(registry[0].id, START_MODULE_ID);
    let a = registry.iter().find(|m| m.id == "custom.a").expect("imported");
    assert_eq!(a.name, "A");
    assert_eq!(a.source, "custom");
    assert!(!a.built_in);
    assert_eq!(a.model_path.as_deref(), Some("D:/models/a"));
    assert!(a.model_configured);
    assert!(ids.contains(&"preset.custom.qwen3guard"));
}

#[test]
fn library_lists_are_sorted() {
    let item = |name: &str, m: Option<u64>| SchemeListItem {
        id: name.to_string(),
        name: name.to_string(),
        path: format!("{name}.ugcaudit"),
        modified_at: m,
    };
    let sorted = sort_scheme_items(vec![item("b", Some(5)), item("none", None), item("a", Some(5)), item("new", Some(9))]);
    let names: Vec<&str> = sorted.iter().map(|i| i.name.as_str()).collect();
    assert_eq!(names, vec!["new", "a", "b", "none"]);
    let run = |id: &str, t: u64| RunSummary {
        id: id.to_string(),
        flow_name: "f".to_string(),
        created_at: t,
        status: "completed".to_string(),
        verdict: "pass".to_string(),
        report_path: String::new(),
    };
    let runs = sort_run_summaries(vec![run("old", 1), run("x", 5), run("y", 5), run("new", 9)]);
    let ids: Vec<&str> = runs.iter().map(|r| r.id.as_str()).collect();
    assert_eq!(ids, vec!["new", "x", "y", "old"]);
}

#[test]
fn command_line_runs_name_their_task() {
    assert_eq!(cli_task_name(&Some(" 每日 ".to_string()), "方案"), "每日");
    assert_eq!(cli_task_name(&Some("  ".to_string()), "方案"), "方案");
    assert_eq!(cli_task_name(&None, "方案"), "方案");
    assert_eq!(cli_input_note("每日", "  "), "任务名称：每日");
    assert_eq!(cli_input_note("每日", " 看图 "), "任务名称：每日\n任务说明：看图");
}

#[test]
fn refuses_to_remove_module_used_by_flow() {
    let modules = vec![module("custom.used", "Used", "text_safety", "custom"), module("preset.x", "P", "text_safety", "preset")];
    let flow = FlowDefinition {
        id: "flow.test".to_string(),
        name: "Test Flow".to_string(),
        version: 1,
        nodes: vec![node("node_custom_used", "custom.used")],
        edges: Vec::new(),
    };
    let err = module_removal_check("custom.used", &modules, Some(&flow)).unwrap_err();
    assert!(err.contains("当前流程"));
    assert_eq!(module_removal_check(" custom.used ", &modules, None).as_deref(), Ok("custom.used"));
    assert_eq!(module_removal_check(" ", &modules, None).unwrap_err(), "请选择要移除的模块。");
    assert_eq!(module_removal_check(START_MODULE_ID, &modules, None).unwrap_err(), "预置模块不能移除。");
    assert_eq!(module_removal_check("custom.none", &modules, None).unwrap_err(), "找不到模块 custom.none");
    assert_eq!(module_removal_check("preset.x", &modules, None).unwrap_err(), "只能移除导入的自定义模块。");
}

#[test]
fn file_types_follow_extensions() {
    assert_eq!(file_type_from_extension("png"), "image");
    assert_eq!(file_type_from_extension("md"), "text");
    assert_eq!(file_type_from_extension("PNG"), "other");
    assert_eq!(file_type_from_extension("bin"), "other");
}

fn audit_file(path: &str, relative_path: &str) -> AuditFile {
    AuditFile {
        path: path.to_string(),
        name: path.to_string(),
        extension: String::new(),
        file_type: "text".to_string(),
        source_asset_id: "a".to_string(),
        source_asset_name: "A".to_string(),
        relative_path: relative_path.to_string(),
    }
}

#[test]
fn gpu_memory_sums_watched_processes_in_bytes() {
    let report = "1234, 100\n5678, 50 MiB\n999, 7\nabc, 5\n1234\n";
    assert_eq!(gpu_memory_from_smi(report, &vec![1234, 5678]), 150 * 1024 * 1024);
    assert_eq!(gpu_memory_from_smi(report, &vec![999]), 7 * 1024 * 1024);
    assert_eq!(gpu_memory_from_smi(report, &vec![42]), 0);
    assert_eq!(gpu_memory_from_smi("", &vec![1234]), 0);
}

#[test]
fn audit_files_are_sorted_by_path_and_kept_once() {
    let files = vec![audit_file("/d/b.txt", "first"), audit_file("/d/a.txt", "a"), audit_file("/d/b.txt", "second")];
    let r = sort_dedup_files(files);
    let paths: Vec<&str> = r.iter().map(|f| f.path.as_str()).collect();
    assert_eq!(paths, vec!["/d/a.txt", "/d/b.txt"]);
    assert_eq!(r[1].relative_path, "first");
}

#[test]
fn report_links_match_assets_by_name_or_path_end() {
    let path = "/data/out/a/report.png";
    assert!(path_matches_relative_file(path, Some("report.png"), "report.png"));
    assert!(path_matches_relative_file(path, Some("report.png"), "\\a\\report.png"));
    assert!(!path_matches_relative_file(path, Some("report.png"), " /a/report.png/ "));
    assert!(!path_matches_relative_file(path, Some("report.png"), "b/report.png"));
    assert!(!path_matches_relative_file(path, Some("report.png"), " / "));
    assert!(!path_matches_relative_file(path, None, "other.png"));
}

fn obj(entries: Vec<(&str, JsonValue)>) -> JsonValue {
    JsonValue::Object(entries.into_iter().map(|(k, v)| (k.to_string(), v)).collect())
}

#[test]
fn scheme_list_entries_read_id_and_name_with_fallbacks() {
    let top = obj(vec![("id", JsonValue::from_string("s1".to_string())), ("name", JsonValue::Str("  图片审核 ".to_string()))]);
    let item = scheme_list_item(&top, "stem", "/x/a.ugcaudit".to_string(), Some(7));
    assert_eq!(item.id, "s1");
    assert_eq!(item.name, "图片审核");
    assert_eq!(item.path, "/x/a.ugcaudit");
    assert_eq!(item.modified_at, Some(7));

    let nested = obj(vec![(
        "flow",
        obj(vec![("id", JsonValue::Str("f1".to_string())), ("name", JsonValue::Str("流程".to_string()))]),
    )]);
    let item = scheme_list_item(&nested, "stem", "p".to_string(), None);
    assert_eq!(item.id, "f1");
    assert_eq!(item.name, "流程");

    let blank = obj(vec![("name", JsonValue::Str("   ".to_string()))]);
    let item = scheme_list_item(&blank, "stem", "p".to_string(), None);
    assert_eq!(item.id, "");
    assert_eq!(item.name, "stem");
}

#[test]
fn scheme_extension_is_compared_without_case() {
    assert!(is_scheme_extension("ugcaudit"));
    assert!(is_scheme_extension("UGCAudit"));
    assert!(!is_scheme_extension("json"));
    assert!(!is_scheme_extension(""));
}

#[test]
fn synthetic_steps_carry_their_section() {
    let m = module("m", "模块", "custom", "preset");
    let n = node("n1", "m");
    let step = synthetic_step_result(&m, &n, 3, "skipped", "review", "没有运行", 0);
    assert_eq!(step.step_id, "n1");
    assert_eq!(step.module_id, "m");
    assert_eq!(step.status, "skipped");
    assert_eq!(step.verdict, "review");
    assert_eq!(step.execution_group, 3);
    assert_eq!(step.processed_files, 0);
    assert!(step.performance.is_none());
    assert_eq!(
        step.report_section,
        "### n1\n\n- 模块：模块\n- 模块来源：预置模块\n- 结论：需要人工复审\n- 状态：已跳过\n- 说明：没有运行\n"
    );
}
