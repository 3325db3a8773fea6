use ugc_audit::catalog::{
    ModuleDataOutput, ModuleInfo, DATA_ALL_IMAGES_MODULE_ID, DATA_MERGE_IMAGES_MODULE_ID,
    DATA_RELATIVE_IMAGES_MODULE_ID, DATA_TYPE_IMAGES, DATA_TYPE_TEXTS, HANDLE_IMAGES_A_IN,
    HANDLE_IMAGES_B_IN, HANDLE_IMAGES_IN, HANDLE_IMAGES_OUT, HANDLE_TEXTS_IN, OUTPUT_MODULE_ID,
    OUTPUT_NODE_ID, START_MODULE_ID, START_NODE_ID,
};
use ugc_audit::flow::{data_edge, default_flow, sequence_edge, FlowDefinition, FlowNode, Position};
use ugc_audit::json::JsonValue;
use ugc_audit::launch::{missing_output_value, module_launch_args, step_model_path};
use ugc_audit::live::{sort_run_steps, LiveRun, MAX_PARALLEL_MODULES};
use ugc_audit::modules::{builtin_module_definitions, system_launch};
use ugc_audit::ports::DataPortValue;
use ugc_audit::resolve::{
    audit_folder_root, data_inputs_for_node, data_leaf_request, resolve_data_value, DataLeaf,
    DataSources,
};
use ugc_audit::run::{AuditAsset, AuditFile, StepRun, PROGRESS_DONE_BITS};
use ugc_audit::start::{
    artifact_folder_name, completed_run_record, live_run_record, prepare_live_run, prepare_run,
    run_task_name, RunHeader, RunPaths,
};

fn test_module(id: &str, name: &str, kind: &str) -> ModuleInfo {
    ModuleInfo {
        id: id.to_string(),
        name: name.to_string(),
        kind: kind.to_string(),
        summary: String::new(),
        model_label: "Model".to_string(),
        icon: "file-check".to_string(),
        built_in: true,
        source: "preset".to_string(),
        definition_dir: String::new(),
        icon_path: None,
        icon_data_url: None,
        model_path: None,
        model_configured: true,
        launch: system_launch("test"),
        parameters: Vec::new(),
        data_outputs: Vec::new(),
    }
}

fn test_modules() -> Vec<ModuleInfo> {
    let mut modules = builtin_module_definitions();
    modules.push(test_module("preset.custom.paddleocr", "图片文字识别", "image_ocr"));
    modules.push(test_module("preset.custom.qwen3guard", "文本合规检测", "text_safety"));
    modules.push(test_module("preset.custom.shieldgemma2", "图片合规检测", "image_safety"));
    modules
}

fn node(id: &str, module_id: &str, label: &str, x: f64, y: f64) -> FlowNode {
    FlowNode {
        id: id.to_string(),
        module_id: module_id.to_string(),
        label: label.to_string(),
        position: Position { x_bits: x.to_bits(), y_bits: y.to_bits() },
        config: JsonValue::Object(Vec::new()),
    }
}

fn s(v: &str) -> JsonValue {
    JsonValue::Str(v.to_string())
}

fn obj(pairs: Vec<(&str, JsonValue)>) -> JsonValue {
    JsonValue::Object(pairs.into_iter().map(|(k, v)| (k.to_string(), v)).collect())
}

fn index_of(flow: &FlowDefinition, id: &str) -> usize {
    flow.nodes.iter().position(|n| n.id == id).expect("node")
}

fn file(path: &str, file_type: &str, relative_path: &str) -> AuditFile {
    AuditFile {
        path: path.to_string(),
        name: path.rsplit('/').next().unwrap_or(path).to_string(),
        extension: path.rsplit('.').next().unwrap_or("").to_string(),
        file_type: file_type.to_string(),
        source_asset_id: "asset".to_string(),
        source_asset_name: "素材".to_string(),
        relative_path: relative_path.to_string(),
    }
}

fn sources(flow: &FlowDefinition, files: Vec<AuditFile>, outputs: Vec<(String, JsonValue)>) -> DataSources {
    let texts = files.iter().map(|_| String::new()).collect();
    DataSources { files, texts, leaves: flow.nodes.iter().map(|_| None).collect(), outputs }
}

fn step_named(label: &str, group: usize) -> StepRun {
    StepRun {
        step_id: label.to_string(),
        module_id: "m".to_string(),
        module_name: "模块".to_string(),
        label: label.to_string(),
        status: "completed".to_string(),
        verdict: "pass".to_string(),
        message: String::new(),
        execution_group: group,
        progress_bits: PROGRESS_DONE_BITS,
        processed_files: 0,
        matched_files: 0,
        artifact_count: 0,
        performance: None,
        report_section: String::new(),
    }
}

fn header() -> RunHeader {
    RunHeader {
        id: "run_1".to_string(),
        flow_id: "flow".to_string(),
        flow_name: "流程".to_string(),
        created_at: 7,
        task_name: "任务".to_string(),
        input_note: "  ".to_string(),
        assets: Vec::new(),
        paths: RunPaths {
            data_root: "D:/data".to_string(),
            run_dir: "D:/data/runs/run_1".to_string(),
            resource_root: "D:/data/runs/run_1/resources".to_string(),
            artifact_root: "D:/products".to_string(),
            artifact_dir: "D:/products/任务-run_1".to_string(),
            report_path: "D:/products/任务-run_1/report.md".to_string(),
        },
    }
}

#[test]
fn live_run_starts_at_most_two_steps_and_finishes_all() {
    let flow = default_flow();
    let modules = test_modules();
    let mut live = LiveRun::new(&flow, &modules);
    let mut order: Vec<String> = Vec::new();
    let mut running: Vec<usize> = Vec::new();
    loop {
        while let Some(i) = live.next_start(&flow, false) {
            order.push(flow.nodes[i].id.clone());
            running.push(i);
            assert!(running.len() <= MAX_PARALLEL_MODULES);
        }
        if running.is_empty() {
            break;
        }
        let done = running.remove(0);
        live.finish(&flow, done, false);
    }
    assert_eq!(order.first().map(String::as_str), Some(START_NODE_ID));
    assert_eq!(order.last().map(String::as_str), Some(OUTPUT_NODE_ID));
    let pos = |id: &str| order.iter().position(|x| x == id).expect("started");
    assert!(pos("image_ocr") < pos("text_safety"));
    assert!(pos("image_safety") < pos(OUTPUT_NODE_ID));
    assert!(live.unfinished_steps(&flow).is_empty());
    assert!(!order.iter().any(|id| flow.nodes[index_of(&flow, id)].module_id == DATA_ALL_IMAGES_MODULE_ID));
}

#[test]
fn stopped_live_run_starts_nothing_more() {
    let flow = default_flow();
    let modules = test_modules();
    let mut live = LiveRun::new(&flow, &modules);
    let first = live.next_start(&flow, false).expect("start node");
    assert_eq!(flow.nodes[first].id, START_NODE_ID);
    assert!(live.next_start(&flow, true).is_none());
    live.finish(&flow, first, false);
    assert!(live.stopped);
    assert!(live.next_start(&flow, false).is_none());
    let rest: Vec<&str> = live.unfinished_steps(&flow).iter().map(|&i| flow.nodes[i].id.as_str()).collect();
    assert!(rest.contains(&OUTPUT_NODE_ID));
    assert!(rest.contains(&"image_ocr"));
    assert!(!rest.contains(&START_NODE_ID));
}

#[test]
fn run_steps_are_listed_by_group_then_label_keeping_ties() {
    let mut a = step_named("b", 1);
    a.step_id = "first".to_string();
    let mut b = step_named("b", 1);
    b.step_id = "second".to_string();
    let steps = vec![step_named("z", 2), a, step_named("a", 1), b, step_named("x", 0)];
    let sorted = sort_run_steps(steps);
    let ids: Vec<&str> = sorted.iter().map(|s| s.step_id.as_str()).collect();
    assert_eq!(ids, vec!["x", "a", "first", "second", "z"]);
}

#[test]
fn runs_start_from_a_valid_normalized_flow() {
    let (flow, ordered) = prepare_run(default_flow(), &test_modules()).expect("valid");
    assert_eq!(ordered.first().map(|(n, _)| n.id.as_str()), Some(START_NODE_ID));
    assert_eq!(flow.id, "flow.default.image-audit");
    let (_, plan) = prepare_live_run(default_flow(), &test_modules()).expect("valid");
    assert!(plan.dependencies_of(OUTPUT_NODE_ID).is_some());

    let bad = FlowDefinition {
        id: "f".to_string(),
        name: "f".to_string(),
        version: 1,
        nodes: vec![node(START_NODE_ID, START_MODULE_ID, "开始", 0.0, 0.0), node("x", "unknown", "X", 1.0, 0.0)],
        edges: Vec::new(),
    };
    let err = prepare_run(bad, &test_modules()).unwrap_err();
    assert!(err.contains("步骤 X 使用了未知模块。"));
    assert!(err.contains(" "));
}

#[test]
fn artifact_folder_name_uses_task_name_and_run_id() {
    let task = run_task_name(None, "任务名称：每日:审核/任务", "默认方案");
    assert_eq!(task, "每日:审核/任务");
    assert_eq!(artifact_folder_name(&task, "run_123"), "每日_审核_任务-run_123");
    assert_eq!(run_task_name(Some("  覆盖 ".to_string()), "任务名称：x", "y"), "覆盖");
    assert_eq!(run_task_name(Some(" ".to_string()), "", "方案"), "方案");
    assert_eq!(artifact_folder_name("", ""), "审核任务-run");
}

#[test]
fn run_records_carry_status_and_verdict() {
    let mut cancelled = step_named("a", 0);
    cancelled.status = "cancelled".to_string();
    cancelled.verdict = "pass".to_string();
    let live = live_run_record(header(), vec![cancelled], true);
    assert_eq!(live.status, "cancelled");
    assert_eq!(live.verdict, "review");
    assert_eq!(live.input_note, "未填写输入说明");
    assert_eq!(live.report_path, "D:/products/任务-run_1/report.md");
    let done = completed_run_record(header(), vec![step_named("a", 0)]);
    assert_eq!(done.status, "completed");
    assert_eq!(done.verdict, "pass");
    assert!(done.performance_summary.is_none());
}

#[test]
fn ocr_output_feeds_text_collection_input() {
    let flow = default_flow();
    let modules = test_modules();
    let output = obj(vec![
        ("outputs", obj(vec![("fullText", s("hello from image"))])),
        (
            "results",
            JsonValue::Array(vec![obj(vec![
                ("path", s("a.png")),
                ("name", s("a.png")),
                ("fullText", s("hello from image")),
            ])]),
        ),
    ]);
    let src = sources(&flow, Vec::new(), vec![("image_ocr".to_string(), output)]);
    let inputs = data_inputs_for_node(&flow, &modules, &src, "text_safety").expect("resolve inputs");
    let (_, texts) = inputs.iter().find(|(h, _)| h == HANDLE_TEXTS_IN).expect("texts input");
    assert_eq!(texts.data_type, DATA_TYPE_TEXTS);
    assert_eq!(texts.items[0].get("text").and_then(|v| v.as_str()), Some("hello from image"));
}

#[test]
fn declared_module_image_output_feeds_image_collection_input() {
    let flow = FlowDefinition {
        id: "flow.preview".to_string(),
        name: "Preview".to_string(),
        version: 1,
        nodes: vec![
            node("preview", "custom.ap.level-preview-images", "AP-关卡预览图", 0.0, 0.0),
            node("image_safety", "preset.custom.shieldgemma2", "图片合规检测", 1.0, 0.0),
        ],
        edges: vec![data_edge("preview_images", "preview", HANDLE_IMAGES_OUT, "image_safety", HANDLE_IMAGES_IN)],
    };
    let mut modules = test_modules();
    let mut preview = test_module("custom.ap.level-preview-images", "AP-关卡预览图", "folder_processor");
    preview.data_outputs = vec![ModuleDataOutput {
        handle: HANDLE_IMAGES_OUT.to_string(),
        name: "图片".to_string(),
        data_type: DATA_TYPE_IMAGES.to_string(),
    }];
    modules.push(preview);
    let item = obj(vec![
        ("path", s("D:/out/level/all_color.png")),
        ("name", s("all_color.png")),
        ("extension", s("png")),
        ("sourceAssetId", s("ap-level-preview")),
        ("sourceAssetName", s("AP-关卡预览图")),
        ("relativePath", s("关卡预览图/level/all_color.png")),
    ]);
    let output = obj(vec![(
        "outputs",
        obj(vec![(
            "images",
            obj(vec![("dataType", s("imageCollection")), ("items", JsonValue::Array(vec![item]))]),
        )]),
    )]);
    let src = sources(&flow, Vec::new(), vec![("preview".to_string(), output)]);
    let inputs = data_inputs_for_node(&flow, &modules, &src, "image_safety").expect("resolve inputs");
    let (_, images) = inputs.iter().find(|(h, _)| h == HANDLE_IMAGES_IN).expect("images input");
    assert_eq!(images.data_type, DATA_TYPE_IMAGES);
    assert_eq!(images.items.len(), 1);
    assert_eq!(images.items[0].get("name").and_then(|v| v.as_str()), Some("all_color.png"));
}

fn merge_flow(with_b: bool, circle: bool) -> FlowDefinition {
    let mut rel = node("rel", DATA_RELATIVE_IMAGES_MODULE_ID, "相对图片", 0.0, 1.0);
    rel.config = obj(vec![("relativePath", s("a"))]);
    let mut edges = vec![
        data_edge("all_to_merge", "all", HANDLE_IMAGES_OUT, "merge", HANDLE_IMAGES_A_IN),
        data_edge("merge_to_check", "merge", HANDLE_IMAGES_OUT, "check", HANDLE_IMAGES_IN),
    ];
    if with_b {
        edges.push(data_edge("rel_to_merge", if circle { "merge" } else { "rel" }, HANDLE_IMAGES_OUT, "merge", HANDLE_IMAGES_B_IN));
    }
    FlowDefinition {
        id: "flow.merge".to_string(),
        name: "Merge".to_string(),
        version: 1,
        nodes: vec![
            node("all", DATA_ALL_IMAGES_MODULE_ID, "全部图片", 0.0, 0.0),
            rel,
            node("merge", DATA_MERGE_IMAGES_MODULE_ID, "合并图片", 1.0, 0.0),
            node("check", "preset.custom.shieldgemma2", "图片合规检测", 2.0, 0.0),
        ],
        edges,
    }
}

#[test]
fn merged_ports_resolve_through_data_nodes() {
    let flow = merge_flow(true, false);
    let files = vec![file("D:/p/a/1.png", "image", "a/1.png"), file("D:/p/b/2.png", "image", "b/2.png")];
    let src = sources(&flow, files, Vec::new());
    let value = resolve_data_value(&flow, &test_modules(), &src, "merge", HANDLE_IMAGES_OUT).expect("merged");
    assert_eq!(value.data_type, DATA_TYPE_IMAGES);
    assert_eq!(value.items.len(), 2);
    let inputs = data_inputs_for_node(&flow, &test_modules(), &src, "check").expect("inputs");
    assert_eq!(inputs.len(), 1);
    assert_eq!(inputs[0].0, HANDLE_IMAGES_IN);
}

#[test]
fn data_resolution_reports_each_problem() {
    let modules = test_modules();
    let missing_b = merge_flow(false, false);
    let src = sources(&missing_b, Vec::new(), Vec::new());
    assert_eq!(
        resolve_data_value(&missing_b, &modules, &src, "merge", HANDLE_IMAGES_OUT).unwrap_err(),
        "步骤 合并图片 缺少图片集合 B。"
    );
    let circle = merge_flow(true, true);
    let src = sources(&circle, Vec::new(), Vec::new());
    assert_eq!(
        resolve_data_value(&circle, &modules, &src, "merge", HANDLE_IMAGES_OUT).unwrap_err(),
        "数据节点之间形成了闭环。"
    );
    assert_eq!(
        resolve_data_value(&circle, &modules, &src, "nowhere", HANDLE_IMAGES_OUT).unwrap_err(),
        "找不到数据来源节点 nowhere"
    );
    assert_eq!(
        resolve_data_value(&circle, &modules, &src, "check", HANDLE_IMAGES_OUT).unwrap_err(),
        "数据来源 图片合规检测 尚未运行完成，无法传给下游。"
    );
    let src = sources(&circle, Vec::new(), vec![("check".to_string(), obj(Vec::new()))]);
    assert_eq!(
        resolve_data_value(&circle, &modules, &src, "check", HANDLE_IMAGES_OUT).unwrap_err(),
        "步骤 图片合规检测 没有可用的数据输出口。"
    );
}

#[test]
fn folder_nodes_take_what_the_host_read() {
    let mut flow = merge_flow(true, false);
    let mut folder = node("folder", "system.data.folder.audit.relative", "相对文件夹", 0.0, 3.0);
    folder.config = obj(vec![("relativePath", s("sub"))]);
    flow.nodes.push(folder);
    let modules = test_modules();
    let i = index_of(&flow, "folder");
    match data_leaf_request(&flow, &modules, i) {
        Some(DataLeaf::AuditRelativeFolder(p)) => assert_eq!(p, "sub"),
        other => panic!("unexpected request {:?}", other),
    }
    assert!(data_leaf_request(&flow, &modules, index_of(&flow, "all")).is_none());
    let mut src = sources(&flow, Vec::new(), Vec::new());
    src.leaves[i] = Some(Ok(DataPortValue {
        data_type: "folder".to_string(),
        items: Vec::new(),
        path: Some("D:/p/sub".to_string()),
        name: Some("sub".to_string()),
        relative_path: Some("sub".to_string()),
    }));
    let v = resolve_data_value(&flow, &modules, &src, "folder", "folder").expect("folder");
    assert_eq!(v.path.as_deref(), Some("D:/p/sub"));
    src.leaves[i] = Some(Err("文件夹不存在：D:/p/sub".to_string()));
    assert_eq!(resolve_data_value(&flow, &modules, &src, "folder", "folder").unwrap_err(), "文件夹不存在：D:/p/sub");
}

#[test]
fn audit_folder_is_the_first_chosen_folder() {
    let asset = |kind: &str, path: &str| AuditAsset {
        id: "a".to_string(),
        kind: kind.to_string(),
        path: path.to_string(),
        name: "n".to_string(),
        extension: String::new(),
    };
    assert_eq!(audit_folder_root(&vec![asset("file", "D:/x.png"), asset("directory", "  "), asset("directory", " D:/in ")]).as_deref(), Ok("D:/in"));
    assert_eq!(audit_folder_root(&vec![asset("file", "D:/x.png")]).unwrap_err(), "本次运行没有选择待审核文件夹。");
}

#[test]
fn module_launch_arguments_get_their_placeholders() {
    let mut m = test_module("custom.x", "X", "text_safety");
    assert_eq!(
        module_launch_args(&m, "in.json", "out.json", "res", "{}"),
        vec!["--input", "in.json", "--output", "out.json"]
    );
    m.launch.args = vec!["-File".to_string(), "run.ps1".to_string(), "-InputPath".to_string(), "{inputJson}".to_string(), "{paramsJson}".to_string()];
    assert_eq!(
        module_launch_args(&m, "in.json", "out.json", "res", "{\"a\":1}"),
        vec!["-File", "run.ps1", "-InputPath", "in.json", "{\"a\":1}", "--output", "out.json"]
    );
    m.model_path = Some("D:/model".to_string());
    let mut n = node("n", "custom.x", "X", 0.0, 0.0);
    assert_eq!(step_model_path(&m, &n), "D:/model");
    n.config = obj(vec![("modelPath", s(" D:/other "))]);
    assert_eq!(step_model_path(&m, &n), "D:/other");
    let missing = missing_output_value("X", "");
    assert_eq!(missing.get("status").and_then(|v| v.as_str()), Some("error"));
    assert_eq!(
        missing.get("message").and_then(|v| v.as_str()),
        Some("模块 X 没有生成结果文件，进程可能异常退出。")
    );
}

#[test]
fn sequence_only_flows_plan_in_canvas_order() {
    let flow = FlowDefinition {
        id: "f".to_string(),
        name: "f".to_string(),
        version: 1,
        nodes: vec![
            node(START_NODE_ID, START_MODULE_ID, "开始", 0.0, 0.0),
            node("b", "custom.b", "B", 1.0, 5.0),
            node("a", "custom.a", "A", 1.0, -5.0),
            node(OUTPUT_NODE_ID, OUTPUT_MODULE_ID, "输出", 2.0, 0.0),
        ],
        edges: vec![
            sequence_edge("s_b", START_NODE_ID, "b"),
            sequence_edge("s_a", START_NODE_ID, "a"),
            sequence_edge("b_o", "b", OUTPUT_NODE_ID),
            sequence_edge("a_o", "a", OUTPUT_NODE_ID),
        ],
    };
    let mut modules = test_modules();
    modules.push(test_module("custom.a", "A", "script"));
    modules.push(test_module("custom.b", "B", "script"));
    let (_, ordered) = prepare_run(flow, &modules).expect("valid");
    let ids: Vec<&str> = ordered.iter().map(|(n, _)| n.id.as_str()).collect();
    assert_eq!(ids, vec![START_NODE_ID, "a", "b", OUTPUT_NODE_ID]);
    let groups: Vec<usize> = ordered.iter().map(|(_, g)| *g).collect();
    assert_eq!(groups, vec![0, 1, 1, 2]);
}
