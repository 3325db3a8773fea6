use ugc_audit::catalog::{
    ModuleInfo, DATA_ALL_IMAGES_MODULE_ID, DATA_ALL_TEXTS_MODULE_ID, DATA_MERGE_TEXTS_MODULE_ID,
    HANDLE_IMAGES_IN, HANDLE_IMAGES_OUT, HANDLE_TEXTS_A_IN, HANDLE_TEXTS_B_IN, HANDLE_TEXTS_IN,
    HANDLE_TEXTS_OUT, OUTPUT_MODULE_ID, OUTPUT_NODE_ID, START_MODULE_ID, START_NODE_ID,
};
use ugc_audit::flow::{
    data_edge, default_flow, normalize_flow_edge, normalized_edge_type, sequence_edge,
    FlowDefinition, FlowEdge, FlowNode, Position, EDGE_TYPE_DATA, EDGE_TYPE_SEQUENCE,
};
use ugc_audit::graph::has_path;
use ugc_audit::json::JsonValue;
use ugc_audit::modules::{builtin_module_definitions, system_launch};
use ugc_audit::normalize::normalize_flow;
use ugc_audit::plan::{execution_plan, node_ids_distinct, topological_order};
use ugc_audit::validate::validate_flow_inner;

fn test_module(id: &str, name: &str, kind: &str) -> ModuleInfo {
    ModuleInfo {
        id: id.to_string(),
        name: name.to_string(),
        kind: kind.to_string(),
        summary: String::new(),
        model_label: "Model".to_string(),
        icon: "file-check".to_string(),
        built_in: true,
        source: "preset".to_string(),
        definition_dir: String::new(),
        icon_path: None,
        icon_data_url: None,
        model_path: None,
        model_configured: true,
        launch: system_launch("test"),
        parameters: Vec::new(),
        data_outputs: Vec::new(),
    }
}

fn test_modules() -> Vec<ModuleInfo> {
    let mut modules = builtin_module_definitions();
    modules.push(test_module("preset.custom.paddleocr", "图片文字识别", "image_ocr"));
    modules.push(test_module("preset.custom.qwen3guard", "文本合规检测", "text_safety"));
    modules.push(test_module("preset.custom.shieldgemma2", "图片合规检测", "image_safety"));
    modules
}

fn node(id: &str, module_id: &str, label: &str, x: f64, y: f64) -> FlowNode {
    FlowNode {
        id: id.to_string(),
        module_id: module_id.to_string(),
        label: label.to_string(),
        position: Position { x_bits: x.to_bits(), y_bits: y.to_bits() },
        config: JsonValue::Object(Vec::new()),
    }
}

fn group_of(ordered: &[(FlowNode, usize)], id: &str) -> usize {
    ordered.iter().find(|(node, _)| node.id == id).expect("node in order").1
}

#[test]
fn default_flow_has_valid_typed_data_edges() {
    let flow = default_flow();
    let result = validate_flow_inner(&flow, &test_modules());
    assert!(result.valid, "{:?}", result.messages);
    assert!(flow.edges.iter().any(|edge| edge.edge_type == EDGE_TYPE_DATA));
    assert!(flow.nodes.iter().any(|node| node.module_id == DATA_ALL_IMAGES_MODULE_ID));
}

#[test]
fn rejects_mismatched_data_port_types() {
    let flow = FlowDefinition {
        id: "flow.bad".to_string(),
        name: "Bad".to_string(),
        version: 1,
        nodes: vec![
            node(START_NODE_ID, START_MODULE_ID, "开始", 0.0, 0.0),
            node("all_images", DATA_ALL_IMAGES_MODULE_ID, "图片", 0.0, 0.0),
            node("text_safety", "preset.custom.qwen3guard", "文本合规检测", 1.0, 0.0),
            node(OUTPUT_NODE_ID, OUTPUT_MODULE_ID, "输出", 2.0, 0.0),
        ],
        edges: vec![
            sequence_edge("start_text", START_NODE_ID, "text_safety"),
            sequence_edge("text_output", "text_safety", OUTPUT_NODE_ID),
            data_edge("bad_data", "all_images", HANDLE_IMAGES_OUT, "text_safety", HANDLE_TEXTS_IN),
        ],
    };
    let result = validate_flow_inner(&flow, &test_modules());
    assert!(!result.valid);
    assert!(result.messages.iter().any(|message| message.contains("数据类型不匹配")));
}

#[test]
fn module_data_output_can_flow_through_data_node_without_sequence_to_data_node() {
    let flow = FlowDefinition {
        id: "flow.merge-text".to_string(),
        name: "Merge Text".to_string(),
        version: 1,
        nodes: vec![
            node(START_NODE_ID, START_MODULE_ID, "开始", 0.0, 0.0),
            node("all_images", DATA_ALL_IMAGES_MODULE_ID, "待测项目中所有图片", 0.0, 1.0),
            node("all_texts", DATA_ALL_TEXTS_MODULE_ID, "待测项目中所有文本", 1.0, -1.0),
            node("image_ocr", "preset.custom.paddleocr", "图片文字识别", 1.0, 0.0),
            node("merge_texts", DATA_MERGE_TEXTS_MODULE_ID, "将两个文本集合合并", 2.0, -1.0),
            node("text_safety", "preset.custom.qwen3guard", "文本合规检测", 3.0, 0.0),
            node(OUTPUT_NODE_ID, OUTPUT_MODULE_ID, "输出结果", 4.0, 0.0),
        ],
        edges: vec![
            sequence_edge("start_ocr", START_NODE_ID, "image_ocr"),
            sequence_edge("ocr_text", "image_ocr", "text_safety"),
            sequence_edge("text_output", "text_safety", OUTPUT_NODE_ID),
            data_edge("images_to_ocr", "all_images", HANDLE_IMAGES_OUT, "image_ocr", HANDLE_IMAGES_IN),
            data_edge("texts_to_merge", "all_texts", HANDLE_TEXTS_OUT, "merge_texts", HANDLE_TEXTS_A_IN),
            data_edge("ocr_to_merge", "image_ocr", HANDLE_TEXTS_OUT, "merge_texts", HANDLE_TEXTS_B_IN),
            data_edge("merge_to_text", "merge_texts", HANDLE_TEXTS_OUT, "text_safety", HANDLE_TEXTS_IN),
        ],
    };
    let result = validate_flow_inner(&flow, &test_modules());
    assert!(result.valid, "{:?}", result.messages);
}

#[test]
fn output_waits_for_parallel_branches() {
    let flow = default_flow();
    let ordered = topological_order(&flow).expect("ordered");
    assert!(group_of(&ordered, OUTPUT_NODE_ID) > group_of(&ordered, "image_safety"));
    assert!(group_of(&ordered, OUTPUT_NODE_ID) > group_of(&ordered, "text_safety"));
}

fn data_dependency_flow() -> FlowDefinition {
    FlowDefinition {
        id: "flow.data-dependency".to_string(),
        name: "Data Dependency".to_string(),
        version: 1,
        nodes: vec![
            node(START_NODE_ID, START_MODULE_ID, "开始", 0.0, 0.0),
            node("all_images", DATA_ALL_IMAGES_MODULE_ID, "待测项目中所有图片", 0.0, 1.0),
            node("image_ocr", "preset.custom.paddleocr", "图片文字识别", 1.0, 0.0),
            node("text_safety", "preset.custom.qwen3guard", "文本合规检测", 2.0, 0.0),
            node(OUTPUT_NODE_ID, OUTPUT_MODULE_ID, "输出结果", 3.0, 0.0),
        ],
        edges: vec![
            sequence_edge("start_ocr", START_NODE_ID, "image_ocr"),
            sequence_edge("start_text", START_NODE_ID, "text_safety"),
            sequence_edge("text_output", "text_safety", OUTPUT_NODE_ID),
            data_edge("images_to_ocr", "all_images", HANDLE_IMAGES_OUT, "image_ocr", HANDLE_IMAGES_IN),
            data_edge("ocr_to_text", "image_ocr", HANDLE_TEXTS_OUT, "text_safety", HANDLE_TEXTS_IN),
        ],
    }
}

#[test]
fn execution_plan_adds_module_data_dependency_without_sequence_edge() {
    let flow = data_dependency_flow();
    let modules = test_modules();
    let result = validate_flow_inner(&flow, &modules);
    assert!(result.valid, "{:?}", result.messages);
    let plan = execution_plan(&flow, &modules).expect("execution plan");
    assert!(plan
        .dependencies_of("text_safety")
        .expect("text dependencies")
        .contains(&"image_ocr".to_string()));
}

#[test]
fn execution_plan_keeps_multiple_sequence_inputs_waiting() {
    let flow = default_flow();
    let plan = execution_plan(&flow, &test_modules()).expect("execution plan");
    let output_deps = plan.dependencies_of(OUTPUT_NODE_ID).expect("output dependencies");
    assert!(output_deps.contains(&"image_safety".to_string()));
    assert!(output_deps.contains(&"text_safety".to_string()));
}

#[test]
fn upgrades_minimal_flow_to_real_default_flow() {
    let minimal = FlowDefinition {
        id: "flow.default.image-audit".to_string(),
        name: "图片 UGC 默认审核".to_string(),
        version: 1,
        nodes: vec![
            node(START_NODE_ID, START_MODULE_ID, "开始", 0.0, 0.0),
            node(OUTPUT_NODE_ID, OUTPUT_MODULE_ID, "输出结果", 1.0, 0.0),
        ],
        edges: vec![sequence_edge("edge_flow_start_output", START_NODE_ID, OUTPUT_NODE_ID)],
    };
    let modules: Vec<ModuleInfo> = Vec::new();
    let upgraded = normalize_flow(minimal, &modules);
    assert!(upgraded.nodes.iter().any(|node| node.module_id == "preset.custom.paddleocr"));
    assert!(upgraded.nodes.iter().any(|node| node.module_id == "preset.custom.qwen3guard"));
    assert!(upgraded.nodes.iter().any(|node| node.module_id == "preset.custom.shieldgemma2"));
}

#[test]
fn upgrades_legacy_default_flow_with_data_edges() {
    let mut legacy = default_flow();
    legacy.nodes.retain(|node| node.module_id != DATA_ALL_IMAGES_MODULE_ID);
    legacy.edges.retain(|edge| edge.edge_type != EDGE_TYPE_DATA);
    let upgraded = normalize_flow(legacy, &test_modules());
    assert!(upgraded.edges.iter().any(|edge| edge.edge_type == EDGE_TYPE_DATA));
    assert!(validate_flow_inner(&upgraded, &test_modules()).valid);
}

#[test]
fn a_circle_of_steps_is_refused_everywhere() {
    let mut flow = data_dependency_flow();
    flow.edges.push(sequence_edge("ocr_text", "image_ocr", "text_safety"));
    flow.edges.push(sequence_edge("text_ocr", "text_safety", "image_ocr"));
    assert_eq!(topological_order(&flow).unwrap_err(), "流程不能形成闭环。");
    assert_eq!(execution_plan(&flow, &test_modules()).unwrap_err(), "流程不能形成闭环。");
    let result = validate_flow_inner(&flow, &test_modules());
    assert!(!result.valid);
    assert_eq!(result.messages, vec!["流程不能形成闭环。".to_string()]);
}

#[test]
fn a_schedule_runs_every_step_once_after_what_it_waits_for() {
    let flow = data_dependency_flow();
    let ordered = topological_order(&flow).expect("ordered");
    let mut ids: Vec<String> = ordered.iter().map(|(node, _)| node.id.clone()).collect();
    ids.sort();
    let mut expected: Vec<String> = flow
        .nodes
        .iter()
        .filter(|node| node.module_id != DATA_ALL_IMAGES_MODULE_ID)
        .map(|node| node.id.clone())
        .collect();
    expected.sort();
    assert_eq!(ids, expected);
    assert!(group_of(&ordered, START_NODE_ID) < group_of(&ordered, "image_ocr"));
    assert!(group_of(&ordered, START_NODE_ID) < group_of(&ordered, "text_safety"));
    assert!(group_of(&ordered, "text_safety") < group_of(&ordered, OUTPUT_NODE_ID));
    let groups: Vec<usize> = ordered.iter().map(|(_, group)| *group).collect();
    assert!(groups.windows(2).all(|pair| pair[0] <= pair[1]));
}

#[test]
fn validation_names_each_structural_problem() {
    let empty = FlowDefinition {
        id: "flow.empty".to_string(),
        name: "Empty".to_string(),
        version: 1,
        nodes: Vec::new(),
        edges: Vec::new(),
    };
    let result = validate_flow_inner(&empty, &test_modules());
    assert!(!result.valid);
    assert!(result.messages.iter().any(|m| m == "流程至少需要一个步骤。"));

    let mut flow = data_dependency_flow();
    flow.nodes.push(node("text_safety", "unknown.module", "重复", 5.0, 0.0));
    let result = validate_flow_inner(&flow, &test_modules());
    assert!(!result.valid);
    assert!(result.messages.iter().any(|m| m == "步骤 ID 重复：text_safety"));
    assert!(result.messages.iter().any(|m| m == "步骤 重复 使用了未知模块。"));
    assert!(!node_ids_distinct(&flow));
    assert!(node_ids_distinct(&data_dependency_flow()));
}

#[test]
fn a_valid_flow_leads_from_start_to_output() {
    let flow = default_flow();
    assert!(validate_flow_inner(&flow, &test_modules()).valid);
    assert!(has_path(&flow, START_NODE_ID, OUTPUT_NODE_ID));
    assert!(!has_path(&flow, OUTPUT_NODE_ID, START_NODE_ID));
}

#[test]
fn normalized_flows_keep_their_system_nodes() {
    let bare = FlowDefinition {
        id: "flow.bare".to_string(),
        name: "Bare".to_string(),
        version: 1,
        nodes: vec![node("text_safety", "preset.custom.qwen3guard", "文本合规检测", 0.0, 0.0)],
        edges: Vec::new(),
    };
    let normalized = normalize_flow(bare, &test_modules());
    assert_eq!(normalized.nodes.iter().filter(|n| n.module_id == START_MODULE_ID).count(), 1);
    assert_eq!(normalized.nodes.iter().filter(|n| n.module_id == OUTPUT_MODULE_ID).count(), 1);
}

#[test]
fn edge_types_default_to_sequence() {
    assert_eq!(normalized_edge_type(""), EDGE_TYPE_SEQUENCE);
    assert_eq!(normalized_edge_type("weird"), EDGE_TYPE_SEQUENCE);
    assert_eq!(normalized_edge_type(" data "), EDGE_TYPE_SEQUENCE);
    assert_eq!(normalized_edge_type("data"), EDGE_TYPE_DATA);
    let mut edge = FlowEdge {
        id: "e".to_string(),
        from: "a".to_string(),
        to: "b".to_string(),
        edge_type: "other".to_string(),
        from_handle: None,
        to_handle: None,
    };
    normalize_flow_edge(&mut edge);
    assert_eq!(edge.edge_type, EDGE_TYPE_SEQUENCE);
    assert_eq!(edge.from_handle.as_deref(), Some("sequence-out"));
    assert_eq!(edge.to_handle.as_deref(), Some("sequence-in"));
}
