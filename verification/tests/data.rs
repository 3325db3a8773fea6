use ugc_audit::catalog::{
    is_builtin_module_id, is_legacy_preset_module_id, is_pure_data_module_id,
    is_pure_data_module_kind, ModuleDataOutput, ModuleInfo, DATA_TYPE_IMAGES, DATA_TYPE_TEXTS,
};
use ugc_audit::json::JsonValue;
use ugc_audit::modules::{
    builtin_module_definitions, icon_mime_type, is_image_icon_reference, module_icon_data_url,
    normalize_module_definition, system_launch, ModuleFolderFacts,
};
use ugc_audit::ports::{
    all_images_collection, all_texts_collection, collection_from_items,
    compatible_files_from_inputs, merge_collections, progress_value, relative_collection,
};
use ugc_audit::run::AuditFile;
use ugc_audit::scheme::{default_scheme_id, default_scheme_kind, unique_scheme_library_path};
use ugc_audit::settings::{
    append_run_module_env, resolve_app_settings, runtime_dependency_spec,
    runtime_dependency_specs, AppSettings,
};
use ugc_audit::text::{
    markdown_link_text, normalize_package_name, normalized_relative_path, relative_path_matches,
    replace_arg_placeholders, report_file_link, report_target_url, safe_run_dir,
    sanitize_path_segment, site_package_entry_matches, table_cell, task_name_from_note,
};

fn obj(pairs: &[(&str, &str)]) -> JsonValue {
    JsonValue::Object(
        pairs.iter().map(|(k, v)| (k.to_string(), JsonValue::Str(v.to_string()))).collect(),
    )
}

fn item_path(item: &JsonValue) -> Option<&str> {
    item.get("path").and_then(|v| v.as_str())
}

fn file(path: &str, file_type: &str, relative_path: &str) -> AuditFile {
    AuditFile {
        path: path.to_string(),
        name: path.rsplit('/').next().unwrap_or(path).to_string(),
        extension: path.rsplit('.').next().unwrap_or("").to_string(),
        file_type: file_type.to_string(),
        source_asset_id: "asset".to_string(),
        source_asset_name: "素材".to_string(),
        relative_path: relative_path.to_string(),
    }
}

fn definition(id: &str, name: &str, kind: &str, icon: &str) -> ModuleInfo {
    ModuleInfo {
        id: id.to_string(),
        name: name.to_string(),
        kind: kind.to_string(),
        summary: String::new(),
        model_label: "Model".to_string(),
        icon: icon.to_string(),
        built_in: false,
        source: "custom".to_string(),
        definition_dir: String::new(),
        icon_path: None,
        icon_data_url: None,
        model_path: None,
        model_configured: false,
        launch: system_launch("x"),
        parameters: Vec::new(),
        data_outputs: Vec::new(),
    }
}

fn facts(model_dir: Option<&str>) -> ModuleFolderFacts {
    ModuleFolderFacts {
        folder: "D:/mods/demo".to_string(),
        definition_file: "D:/mods/demo/module.json".to_string(),
        icon_path: None,
        icon_data_url: None,
        model_dir: model_dir.map(|s| s.to_string()),
    }
}

#[test]
fn merge_collections_deduplicates_by_path() {
    let left = collection_from_items(
        DATA_TYPE_IMAGES,
        vec![obj(&[("path", "a.png"), ("name", "a.png")]), obj(&[("path", "b.png"), ("name", "b.png")])],
    );
    let right = collection_from_items(
        DATA_TYPE_IMAGES,
        vec![obj(&[("path", "a.png"), ("name", "a copy.png")]), obj(&[("path", "c.png"), ("name", "c.png")])],
    );
    let merged = merge_collections(left, right);
    assert_eq!(merged.items.len(), 3);
    let paths: Vec<&str> = merged.items.iter().filter_map(item_path).collect();
    assert_eq!(paths, vec!["a.png", "b.png", "c.png"]);
    assert_eq!(merged.items[0].get("name").and_then(|v| v.as_str()), Some("a.png"));
}

#[test]
fn merged_texts_are_told_apart_by_source_path_and_text() {
    let left = collection_from_items(
        DATA_TYPE_TEXTS,
        vec![obj(&[("sourceType", "file"), ("path", "a.txt"), ("text", "x")])],
    );
    let right = collection_from_items(
        DATA_TYPE_TEXTS,
        vec![
            obj(&[("sourceType", "file"), ("path", "a.txt"), ("text", "x")]),
            obj(&[("sourceType", "file"), ("path", "a.txt"), ("text", "y")]),
        ],
    );
    let merged = merge_collections(left, right);
    assert_eq!(merged.items.len(), 2);
    assert_eq!(merged.data_type, DATA_TYPE_TEXTS);
}

#[test]
fn progress_value_reads_valid_counts() {
    let value = JsonValue::Object(vec![
        ("processed".to_string(), JsonValue::Number(ugc_audit::json::JsonNumber::PosInt(3))),
        ("total".to_string(), JsonValue::Number(ugc_audit::json::JsonNumber::PosInt(8))),
    ]);
    assert_eq!(progress_value(&value, "processed"), Some(3));
    assert_eq!(progress_value(&value, "total"), Some(8));
    assert_eq!(progress_value(&value, "missing"), None);
    let negative = JsonValue::Object(vec![(
        "total".to_string(),
        JsonValue::Number(ugc_audit::json::JsonNumber::NegInt(-1)),
    )]);
    assert_eq!(progress_value(&negative, "total"), None);
}

#[test]
fn collections_pick_files_by_type_and_folder() {
    let files = vec![
        file("D:/p/a.png", "image", "imgs/a.png"),
        file("D:/p/b.txt", "text", "docs/b.txt"),
        file("D:/p/c.png", "image", "other/c.png"),
        file("D:/p/d.bin", "other", "d.bin"),
    ];
    let images = all_images_collection(&files);
    assert_eq!(images.data_type, DATA_TYPE_IMAGES);
    assert_eq!(images.items.len(), 2);
    let texts_read: Vec<String> = vec![String::new(), "hello".to_string(), String::new(), String::new()];
    let texts = all_texts_collection(&files, &texts_read);
    assert_eq!(texts.items.len(), 1);
    assert_eq!(texts.items[0].get("text").and_then(|v| v.as_str()), Some("hello"));
    let under = relative_collection(&files, &texts_read, DATA_TYPE_IMAGES, "\\imgs\\");
    assert_eq!(under.items.len(), 1);
    assert_eq!(item_path(&under.items[0]), Some("D:/p/a.png"));
}

#[test]
fn compatible_files_skip_repeats_and_previous_outputs() {
    let images = collection_from_items(
        DATA_TYPE_IMAGES,
        vec![
            obj(&[("path", "a.png"), ("name", "a.png")]),
            obj(&[("path", "previous:x"), ("name", "x")]),
            obj(&[("path", "a.png"), ("name", "again")]),
        ],
    );
    let folder = collection_from_items("folder", vec![obj(&[("path", "f")])]);
    let files = compatible_files_from_inputs(&vec![
        ("images".to_string(), images),
        ("folder".to_string(), folder),
    ]);
    assert_eq!(files.len(), 1);
    assert_eq!(files[0].path, "a.png");
    assert_eq!(files[0].file_type, "image");
}

#[test]
fn icon_data_urls_use_base64_of_the_bytes() {
    assert_eq!(
        module_icon_data_url("PNG", Some(b"hi!".to_vec())).as_deref(),
        Some("data:image/png;base64,aGkh")
    );
    assert_eq!(
        module_icon_data_url("svg", Some(b"<svg></svg>".to_vec())).as_deref(),
        Some("data:image/svg+xml;base64,PHN2Zz48L3N2Zz4=")
    );
    assert_eq!(module_icon_data_url("ico", Some(Vec::new())).as_deref(), Some("data:image/x-icon;base64,"));
    assert_eq!(module_icon_data_url("txt", Some(b"x".to_vec())), None);
    assert_eq!(module_icon_data_url("png", None), None);
    assert_eq!(icon_mime_type("JPEG"), Some("image/jpeg"));
    assert!(is_image_icon_reference("icon.SVG"));
    assert!(is_image_icon_reference("./icon"));
    assert!(!is_image_icon_reference("file-check"));
}

#[test]
fn module_definitions_are_checked_and_trimmed() {
    let err = normalize_module_definition(definition("  ", "n", "k", "i"), facts(None)).unwrap_err();
    assert_eq!(err, "模块定义 D:/mods/demo/module.json 缺少 id。");
    let err = normalize_module_definition(definition("custom.a", " ", "k", "i"), facts(None)).unwrap_err();
    assert_eq!(err, "模块 custom.a 缺少 name。");
    let err = normalize_module_definition(definition("custom.a", "n", "", "i"), facts(None)).unwrap_err();
    assert_eq!(err, "模块 custom.a 缺少 kind。");
    let err = normalize_module_definition(definition("custom.a", "n", "k", ""), facts(None)).unwrap_err();
    assert_eq!(err, "模块 custom.a 缺少 icon。");
    let err = normalize_module_definition(definition("custom.a", "n", "k", "icon.png"), facts(None)).unwrap_err();
    assert_eq!(err, "模块 custom.a 的图标文件不存在：icon.png");

    let mut bad_output = definition("custom.a", "n", "k", "i");
    bad_output.data_outputs.push(ModuleDataOutput {
        handle: " ".to_string(),
        name: String::new(),
        data_type: DATA_TYPE_IMAGES.to_string(),
    });
    let err = normalize_module_definition(bad_output, facts(None)).unwrap_err();
    assert_eq!(err, "模块 custom.a 存在空的数据输出口。");
    let mut unknown = definition("custom.a", "n", "k", "i");
    unknown.data_outputs.push(ModuleDataOutput {
        handle: "out".to_string(),
        name: String::new(),
        data_type: "video".to_string(),
    });
    let err = normalize_module_definition(unknown, facts(None)).unwrap_err();
    assert_eq!(err, "模块 custom.a 的数据输出口 out 使用了未知数据类型：video");

    let mut good = definition(" custom.a ", " 名称 ", " text_safety ", " file-check ");
    good.data_outputs.push(ModuleDataOutput {
        handle: " texts ".to_string(),
        name: " ".to_string(),
        data_type: " textCollection ".to_string(),
    });
    let m = normalize_module_definition(good, facts(Some("D:/mods/demo/Model"))).expect("valid");
    assert_eq!(m.id, "custom.a");
    assert_eq!(m.name, "名称");
    assert_eq!(m.kind, "text_safety");
    assert_eq!(m.icon, "file-check");
    assert_eq!(m.definition_dir, "D:/mods/demo");
    assert_eq!(m.model_path.as_deref(), Some("D:/mods/demo/Model"));
    assert!(m.model_configured);
    assert_eq!(m.data_outputs[0].handle, "texts");
    assert_eq!(m.data_outputs[0].name, "texts");
    assert_eq!(m.data_outputs[0].data_type, "textCollection");
}

#[test]
fn builtin_catalog_knows_its_modules() {
    let builtins = builtin_module_definitions();
    assert!(builtins.iter().all(|m| is_builtin_module_id(&m.id)));
    assert!(is_pure_data_module_id("system.data.images.all"));
    assert!(!is_pure_data_module_id("system.start"));
    assert!(is_legacy_preset_module_id("preset.custom.paddleocr"));
    assert!(!is_legacy_preset_module_id("custom.demo"));
    assert!(is_pure_data_module_kind("data_merge_texts"));
    assert!(!is_pure_data_module_kind("text_safety"));
}

#[test]
fn scheme_library_names_are_safe_and_unique() {
    let first = unique_scheme_library_path("默认:审核/方案", &Vec::new());
    assert_eq!(first, "默认_审核_方案.ugcaudit");
    let second = unique_scheme_library_path("默认:审核/方案", &vec![first.clone()]);
    assert_eq!(second, "默认_审核_方案-2.ugcaudit");
    let third = unique_scheme_library_path("默认:审核/方案", &vec![first, second]);
    assert_eq!(third, "默认_审核_方案-3.ugcaudit");
    assert_eq!(default_scheme_id(1_700_000_000_123), "scheme_1700000000123");
    assert_eq!(default_scheme_id(0), "scheme_0");
    assert_eq!(default_scheme_kind(), "ugcAuditScheme");
}

#[test]
fn runtime_dependencies_are_found_by_id() {
    assert_eq!(runtime_dependency_specs().len(), 4);
    let torch = runtime_dependency_spec("torch").expect("torch");
    assert_eq!(torch.name, "Torch");
    assert_eq!(torch.seed_packages, vec!["torch", "torchvision"]);
    assert_eq!(runtime_dependency_spec("numpy").unwrap_err(), "未知运行依赖：numpy");
}

#[test]
fn run_environment_is_appended_in_order() {
    let mut envs = vec![("PATH".to_string(), "x".to_string())];
    append_run_module_env(&mut envs, "run_1", "任务", "D:/res", "D:/art", "D:/art/step");
    let names: Vec<&str> = envs.iter().map(|(k, _)| k.as_str()).collect();
    assert_eq!(
        names,
        vec![
            "PATH",
            "UGCAUDIT_RUN_ID",
            "UGCAUDIT_TASK_NAME",
            "UGCAUDIT_RESOURCE_ROOT",
            "UGCAUDIT_ARTIFACT_DIR",
            "UGCAUDIT_STEP_ARTIFACT_DIR"
        ]
    );
    assert_eq!(envs[2].1, "任务");
    assert_eq!(envs[5].1, "D:/art/step");
}

#[test]
fn blank_settings_take_the_defaults() {
    let resolved = resolve_app_settings(
        AppSettings { artifact_root: "  ".to_string(), dependency_root: "E:/deps".to_string() },
        "D:/products",
        "D:/deps",
    );
    assert_eq!(resolved.artifact_root, "D:/products");
    assert_eq!(resolved.dependency_root, "E:/deps");
}

#[test]
fn artifact_folder_names_are_sanitized() {
    assert_eq!(sanitize_path_segment("每日:审核/任务", "任务"), "每日_审核_任务");
    assert_eq!(sanitize_path_segment("  ..  ", "默认"), "默认");
    assert_eq!(sanitize_path_segment("a::b", "x"), "a_b");
    assert_eq!(sanitize_path_segment(&"x".repeat(100), "y").chars().count(), 80);
    assert_eq!(task_name_from_note("说明\n任务名称：每日:审核/任务\n", "默认方案"), "每日:审核/任务");
    assert_eq!(task_name_from_note("任务名称:  夜间 ", "默认"), "夜间");
    assert_eq!(task_name_from_note("无", "  "), "审核任务");
    assert_eq!(task_name_from_note("无", " 方案 "), "方案");
}

#[test]
fn report_links_are_escaped_and_encoded() {
    assert_eq!(table_cell("a|b\nc"), "a\\|b c");
    assert_eq!(markdown_link_text("[x]\\y"), "\\[x\\]\\\\y");
    assert_eq!(report_target_url("  "), "");
    assert_eq!(report_target_url(" D:/a b "), "ugcaudit://reveal?path=D%3A%2Fa%20b");
    assert_eq!(report_target_url("图"), "ugcaudit://reveal?path=%E5%9B%BE");
    assert_eq!(report_file_link("名", ""), "名");
    assert_eq!(report_file_link("a", "x-y_z.~"), "[a](ugcaudit://reveal?path=x-y_z.~)");
}

#[test]
fn package_names_and_relative_paths_compare_loosely() {
    assert_eq!(normalize_package_name("Pillow-SIMD.x"), "pillow_simd_x");
    assert!(site_package_entry_matches("torchvision-0.1.dist-info", "torchvision"));
    assert!(site_package_entry_matches("six.py", "six"));
    assert!(site_package_entry_matches("Safe-Tensors", "safe_tensors"));
    assert!(!site_package_entry_matches("torchaudio", "torch"));
    assert_eq!(normalized_relative_path("\\a\\b\\ "), "a/b/");
    assert!(relative_path_matches("a/b/c.png", "a/b"));
    assert!(relative_path_matches("x", ""));
    assert!(!relative_path_matches("a/bc", "a/b"));
}

#[test]
fn launch_arguments_and_run_ids() {
    assert_eq!(
        replace_arg_placeholders("{inputJson}|{outputJson}|{resourceRoot}|{paramsJson}", "in", "out", "res", "{}"),
        "in|out|res|{}"
    );
    assert_eq!(safe_run_dir("run_1").as_deref(), Ok("run_1"));
    assert_eq!(safe_run_dir("../x").unwrap_err(), "运行记录 ID 不合法。");
    assert_eq!(safe_run_dir("a/b").unwrap_err(), "运行记录 ID 不合法。");
    assert_eq!(safe_run_dir(" ").unwrap_err(), "运行记录 ID 不合法。");
}
