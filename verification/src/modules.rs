//! Module definitions: the built-in system modules, the checks a module
//! folder's definition goes through, its icon, and its read-me.
use crate::catalog::{
    known_data_type, known_data_type_spec, normalize_module_id, normalize_module_id_spec, opt_view,
    ModuleDataOutput, ModuleInfo, ModuleLaunch, ModuleParameter, ANNOTATION_MODULE_ID,
    CANVAS_GROUP_MODULE_ID, CANVAS_NOTE_MODULE_ID, DATA_ALL_IMAGES_MODULE_ID, DATA_ALL_TEXTS_MODULE_ID,
    DATA_ARTIFACT_FOLDER_MODULE_ID, DATA_ARTIFACT_IMAGES_MODULE_ID, DATA_ARTIFACT_RELATIVE_FOLDER_MODULE_ID,
    DATA_ARTIFACT_TEXTS_MODULE_ID, DATA_AUDIT_FOLDER_MODULE_ID, DATA_AUDIT_RELATIVE_FOLDER_MODULE_ID,
    DATA_MERGE_IMAGES_MODULE_ID, DATA_MERGE_TEXTS_MODULE_ID, DATA_RELATIVE_IMAGES_MODULE_ID,
    DATA_RELATIVE_TEXTS_MODULE_ID, OUTPUT_MODULE_ID, START_MODULE_ID,
};
use crate::json::{JsonValue, JsonView};
use crate::strs::{
    ascii_lower_seq, chars_of, concat2, concat3, contains_char, str_eq, string_from_chars, to_ascii_lowercase,
    trim, trim_spec,
};
use base64::Engine;
use vstd::prelude::*;

verus! {

/// The launch description of a system module: nothing to start, only notes.
pub open spec fn is_system_launch(l: ModuleLaunch, notes: Seq<char>) -> bool {
    &&& l.launch_type@ == "system"@
    &&& l.command is None
    &&& l.url is None
    &&& l.method is None
    &&& l.args@.len() == 0
    &&& l.notes@ == notes
}

/// The launch description of a system module.
pub fn system_launch(notes: &str) -> (r: ModuleLaunch)
    ensures
        is_system_launch(r, notes@),
{
    ModuleLaunch {
        launch_type: "system".to_owned(),
        command: None,
        url: None,
        method: None,
        args: Vec::new(),
        notes: notes.to_owned(),
    }
}

/// The required `relativePath` parameter of a relative data module, with its default.
pub open spec fn is_relative_path_parameter(p: ModuleParameter, default_value: Seq<char>) -> bool {
    &&& p.key@ == "relativePath"@
    &&& p.name@ == "相对路径"@
    &&& p.description@ == "只收集待测项目中这个相对路径下的文件。"@
    &&& p.parameter_type@ == "string"@
    &&& p.default_value@ == JsonView::Str(default_value)
    &&& p.required
    &&& p.options@.len() == 0
}

/// The required `relativePath` parameter of a relative data module.
pub fn relative_path_parameter(default_value: &str) -> (r: ModuleParameter)
    ensures
        is_relative_path_parameter(r, default_value@),
{
    ModuleParameter {
        key: "relativePath".to_owned(),
        name: "相对路径".to_owned(),
        description: "只收集待测项目中这个相对路径下的文件。".to_owned(),
        parameter_type: "string".to_owned(),
        default_value: JsonValue::Str(default_value.to_owned()),
        required: true,
        options: Vec::new(),
    }
}

/// A row of the built-in module table: id, name, kind, summary, icon,
/// launch notes, and the default relative path of the modules that take one.
pub type BuiltinRow = (Seq<char>, Seq<char>, Seq<char>, Seq<char>, Seq<char>, Seq<char>, Option<Seq<char>>);

/// `m` is the built-in system module that `row` describes.
pub open spec fn is_system_module(m: ModuleInfo, row: BuiltinRow) -> bool {
    &&& m.id@ == row.0
    &&& m.name@ == row.1
    &&& m.kind@ == row.2
    &&& m.summary@ == row.3
    &&& m.model_label@ == "无需模型"@
    &&& m.icon@ == row.4
    &&& m.built_in
    &&& m.source@ == "system"@
    &&& m.definition_dir@.len() == 0
    &&& m.icon_path is None
    &&& m.icon_data_url is None
    &&& m.model_path is None
    &&& m.model_configured
    &&& is_system_launch(m.launch, row.5)
    &&& match row.6 {
        None => m.parameters@.len() == 0,
        Some(d) => m.parameters@.len() == 1 && is_relative_path_parameter(m.parameters@[0], d),
    }
    &&& m.data_outputs@.len() == 0
}

/// A built-in system module.
pub fn system_module(
    id: &str,
    name: &str,
    kind: &str,
    summary: &str,
    icon: &str,
    notes: &str,
    relative_default: Option<&str>,
) -> (r: ModuleInfo)
    ensures
        is_system_module(
            r,
            (
                id@,
                name@,
                kind@,
                summary@,
                icon@,
                notes@,
                match relative_default {
                    Some(d) => Some(d@),
                    None => None,
                },
            ),
        ),
{
    let mut parameters: Vec<ModuleParameter> = Vec::new();
    match relative_default {
        Some(d) => parameters.push(relative_path_parameter(d)),
        None => {},
    }
    ModuleInfo {
        id: id.to_owned(),
        name: name.to_owned(),
        kind: kind.to_owned(),
        summary: summary.to_owned(),
        model_label: "无需模型".to_owned(),
        icon: icon.to_owned(),
        built_in: true,
        source: "system".to_owned(),
        definition_dir: String::new(),
        icon_path: None,
        icon_data_url: None,
        model_path: None,
        model_configured: true,
        launch: system_launch(notes),
        parameters,
        data_outputs: Vec::new(),
    }
}

/// The built-in system modules, in the order the editor lists them.
pub open spec fn builtin_table() -> Seq<BuiltinRow> {
    seq![
        (START_MODULE_ID@, "开始"@, "flow_start"@, "流程入口，接收本次审核素材"@, "play-circle"@, "流程入口，不启动外部模块。"@, None),
        (OUTPUT_MODULE_ID@, "输出结果"@, "flow_output"@, "汇总所有步骤并生成 Markdown 报告"@, "file-output"@, "报告汇总节点，不启动外部模块。"@, None),
        (DATA_ALL_IMAGES_MODULE_ID@, "待测项目中所有图片"@, "data_all_images"@, "提供本次待测项目里的全部图片集合"@, "database"@, "数据提供节点，不启动外部模块。"@, None),
        (DATA_ALL_TEXTS_MODULE_ID@, "待测项目中所有文本"@, "data_all_texts"@, "提供本次待测项目里的全部文本集合"@, "file-text"@, "数据提供节点，不启动外部模块。"@, None),
        (DATA_ARTIFACT_IMAGES_MODULE_ID@, "产物文件夹中所有图片"@, "data_artifact_images"@, "提供本次审核产物文件夹里的全部图片集合"@, "hard-drive"@, "数据提供节点，不启动外部模块。"@, None),
        (DATA_ARTIFACT_TEXTS_MODULE_ID@, "产物文件夹中所有文本"@, "data_artifact_texts"@, "提供本次审核产物文件夹里的全部文本集合"@, "hard-drive"@, "数据提供节点，不启动外部模块。"@, None),
        (DATA_RELATIVE_IMAGES_MODULE_ID@, "待测项目相对路径下所有图片"@, "data_relative_images"@, "提供本次待测项目指定相对路径下的图片集合"@, "folder-open"@, "数据提供节点，不启动外部模块。"@, Some("images"@)),
        (DATA_RELATIVE_TEXTS_MODULE_ID@, "待测项目相对路径下所有文本"@, "data_relative_texts"@, "提供本次待测项目指定相对路径下的文本集合"@, "folder-open"@, "数据提供节点，不启动外部模块。"@, Some("texts"@)),
        (DATA_AUDIT_FOLDER_MODULE_ID@, "待审核文件夹"@, "data_audit_folder"@, "提供本次待审核文件夹"@, "folder-open"@, "数据提供节点，不启动外部模块。"@, None),
        (DATA_AUDIT_RELATIVE_FOLDER_MODULE_ID@, "待审核文件夹下相对路径文件夹"@, "data_audit_relative_folder"@, "提供本次待审核文件夹下指定相对路径的文件夹"@, "folder-open"@, "数据提供节点，不启动外部模块。"@, Some("Assets"@)),
        (DATA_ARTIFACT_FOLDER_MODULE_ID@, "产物文件夹"@, "data_artifact_folder"@, "提供本次审核产物文件夹"@, "hard-drive"@, "数据提供节点，不启动外部模块。"@, None),
        (DATA_ARTIFACT_RELATIVE_FOLDER_MODULE_ID@, "待产物文件夹下相对路径文件夹"@, "data_artifact_relative_folder"@, "提供本次审核产物文件夹下指定相对路径的文件夹"@, "hard-drive"@, "数据提供节点，不启动外部模块。"@, Some("outputs"@)),
        (DATA_MERGE_IMAGES_MODULE_ID@, "将两个图片集合合并"@, "data_merge_images"@, "把两个图片集合合并并去重"@, "database"@, "数据合并节点，不启动外部模块。"@, None),
        (DATA_MERGE_TEXTS_MODULE_ID@, "将两个文本集合合并"@, "data_merge_texts"@, "把两个文本集合合并并去重"@, "database"@, "数据合并节点，不启动外部模块。"@, None),
        (ANNOTATION_MODULE_ID@, "注释框"@, "annotation_comment"@, "画布注释和分组框"@, "file-text"@, "注释节点，不启动外部模块。"@, None),
        (CANVAS_GROUP_MODULE_ID@, "分组"@, "canvas_group"@, "创建带名称的画布分组框"@, "group"@, "画布工具组件，不启动外部模块。"@, None),
        (CANVAS_NOTE_MODULE_ID@, "注释"@, "canvas_note"@, "创建独立注释便签"@, "sticky-note"@, "画布工具组件，不启动外部模块。"@, None),
    ]
}

/// The built-in system modules: start, output, the data providers, the
/// merges, and the annotation and canvas tools.
pub fn builtin_module_definitions() -> (r: Vec<ModuleInfo>)
    ensures
        r@.len() == builtin_table().len(),
        forall|i: int| 0 <= i < r@.len() ==> #[trigger] is_system_module(r@[i], builtin_table()[i]),
{
    let ghost t = builtin_table();
    let mut r: Vec<ModuleInfo> = Vec::new();
    r.push(system_module(START_MODULE_ID, "开始", "flow_start", "流程入口，接收本次审核素材", "play-circle", "流程入口，不启动外部模块。", None));
    r.push(system_module(OUTPUT_MODULE_ID, "输出结果", "flow_output", "汇总所有步骤并生成 Markdown 报告", "file-output", "报告汇总节点，不启动外部模块。", None));
    r.push(system_module(DATA_ALL_IMAGES_MODULE_ID, "待测项目中所有图片", "data_all_images", "提供本次待测项目里的全部图片集合", "database", "数据提供节点，不启动外部模块。", None));
    r.push(system_module(DATA_ALL_TEXTS_MODULE_ID, "待测项目中所有文本", "data_all_texts", "提供本次待测项目里的全部文本集合", "file-text", "数据提供节点，不启动外部模块。", None));
    r.push(system_module(DATA_ARTIFACT_IMAGES_MODULE_ID, "产物文件夹中所有图片", "data_artifact_images", "提供本次审核产物文件夹里的全部图片集合", "hard-drive", "数据提供节点，不启动外部模块。", None));
    r.push(system_module(DATA_ARTIFACT_TEXTS_MODULE_ID, "产物文件夹中所有文本", "data_artifact_texts", "提供本次审核产物文件夹里的全部文本集合", "hard-drive", "数据提供节点，不启动外部模块。", None));
    r.push(system_module(DATA_RELATIVE_IMAGES_MODULE_ID, "待测项目相对路径下所有图片", "data_relative_images", "提供本次待测项目指定相对路径下的图片集合", "folder-open", "数据提供节点，不启动外部模块。", Some("images")));
    r.push(system_module(DATA_RELATIVE_TEXTS_MODULE_ID, "待测项目相对路径下所有文本", "data_relative_texts", "提供本次待测项目指定相对路径下的文本集合", "folder-open", "数据提供节点，不启动外部模块。", Some("texts")));
    r.push(system_module(DATA_AUDIT_FOLDER_MODULE_ID, "待审核文件夹", "data_audit_folder", "提供本次待审核文件夹", "folder-open", "数据提供节点，不启动外部模块。", None));
    r.push(system_module(DATA_AUDIT_RELATIVE_FOLDER_MODULE_ID, "待审核文件夹下相对路径文件夹", "data_audit_relative_folder", "提供本次待审核文件夹下指定相对路径的文件夹", "folder-open", "数据提供节点，不启动外部模块。", Some("Assets")));
    r.push(system_module(DATA_ARTIFACT_FOLDER_MODULE_ID, "产物文件夹", "data_artifact_folder", "提供本次审核产物文件夹", "hard-drive", "数据提供节点，不启动外部模块。", None));
    r.push(system_module(DATA_ARTIFACT_RELATIVE_FOLDER_MODULE_ID, "待产物文件夹下相对路径文件夹", "data_artifact_relative_folder", "提供本次审核产物文件夹下指定相对路径的文件夹", "hard-drive", "数据提供节点，不启动外部模块。", Some("outputs")));
    r.push(system_module(DATA_MERGE_IMAGES_MODULE_ID, "将两个图片集合合并", "data_merge_images", "把两个图片集合合并并去重", "database", "数据合并节点，不启动外部模块。", None));
    r.push(system_module(DATA_MERGE_TEXTS_MODULE_ID, "将两个文本集合合并", "data_merge_texts", "把两个文本集合合并并去重", "database", "数据合并节点，不启动外部模块。", None));
    r.push(system_module(ANNOTATION_MODULE_ID, "注释框", "annotation_comment", "画布注释和分组框", "file-text", "注释节点，不启动外部模块。", None));
    r.push(system_module(CANVAS_GROUP_MODULE_ID, "分组", "canvas_group", "创建带名称的画布分组框", "group", "画布工具组件，不启动外部模块。", None));
    r.push(system_module(CANVAS_NOTE_MODULE_ID, "注释", "canvas_note", "创建独立注释便签", "sticky-note", "画布工具组件，不启动外部模块。", None));
    r
}

/// The part after the last `.` of `s`, when `s` has one.
pub open spec fn after_last_dot(s: Seq<char>) -> Option<Seq<char>>
    decreases s.len(),
{
    if s.len() == 0 {
        None
    } else if s.last() == '.' {
        Some(Seq::empty())
    } else {
        match after_last_dot(s.drop_last()) {
            Some(x) => Some(x.push(s.last())),
            None => None,
        }
    }
}

/// The image file extensions an icon may have.
pub open spec fn is_image_extension(e: Seq<char>) -> bool {
    ||| e == "png"@
    ||| e == "jpg"@
    ||| e == "jpeg"@
    ||| e == "webp"@
    ||| e == "svg"@
    ||| e == "gif"@
    ||| e == "bmp"@
    ||| e == "ico"@
}

/// An icon names an image file (rather than a built-in icon name): it holds
/// a path separator, starts with a dot, or ends in an image extension.
pub open spec fn is_image_icon_reference_spec(icon: Seq<char>) -> bool {
    let t = trim_spec(icon);
    if t.contains('/') || t.contains('\\') || (t.len() > 0 && t[0] == '.') {
        true
    } else {
        match after_last_dot(ascii_lower_seq(t)) {
            Some(e) => is_image_extension(e),
            None => false,
        }
    }
}

/// The part after the last `.` of a character sequence.
pub fn chars_after_last_dot(v: &Vec<char>) -> (r: Option<Vec<char>>)
    ensures
        match r {
            Some(x) => after_last_dot(v@) == Some(x@),
            None => after_last_dot(v@) is None,
        },
{
    let mut i: usize = v.len();
    assert(v@.take(v@.len() as int) =~= v@);
    assert(v@.skip(v@.len() as int) =~= Seq::<char>::empty());
    proof {
        match after_last_dot(v@) {
            Some(x) => {
                assert(x + Seq::<char>::empty() =~= x);
            },
            None => {},
        }
    }
    while i > 0
        invariant
            i <= v@.len(),
            forall|j: int| i <= j < v@.len() ==> v@[j] != '.',
            after_last_dot(v@) == match after_last_dot(v@.take(i as int)) {
                Some(x) => Some(x + v@.skip(i as int)),
                None => None,
            },
        decreases i,
    {
        let ghost pre = v@.take(i as int);
        assert(pre.drop_last() =~= v@.take(i - 1));
        if v[i - 1] == '.' {
            let tail = crate::strs::chars_slice(v, i, v.len());
            assert(after_last_dot(pre) == Some(Seq::<char>::empty()));
            assert(Seq::<char>::empty() + v@.skip(i as int) =~= tail@);
            return Some(tail);
        }
        proof {
            match after_last_dot(v@.take(i - 1)) {
                Some(x) => {
                    assert(x.push(v@[i - 1]) + v@.skip(i as int) =~= x + v@.skip(i - 1));
                },
                None => {},
            }
        }
        i -= 1;
    }
    assert(v@.take(0) =~= Seq::<char>::empty());
    None
}

/// Whether an icon names an image file.
pub fn is_image_icon_reference(icon: &str) -> (r: bool)
    ensures
        r == is_image_icon_reference_spec(icon@),
{
    let t = trim(icon);
    let tv = chars_of(t.as_str());
    if contains_char(t.as_str(), '/') || contains_char(t.as_str(), '\\') || (tv.len() > 0 && tv[0] == '.') {
        return true;
    }
    let lower = to_ascii_lowercase(t.as_str());
    let lv = chars_of(lower.as_str());
    match chars_after_last_dot(&lv) {
        Some(e) => {
            let es = string_from_chars(&e);
            let e = es.as_str();
            str_eq(e, "png") || str_eq(e, "jpg") || str_eq(e, "jpeg") || str_eq(e, "webp") || str_eq(e, "svg")
                || str_eq(e, "gif") || str_eq(e, "bmp") || str_eq(e, "ico")
        },
        None => false,
    }
}

/// The MIME type of an icon file by its extension (compared case-insensitively).
pub open spec fn icon_mime_type_spec(extension: Seq<char>) -> Option<Seq<char>> {
    let e = ascii_lower_seq(extension);
    if e == "png"@ {
        Some("image/png"@)
    } else if e == "jpg"@ || e == "jpeg"@ {
        Some("image/jpeg"@)
    } else if e == "webp"@ {
        Some("image/webp"@)
    } else if e == "svg"@ {
        Some("image/svg+xml"@)
    } else if e == "gif"@ {
        Some("image/gif"@)
    } else if e == "bmp"@ {
        Some("image/bmp"@)
    } else if e == "ico"@ {
        Some("image/x-icon"@)
    } else {
        None
    }
}

/// The MIME type of an icon file by its extension.
pub fn icon_mime_type(extension: &str) -> (r: Option<&'static str>)
    ensures
        crate::catalog::opt_str_view(r) == icon_mime_type_spec(extension@),
{
    let lower = to_ascii_lowercase(extension);
    let e = lower.as_str();
    if str_eq(e, "png") {
        Some("image/png")
    } else if str_eq(e, "jpg") || str_eq(e, "jpeg") {
        Some("image/jpeg")
    } else if str_eq(e, "webp") {
        Some("image/webp")
    } else if str_eq(e, "svg") {
        Some("image/svg+xml")
    } else if str_eq(e, "gif") {
        Some("image/gif")
    } else if str_eq(e, "bmp") {
        Some("image/bmp")
    } else if str_eq(e, "ico") {
        Some("image/x-icon")
    } else {
        None
    }
}

/// The character of a six-bit value in the standard base64 alphabet.
pub open spec fn base64_char(v: int) -> char {
    if v < 26 {
        (65 + v) as char
    } else if v < 52 {
        (97 + v - 26) as char
    } else if v < 62 {
        (48 + v - 52) as char
    } else if v == 62 {
        '+'
    } else {
        '/'
    }
}

/// Standard base64 with `=` padding: each group of three bytes becomes four
/// characters of six bits each; a last group of one or two bytes is padded.
pub open spec fn base64_spec(b: Seq<u8>) -> Seq<char>
    decreases b.len(),
{
    if b.len() == 0 {
        Seq::empty()
    } else {
        let x = b[0] as int;
        if b.len() == 1 {
            seq![base64_char(x / 4), base64_char((x % 4) * 16), '=', '=']
        } else {
            let y = b[1] as int;
            if b.len() == 2 {
                seq![base64_char(x / 4), base64_char((x % 4) * 16 + y / 16), base64_char((y % 16) * 4), '=']
            } else {
                let z = b[2] as int;
                seq![
                    base64_char(x / 4),
                    base64_char((x % 4) * 16 + y / 16),
                    base64_char((y % 16) * 4 + z / 64),
                    base64_char(z % 64),
                ] + base64_spec(b.skip(3))
            }
        }
    }
}

/// Encodes bytes as standard, padded base64 (`base64`'s `BASE64_STANDARD.encode`).
/// The encoder panics when the encoded length overflows `usize`; the bound
/// on the input rules that out.
#[verifier::external_body]
fn base64_standard(bytes: &[u8]) -> (r: String)
    requires
        bytes@.len() <= usize::MAX / 2,
    ensures
        r@ == base64_spec(bytes@),
{
    base64::prelude::BASE64_STANDARD.encode(bytes)
}

/// The data URL of an icon: its MIME type by extension and its bytes as
/// base64; none for an unknown extension or unread bytes.
pub open spec fn icon_data_url_spec(extension: Seq<char>, bytes: Option<Seq<u8>>) -> Option<Seq<char>> {
    match (icon_mime_type_spec(extension), bytes) {
        (Some(m), Some(b)) => Some("data:"@ + m + ";base64,"@ + base64_spec(b)),
        _ => None,
    }
}

/// The data URL of an icon file, from its extension and its bytes (`None`
/// when they could not be read).
pub fn module_icon_data_url(extension: &str, bytes: Option<Vec<u8>>) -> (r: Option<String>)
    requires
        bytes matches Some(b) ==> b@.len() <= usize::MAX / 2,
    ensures
        opt_view(r) == icon_data_url_spec(
            extension@,
            match bytes {
                Some(b) => Some(b@),
                None => None,
            },
        ),
{
    let mime = match icon_mime_type(extension) {
        Some(m) => m,
        None => {
            return None;
        },
    };
    let b = match bytes {
        Some(b) => b,
        None => {
            return None;
        },
    };
    let encoded = base64_standard(b.as_slice());
    let mut url = concat3("data:", mime, ";base64,");
    url.append(encoded.as_str());
    Some(url)
}

/// The read-me written into a module's folder.
pub open spec fn module_readme_spec(m: ModuleInfo) -> Seq<char> {
    "# "@ + m.name@ + "\n\n"@ + m.summary@ + "\n\n- 模块 ID："@ + m.id@ + "\n- 类型："@ + m.kind@ + "\n- 来源："@
        + m.source@ + "\n- 启动方式："@ + m.launch.launch_type@
        + "\n\n这个文件夹是模块定义目录。`module.json` 描述模块参数和入口信息。\n"@
}

/// The read-me written into a module's folder.
pub fn module_readme(module: &ModuleInfo) -> (r: String)
    ensures
        r@ == module_readme_spec(*module),
{
    let mut t = concat3("# ", module.name.as_str(), "\n\n");
    t.append(module.summary.as_str());
    t.append("\n\n- 模块 ID：");
    t.append(module.id.as_str());
    t.append("\n- 类型：");
    t.append(module.kind.as_str());
    t.append("\n- 来源：");
    t.append(module.source.as_str());
    t.append("\n- 启动方式：");
    t.append(module.launch.launch_type.as_str());
    t.append("\n\n这个文件夹是模块定义目录。`module.json` 描述模块参数和入口信息。\n");
    assert(t@ =~= module_readme_spec(*module));
    t
}

/// What a module definition's folder shows: the folder, its definition
/// file, the icon file that the icon names when it is there, that file's data
/// URL, and the folder's `Model` subfolder when there is one.
#[derive(Debug)]
pub struct ModuleFolderFacts {
    pub folder: String,
    pub definition_file: String,
    pub icon_path: Option<String>,
    pub icon_data_url: Option<String>,
    pub model_dir: Option<String>,
}

/// The problem with one declared data output, if any.
pub open spec fn output_error(id: Seq<char>, o: ModuleDataOutput) -> Option<Seq<char>> {
    let handle = trim_spec(o.handle@);
    let data_type = trim_spec(o.data_type@);
    if handle.len() == 0 {
        Some("模块 "@ + id + " 存在空的数据输出口。"@)
    } else if known_data_type_spec(data_type) is None {
        Some("模块 "@ + id + " 的数据输出口 "@ + handle + " 使用了未知数据类型："@ + data_type)
    } else {
        None
    }
}

/// The problem with the first of the first `k` declared outputs that has one.
pub open spec fn first_output_error(id: Seq<char>, outputs: Seq<ModuleDataOutput>, k: int) -> Option<Seq<char>>
    decreases k,
{
    if k <= 0 {
        None
    } else {
        match first_output_error(id, outputs, k - 1) {
            Some(e) => Some(e),
            None => output_error(id, outputs[k - 1]),
        }
    }
}

/// Once one of the first `k` outputs has a problem, that problem stays the first.
proof fn lemma_first_error_stays(id: Seq<char>, outputs: Seq<ModuleDataOutput>, k: int, n: int)
    requires
        0 <= k <= n,
        first_output_error(id, outputs, k) is Some,
    ensures
        first_output_error(id, outputs, n) == first_output_error(id, outputs, k),
    decreases n - k,
{
    if n > k {
        lemma_first_error_stays(id, outputs, k, n - 1);
    }
}

/// The problem with a module definition, if any: a missing id, name, kind or
/// icon; a bad data output; or an icon file that is not there.
pub open spec fn module_definition_error(m: ModuleInfo, f: ModuleFolderFacts) -> Option<Seq<char>> {
    let id = normalize_module_id_spec(trim_spec(m.id@));
    let icon = trim_spec(m.icon@);
    if id.len() == 0 {
        Some("模块定义 "@ + f.definition_file@ + " 缺少 id。"@)
    } else if trim_spec(m.name@).len() == 0 {
        Some("模块 "@ + id + " 缺少 name。"@)
    } else if trim_spec(m.kind@).len() == 0 {
        Some("模块 "@ + id + " 缺少 kind。"@)
    } else if icon.len() == 0 {
        Some("模块 "@ + id + " 缺少 icon。"@)
    } else {
        match first_output_error(id, m.data_outputs@, m.data_outputs@.len() as int) {
            Some(e) => Some(e),
            None => if is_image_icon_reference_spec(icon) && f.icon_path is None {
                Some("模块 "@ + id + " 的图标文件不存在："@ + icon)
            } else {
                None
            },
        }
    }
}

/// A declared output with its fields trimmed and a blank name replaced by the handle.
pub open spec fn output_normalized(o: ModuleDataOutput, r: ModuleDataOutput) -> bool {
    &&& r.handle@ == trim_spec(o.handle@)
    &&& r.name@ == if trim_spec(o.name@).len() == 0 {
        trim_spec(o.handle@)
    } else {
        trim_spec(o.name@)
    }
    &&& r.data_type@ == trim_spec(o.data_type@)
}

/// A blank or absent model path.
pub open spec fn blank_model_path(p: Option<String>) -> bool {
    match p {
        Some(s) => trim_spec(s@).len() == 0,
        None => true,
    }
}

/// `r` is module definition `m` after normalisation in its folder: id, name,
/// kind and icon trimmed (the id brought up to date), the folder facts
/// filled in, the `Model` subfolder taken as model path when none is set,
/// and each data output normalised.
pub open spec fn definition_normalized(m: ModuleInfo, f: ModuleFolderFacts, r: ModuleInfo) -> bool {
    &&& r.id@ == normalize_module_id_spec(trim_spec(m.id@))
    &&& r.name@ == trim_spec(m.name@)
    &&& r.kind@ == trim_spec(m.kind@)
    &&& r.icon@ == trim_spec(m.icon@)
    &&& r.summary == m.summary
    &&& r.model_label == m.model_label
    &&& r.built_in == m.built_in
    &&& r.source == m.source
    &&& r.definition_dir@ == f.folder@
    &&& r.icon_path == f.icon_path
    &&& r.icon_data_url == f.icon_data_url
    &&& if blank_model_path(m.model_path) && f.model_dir is Some {
        r.model_path == f.model_dir && r.model_configured
    } else {
        r.model_path == m.model_path && r.model_configured == m.model_configured
    }
    &&& r.launch == m.launch
    &&& r.parameters == m.parameters
    &&& r.data_outputs@.len() == m.data_outputs@.len()
    &&& forall|i: int| 0 <= i < m.data_outputs@.len() ==> output_normalized(m.data_outputs@[i], #[trigger] r.data_outputs@[i])
}

/// Checks and normalises a module definition read from its folder.
pub fn normalize_module_definition(module: ModuleInfo, facts: ModuleFolderFacts) -> (r: Result<ModuleInfo, String>)
    ensures
        match r {
            Ok(m) => module_definition_error(module, facts) is None && definition_normalized(module, facts, m),
            Err(e) => module_definition_error(module, facts) == Some(e@),
        },
{
    let ghost m0 = module;
    let ghost f0 = facts;
    let ModuleInfo {
        id,
        name,
        kind,
        summary,
        model_label,
        icon,
        built_in,
        source,
        definition_dir: _,
        icon_path: _,
        icon_data_url: _,
        model_path,
        model_configured,
        launch,
        parameters,
        data_outputs,
    } = module;
    let ModuleFolderFacts { folder, definition_file, icon_path, icon_data_url, model_dir } = facts;
    let id = normalize_module_id(trim(id.as_str()).as_str());
    let name = trim(name.as_str());
    let kind = trim(kind.as_str());
    let icon = trim(icon.as_str());
    let blank_path = match &model_path {
        Some(p) => trim(p.as_str()).as_str().is_empty(),
        None => true,
    };
    let (model_path, model_configured) = if blank_path && model_dir.is_some() {
        (model_dir, true)
    } else {
        (model_path, model_configured)
    };
    if id.as_str().is_empty() {
        return Err(concat3("模块定义 ", definition_file.as_str(), " 缺少 id。"));
    }
    if name.as_str().is_empty() {
        return Err(concat3("模块 ", id.as_str(), " 缺少 name。"));
    }
    if kind.as_str().is_empty() {
        return Err(concat3("模块 ", id.as_str(), " 缺少 kind。"));
    }
    if icon.as_str().is_empty() {
        return Err(concat3("模块 ", id.as_str(), " 缺少 icon。"));
    }
    let ghost outs = m0.data_outputs@;
    let mut outputs: Vec<ModuleDataOutput> = Vec::new();
    let mut failed: Option<String> = None;
    let mut k: usize = 0;
    while k < data_outputs.len() && failed.is_none()
        invariant
            outs == data_outputs@,
            id@ == normalize_module_id_spec(trim_spec(m0.id@)),
            k <= outs.len(),
            outputs@.len() == k,
            failed is None ==> first_output_error(id@, outs, k as int) is None,
            failed matches Some(e) ==> first_output_error(id@, outs, outs.len() as int) == Some(e@),
            forall|i: int| 0 <= i < k ==> output_normalized(outs[i], #[trigger] outputs@[i]),
        decreases outs.len() - k, if failed is None { 1int } else { 0int },
    {
        let o = &data_outputs[k];
        let handle = trim(o.handle.as_str());
        let data_type = trim(o.data_type.as_str());
        let ghost err = output_error(id@, outs[k as int]);
        if handle.as_str().is_empty() {
            assert(first_output_error(id@, outs, k + 1) == err);
            proof {
                lemma_first_error_stays(id@, outs, k + 1, outs.len() as int);
            }
            failed = Some(concat3("模块 ", id.as_str(), " 存在空的数据输出口。"));
        } else {
            let trimmed_name = trim(o.name.as_str());
            let name = if trimmed_name.as_str().is_empty() {
                handle.clone()
            } else {
                trimmed_name
            };
            if known_data_type(data_type.as_str()).is_none() {
                assert(first_output_error(id@, outs, k + 1) == err);
                proof {
                    lemma_first_error_stays(id@, outs, k + 1, outs.len() as int);
                }
                let mut e = concat3("模块 ", id.as_str(), " 的数据输出口 ");
                e.append(handle.as_str());
                e.append(" 使用了未知数据类型：");
                e.append(data_type.as_str());
                failed = Some(e);
            } else {
                outputs.push(ModuleDataOutput { handle, name, data_type });
                k += 1;
            }
        }
    }
    match failed {
        Some(e) => {
            return Err(e);
        },
        None => {},
    }
    if is_image_icon_reference(icon.as_str()) && icon_path.is_none() {
        let mut e = concat3("模块 ", id.as_str(), " 的图标文件不存在：");
        e.append(icon.as_str());
        return Err(e);
    }
    Ok(
        ModuleInfo {
            id,
            name,
            kind,
            summary,
            model_label,
            icon,
            built_in,
            source,
            definition_dir: folder,
            icon_path,
            icon_data_url,
            model_path,
            model_configured,
            launch,
            parameters,
            data_outputs: outputs,
        },
    )
}

/// Some node of the flow uses module `id` (under its current id).
pub open spec fn flow_uses_module(nodes: Seq<crate::flow::NodeView>, id: Seq<char>) -> bool {
    exists|i: int| 0 <= i < nodes.len() && normalize_module_id_spec(#[trigger] nodes[i].module_id) == id
}

/// Whether module `module_id` may be removed, given the registered modules
/// and the saved flow, if any: its id brought up to date when it may; else
/// why not (none chosen, a built-in module, an unknown one, one that was not
/// imported, or one the flow uses).
pub open spec fn removal_spec(module_id: Seq<char>, ms: Seq<ModuleInfo>, flow: Option<crate::flow::FlowView>) -> Result<Seq<char>, Seq<char>> {
    let id = normalize_module_id_spec(trim_spec(module_id));
    if id.len() == 0 {
        Err("请选择要移除的模块。"@)
    } else if crate::catalog::is_builtin_module_id_spec(id) {
        Err("预置模块不能移除。"@)
    } else {
        match crate::catalog::lookup_module(ms, id) {
            None => Err("找不到模块 "@ + id),
            Some(m) => if m.source@ != "custom"@ || m.built_in {
                Err("只能移除导入的自定义模块。"@)
            } else if flow matches Some(f) && flow_uses_module(f.nodes, id) {
                Err("模块 "@ + m.name@ + " 已在当前流程中使用，请先从流程里删除相关步骤。"@)
            } else {
                Ok(id)
            },
        }
    }
}

/// Checks that module `module_id` may be removed; returns its current id.
#[verifier::loop_isolation(false)]
pub fn module_removal_check(module_id: &str, modules: &Vec<ModuleInfo>, flow: Option<&crate::flow::FlowDefinition>) -> (r: Result<String, String>)
    ensures
        match removal_spec(
            module_id@,
            modules@,
            match flow {
                Some(f) => Some(f@),
                None => None,
            },
        ) {
            Ok(id) => r matches Ok(s) && s@ == id,
            Err(e) => r matches Err(s) && s@ == e,
        },
{
    let t = trim(module_id);
    let id = normalize_module_id(t.as_str());
    if id.as_str().is_empty() {
        return Err("请选择要移除的模块。".to_owned());
    }
    if crate::catalog::is_builtin_module_id(id.as_str()) {
        return Err("预置模块不能移除。".to_owned());
    }
    let mi = match crate::catalog::find_module(modules, id.as_str()) {
        None => {
            return Err(concat2("找不到模块 ", id.as_str()));
        },
        Some(mi) => mi,
    };
    let m = &modules[mi];
    if !str_eq(m.source.as_str(), "custom") || m.built_in {
        return Err("只能移除导入的自定义模块。".to_owned());
    }
    if let Some(f) = flow {
        let ghost nv = f@.nodes;
        let mut i: usize = 0;
        while i < f.nodes.len()
            invariant
                nv == f@.nodes,
                i <= nv.len(),
                forall|j: int| 0 <= j < i ==> normalize_module_id_spec(#[trigger] nv[j].module_id) != id@,
            decreases nv.len() - i,
        {
            assert(nv[i as int].module_id == f.nodes@[i as int].module_id@);
            let used = normalize_module_id(f.nodes[i].module_id.as_str());
            if str_eq(used.as_str(), id.as_str()) {
                proof {
                    assert(normalize_module_id_spec(nv[i as int].module_id) == id@);
                    assert(flow_uses_module(nv, id@));
                }
                return Err(concat3("模块 ", m.name.as_str(), " 已在当前流程中使用，请先从流程里删除相关步骤。"));
            }
            i += 1;
        }
    }
    Ok(id)
}

} // verus!
