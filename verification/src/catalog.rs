//! The module catalog: module definitions, the built-in system modules,
//! and the typing of their sequence and data ports.
use crate::json::{
    entries_insert, entries_view, json_as_str, json_get, object_insert, JsonValue, JsonView,
};
use crate::strs::{str_eq, trim, trim_spec};
use vstd::prelude::*;

verus! {

pub const START_NODE_ID: &'static str = "flow_start";

pub const OUTPUT_NODE_ID: &'static str = "flow_output";

pub const START_MODULE_ID: &'static str = "system.start";

pub const OUTPUT_MODULE_ID: &'static str = "system.output";

pub const DATA_ALL_IMAGES_MODULE_ID: &'static str = "system.data.images.all";

pub const DATA_ALL_TEXTS_MODULE_ID: &'static str = "system.data.texts.all";

pub const DATA_ARTIFACT_IMAGES_MODULE_ID: &'static str = "system.data.images.artifacts";

pub const DATA_ARTIFACT_TEXTS_MODULE_ID: &'static str = "system.data.texts.artifacts";

pub const DATA_RELATIVE_IMAGES_MODULE_ID: &'static str = "system.data.images.relative";

pub const DATA_RELATIVE_TEXTS_MODULE_ID: &'static str = "system.data.texts.relative";

pub const DATA_AUDIT_FOLDER_MODULE_ID: &'static str = "system.data.folder.audit";

pub const DATA_AUDIT_RELATIVE_FOLDER_MODULE_ID: &'static str = "system.data.folder.audit.relative";

pub const DATA_ARTIFACT_FOLDER_MODULE_ID: &'static str = "system.data.folder.artifact";

pub const DATA_ARTIFACT_RELATIVE_FOLDER_MODULE_ID: &'static str =
    "system.data.folder.artifact.relative";

pub const DATA_MERGE_IMAGES_MODULE_ID: &'static str = "system.data.images.merge";

pub const DATA_MERGE_TEXTS_MODULE_ID: &'static str = "system.data.texts.merge";

pub const ANNOTATION_MODULE_ID: &'static str = "system.annotation.comment";

pub const CANVAS_GROUP_MODULE_ID: &'static str = "system.canvas.group";

pub const CANVAS_NOTE_MODULE_ID: &'static str = "system.canvas.note";

pub const HANDLE_SEQUENCE_IN: &'static str = "sequence-in";

pub const HANDLE_SEQUENCE_OUT: &'static str = "sequence-out";

pub const HANDLE_IMAGES_IN: &'static str = "images";

pub const HANDLE_IMAGES_OUT: &'static str = "images";

pub const HANDLE_TEXTS_IN: &'static str = "texts";

pub const HANDLE_TEXTS_OUT: &'static str = "texts";

pub const HANDLE_FOLDER_IN: &'static str = "folder";

pub const HANDLE_FOLDER_OUT: &'static str = "folder";

pub const HANDLE_IMAGES_A_IN: &'static str = "images-a";

pub const HANDLE_IMAGES_B_IN: &'static str = "images-b";

pub const HANDLE_TEXTS_A_IN: &'static str = "texts-a";

pub const HANDLE_TEXTS_B_IN: &'static str = "texts-b";

pub const DATA_TYPE_IMAGES: &'static str = "imageCollection";

pub const DATA_TYPE_TEXTS: &'static str = "textCollection";

pub const DATA_TYPE_FOLDER: &'static str = "folder";

/// How a module is started.
#[derive(Debug)]
pub struct ModuleLaunch {
    pub launch_type: String,
    pub command: Option<String>,
    pub url: Option<String>,
    pub method: Option<String>,
    pub args: Vec<String>,
    pub notes: String,
}

impl Default for ModuleLaunch {
    fn default() -> (r: Self)
        ensures
            r.launch_type@ == "manual"@,
            r.command is None,
            r.url is None,
            r.method is None,
            r.args@.len() == 0,
            r.notes@.len() == 0,
    {
        ModuleLaunch {
            launch_type: "manual".to_owned(),
            command: None,
            url: None,
            method: None,
            args: Vec::new(),
            notes: String::new(),
        }
    }
}

/// One choice of a select parameter.
#[derive(Debug)]
pub struct ModuleParameterOption {
    pub label: String,
    pub value: String,
}

/// A parameter that a module accepts in its node configuration.
#[derive(Debug)]
pub struct ModuleParameter {
    pub key: String,
    pub name: String,
    pub description: String,
    pub parameter_type: String,
    pub default_value: JsonValue,
    pub required: bool,
    pub options: Vec<ModuleParameterOption>,
}

/// A data port that a module declares in addition to the ports of its kind.
#[derive(Debug)]
pub struct ModuleDataOutput {
    pub handle: String,
    pub name: String,
    pub data_type: String,
}

/// A module definition (`module.json`).
#[derive(Debug)]
pub struct ModuleInfo {
    pub id: String,
    pub name: String,
    pub kind: String,
    pub summary: String,
    pub model_label: String,
    pub icon: String,
    pub built_in: bool,
    pub source: String,
    pub definition_dir: String,
    pub icon_path: Option<String>,
    pub icon_data_url: Option<String>,
    pub model_path: Option<String>,
    pub model_configured: bool,
    pub launch: ModuleLaunch,
    pub parameters: Vec<ModuleParameter>,
    pub data_outputs: Vec<ModuleDataOutput>,
}

/// The view of an optional string.
pub open spec fn opt_view(o: Option<String>) -> Option<Seq<char>> {
    match o {
        Some(s) => Some(s@),
        None => None,
    }
}

/// A copy of an optional string.
pub fn clone_opt(o: &Option<String>) -> (r: Option<String>)
    ensures
        r == *o,
{
    match o {
        Some(s) => Some(s.clone()),
        None => None,
    }
}

/// A copy of a list of strings.
pub fn clone_strings(v: &Vec<String>) -> (r: Vec<String>)
    ensures
        r@ == v@,
{
    let mut r: Vec<String> = Vec::new();
    let mut i: usize = 0;
    while i < v.len()
        invariant
            i <= v.len(),
            r@ == v@.take(i as int),
        decreases v.len() - i,
    {
        r.push(v[i].clone());
        i += 1;
        assert(r@ =~= v@.take(i as int));
    }
    assert(v@.take(v.len() as int) =~= v@);
    r
}

impl ModuleLaunch {
    /// A copy of this launch description.
    pub fn duplicate(&self) -> (r: Self)
        ensures
            same_launch(r, *self),
    {
        ModuleLaunch {
            launch_type: self.launch_type.clone(),
            command: clone_opt(&self.command),
            url: clone_opt(&self.url),
            method: clone_opt(&self.method),
            args: clone_strings(&self.args),
            notes: self.notes.clone(),
        }
    }
}

impl ModuleParameter {
    /// A copy of this parameter with the same key and default value.
    pub fn duplicate(&self) -> (r: Self)
        ensures
            r.key == self.key,
            r.name == self.name,
            r.description == self.description,
            r.parameter_type == self.parameter_type,
            r.default_value@ == self.default_value@,
            r.required == self.required,
            r.options@.len() == self.options@.len(),
            forall|i: int|
                0 <= i < self.options@.len() ==> #[trigger] r.options@[i] == self.options@[i],
    {
        let mut options: Vec<ModuleParameterOption> = Vec::new();
        let mut i: usize = 0;
        while i < self.options.len()
            invariant
                i <= self.options.len(),
                options@.len() == i,
                forall|j: int| 0 <= j < i ==> #[trigger] options@[j] == self.options@[j],
            decreases self.options.len() - i,
        {
            options.push(
                ModuleParameterOption {
                    label: self.options[i].label.clone(),
                    value: self.options[i].value.clone(),
                },
            );
            i += 1;
        }
        ModuleParameter {
            key: self.key.clone(),
            name: self.name.clone(),
            description: self.description.clone(),
            parameter_type: self.parameter_type.clone(),
            default_value: self.default_value.deep_clone(),
            required: self.required,
            options,
        }
    }
}

/// Parameters copied one by one.
pub fn clone_parameters(v: &Vec<ModuleParameter>) -> (r: Vec<ModuleParameter>)
    ensures
        r@.len() == v@.len(),
        forall|i: int|
            0 <= i < v@.len() ==> #[trigger] r@[i].key == v@[i].key && r@[i].default_value@
                == v@[i].default_value@,
{
    let mut r: Vec<ModuleParameter> = Vec::new();
    let mut i: usize = 0;
    while i < v.len()
        invariant
            i <= v.len(),
            r@.len() == i,
            forall|j: int|
                0 <= j < i ==> #[trigger] r@[j].key == v@[j].key && r@[j].default_value@
                    == v@[j].default_value@,
        decreases v.len() - i,
    {
        r.push(v[i].duplicate());
        i += 1;
    }
    r
}

/// Declared data outputs copied one by one.
pub fn clone_outputs(v: &Vec<ModuleDataOutput>) -> (r: Vec<ModuleDataOutput>)
    ensures
        r@ == v@,
{
    let mut r: Vec<ModuleDataOutput> = Vec::new();
    let mut i: usize = 0;
    while i < v.len()
        invariant
            i <= v.len(),
            r@ == v@.take(i as int),
        decreases v.len() - i,
    {
        r.push(
            ModuleDataOutput {
                handle: v[i].handle.clone(),
                name: v[i].name.clone(),
                data_type: v[i].data_type.clone(),
            },
        );
        i += 1;
        assert(r@ =~= v@.take(i as int));
    }
    assert(v@.take(v.len() as int) =~= v@);
    r
}

impl ModuleInfo {
    /// A copy of this module definition.
    pub fn duplicate(&self) -> (r: Self)
        ensures
            same_module(r, *self),
    {
        ModuleInfo {
            id: self.id.clone(),
            name: self.name.clone(),
            kind: self.kind.clone(),
            summary: self.summary.clone(),
            model_label: self.model_label.clone(),
            icon: self.icon.clone(),
            built_in: self.built_in,
            source: self.source.clone(),
            definition_dir: self.definition_dir.clone(),
            icon_path: clone_opt(&self.icon_path),
            icon_data_url: clone_opt(&self.icon_data_url),
            model_path: clone_opt(&self.model_path),
            model_configured: self.model_configured,
            launch: self.launch.duplicate(),
            parameters: clone_parameters(&self.parameters),
            data_outputs: clone_outputs(&self.data_outputs),
        }
    }
}

/// Two launch descriptions agree field by field.
pub open spec fn same_launch(a: ModuleLaunch, b: ModuleLaunch) -> bool {
    &&& a.launch_type == b.launch_type
    &&& a.command == b.command
    &&& a.url == b.url
    &&& a.method == b.method
    &&& a.args@ == b.args@
    &&& a.notes == b.notes
}

/// Two module definitions agree on every field that the library reads.
pub open spec fn same_module(a: ModuleInfo, b: ModuleInfo) -> bool {
    &&& a.id == b.id
    &&& a.name == b.name
    &&& a.kind == b.kind
    &&& a.summary == b.summary
    &&& a.model_label == b.model_label
    &&& a.icon == b.icon
    &&& a.built_in == b.built_in
    &&& a.source == b.source
    &&& a.definition_dir == b.definition_dir
    &&& a.icon_path == b.icon_path
    &&& a.icon_data_url == b.icon_data_url
    &&& a.model_path == b.model_path
    &&& a.model_configured == b.model_configured
    &&& same_launch(a.launch, b.launch)
    &&& a.parameters@.len() == b.parameters@.len()
    &&& forall|i: int|
        0 <= i < a.parameters@.len() ==> #[trigger] a.parameters@[i].key == b.parameters@[i].key
            && a.parameters@[i].default_value@ == b.parameters@[i].default_value@
    &&& a.data_outputs@ == b.data_outputs@
}

/// The default model label of a custom module.
pub fn default_model_label() -> (r: String)
    ensures
        r@ == "本地运行目录"@,
{
    "本地运行目录".to_owned()
}

/// The default source of a module definition.
pub fn default_module_source() -> (r: String)
    ensures
        r@ == "custom"@,
{
    "custom".to_owned()
}

/// Module ids of the built-in system modules.
pub open spec fn is_builtin_module_id_spec(id: Seq<char>) -> bool {
    ||| id == START_MODULE_ID@
    ||| id == OUTPUT_MODULE_ID@
    ||| is_pure_data_module_id_spec(id)
}

/// Module ids of the built-in data, annotation and canvas modules.
pub open spec fn is_pure_data_module_id_spec(id: Seq<char>) -> bool {
    ||| id == DATA_ALL_IMAGES_MODULE_ID@
    ||| id == DATA_ALL_TEXTS_MODULE_ID@
    ||| id == DATA_ARTIFACT_IMAGES_MODULE_ID@
    ||| id == DATA_ARTIFACT_TEXTS_MODULE_ID@
    ||| id == DATA_RELATIVE_IMAGES_MODULE_ID@
    ||| id == DATA_RELATIVE_TEXTS_MODULE_ID@
    ||| id == DATA_AUDIT_FOLDER_MODULE_ID@
    ||| id == DATA_AUDIT_RELATIVE_FOLDER_MODULE_ID@
    ||| id == DATA_ARTIFACT_FOLDER_MODULE_ID@
    ||| id == DATA_ARTIFACT_RELATIVE_FOLDER_MODULE_ID@
    ||| id == DATA_MERGE_IMAGES_MODULE_ID@
    ||| id == DATA_MERGE_TEXTS_MODULE_ID@
    ||| id == ANNOTATION_MODULE_ID@
    ||| id == CANVAS_GROUP_MODULE_ID@
    ||| id == CANVAS_NOTE_MODULE_ID@
}

/// Whether `module_id` names a built-in system module.
pub fn is_builtin_module_id(module_id: &str) -> (r: bool)
    ensures
        r == is_builtin_module_id_spec(module_id@),
{
    str_eq(module_id, START_MODULE_ID) || str_eq(module_id, OUTPUT_MODULE_ID)
        || is_pure_data_module_id(module_id)
}

/// Whether `module_id` names a built-in module that runs no process.
pub fn is_pure_data_module_id(module_id: &str) -> (r: bool)
    ensures
        r == is_pure_data_module_id_spec(module_id@),
{
    str_eq(module_id, DATA_ALL_IMAGES_MODULE_ID) || str_eq(module_id, DATA_ALL_TEXTS_MODULE_ID)
        || str_eq(module_id, DATA_ARTIFACT_IMAGES_MODULE_ID) || str_eq(
        module_id,
        DATA_ARTIFACT_TEXTS_MODULE_ID,
    ) || str_eq(module_id, DATA_RELATIVE_IMAGES_MODULE_ID) || str_eq(
        module_id,
        DATA_RELATIVE_TEXTS_MODULE_ID,
    ) || str_eq(module_id, DATA_AUDIT_FOLDER_MODULE_ID) || str_eq(
        module_id,
        DATA_AUDIT_RELATIVE_FOLDER_MODULE_ID,
    ) || str_eq(module_id, DATA_ARTIFACT_FOLDER_MODULE_ID) || str_eq(
        module_id,
        DATA_ARTIFACT_RELATIVE_FOLDER_MODULE_ID,
    ) || str_eq(module_id, DATA_MERGE_IMAGES_MODULE_ID) || str_eq(
        module_id,
        DATA_MERGE_TEXTS_MODULE_ID,
    ) || str_eq(module_id, ANNOTATION_MODULE_ID) || str_eq(module_id, CANVAS_GROUP_MODULE_ID)
        || str_eq(module_id, CANVAS_NOTE_MODULE_ID)
}

/// The ids of the earlier preset modules that are no longer listed.
pub open spec fn is_legacy_preset_module_id_spec(id: Seq<char>) -> bool {
    ||| id == "preset.custom.paddleocr"@
    ||| id == "preset.custom.shieldgemma2"@
    ||| id == "preset.custom.qwen3guard"@
}

/// Whether `module_id` is one of the earlier preset module ids.
pub fn is_legacy_preset_module_id(module_id: &str) -> (r: bool)
    ensures
        r == is_legacy_preset_module_id_spec(module_id@),
{
    str_eq(module_id, "preset.custom.paddleocr") || str_eq(module_id, "preset.custom.shieldgemma2")
        || str_eq(module_id, "preset.custom.qwen3guard")
}

/// Module kinds that run no process: data providers, merges, annotations and canvas tools.
pub open spec fn is_pure_data_kind(kind: Seq<char>) -> bool {
    ||| kind == "data_all_images"@
    ||| kind == "data_all_texts"@
    ||| kind == "data_artifact_images"@
    ||| kind == "data_artifact_texts"@
    ||| kind == "data_relative_images"@
    ||| kind == "data_relative_texts"@
    ||| kind == "data_audit_folder"@
    ||| kind == "data_audit_relative_folder"@
    ||| kind == "data_artifact_folder"@
    ||| kind == "data_artifact_relative_folder"@
    ||| kind == "data_merge_images"@
    ||| kind == "data_merge_texts"@
    ||| kind == "annotation_comment"@
    ||| kind == "canvas_group"@
    ||| kind == "canvas_note"@
}

/// Whether `kind` is a module kind that runs no process.
pub fn is_pure_data_module_kind(kind: &str) -> (r: bool)
    ensures
        r == is_pure_data_kind(kind@),
{
    str_eq(kind, "data_all_images") || str_eq(kind, "data_all_texts") || str_eq(
        kind,
        "data_artifact_images",
    ) || str_eq(kind, "data_artifact_texts") || str_eq(kind, "data_relative_images") || str_eq(
        kind,
        "data_relative_texts",
    ) || str_eq(kind, "data_audit_folder") || str_eq(kind, "data_audit_relative_folder")
        || str_eq(kind, "data_artifact_folder") || str_eq(kind, "data_artifact_relative_folder")
        || str_eq(kind, "data_merge_images") || str_eq(kind, "data_merge_texts") || str_eq(
        kind,
        "annotation_comment",
    ) || str_eq(kind, "canvas_group") || str_eq(kind, "canvas_note")
}

/// A module of kind `kind` has a sequence input port.
pub open spec fn has_sequence_input_spec(kind: Seq<char>) -> bool {
    kind != "flow_start"@ && !is_pure_data_kind(kind)
}

/// A module of kind `kind` has a sequence output port.
pub open spec fn has_sequence_output_spec(kind: Seq<char>) -> bool {
    kind != "flow_output"@ && !is_pure_data_kind(kind)
}

/// Whether the module has a sequence input port.
pub fn has_sequence_input(module: &ModuleInfo) -> (r: bool)
    ensures
        r == has_sequence_input_spec(module.kind@),
{
    !str_eq(module.kind.as_str(), "flow_start") && !is_pure_data_module_kind(module.kind.as_str())
}

/// Whether the module has a sequence output port.
pub fn has_sequence_output(module: &ModuleInfo) -> (r: bool)
    ensures
        r == has_sequence_output_spec(module.kind@),
{
    !str_eq(module.kind.as_str(), "flow_output") && !is_pure_data_module_kind(module.kind.as_str())
}

/// The data type names that the client understands.
pub open spec fn known_data_type_spec(t: Seq<char>) -> Option<Seq<char>> {
    if t == DATA_TYPE_IMAGES@ || t == DATA_TYPE_TEXTS@ || t == DATA_TYPE_FOLDER@ {
        Some(t)
    } else {
        None
    }
}

/// The data type named `data_type`, if it is a known one.
pub fn known_data_type(data_type: &str) -> (r: Option<&'static str>)
    ensures
        opt_str_view(r) == known_data_type_spec(data_type@),
{
    if str_eq(data_type, DATA_TYPE_IMAGES) {
        Some(DATA_TYPE_IMAGES)
    } else if str_eq(data_type, DATA_TYPE_TEXTS) {
        Some(DATA_TYPE_TEXTS)
    } else if str_eq(data_type, DATA_TYPE_FOLDER) {
        Some(DATA_TYPE_FOLDER)
    } else {
        None
    }
}

/// The view of an optional static string.
pub open spec fn opt_str_view(o: Option<&'static str>) -> Option<Seq<char>> {
    match o {
        Some(s) => Some(s@),
        None => None,
    }
}

/// The data type that an input port of a module of kind `kind` accepts.
pub open spec fn data_input_type_spec(kind: Seq<char>, handle: Seq<char>) -> Option<Seq<char>> {
    if (kind == "image_ocr"@ || kind == "image_safety"@) && handle == HANDLE_IMAGES_IN@ {
        Some(DATA_TYPE_IMAGES@)
    } else if kind == "text_safety"@ && handle == HANDLE_TEXTS_IN@ {
        Some(DATA_TYPE_TEXTS@)
    } else if kind == "data_merge_images"@ && (handle == HANDLE_IMAGES_A_IN@ || handle
        == HANDLE_IMAGES_B_IN@) {
        Some(DATA_TYPE_IMAGES@)
    } else if kind == "data_merge_texts"@ && (handle == HANDLE_TEXTS_A_IN@ || handle
        == HANDLE_TEXTS_B_IN@) {
        Some(DATA_TYPE_TEXTS@)
    } else if kind == "folder_processor"@ && handle == HANDLE_FOLDER_IN@ {
        Some(DATA_TYPE_FOLDER@)
    } else {
        None
    }
}

/// The data type accepted by input port `handle` of `module`.
pub fn data_input_type(module: &ModuleInfo, handle: &str) -> (r: Option<&'static str>)
    ensures
        opt_str_view(r) == data_input_type_spec(module.kind@, handle@),
{
    let kind = module.kind.as_str();
    if (str_eq(kind, "image_ocr") || str_eq(kind, "image_safety")) && str_eq(
        handle,
        HANDLE_IMAGES_IN,
    ) {
        Some(DATA_TYPE_IMAGES)
    } else if str_eq(kind, "text_safety") && str_eq(handle, HANDLE_TEXTS_IN) {
        Some(DATA_TYPE_TEXTS)
    } else if str_eq(kind, "data_merge_images") && (str_eq(handle, HANDLE_IMAGES_A_IN) || str_eq(
        handle,
        HANDLE_IMAGES_B_IN,
    )) {
        Some(DATA_TYPE_IMAGES)
    } else if str_eq(kind, "data_merge_texts") && (str_eq(handle, HANDLE_TEXTS_A_IN) || str_eq(
        handle,
        HANDLE_TEXTS_B_IN,
    )) {
        Some(DATA_TYPE_TEXTS)
    } else if str_eq(kind, "folder_processor") && str_eq(handle, HANDLE_FOLDER_IN) {
        Some(DATA_TYPE_FOLDER)
    } else {
        None
    }
}

/// Index of the first declared output with handle `handle`, or the length when none.
pub open spec fn output_index(outputs: Seq<ModuleDataOutput>, handle: Seq<char>) -> int
    decreases outputs.len(),
{
    if outputs.len() == 0 {
        0
    } else if outputs[0].handle@ == handle {
        0
    } else {
        1 + output_index(outputs.drop_first(), handle)
    }
}

/// Facts about `output_index`.
pub proof fn lemma_output_index(outputs: Seq<ModuleDataOutput>, handle: Seq<char>)
    ensures
        0 <= output_index(outputs, handle) <= outputs.len(),
        forall|j: int|
            0 <= j < output_index(outputs, handle) ==> #[trigger] outputs[j].handle@ != handle,
        output_index(outputs, handle) < outputs.len() ==> outputs[output_index(
            outputs,
            handle,
        )].handle@ == handle,
    decreases outputs.len(),
{
    if outputs.len() > 0 && outputs[0].handle@ != handle {
        lemma_output_index(outputs.drop_first(), handle);
        assert forall|j: int| 0 <= j < output_index(outputs, handle) implies #[trigger] outputs[j].handle@
            != handle by {
            if j > 0 {
                assert(outputs[j] == outputs.drop_first()[j - 1]);
            }
        }
    }
}

/// The type of the first declared output with that handle, if it is a known type.
pub open spec fn declared_output_type_spec(outputs: Seq<ModuleDataOutput>, handle: Seq<char>) -> Option<
    Seq<char>,
> {
    let i = output_index(outputs, handle);
    if i < outputs.len() {
        known_data_type_spec(outputs[i].data_type@)
    } else {
        None
    }
}

/// The type that `module` declares for its output `handle`.
pub fn declared_data_output_type(module: &ModuleInfo, handle: &str) -> (r: Option<String>)
    ensures
        opt_view(r) == declared_output_type_spec(module.data_outputs@, handle@),
{
    proof {
        lemma_output_index(module.data_outputs@, handle@);
    }
    let mut i: usize = 0;
    while i < module.data_outputs.len()
        invariant
            i <= module.data_outputs.len(),
            i <= output_index(module.data_outputs@, handle@),
            0 <= output_index(module.data_outputs@, handle@) <= module.data_outputs@.len(),
            forall|j: int|
                0 <= j < output_index(module.data_outputs@, handle@) ==> #[trigger] module.data_outputs@[j].handle@
                    != handle@,
            output_index(module.data_outputs@, handle@) < module.data_outputs@.len()
                ==> module.data_outputs@[output_index(module.data_outputs@, handle@)].handle@
                == handle@,
        decreases module.data_outputs.len() - i,
    {
        if str_eq(module.data_outputs[i].handle.as_str(), handle) {
            return match known_data_type(module.data_outputs[i].data_type.as_str()) {
                Some(t) => Some(t.to_owned()),
                None => None,
            };
        }
        i += 1;
    }
    None
}

/// The data type produced by output port `handle` of a module.
pub open spec fn data_output_type_spec(module: ModuleInfo, handle: Seq<char>) -> Option<Seq<char>> {
    let kind = module.kind@;
    if declared_output_type_spec(module.data_outputs@, handle) is Some {
        declared_output_type_spec(module.data_outputs@, handle)
    } else if kind == "image_ocr"@ && handle == HANDLE_TEXTS_OUT@ {
        Some(DATA_TYPE_TEXTS@)
    } else if (kind == "data_all_images"@ || kind == "data_artifact_images"@ || kind
        == "data_relative_images"@ || kind == "data_merge_images"@) && handle
        == HANDLE_IMAGES_OUT@ {
        Some(DATA_TYPE_IMAGES@)
    } else if (kind == "data_all_texts"@ || kind == "data_artifact_texts"@ || kind
        == "data_relative_texts"@ || kind == "data_merge_texts"@) && handle == HANDLE_TEXTS_OUT@ {
        Some(DATA_TYPE_TEXTS@)
    } else if (kind == "data_audit_folder"@ || kind == "data_audit_relative_folder"@ || kind
        == "data_artifact_folder"@ || kind == "data_artifact_relative_folder"@) && handle
        == HANDLE_FOLDER_OUT@ {
        Some(DATA_TYPE_FOLDER@)
    } else {
        None
    }
}

/// The data type produced by output port `handle` of `module`.
pub fn data_output_type(module: &ModuleInfo, handle: &str) -> (r: Option<String>)
    ensures
        opt_view(r) == data_output_type_spec(*module, handle@),
{
    let declared = declared_data_output_type(module, handle);
    if declared.is_some() {
        return declared;
    }
    let kind = module.kind.as_str();
    if str_eq(kind, "image_ocr") && str_eq(handle, HANDLE_TEXTS_OUT) {
        Some(DATA_TYPE_TEXTS.to_owned())
    } else if (str_eq(kind, "data_all_images") || str_eq(kind, "data_artifact_images") || str_eq(
        kind,
        "data_relative_images",
    ) || str_eq(kind, "data_merge_images")) && str_eq(handle, HANDLE_IMAGES_OUT) {
        Some(DATA_TYPE_IMAGES.to_owned())
    } else if (str_eq(kind, "data_all_texts") || str_eq(kind, "data_artifact_texts") || str_eq(
        kind,
        "data_relative_texts",
    ) || str_eq(kind, "data_merge_texts")) && str_eq(handle, HANDLE_TEXTS_OUT) {
        Some(DATA_TYPE_TEXTS.to_owned())
    } else if (str_eq(kind, "data_audit_folder") || str_eq(kind, "data_audit_relative_folder")
        || str_eq(kind, "data_artifact_folder") || str_eq(kind, "data_artifact_relative_folder"))
        && str_eq(handle, HANDLE_FOLDER_OUT) {
        Some(DATA_TYPE_FOLDER.to_owned())
    } else {
        None
    }
}

/// The input ports that a module of kind `kind` needs connected, with their types.
pub open spec fn required_data_inputs_spec(kind: Seq<char>) -> Seq<(Seq<char>, Seq<char>)> {
    if kind == "image_ocr"@ || kind == "image_safety"@ {
        seq![(HANDLE_IMAGES_IN@, DATA_TYPE_IMAGES@)]
    } else if kind == "text_safety"@ {
        seq![(HANDLE_TEXTS_IN@, DATA_TYPE_TEXTS@)]
    } else if kind == "data_merge_images"@ {
        seq![(HANDLE_IMAGES_A_IN@, DATA_TYPE_IMAGES@), (HANDLE_IMAGES_B_IN@, DATA_TYPE_IMAGES@)]
    } else if kind == "data_merge_texts"@ {
        seq![(HANDLE_TEXTS_A_IN@, DATA_TYPE_TEXTS@), (HANDLE_TEXTS_B_IN@, DATA_TYPE_TEXTS@)]
    } else if kind == "folder_processor"@ {
        seq![(HANDLE_FOLDER_IN@, DATA_TYPE_FOLDER@)]
    } else {
        seq![]
    }
}

/// The kinds and handles named by the port tables differ from one another.
proof fn lemma_port_words_differ()
    ensures
        "image_ocr"@ != "image_safety"@,
        "image_ocr"@ != "text_safety"@,
        "image_ocr"@ != "data_merge_images"@,
        "image_ocr"@ != "data_merge_texts"@,
        "image_ocr"@ != "folder_processor"@,
        "image_safety"@ != "text_safety"@,
        "image_safety"@ != "data_merge_images"@,
        "image_safety"@ != "data_merge_texts"@,
        "image_safety"@ != "folder_processor"@,
        "text_safety"@ != "data_merge_images"@,
        "text_safety"@ != "data_merge_texts"@,
        "text_safety"@ != "folder_processor"@,
        "data_merge_images"@ != "data_merge_texts"@,
        "data_merge_images"@ != "folder_processor"@,
        "data_merge_texts"@ != "folder_processor"@,
        HANDLE_IMAGES_A_IN@ != HANDLE_IMAGES_B_IN@,
        HANDLE_TEXTS_A_IN@ != HANDLE_TEXTS_B_IN@,
{
    reveal_strlit("image_ocr");
    reveal_strlit("image_safety");
    reveal_strlit("text_safety");
    reveal_strlit("data_merge_images");
    reveal_strlit("data_merge_texts");
    reveal_strlit("folder_processor");
    reveal_strlit("images-a");
    reveal_strlit("images-b");
    reveal_strlit("texts-a");
    reveal_strlit("texts-b");
    assert("image_ocr"@[6] != "image_safety"@[6]);
    assert("image_ocr"@[0] != "text_safety"@[0]);
    assert("image_ocr"@[0] != "data_merge_images"@[0]);
    assert("image_ocr"@[0] != "data_merge_texts"@[0]);
    assert("image_ocr"@[0] != "folder_processor"@[0]);
    assert("image_safety"@[0] != "text_safety"@[0]);
    assert("image_safety"@[0] != "data_merge_images"@[0]);
    assert("image_safety"@[0] != "data_merge_texts"@[0]);
    assert("image_safety"@[0] != "folder_processor"@[0]);
    assert("text_safety"@[0] != "data_merge_images"@[0]);
    assert("text_safety"@[0] != "data_merge_texts"@[0]);
    assert("text_safety"@[0] != "folder_processor"@[0]);
    assert("data_merge_images"@[11] != "data_merge_texts"@[11]);
    assert("data_merge_images"@[0] != "folder_processor"@[0]);
    assert("data_merge_texts"@[0] != "folder_processor"@[0]);
    assert("images-a"@[7] != "images-b"@[7]);
    assert("texts-a"@[6] != "texts-b"@[6]);
}

/// Every data input port a module kind has must be connected, and nothing else
/// is asked for: each input port with its type is among the kind's required
/// inputs, and each required input is an input port of that type.
pub proof fn lemma_input_ports_are_required(kind: Seq<char>, handle: Seq<char>)
    ensures
        data_input_type_spec(kind, handle) matches Some(t) ==> required_data_inputs_spec(kind).contains((handle, t)),
        forall|j: int|
            0 <= j < required_data_inputs_spec(kind).len() ==> data_input_type_spec(
                kind,
                #[trigger] required_data_inputs_spec(kind)[j].0,
            ) == Some(required_data_inputs_spec(kind)[j].1),
{
    lemma_port_words_differ();
    let req = required_data_inputs_spec(kind);
    if let Some(t) = data_input_type_spec(kind, handle) {
        if req.len() == 1 {
            assert(req[0] == (handle, t));
        } else if handle == req[0].0 {
            assert(req[0] == (handle, t));
        } else {
            assert(req[1] == (handle, t));
        }
    }
}

/// The views of handle/type pairs.
pub open spec fn pairs_view(v: Seq<(&'static str, &'static str)>) -> Seq<(Seq<char>, Seq<char>)> {
    v.map_values(|p: (&'static str, &'static str)| (p.0@, p.1@))
}

/// The input ports that `module` needs connected.
pub fn required_data_inputs(module: &ModuleInfo) -> (r: Vec<(&'static str, &'static str)>)
    ensures
        pairs_view(r@) == required_data_inputs_spec(module.kind@),
{
    let kind = module.kind.as_str();
    let mut r: Vec<(&'static str, &'static str)> = Vec::new();
    if str_eq(kind, "image_ocr") || str_eq(kind, "image_safety") {
        r.push((HANDLE_IMAGES_IN, DATA_TYPE_IMAGES));
    } else if str_eq(kind, "text_safety") {
        r.push((HANDLE_TEXTS_IN, DATA_TYPE_TEXTS));
    } else if str_eq(kind, "data_merge_images") {
        r.push((HANDLE_IMAGES_A_IN, DATA_TYPE_IMAGES));
        r.push((HANDLE_IMAGES_B_IN, DATA_TYPE_IMAGES));
    } else if str_eq(kind, "data_merge_texts") {
        r.push((HANDLE_TEXTS_A_IN, DATA_TYPE_TEXTS));
        r.push((HANDLE_TEXTS_B_IN, DATA_TYPE_TEXTS));
    } else if str_eq(kind, "folder_processor") {
        r.push((HANDLE_FOLDER_IN, DATA_TYPE_FOLDER));
    }
    assert(pairs_view(r@) =~= required_data_inputs_spec(module.kind@));
    r
}

/// The four kinds that read a `relativePath` parameter.
pub open spec fn needs_relative_path_kind(kind: Seq<char>) -> bool {
    ||| kind == "data_relative_images"@
    ||| kind == "data_relative_texts"@
    ||| kind == "data_audit_relative_folder"@
    ||| kind == "data_artifact_relative_folder"@
}

/// The string member `key` of a configuration, trimmed.
pub open spec fn config_trimmed_str(config: JsonView, key: Seq<char>) -> Option<Seq<char>> {
    match json_as_str(json_get(config, key)) {
        Some(s) => Some(trim_spec(s)),
        None => None,
    }
}

/// A node of this kind has the relative path it needs.
pub open spec fn has_required_relative_path_spec(kind: Seq<char>, config: JsonView) -> bool {
    !needs_relative_path_kind(kind) || (config_trimmed_str(config, "relativePath"@) is Some
        && config_trimmed_str(config, "relativePath"@)->0.len() > 0)
}

/// Whether a node using `module` with configuration `config` has its relative path filled in.
pub fn has_required_relative_path(module: &ModuleInfo, config: &JsonValue) -> (r: bool)
    ensures
        r == has_required_relative_path_spec(module.kind@, config@),
{
    let kind = module.kind.as_str();
    if !(str_eq(kind, "data_relative_images") || str_eq(kind, "data_relative_texts") || str_eq(
        kind,
        "data_audit_relative_folder",
    ) || str_eq(kind, "data_artifact_relative_folder")) {
        return true;
    }
    match config.get("relativePath") {
        Some(v) => match v.as_str() {
            Some(s) => {
                let t = trim(s);
                !t.as_str().is_empty()
            },
            None => false,
        },
        None => false,
    }
}

/// Index of the first module with id `id`, or the length when none.
pub open spec fn module_index(modules: Seq<ModuleInfo>, id: Seq<char>) -> int
    decreases modules.len(),
{
    if modules.len() == 0 {
        0
    } else if modules[0].id@ == id {
        0
    } else {
        1 + module_index(modules.drop_first(), id)
    }
}

/// Facts about `module_index`.
pub proof fn lemma_module_index(modules: Seq<ModuleInfo>, id: Seq<char>)
    ensures
        0 <= module_index(modules, id) <= modules.len(),
        forall|j: int| 0 <= j < module_index(modules, id) ==> #[trigger] modules[j].id@ != id,
        module_index(modules, id) < modules.len() ==> modules[module_index(modules, id)].id@ == id,
    decreases modules.len(),
{
    if modules.len() > 0 && modules[0].id@ != id {
        lemma_module_index(modules.drop_first(), id);
        assert forall|j: int| 0 <= j < module_index(modules, id) implies #[trigger] modules[j].id@
            != id by {
            if j > 0 {
                assert(modules[j] == modules.drop_first()[j - 1]);
            }
        }
    }
}

/// The module registered under `id` (the first one, as a map keyed by id holds one).
pub open spec fn lookup_module(modules: Seq<ModuleInfo>, id: Seq<char>) -> Option<ModuleInfo> {
    let i = module_index(modules, id);
    if i < modules.len() {
        Some(modules[i])
    } else {
        None
    }
}

/// The position of the module registered under `id`.
pub fn find_module(modules: &Vec<ModuleInfo>, id: &str) -> (r: Option<usize>)
    ensures
        match r {
            Some(i) => i < modules@.len() && i as int == module_index(modules@, id@),
            None => module_index(modules@, id@) == modules@.len(),
        },
        r is Some <==> lookup_module(modules@, id@) is Some,
        r matches Some(i) ==> lookup_module(modules@, id@) == Some(modules@[i as int]),
{
    proof {
        lemma_module_index(modules@, id@);
    }
    let mut i: usize = 0;
    while i < modules.len()
        invariant
            i <= modules.len(),
            i <= module_index(modules@, id@),
            0 <= module_index(modules@, id@) <= modules@.len(),
            forall|j: int|
                0 <= j < module_index(modules@, id@) ==> #[trigger] modules@[j].id@ != id@,
            module_index(modules@, id@) < modules@.len() ==> modules@[module_index(
                modules@,
                id@,
            )].id@ == id@,
        decreases modules.len() - i,
    {
        if str_eq(modules[i].id.as_str(), id) {
            return Some(i);
        }
        i += 1;
    }
    None
}

/// Old built-in ids mapped to the preset ids that replaced them.
pub open spec fn normalize_module_id_spec(id: Seq<char>) -> Seq<char> {
    if id == "builtin.paddleocr"@ {
        "preset.custom.paddleocr"@
    } else if id == "builtin.shieldgemma2"@ {
        "preset.custom.shieldgemma2"@
    } else if id == "builtin.qwen3guard"@ {
        "preset.custom.qwen3guard"@
    } else {
        id
    }
}

/// The current id for a module id that may use an old built-in name.
pub fn normalize_module_id(module_id: &str) -> (r: String)
    ensures
        r@ == normalize_module_id_spec(module_id@),
{
    if str_eq(module_id, "builtin.paddleocr") {
        "preset.custom.paddleocr".to_owned()
    } else if str_eq(module_id, "builtin.shieldgemma2") {
        "preset.custom.shieldgemma2".to_owned()
    } else if str_eq(module_id, "builtin.qwen3guard") {
        "preset.custom.qwen3guard".to_owned()
    } else {
        module_id.to_owned()
    }
}

/// The rank of a module in the module list: system nodes first, then data nodes.
pub open spec fn module_order_spec(id: Seq<char>) -> usize {
    if id == START_MODULE_ID@ {
        0
    } else if id == OUTPUT_MODULE_ID@ {
        1
    } else if id == DATA_ALL_IMAGES_MODULE_ID@ || id == DATA_ALL_TEXTS_MODULE_ID@ {
        2
    } else if id == DATA_ARTIFACT_IMAGES_MODULE_ID@ || id == DATA_ARTIFACT_TEXTS_MODULE_ID@ {
        3
    } else if id == DATA_RELATIVE_IMAGES_MODULE_ID@ || id == DATA_RELATIVE_TEXTS_MODULE_ID@ {
        4
    } else if id == DATA_AUDIT_FOLDER_MODULE_ID@ || id == DATA_AUDIT_RELATIVE_FOLDER_MODULE_ID@ {
        5
    } else if id == DATA_ARTIFACT_FOLDER_MODULE_ID@ || id
        == DATA_ARTIFACT_RELATIVE_FOLDER_MODULE_ID@ {
        6
    } else if id == DATA_MERGE_IMAGES_MODULE_ID@ || id == DATA_MERGE_TEXTS_MODULE_ID@ {
        7
    } else {
        100
    }
}

/// The rank of a module in the module list.
pub fn module_order(module_id: &str) -> (r: usize)
    ensures
        r == module_order_spec(module_id@),
{
    if str_eq(module_id, START_MODULE_ID) {
        0
    } else if str_eq(module_id, OUTPUT_MODULE_ID) {
        1
    } else if str_eq(module_id, DATA_ALL_IMAGES_MODULE_ID) || str_eq(
        module_id,
        DATA_ALL_TEXTS_MODULE_ID,
    ) {
        2
    } else if str_eq(module_id, DATA_ARTIFACT_IMAGES_MODULE_ID) || str_eq(
        module_id,
        DATA_ARTIFACT_TEXTS_MODULE_ID,
    ) {
        3
    } else if str_eq(module_id, DATA_RELATIVE_IMAGES_MODULE_ID) || str_eq(
        module_id,
        DATA_RELATIVE_TEXTS_MODULE_ID,
    ) {
        4
    } else if str_eq(module_id, DATA_AUDIT_FOLDER_MODULE_ID) || str_eq(
        module_id,
        DATA_AUDIT_RELATIVE_FOLDER_MODULE_ID,
    ) {
        5
    } else if str_eq(module_id, DATA_ARTIFACT_FOLDER_MODULE_ID) || str_eq(
        module_id,
        DATA_ARTIFACT_RELATIVE_FOLDER_MODULE_ID,
    ) {
        6
    } else if str_eq(module_id, DATA_MERGE_IMAGES_MODULE_ID) || str_eq(
        module_id,
        DATA_MERGE_TEXTS_MODULE_ID,
    ) {
        7
    } else {
        100
    }
}

/// A configured path counts when it is not blank.
pub open spec fn nonblank(s: Seq<char>) -> bool {
    trim_spec(s).len() > 0
}

/// The value that the default configuration gives parameter `p`.
pub open spec fn default_param_value(p: ModuleParameter, model_path: Option<String>) -> JsonView {
    if p.key@ == "modelPath"@ && model_path is Some && nonblank(model_path->0@) {
        JsonView::Str(model_path->0@)
    } else {
        p.default_value@
    }
}

/// The default configuration entries of the first `n` parameters.
pub open spec fn default_config_entries(
    params: Seq<ModuleParameter>,
    model_path: Option<String>,
) -> Seq<(Seq<char>, JsonView)>
    decreases params.len(),
{
    if params.len() == 0 {
        Seq::empty()
    } else {
        entries_insert(
            default_config_entries(params.drop_last(), model_path),
            params.last().key@,
            default_param_value(params.last(), model_path),
        )
    }
}

/// The configuration a new node of `module` starts with: each parameter's
/// default value, with the module's model path for `modelPath`.
pub fn module_default_config(module: &ModuleInfo) -> (r: JsonValue)
    ensures
        r@ == JsonView::Object(default_config_entries(module.parameters@, module.model_path)),
{
    let mut entries: Vec<(String, JsonValue)> = Vec::new();
    let mut i: usize = 0;
    let use_model_path = match &module.model_path {
        Some(p) => {
            let t = trim(p.as_str());
            !t.as_str().is_empty()
        },
        None => false,
    };
    assert(entries_view(entries@) =~= default_config_entries(module.parameters@.take(0), module.model_path));
    while i < module.parameters.len()
        invariant
            i <= module.parameters.len(),
            use_model_path == (module.model_path is Some && nonblank(module.model_path->0@)),
            entries_view(entries@) == default_config_entries(module.parameters@.take(i as int), module.model_path),
        decreases module.parameters.len() - i,
    {
        let parameter = &module.parameters[i];
        let value = if str_eq(parameter.key.as_str(), "modelPath") && use_model_path {
            match &module.model_path {
                Some(p) => JsonValue::Str(p.clone()),
                None => parameter.default_value.deep_clone(),
            }
        } else {
            parameter.default_value.deep_clone()
        };
        assert(value@ == default_param_value(*parameter, module.model_path));
        object_insert(&mut entries, parameter.key.clone(), value);
        i += 1;
        assert(module.parameters@.take(i as int).drop_last() =~= module.parameters@.take((i - 1) as int));
    }
    assert(module.parameters@.take(module.parameters.len() as int) =~= module.parameters@);
    let r = JsonValue::Object(entries);
    assert(r@->Object_0 =~= entries_view(entries@));
    r
}

/// What `model_path_from_config` returns.
pub open spec fn model_path_from_config_spec(config: JsonView) -> Option<Seq<char>> {
    match config_trimmed_str(config, "modelPath"@) {
        Some(t) => if t.len() > 0 {
            Some(t)
        } else {
            None
        },
        None => None,
    }
}

/// The trimmed, non-blank `modelPath` string of a configuration.
pub fn model_path_from_config(config: &JsonValue) -> (r: Option<String>)
    ensures
        opt_view(r) == model_path_from_config_spec(config@),
{
    match config.get("modelPath") {
        Some(v) => match v.as_str() {
            Some(s) => {
                let t = trim(s);
                if t.as_str().is_empty() {
                    None
                } else {
                    Some(t)
                }
            },
            None => None,
        },
        None => None,
    }
}

/// `entries` with each of `adds` inserted in turn.
pub open spec fn insert_all(
    entries: Seq<(Seq<char>, JsonView)>,
    adds: Seq<(Seq<char>, JsonView)>,
) -> Seq<(Seq<char>, JsonView)>
    decreases adds.len(),
{
    if adds.len() == 0 {
        entries
    } else {
        entries_insert(insert_all(entries, adds.drop_last()), adds.last().0, adds.last().1)
    }
}

/// What `merge_config` returns.
pub open spec fn merge_config_spec(defaults: JsonView, config: JsonView) -> JsonView {
    match (defaults, config) {
        (JsonView::Object(d), JsonView::Object(c)) => JsonView::Object(insert_all(d, c)),
        _ => defaults,
    }
}

/// The defaults overridden by every member of `config`, when both are objects;
/// otherwise the defaults.
pub fn merge_config(defaults: &JsonValue, config: &JsonValue) -> (r: JsonValue)
    ensures
        r@ == merge_config_spec(defaults@, config@),
{
    match (defaults, config) {
        (JsonValue::Object(d), JsonValue::Object(c)) => {
            let copy = defaults.deep_clone();
            let mut merged = match copy {
                JsonValue::Object(e) => e,
                _ => Vec::new(),
            };
            assert(entries_view(merged@) =~= defaults@->Object_0);
            let ghost cv = config@->Object_0;
            let mut i: usize = 0;
            while i < c.len()
                invariant
                    i <= c.len(),
                    *config == JsonValue::Object(*c),
                    cv == config@->Object_0,
                    defaults@ is Object,
                    entries_view(merged@) == insert_all(defaults@->Object_0, cv.take(i as int)),
                decreases c.len() - i,
            {
                let key = c[i].0.clone();
                let value = c[i].1.deep_clone();
                assert(cv[i as int] == (key@, value@));
                object_insert(&mut merged, key, value);
                i += 1;
                assert(cv.take(i as int).drop_last() =~= cv.take((i - 1) as int));
            }
            assert(cv.take(c.len() as int) =~= cv);
            let r = JsonValue::Object(merged);
            assert(r@->Object_0 =~= entries_view(merged@));
            r
        },
        _ => defaults.deep_clone(),
    }
}

/// Index of the first path entry for `id`, or the length when none.
pub open spec fn path_index(paths: Seq<(String, String)>, id: Seq<char>) -> int
    decreases paths.len(),
{
    if paths.len() == 0 {
        0
    } else if paths[0].0@ == id {
        0
    } else {
        1 + path_index(paths.drop_first(), id)
    }
}

/// The configured model path of module `id`, if any.
pub open spec fn lookup_model_path(paths: Seq<(String, String)>, id: Seq<char>) -> Option<Seq<char>> {
    let i = path_index(paths, id);
    if 0 <= i < paths.len() {
        Some(paths[i].1@)
    } else {
        None
    }
}

/// Facts about `path_index`.
pub proof fn lemma_path_index(paths: Seq<(String, String)>, id: Seq<char>)
    ensures
        0 <= path_index(paths, id) <= paths.len(),
        forall|j: int| 0 <= j < path_index(paths, id) ==> #[trigger] paths[j].0@ != id,
        path_index(paths, id) < paths.len() ==> paths[path_index(paths, id)].0@ == id,
    decreases paths.len(),
{
    if paths.len() > 0 && paths[0].0@ != id {
        lemma_path_index(paths.drop_first(), id);
        assert forall|j: int| 0 <= j < path_index(paths, id) implies #[trigger] paths[j].0@ != id by {
            if j > 0 {
                assert(paths[j] == paths.drop_first()[j - 1]);
            }
        }
    }
}

/// The configured model path of module `id` (`ModelPaths::get`).
pub fn get_model_path(paths: &Vec<(String, String)>, id: &str) -> (r: Option<String>)
    ensures
        opt_view(r) == lookup_model_path(paths@, id@),
{
    proof {
        lemma_path_index(paths@, id@);
    }
    let mut i: usize = 0;
    while i < paths.len()
        invariant
            i <= paths.len(),
            i <= path_index(paths@, id@),
            0 <= path_index(paths@, id@) <= paths@.len(),
            forall|j: int| 0 <= j < path_index(paths@, id@) ==> #[trigger] paths@[j].0@ != id@,
            path_index(paths@, id@) < paths@.len() ==> paths@[path_index(paths@, id@)].0@ == id@,
        decreases paths.len() - i,
    {
        if str_eq(paths[i].0.as_str(), id) {
            return Some(paths[i].1.clone());
        }
        i += 1;
    }
    None
}

/// `r` is module `m` with the model path that the settings configure for it:
/// system modules need none; other modules take a non-blank configured path
/// (trimmed); everything else stays.
pub open spec fn model_path_applied(m: ModuleInfo, paths: Seq<(String, String)>, r: ModuleInfo) -> bool {
    let configured = lookup_model_path(paths, m.id@);
    &&& r.id == m.id
    &&& r.name == m.name
    &&& r.kind == m.kind
    &&& r.summary == m.summary
    &&& r.model_label == m.model_label
    &&& r.icon == m.icon
    &&& r.built_in == m.built_in
    &&& r.source == m.source
    &&& r.definition_dir == m.definition_dir
    &&& r.icon_path == m.icon_path
    &&& r.icon_data_url == m.icon_data_url
    &&& r.launch == m.launch
    &&& r.parameters == m.parameters
    &&& r.data_outputs == m.data_outputs
    &&& if m.source@ == "system"@ {
        r.model_path is None && r.model_configured
    } else if configured is Some && nonblank(configured->0) {
        opt_view(r.model_path) == Some(trim_spec(configured->0)) && r.model_configured
    } else {
        r.model_path == m.model_path && r.model_configured == m.model_configured
    }
}

/// A module with the model path that the settings configure for it.
pub fn apply_model_path(module: ModuleInfo, paths: &Vec<(String, String)>) -> (r: ModuleInfo)
    ensures
        model_path_applied(module, paths@, r),
{
    let mut module = module;
    if str_eq(module.source.as_str(), "system") {
        module.model_path = None;
        module.model_configured = true;
        return module;
    }
    match get_model_path(paths, module.id.as_str()) {
        Some(path) => {
            let t = trim(path.as_str());
            if !t.as_str().is_empty() {
                module.model_path = Some(t);
                module.model_configured = true;
            }
        },
        None => {},
    }
    module
}

} // verus!
