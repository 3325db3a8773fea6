//! Normalisation of loaded and saved flows: module ids brought up to date,
//! node configurations completed from the modules, edges typed, the start and
//! output nodes put in, and old default flows given their data edges.
use crate::catalog::{
    default_config_entries, find_module, lookup_module, merge_config, merge_config_spec,
    module_default_config, normalize_module_id, normalize_module_id_spec, ModuleInfo, ModuleParameter,
    DATA_ALL_IMAGES_MODULE_ID, HANDLE_IMAGES_IN, HANDLE_IMAGES_OUT, HANDLE_TEXTS_IN, HANDLE_TEXTS_OUT,
    OUTPUT_MODULE_ID, OUTPUT_NODE_ID, START_MODULE_ID, START_NODE_ID,
};
use crate::flow::{
    data_edge, data_edge_spec, default_flow, default_flow_spec, edges_view, first_node_id_by_module,
    first_node_id_spec, flow_has_data_edges, has_data_edge, has_node_with_module, has_system_node,
    new_node, node_spec, nodes_view, normalize_edge_spec, normalize_flow_edge, sequence_edge,
    sequence_edge_spec, unique_node_id, unique_node_id_spec, EdgeView, FlowDefinition, FlowEdge,
    FlowNode, FlowView, NodeView, DEFAULT_FLOW_ID,
};
use crate::json::{
    entries_insert, entries_lookup, entries_remove, entries_view, json_as_str, object_insert,
    object_remove, JsonValue, JsonView,
};
use crate::strs::{str_eq, trim, trim_spec};
use vstd::prelude::*;

verus! {

/// Some parameter of the list has key `key`.
pub open spec fn has_param_key(params: Seq<ModuleParameter>, key: Seq<char>) -> bool {
    exists|i: int| 0 <= i < params.len() && #[trigger] params[i].key@ == key
}

/// An object configuration whose `modelPath` is blank gets the module's model
/// path, when that one is not blank; anything else stays.
pub open spec fn fill_model_path(config: JsonView, model_path: Seq<char>) -> JsonView {
    match config {
        JsonView::Object(entries) => {
            let current = match json_as_str(entries_lookup(entries, "modelPath"@)) {
                Some(s) => trim_spec(s),
                None => Seq::empty(),
            };
            if current.len() == 0 && trim_spec(model_path).len() > 0 {
                JsonView::Object(entries_insert(entries, "modelPath"@, JsonView::Str(model_path)))
            } else {
                config
            }
        },
        _ => config,
    }
}

/// The configuration keys that the preset modules no longer read.
pub open spec fn retired_keys(module_id: Seq<char>) -> Seq<Seq<char>> {
    if module_id == "preset.custom.paddleocr"@ {
        seq!["modelPath"@, "profile"@]
    } else if module_id == "preset.custom.qwen3guard"@ {
        seq!["input"@, "modelPath"@, "modelSize"@]
    } else if module_id == "preset.custom.shieldgemma2"@ {
        seq!["modelPath"@]
    } else {
        Seq::empty()
    }
}

/// `entries` without any of `keys`, removed in turn.
pub open spec fn remove_all(entries: Seq<(Seq<char>, JsonView)>, keys: Seq<Seq<char>>) -> Seq<(Seq<char>, JsonView)>
    decreases keys.len(),
{
    if keys.len() == 0 {
        entries
    } else {
        entries_remove(remove_all(entries, keys.drop_last()), keys.last())
    }
}

/// An object configuration without the keys its module no longer reads.
pub open spec fn strip_retired(config: JsonView, module_id: Seq<char>) -> JsonView {
    match config {
        JsonView::Object(entries) => JsonView::Object(remove_all(entries, retired_keys(module_id))),
        _ => config,
    }
}

/// The configuration of a node of module `m`: the module's defaults overridden
/// by the node's own values, the model path filled in, retired keys removed.
pub open spec fn configured(config: JsonView, m: ModuleInfo) -> JsonView {
    let merged = merge_config_spec(JsonView::Object(default_config_entries(m.parameters@, m.model_path)), config);
    let filled = if has_param_key(m.parameters@, "modelPath"@) && m.model_path is Some {
        fill_model_path(merged, m.model_path->0@)
    } else {
        merged
    };
    strip_retired(filled, m.id@)
}

/// A node with its module id brought up to date and, when the module is
/// registered, its configuration completed.
pub open spec fn normalize_node_spec(n: NodeView, ms: Seq<ModuleInfo>) -> NodeView {
    let mid = normalize_module_id_spec(n.module_id);
    match lookup_module(ms, mid) {
        None => NodeView { module_id: mid, ..n },
        Some(m) => NodeView { module_id: mid, config: configured(n.config, m), ..n },
    }
}

/// Whether some parameter has key `key`.
fn params_have_key(params: &Vec<ModuleParameter>, key: &str) -> (r: bool)
    ensures
        r == has_param_key(params@, key@),
{
    let mut i: usize = 0;
    while i < params.len()
        invariant
            i <= params.len(),
            forall|j: int| 0 <= j < i ==> #[trigger] params@[j].key@ != key@,
        decreases params.len() - i,
    {
        if str_eq(params[i].key.as_str(), key) {
            return true;
        }
        i += 1;
    }
    false
}

/// Fills a blank `modelPath` of an object configuration.
fn fill_model_path_exec(config: JsonValue, model_path: &str) -> (r: JsonValue)
    ensures
        r@ == fill_model_path(config@, model_path@),
{
    match config {
        JsonValue::Object(mut entries) => {
            let ghost ev = entries_view(entries@);
            assert(config@->Object_0 =~= ev);
            let current_blank = match find_entry_str(&entries, "modelPath") {
                Some(s) => {
                    let t = trim(s);
                    t.as_str().is_empty()
                },
                None => true,
            };
            let mp = trim(model_path);
            if current_blank && !mp.as_str().is_empty() {
                object_insert(&mut entries, "modelPath".to_owned(), JsonValue::Str(model_path.to_owned()));
            }
            let r = JsonValue::Object(entries);
            assert(r@->Object_0 =~= entries_view(entries@));
            r
        },
        other => other,
    }
}

/// The string value of the first entry with key `key`.
fn find_entry_str<'a>(entries: &'a Vec<(String, JsonValue)>, key: &str) -> (r: Option<&'a str>)
    ensures
        match r {
            Some(s) => json_as_str(entries_lookup(entries_view(entries@), key@)) == Some(s@),
            None => json_as_str(entries_lookup(entries_view(entries@), key@)) is None,
        },
{
    let i = crate::json::find_key(entries, key);
    proof {
        crate::json::lemma_key_index(entries_view(entries@), key@);
    }
    if i < entries.len() {
        assert(entries_view(entries@)[i as int] == (entries@[i as int].0@, entries@[i as int].1@));
        match &entries[i].1 {
            JsonValue::Str(s) => Some(s.as_str()),
            _ => None,
        }
    } else {
        None
    }
}

/// Removes from an object configuration the keys its module no longer reads.
fn strip_retired_exec(config: JsonValue, module_id: &str) -> (r: JsonValue)
    ensures
        r@ == strip_retired(config@, module_id@),
{
    match config {
        JsonValue::Object(mut entries) => {
            let ghost ev = entries_view(entries@);
            assert(config@->Object_0 =~= ev);
            let ghost keys = retired_keys(module_id@);
            proof {
                reveal_with_fuel(remove_all, 4);
            }
            if str_eq(module_id, "preset.custom.paddleocr") {
                object_remove(&mut entries, "modelPath");
                object_remove(&mut entries, "profile");
                assert(keys.drop_last().drop_last() =~= Seq::<Seq<char>>::empty());
                assert(keys.drop_last() =~= seq!["modelPath"@]);
            } else if str_eq(module_id, "preset.custom.qwen3guard") {
                object_remove(&mut entries, "input");
                object_remove(&mut entries, "modelPath");
                object_remove(&mut entries, "modelSize");
                assert(keys.drop_last().drop_last().drop_last() =~= Seq::<Seq<char>>::empty());
                assert(keys.drop_last().drop_last() =~= seq!["input"@]);
                assert(keys.drop_last() =~= seq!["input"@, "modelPath"@]);
            } else if str_eq(module_id, "preset.custom.shieldgemma2") {
                object_remove(&mut entries, "modelPath");
                assert(keys.drop_last() =~= Seq::<Seq<char>>::empty());
            }
            let r = JsonValue::Object(entries);
            assert(r@->Object_0 =~= entries_view(entries@));
            r
        },
        other => other,
    }
}

/// Brings a node's module id up to date and completes its configuration
/// from its module.
pub fn normalize_node(node: FlowNode, modules: &Vec<ModuleInfo>) -> (r: FlowNode)
    ensures
        r@ == normalize_node_spec(node@, modules@),
{
    let FlowNode { id, module_id, label, position, config } = node;
    let mid = normalize_module_id(module_id.as_str());
    match find_module(modules, mid.as_str()) {
        None => FlowNode { id, module_id: mid, label, position, config },
        Some(m) => {
            let module = &modules[m];
            let defaults = module_default_config(module);
            let merged = merge_config(&defaults, &config);
            let filled = match &module.model_path {
                Some(mp) => {
                    if params_have_key(&module.parameters, "modelPath") {
                        fill_model_path_exec(merged, mp.as_str())
                    } else {
                        merged
                    }
                },
                None => merged,
            };
            let cleaned = strip_retired_exec(filled, module.id.as_str());
            FlowNode { id, module_id: mid, label, position, config: cleaned }
        },
    }
}

/// Some edge (of any type) leads from `from` to `to`.
pub open spec fn has_edge_between(edges: Seq<EdgeView>, from: Seq<char>, to: Seq<char>) -> bool {
    exists|i: int| 0 <= i < edges.len() && #[trigger] edges[i].from == from && edges[i].to == to
}

/// The start node put into a flow that lacks one.
pub open spec fn start_node_spec() -> NodeView {
    node_spec(START_NODE_ID@, START_MODULE_ID@, "开始"@, 0x405e000000000000, 0x406b800000000000)
}

/// The output node put into a flow that lacks one.
pub open spec fn output_node_spec() -> NodeView {
    node_spec(OUTPUT_NODE_ID@, OUTPUT_MODULE_ID@, "输出结果"@, 0x4080400000000000, 0x406b800000000000)
}

/// A flow with both a start and an output node: a flow with neither becomes
/// the default flow; a missing start goes first, a missing output last; and a
/// flow of just those two nodes gets a sequence edge between them if it has none.
pub open spec fn ensure_system_nodes_spec(f: FlowView) -> FlowView {
    let has_start = has_node_with_module(f.nodes, START_MODULE_ID@);
    let has_output = has_node_with_module(f.nodes, OUTPUT_MODULE_ID@);
    if !has_start && !has_output {
        default_flow_spec()
    } else {
        let nodes1 = if !has_start {
            seq![start_node_spec()] + f.nodes
        } else {
            f.nodes
        };
        let nodes2 = if !has_output {
            nodes1.push(output_node_spec())
        } else {
            nodes1
        };
        let start_id = match first_node_id_spec(nodes2, START_MODULE_ID@) {
            Some(s) => s,
            None => START_NODE_ID@,
        };
        let output_id = match first_node_id_spec(nodes2, OUTPUT_MODULE_ID@) {
            Some(o) => o,
            None => OUTPUT_NODE_ID@,
        };
        let edges = if nodes2.len() == 2 && !has_edge_between(f.edges, start_id, output_id) {
            f.edges.push(sequence_edge_spec("edge_flow_start_output"@, start_id, output_id))
        } else {
            f.edges
        };
        FlowView { nodes: nodes2, edges, ..f }
    }
}

/// Whether some edge leads from `from` to `to`.
fn edge_between(edges: &Vec<FlowEdge>, from: &str, to: &str) -> (r: bool)
    ensures
        r == has_edge_between(edges_view(edges@), from@, to@),
{
    let ghost ev = edges_view(edges@);
    let mut i: usize = 0;
    while i < edges.len()
        invariant
            ev == edges_view(edges@),
            i <= edges.len(),
            forall|j: int| 0 <= j < i ==> !(#[trigger] ev[j].from == from@ && ev[j].to == to@),
        decreases edges.len() - i,
    {
        assert(ev[i as int] == edges@[i as int]@);
        if str_eq(edges[i].from.as_str(), from) && str_eq(edges[i].to.as_str(), to) {
            assert(ev[i as int].from == from@ && ev[i as int].to == to@);
            return true;
        }
        i += 1;
    }
    false
}

/// Makes sure the flow has a start and an output node.
pub fn ensure_system_nodes(flow: FlowDefinition) -> (r: FlowDefinition)
    ensures
        r@ == ensure_system_nodes_spec(flow@),
{
    let has_start = has_system_node(&flow, START_MODULE_ID);
    let has_output = has_system_node(&flow, OUTPUT_MODULE_ID);
    if !has_start && !has_output {
        return default_flow();
    }
    let ghost f = flow@;
    let FlowDefinition { id, name, version, mut nodes, mut edges } = flow;
    assert(nodes_view(nodes@) == f.nodes);
    if !has_start {
        let ghost before = nodes@;
        nodes.insert(0, new_node(START_NODE_ID, START_MODULE_ID, "开始", 0x405e000000000000, 0x406b800000000000));
        assert(nodes_view(nodes@) =~= seq![start_node_spec()] + nodes_view(before));
    }
    if !has_output {
        let ghost before = nodes@;
        nodes.push(new_node(OUTPUT_NODE_ID, OUTPUT_MODULE_ID, "输出结果", 0x4080400000000000, 0x406b800000000000));
        assert(nodes_view(nodes@) =~= nodes_view(before).push(output_node_spec()));
    }
    let mut r = FlowDefinition { id, name, version, nodes, edges };
    let start_id = match first_node_id_by_module(&r, START_MODULE_ID) {
        Some(s) => s,
        None => START_NODE_ID.to_owned(),
    };
    let output_id = match first_node_id_by_module(&r, OUTPUT_MODULE_ID) {
        Some(o) => o,
        None => OUTPUT_NODE_ID.to_owned(),
    };
    if r.nodes.len() == 2 && !edge_between(&r.edges, start_id.as_str(), output_id.as_str()) {
        let ghost before = r.edges@;
        r.edges.push(sequence_edge("edge_flow_start_output", start_id.as_str(), output_id.as_str()));
        assert(edges_view(r.edges@) =~= edges_view(before).push(
            sequence_edge_spec("edge_flow_start_output"@, start_id@, output_id@),
        ));
    }
    r
}

/// A flow of just a start and an output node joined by an edge.
pub open spec fn is_minimal_system_flow_spec(f: FlowView) -> bool {
    &&& f.nodes.len() == 2
    &&& first_node_id_spec(f.nodes, START_MODULE_ID@) is Some
    &&& first_node_id_spec(f.nodes, OUTPUT_MODULE_ID@) is Some
    &&& has_edge_between(
        f.edges,
        first_node_id_spec(f.nodes, START_MODULE_ID@)->0,
        first_node_id_spec(f.nodes, OUTPUT_MODULE_ID@)->0,
    )
}

/// Whether the flow is just a start and an output node joined by an edge.
pub fn is_minimal_system_flow(flow: &FlowDefinition) -> (r: bool)
    ensures
        r == is_minimal_system_flow_spec(flow@),
{
    if flow.nodes.len() != 2 {
        return false;
    }
    match (first_node_id_by_module(flow, START_MODULE_ID), first_node_id_by_module(flow, OUTPUT_MODULE_ID)) {
        (Some(s), Some(o)) => edge_between(&flow.edges, s.as_str(), o.as_str()),
        _ => false,
    }
}

/// The default flow as saved before data edges existed gets its image source
/// node and the three data edges of the current default flow.
pub open spec fn upgrade_legacy_spec(f: FlowView) -> FlowView {
    if f.id != DEFAULT_FLOW_ID@ || has_data_edge(f.edges) {
        f
    } else {
        match (
            first_node_id_spec(f.nodes, "preset.custom.paddleocr"@),
            first_node_id_spec(f.nodes, "preset.custom.shieldgemma2"@),
            first_node_id_spec(f.nodes, "preset.custom.qwen3guard"@),
        ) {
            (Some(ocr), Some(image_safety), Some(text_safety)) => {
                let src = unique_node_id_spec(f.nodes, "all_images"@);
                FlowView {
                    nodes: f.nodes.push(
                        node_spec(src, DATA_ALL_IMAGES_MODULE_ID@, "待测项目中所有图片"@, 0x4076800000000000, 0x404e000000000000),
                    ),
                    edges: f.edges + seq![
                        data_edge_spec("edge_all_images_image_ocr"@, src, HANDLE_IMAGES_OUT@, ocr, HANDLE_IMAGES_IN@),
                        data_edge_spec("edge_all_images_image_safety"@, src, HANDLE_IMAGES_OUT@, image_safety, HANDLE_IMAGES_IN@),
                        data_edge_spec("edge_data_image_ocr_text_safety"@, ocr, HANDLE_TEXTS_OUT@, text_safety, HANDLE_TEXTS_IN@),
                    ],
                    ..f
                }
            },
            _ => f,
        }
    }
}

/// Gives an old default flow without data edges the data edges of the current one.
pub fn upgrade_legacy_default_data_flow(flow: FlowDefinition) -> (r: FlowDefinition)
    ensures
        r@ == upgrade_legacy_spec(flow@),
{
    if !str_eq(flow.id.as_str(), DEFAULT_FLOW_ID) || flow_has_data_edges(&flow) {
        return flow;
    }
    let ocr_id = match first_node_id_by_module(&flow, "preset.custom.paddleocr") {
        Some(i) => i,
        None => {
            return flow;
        },
    };
    let image_safety_id = match first_node_id_by_module(&flow, "preset.custom.shieldgemma2") {
        Some(i) => i,
        None => {
            return flow;
        },
    };
    let text_safety_id = match first_node_id_by_module(&flow, "preset.custom.qwen3guard") {
        Some(i) => i,
        None => {
            return flow;
        },
    };
    let source_id = unique_node_id(&flow, "all_images");
    let ghost f = flow@;
    let mut flow = flow;
    let ghost nodes0 = flow.nodes@;
    let ghost edges0 = flow.edges@;
    flow.nodes.push(new_node(source_id.as_str(), DATA_ALL_IMAGES_MODULE_ID, "待测项目中所有图片", 0x4076800000000000, 0x404e000000000000));
    flow.edges.push(data_edge("edge_all_images_image_ocr", source_id.as_str(), HANDLE_IMAGES_OUT, ocr_id.as_str(), HANDLE_IMAGES_IN));
    flow.edges.push(data_edge("edge_all_images_image_safety", source_id.as_str(), HANDLE_IMAGES_OUT, image_safety_id.as_str(), HANDLE_IMAGES_IN));
    flow.edges.push(data_edge("edge_data_image_ocr_text_safety", ocr_id.as_str(), HANDLE_TEXTS_OUT, text_safety_id.as_str(), HANDLE_TEXTS_IN));
    assert(nodes_view(flow.nodes@) =~= nodes_view(nodes0).push(
        node_spec(source_id@, DATA_ALL_IMAGES_MODULE_ID@, "待测项目中所有图片"@, 0x4076800000000000, 0x404e000000000000),
    ));
    assert(edges_view(flow.edges@) =~= edges_view(edges0) + seq![
        data_edge_spec("edge_all_images_image_ocr"@, source_id@, HANDLE_IMAGES_OUT@, ocr_id@, HANDLE_IMAGES_IN@),
        data_edge_spec("edge_all_images_image_safety"@, source_id@, HANDLE_IMAGES_OUT@, image_safety_id@, HANDLE_IMAGES_IN@),
        data_edge_spec("edge_data_image_ocr_text_safety"@, ocr_id@, HANDLE_TEXTS_OUT@, text_safety_id@, HANDLE_TEXTS_IN@),
    ]);
    flow
}

/// What `normalize_flow` makes of a flow: every node normalised against the
/// modules and every edge typed, the start and output nodes made sure of;
/// then a flow of just those two becomes the default flow, and an old default
/// flow is upgraded.
pub open spec fn normalize_flow_spec(f: FlowView, ms: Seq<ModuleInfo>) -> FlowView {
    let f1 = FlowView {
        nodes: f.nodes.map_values(|n: NodeView| normalize_node_spec(n, ms)),
        edges: f.edges.map_values(|e: EdgeView| normalize_edge_spec(e)),
        ..f
    };
    let f2 = ensure_system_nodes_spec(f1);
    if is_minimal_system_flow_spec(f2) {
        default_flow_spec()
    } else {
        upgrade_legacy_spec(f2)
    }
}

/// Normalises a loaded or saved flow against the registered modules.
pub fn normalize_flow(flow: FlowDefinition, modules: &Vec<ModuleInfo>) -> (r: FlowDefinition)
    ensures
        r@ == normalize_flow_spec(flow@, modules@),
{
    let ghost f = flow@;
    let FlowDefinition { id, name, version, nodes, edges } = flow;
    let mut new_nodes: Vec<FlowNode> = Vec::new();
    let mut i: usize = 0;
    while i < nodes.len()
        invariant
            nodes_view(nodes@) == f.nodes,
            i <= nodes.len(),
            nodes_view(new_nodes@) == f.nodes.take(i as int).map_values(|n: NodeView| normalize_node_spec(n, modules@)),
        decreases nodes.len() - i,
    {
        let ghost prev = new_nodes@;
        let node = nodes[i].duplicate();
        assert(node@ == f.nodes[i as int]);
        new_nodes.push(normalize_node(node, modules));
        assert(f.nodes.take(i + 1) =~= f.nodes.take(i as int).push(f.nodes[i as int]));
        assert(nodes_view(new_nodes@) =~= nodes_view(prev).push(normalize_node_spec(f.nodes[i as int], modules@)));
        i += 1;
    }
    let mut new_edges: Vec<FlowEdge> = Vec::new();
    let mut j: usize = 0;
    while j < edges.len()
        invariant
            edges_view(edges@) == f.edges,
            j <= edges.len(),
            edges_view(new_edges@) == f.edges.take(j as int).map_values(|e: EdgeView| normalize_edge_spec(e)),
        decreases edges.len() - j,
    {
        let ghost prev = new_edges@;
        let mut edge = edges[j].duplicate();
        assert(edge@ == f.edges[j as int]);
        normalize_flow_edge(&mut edge);
        new_edges.push(edge);
        assert(f.edges.take(j + 1) =~= f.edges.take(j as int).push(f.edges[j as int]));
        assert(edges_view(new_edges@) =~= edges_view(prev).push(normalize_edge_spec(f.edges[j as int])));
        j += 1;
    }
    assert(f.nodes.take(nodes.len() as int) =~= f.nodes);
    assert(f.edges.take(edges.len() as int) =~= f.edges);
    let f1 = FlowDefinition { id, name, version, nodes: new_nodes, edges: new_edges };
    let f2 = ensure_system_nodes(f1);
    if is_minimal_system_flow(&f2) {
        default_flow()
    } else {
        upgrade_legacy_default_data_flow(f2)
    }
}

/// A normalised flow always has a start node and an output node.
pub proof fn lemma_normalized_has_system_nodes(f: FlowView, ms: Seq<ModuleInfo>)
    ensures
        has_node_with_module(normalize_flow_spec(f, ms).nodes, START_MODULE_ID@),
        has_node_with_module(normalize_flow_spec(f, ms).nodes, OUTPUT_MODULE_ID@),
{
    let f1 = FlowView {
        nodes: f.nodes.map_values(|n: NodeView| normalize_node_spec(n, ms)),
        edges: f.edges.map_values(|e: EdgeView| normalize_edge_spec(e)),
        ..f
    };
    let f2 = ensure_system_nodes_spec(f1);
    let d = default_flow_spec();
    assert(d.nodes[0].module_id == START_MODULE_ID@);
    assert(d.nodes[5].module_id == OUTPUT_MODULE_ID@);
    assert(has_node_with_module(f2.nodes, START_MODULE_ID@)) by {
        if has_node_with_module(f1.nodes, START_MODULE_ID@) || has_node_with_module(f1.nodes, OUTPUT_MODULE_ID@) {
            if has_node_with_module(f1.nodes, START_MODULE_ID@) {
                let k = choose|k: int| 0 <= k < f1.nodes.len() && #[trigger] f1.nodes[k].module_id == START_MODULE_ID@;
                assert(f2.nodes[k] == f1.nodes[k]);
            } else {
                assert(f2.nodes[0] == start_node_spec());
            }
        } else {
            assert(f2.nodes[0].module_id == START_MODULE_ID@);
        }
    }
    assert(has_node_with_module(f2.nodes, OUTPUT_MODULE_ID@)) by {
        if has_node_with_module(f1.nodes, START_MODULE_ID@) || has_node_with_module(f1.nodes, OUTPUT_MODULE_ID@) {
            let has_start = has_node_with_module(f1.nodes, START_MODULE_ID@);
            let nodes1 = if !has_start { seq![start_node_spec()] + f1.nodes } else { f1.nodes };
            if has_node_with_module(f1.nodes, OUTPUT_MODULE_ID@) {
                let k = choose|k: int| 0 <= k < f1.nodes.len() && #[trigger] f1.nodes[k].module_id == OUTPUT_MODULE_ID@;
                let k2 = if !has_start { k + 1 } else { k };
                assert(nodes1[k2] == f1.nodes[k]);
                assert(f2.nodes[k2] == nodes1[k2]);
                assert(f2.nodes[k2].module_id == OUTPUT_MODULE_ID@);
            } else {
                assert(f2.nodes[nodes1.len() as int] == output_node_spec());
                assert(f2.nodes[nodes1.len() as int].module_id == OUTPUT_MODULE_ID@);
            }
        } else {
            assert(f2.nodes[5].module_id == OUTPUT_MODULE_ID@);
        }
    }
    let f3 = upgrade_legacy_spec(f2);
    assert(has_node_with_module(f3.nodes, START_MODULE_ID@)) by {
        let k = choose|k: int| 0 <= k < f2.nodes.len() && #[trigger] f2.nodes[k].module_id == START_MODULE_ID@;
        assert(f3.nodes[k] == f2.nodes[k]);
    }
    assert(has_node_with_module(f3.nodes, OUTPUT_MODULE_ID@)) by {
        let k = choose|k: int| 0 <= k < f2.nodes.len() && #[trigger] f2.nodes[k].module_id == OUTPUT_MODULE_ID@;
        assert(f3.nodes[k] == f2.nodes[k]);
    }
}

} // verus!
