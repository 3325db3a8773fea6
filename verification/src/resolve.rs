//! What reaches a step's data input ports: each port's value is resolved
//! back along data edges, through data nodes and merge nodes, to the files
//! of the run, to what the host read from disk, or to a finished step's output.
use crate::catalog::{lookup_module, module_index, find_module, lemma_module_index, opt_view, ModuleInfo, DATA_TYPE_IMAGES, DATA_TYPE_TEXTS, HANDLE_IMAGES_A_IN, HANDLE_IMAGES_B_IN, HANDLE_TEXTS_A_IN, HANDLE_TEXTS_B_IN};
use crate::flow::{EdgeView, FlowDefinition, FlowView, NodeView, EDGE_TYPE_DATA};
use crate::graph::{lemma_distinct_within, strings_contain, strings_view};
use crate::json::{clone_values, entries_key_index, entries_lookup, entries_view, find_key, json_as_str, json_get, json_seq_view, lemma_key_index, JsonValue, JsonView};
use crate::ports::{
    all_images_collection, all_texts_collection, blank_texts, file_items, is_collection, merge_collections,
    merged_items, module_data_output, module_data_output_spec, relative_collection, DataPortValue,
    file_item, file_under, lemma_file_items_under_path,
};
use crate::run::AuditFile;
use crate::strs::{concat2, concat3, str_eq};
use crate::validate::handle_or_empty;
use vstd::prelude::*;

verus! {

/// The mathematical form of a port value.
pub struct PortView {
    pub data_type: Seq<char>,
    pub items: Seq<JsonView>,
    pub path: Option<Seq<char>>,
    pub name: Option<Seq<char>>,
    pub relative_path: Option<Seq<char>>,
}

/// The view of a port value.
pub open spec fn port_view(v: DataPortValue) -> PortView {
    PortView {
        data_type: v.data_type@,
        items: json_seq_view(v.items@),
        path: opt_view(v.path),
        name: opt_view(v.name),
        relative_path: opt_view(v.relative_path),
    }
}

/// A collection of `items` of type `data_type`, no folder.
pub open spec fn collection_view(data_type: Seq<char>, items: Seq<JsonView>) -> PortView {
    PortView { data_type, items, path: None, name: None, relative_path: None }
}

/// A port result by view.
pub open spec fn port_result_view(r: Result<DataPortValue, String>) -> Result<PortView, Seq<char>> {
    match r {
        Ok(v) => Ok(port_view(v)),
        Err(e) => Err(e@),
    }
}

/// What the resolution reads: the flow, the modules, the run's files and
/// their texts, what the host read from disk for each node that needs it,
/// and the outputs of the finished steps by node id.
pub struct DataEnv {
    pub nodes: Seq<NodeView>,
    pub edges: Seq<EdgeView>,
    pub modules: Seq<ModuleInfo>,
    pub files: Seq<AuditFile>,
    pub texts: Seq<Seq<char>>,
    pub leaves: Seq<Option<Result<PortView, Seq<char>>>>,
    pub outputs: Seq<(Seq<char>, JsonView)>,
}

/// The data a run's host gathers for resolving ports: the files of the run,
/// the text of each (same position), for each node of the flow what was read
/// from disk for it (`None` for nodes that read nothing), and the output of
/// each finished step by node id.
#[derive(Debug)]
pub struct DataSources {
    pub files: Vec<AuditFile>,
    pub texts: Vec<String>,
    pub leaves: Vec<Option<Result<DataPortValue, String>>>,
    pub outputs: Vec<(String, JsonValue)>,
}

/// The environment of a flow, its modules and the gathered data.
pub open spec fn data_env(flow: FlowView, ms: Seq<ModuleInfo>, src: DataSources) -> DataEnv {
    DataEnv {
        nodes: flow.nodes,
        edges: flow.edges,
        modules: ms,
        files: src.files@,
        texts: strings_view(src.texts@),
        leaves: src.leaves@.map_values(|o: Option<Result<DataPortValue, String>>|
            match o {
                Some(r) => Some(port_result_view(r)),
                None => None,
            }),
        outputs: entries_view(src.outputs@),
    }
}

/// The key of a port while it is being resolved: node id, a colon, handle.
pub open spec fn port_key(node_id: Seq<char>, handle: Seq<char>) -> Seq<char> {
    node_id + ":"@ + handle
}

/// The keys of the ports that edges start from.
pub open spec fn edge_keys(ev: Seq<EdgeView>) -> Seq<Seq<char>> {
    Seq::new(ev.len(), |i: int| port_key(ev[i].from, handle_or_empty(ev[i].from_handle)))
}

/// The ports being resolved: no key twice, and all but the first are ports
/// that edges start from.
pub open spec fn visiting_ok(ev: Seq<EdgeView>, visiting: Seq<Seq<char>>) -> bool {
    &&& visiting.no_duplicates()
    &&& forall|i: int| 1 <= i < visiting.len() ==> edge_keys(ev).contains(#[trigger] visiting[i])
}

/// Index of the first node with id `id`, or -1.
pub open spec fn first_node_index(nodes: Seq<NodeView>, id: Seq<char>) -> int
    decreases nodes.len(),
{
    if nodes.len() == 0 {
        -1
    } else if nodes[0].id == id {
        0
    } else {
        let r = first_node_index(nodes.drop_first(), id);
        if r < 0 {
            -1
        } else {
            r + 1
        }
    }
}

/// Index of the first data edge into port `handle` of node `to`, or -1.
pub open spec fn first_incoming(edges: Seq<EdgeView>, to: Seq<char>, handle: Seq<char>) -> int
    decreases edges.len(),
{
    if edges.len() == 0 {
        -1
    } else if edges[0].edge_type == EDGE_TYPE_DATA@ && edges[0].to == to && edges[0].to_handle == Some(handle) {
        0
    } else {
        let r = first_incoming(edges.drop_first(), to, handle);
        if r < 0 {
            -1
        } else {
            r + 1
        }
    }
}

/// The string member `relativePath` of a configuration, or the empty string.
pub open spec fn relative_config(config: JsonView) -> Seq<char> {
    match json_as_str(json_get(config, "relativePath"@)) {
        Some(s) => s,
        None => Seq::empty(),
    }
}

/// A data node whose value the host reads from disk.
pub open spec fn is_leaf_kind(kind: Seq<char>) -> bool {
    ||| kind == "data_artifact_images"@
    ||| kind == "data_artifact_texts"@
    ||| kind == "data_audit_folder"@
    ||| kind == "data_audit_relative_folder"@
    ||| kind == "data_artifact_folder"@
    ||| kind == "data_artifact_relative_folder"@
}

/// The value of node `i` (with module `m`) on port `handle`, when it does not
/// merge other ports: the run's images or texts, all or under the node's
/// relative path; what the host read for it; or a finished step's output.
pub open spec fn direct_value(env: DataEnv, i: int, m: ModuleInfo, handle: Seq<char>) -> Result<PortView, Seq<char>> {
    let kind = m.kind@;
    let node = env.nodes[i];
    let n = env.files.len() as int;
    if kind == "data_all_images"@ {
        Ok(collection_view(DATA_TYPE_IMAGES@, file_items(env.files, blank_texts(env.files.len()), true, None, n)))
    } else if kind == "data_all_texts"@ {
        Ok(collection_view(DATA_TYPE_TEXTS@, file_items(env.files, env.texts, false, None, n)))
    } else if is_leaf_kind(kind) {
        match env.leaves[i] {
            Some(r) => r,
            None => Err(Seq::empty()),
        }
    } else if kind == "data_relative_images"@ {
        Ok(collection_view(DATA_TYPE_IMAGES@, file_items(env.files, env.texts, true, Some(relative_config(node.config)), n)))
    } else if kind == "data_relative_texts"@ {
        Ok(collection_view(DATA_TYPE_TEXTS@, file_items(env.files, env.texts, false, Some(relative_config(node.config)), n)))
    } else {
        match entries_lookup(env.outputs, node.id) {
            None => Err("数据来源 "@ + node.label + " 尚未运行完成，无法传给下游。"@),
            Some(o) => match module_data_output_spec(m, node, o, handle) {
                None => Err("步骤 "@ + node.label + " 没有可用的数据输出口。"@),
                Some((t, items)) => Ok(collection_view(t, items)),
            },
        }
    }
}

/// A merge of two port values: the left one's type, each item once.
pub open spec fn merged_view(l: PortView, r: PortView) -> PortView {
    collection_view(l.data_type, merged_items(l.data_type, l.items, r.items))
}

/// The value on port `handle` of node `node_id` while the ports `visiting`
/// are being resolved: an error when the port is already among them (the data
/// nodes form a circle), when the node or its module is unknown, or when a
/// merge node lacks an input; a merge node's two inputs resolved in turn and
/// merged; else the node's direct value.
pub open spec fn resolve_spec(env: DataEnv, visiting: Seq<Seq<char>>, node_id: Seq<char>, handle: Seq<char>) -> Result<PortView, Seq<char>>
    decreases env.edges.len() + 1 - visiting.len(),
{
    let key = port_key(node_id, handle);
    if !visiting_ok(env.edges, visiting) || (visiting.len() > 0 && !edge_keys(env.edges).contains(key)) {
        Err(Seq::empty())
    } else if visiting.contains(key) {
        Err("数据节点之间形成了闭环。"@)
    } else {
        let i = first_node_index(env.nodes, node_id);
        if i < 0 {
            Err("找不到数据来源节点 "@ + node_id)
        } else {
            let node = env.nodes[i];
            match lookup_module(env.modules, node.module_id) {
                None => Err("找不到模块 "@ + node.module_id),
                Some(m) => {
                    let merge_images = m.kind@ == "data_merge_images"@;
                    let merge_texts = m.kind@ == "data_merge_texts"@;
                    if merge_images || merge_texts {
                        let (ha, hb, ma, mb) = if merge_images {
                            (HANDLE_IMAGES_A_IN@, HANDLE_IMAGES_B_IN@, " 缺少图片集合 A。"@, " 缺少图片集合 B。"@)
                        } else {
                            (HANDLE_TEXTS_A_IN@, HANDLE_TEXTS_B_IN@, " 缺少文本集合 A。"@, " 缺少文本集合 B。"@)
                        };
                        let la = first_incoming(env.edges, node_id, ha);
                        let lb = first_incoming(env.edges, node_id, hb);
                        if la < 0 {
                            Err("步骤 "@ + node.label + ma)
                        } else if lb < 0 {
                            Err("步骤 "@ + node.label + mb)
                        } else {
                            let next = visiting.push(key);
                            proof {
                                lemma_visiting_bound(env.edges, visiting, key);
                            }
                            let ea = env.edges[la];
                            let eb = env.edges[lb];
                            match resolve_spec(env, next, ea.from, handle_or_empty(ea.from_handle)) {
                                Err(e) => Err(e),
                                Ok(left) => match resolve_spec(env, next, eb.from, handle_or_empty(eb.from_handle)) {
                                    Err(e) => Err(e),
                                    Ok(right) => Ok(merged_view(left, right)),
                                },
                            }
                        }
                    } else {
                        direct_value(env, i, m, handle)
                    }
                },
            }
        }
    }
}

/// Adding a new key to the ports being resolved keeps them within one more
/// than the number of edges.
pub proof fn lemma_visiting_bound(ev: Seq<EdgeView>, visiting: Seq<Seq<char>>, key: Seq<char>)
    requires
        visiting_ok(ev, visiting),
        !visiting.contains(key),
        visiting.len() > 0 ==> edge_keys(ev).contains(key),
    ensures
        visiting.push(key).len() <= ev.len() + 1,
        visiting_ok(ev, visiting.push(key)),
{
    let next = visiting.push(key);
    assert forall|i: int, j: int| 0 <= i < j < next.len() implies next[i] != next[j] by {
        if j == next.len() - 1 {
            assert(visiting.contains(next[i]) || i >= visiting.len());
        }
    }
    assert(next.no_duplicates());
    assert forall|i: int| 1 <= i < next.len() implies edge_keys(ev).contains(#[trigger] next[i]) by {
        if i < visiting.len() {
            assert(next[i] == visiting[i]);
        }
    }
    let tail = next.drop_first();
    assert forall|i: int, j: int| 0 <= i < j < tail.len() implies tail[i] != tail[j] by {
        assert(tail[i] == next[i + 1] && tail[j] == next[j + 1]);
    }
    assert(tail.no_duplicates());
    assert forall|i: int| 0 <= i < tail.len() implies edge_keys(ev).contains(#[trigger] tail[i]) by {
        assert(tail[i] == next[i + 1]);
    }
    lemma_distinct_within(tail, edge_keys(ev));
}

/// Facts about `first_node_index`.
pub proof fn lemma_first_node_index(nodes: Seq<NodeView>, id: Seq<char>)
    ensures
        -1 <= first_node_index(nodes, id) < nodes.len(),
        first_node_index(nodes, id) >= 0 ==> nodes[first_node_index(nodes, id)].id == id,
        forall|j: int|
            0 <= j < nodes.len() && (first_node_index(nodes, id) < 0 || j < first_node_index(nodes, id))
                ==> #[trigger] nodes[j].id != id,
    decreases nodes.len(),
{
    if nodes.len() > 0 && nodes[0].id != id {
        lemma_first_node_index(nodes.drop_first(), id);
        assert forall|j: int|
            0 <= j < nodes.len() && (first_node_index(nodes, id) < 0 || j < first_node_index(nodes, id))
                implies #[trigger] nodes[j].id != id by {
            if j > 0 {
                assert(nodes[j] == nodes.drop_first()[j - 1]);
            }
        }
    }
}

/// Facts about `first_incoming`.
pub proof fn lemma_first_incoming(edges: Seq<EdgeView>, to: Seq<char>, handle: Seq<char>)
    ensures
        -1 <= first_incoming(edges, to, handle) < edges.len(),
        first_incoming(edges, to, handle) >= 0 ==> {
            let e = edges[first_incoming(edges, to, handle)];
            e.edge_type == EDGE_TYPE_DATA@ && e.to == to && e.to_handle == Some(handle)
        },
        forall|j: int|
            0 <= j < edges.len() && (first_incoming(edges, to, handle) < 0 || j < first_incoming(edges, to, handle))
                ==> !(#[trigger] edges[j].edge_type == EDGE_TYPE_DATA@ && edges[j].to == to && edges[j].to_handle == Some(
                handle,
            )),
    decreases edges.len(),
{
    if edges.len() > 0 && !(edges[0].edge_type == EDGE_TYPE_DATA@ && edges[0].to == to && edges[0].to_handle == Some(
        handle,
    )) {
        lemma_first_incoming(edges.drop_first(), to, handle);
        assert forall|j: int|
            0 <= j < edges.len() && (first_incoming(edges, to, handle) < 0 || j < first_incoming(edges, to, handle))
                implies !(#[trigger] edges[j].edge_type == EDGE_TYPE_DATA@ && edges[j].to == to && edges[j].to_handle
                == Some(handle)) by {
            if j > 0 {
                assert(edges[j] == edges.drop_first()[j - 1]);
            }
        }
    }
}

/// The first node with id `id`.
pub(crate) fn first_node_with_id(flow: &FlowDefinition, id: &str) -> (r: Option<usize>)
    ensures
        match r {
            Some(i) => i as int == first_node_index(flow@.nodes, id@),
            None => first_node_index(flow@.nodes, id@) < 0,
        },
{
    let ghost nv = flow@.nodes;
    proof {
        lemma_first_node_index(nv, id@);
    }
    let mut i: usize = 0;
    while i < flow.nodes.len()
        invariant
            nv == flow@.nodes,
            i <= nv.len(),
            forall|j: int| 0 <= j < i ==> #[trigger] nv[j].id != id@,
        decreases nv.len() - i,
    {
        assert(nv[i as int].id == flow.nodes@[i as int].id@);
        if str_eq(flow.nodes[i].id.as_str(), id) {
            proof {
                lemma_first_node_index(nv, id@);
                let r = first_node_index(nv, id@);
                if r >= 0 && r < i {
                    assert(nv[r].id != id@);
                }
                if r < 0 {
                    assert(nv[i as int].id != id@);
                }
            }
            return Some(i);
        }
        i += 1;
    }
    None
}

/// The first data edge into port `handle` of node `to`.
fn first_incoming_edge(flow: &FlowDefinition, to: &str, handle: &str) -> (r: Option<usize>)
    ensures
        match r {
            Some(i) => i as int == first_incoming(flow@.edges, to@, handle@),
            None => first_incoming(flow@.edges, to@, handle@) < 0,
        },
{
    let ghost ev = flow@.edges;
    proof {
        lemma_first_incoming(ev, to@, handle@);
    }
    let mut i: usize = 0;
    while i < flow.edges.len()
        invariant
            ev == flow@.edges,
            i <= ev.len(),
            forall|j: int| 0 <= j < i ==> !(#[trigger] ev[j].edge_type == EDGE_TYPE_DATA@ && ev[j].to == to@ && ev[j].to_handle == Some(handle@)),
        decreases ev.len() - i,
    {
        let e = &flow.edges[i];
        assert(ev[i as int].edge_type == e.edge_type@ && ev[i as int].to == e.to@ && ev[i as int].to_handle == opt_view(e.to_handle));
        let handle_ok = match &e.to_handle {
            Some(h) => str_eq(h.as_str(), handle),
            None => false,
        };
        if str_eq(e.edge_type.as_str(), EDGE_TYPE_DATA) && str_eq(e.to.as_str(), to) && handle_ok {
            proof {
                lemma_first_incoming(ev, to@, handle@);
                let r = first_incoming(ev, to@, handle@);
                if r >= 0 && r < i {
                    assert(!(ev[r].edge_type == EDGE_TYPE_DATA@ && ev[r].to == to@ && ev[r].to_handle == Some(handle@)));
                }
                if r < 0 {
                    assert(!(ev[i as int].edge_type == EDGE_TYPE_DATA@ && ev[i as int].to == to@ && ev[i as int].to_handle == Some(handle@)));
                }
            }
            return Some(i);
        }
        i += 1;
    }
    None
}

/// The string member `relativePath` of a configuration, or the empty string.
fn relative_config_exec(config: &JsonValue) -> (r: &str)
    ensures
        r@ == relative_config(config@),
{
    proof {
        reveal_strlit("");
    }
    match config.get("relativePath") {
        Some(v) => match v.as_str() {
            Some(s) => s,
            None => "",
        },
        None => "",
    }
}

/// A copy of a port value.
pub fn copy_port(v: &DataPortValue) -> (r: DataPortValue)
    ensures
        port_view(r) == port_view(*v),
{
    DataPortValue {
        data_type: v.data_type.clone(),
        items: clone_values(&v.items),
        path: crate::catalog::clone_opt(&v.path),
        name: crate::catalog::clone_opt(&v.name),
        relative_path: crate::catalog::clone_opt(&v.relative_path),
    }
}

/// The gathered data fits the flow: a text for each file and a slot for each node.
pub open spec fn sources_fit(flow: FlowView, src: DataSources) -> bool {
    &&& src.texts@.len() == src.files@.len()
    &&& src.leaves@.len() == flow.nodes.len()
}

/// A collection's view.
proof fn lemma_collection_view(v: DataPortValue, data_type: Seq<char>, items: Seq<JsonView>)
    requires
        is_collection(v, data_type, items),
    ensures
        port_view(v) == collection_view(data_type, items),
{
}

/// The value node `i` (with module `m`) gives port `handle` without merging.
fn direct_value_exec(flow: &FlowDefinition, modules: &Vec<ModuleInfo>, src: &DataSources, i: usize, m: &ModuleInfo, handle: &str) -> (r: Result<DataPortValue, String>)
    requires
        sources_fit(flow@, *src),
        i < flow@.nodes.len(),
    ensures
        port_result_view(r) == direct_value(data_env(flow@, modules@, *src), i as int, *m, handle@),
{
    let ghost env = data_env(flow@, modules@, *src);
    let node = &flow.nodes[i];
    assert(env.nodes[i as int] == node@);
    let kind = m.kind.as_str();
    if str_eq(kind, "data_all_images") {
        let v = all_images_collection(&src.files);
        proof {
            lemma_collection_view(v, DATA_TYPE_IMAGES@, file_items(src.files@, blank_texts(src.files@.len()), true, None, src.files@.len() as int));
        }
        Ok(v)
    } else if str_eq(kind, "data_all_texts") {
        let v = all_texts_collection(&src.files, &src.texts);
        proof {
            lemma_collection_view(v, DATA_TYPE_TEXTS@, file_items(src.files@, strings_view(src.texts@), false, None, src.files@.len() as int));
        }
        Ok(v)
    } else if str_eq(kind, "data_artifact_images") || str_eq(kind, "data_artifact_texts") || str_eq(kind, "data_audit_folder")
        || str_eq(kind, "data_audit_relative_folder") || str_eq(kind, "data_artifact_folder") || str_eq(
        kind,
        "data_artifact_relative_folder",
    ) {
        assert(is_leaf_kind(m.kind@));
        match &src.leaves[i] {
            Some(Ok(v)) => Ok(copy_port(v)),
            Some(Err(e)) => Err(e.clone()),
            None => Err(String::new()),
        }
    } else if str_eq(kind, "data_relative_images") {
        let rel = relative_config_exec(&node.config);
        let v = relative_collection(&src.files, &src.texts, DATA_TYPE_IMAGES, rel);
        proof {
            lemma_collection_view(v, DATA_TYPE_IMAGES@, file_items(src.files@, strings_view(src.texts@), true, Some(rel@), src.files@.len() as int));
        }
        Ok(v)
    } else if str_eq(kind, "data_relative_texts") {
        let rel = relative_config_exec(&node.config);
        let v = relative_collection(&src.files, &src.texts, DATA_TYPE_TEXTS, rel);
        proof {
            reveal_strlit("imageCollection");
            reveal_strlit("textCollection");
            assert(DATA_TYPE_IMAGES@ == "imageCollection"@);
            assert(DATA_TYPE_TEXTS@ == "textCollection"@);
            assert(DATA_TYPE_IMAGES@.len() != DATA_TYPE_TEXTS@.len());
            lemma_collection_view(v, DATA_TYPE_TEXTS@, file_items(src.files@, strings_view(src.texts@), false, Some(rel@), src.files@.len() as int));
        }
        Ok(v)
    } else {
        let k = find_key(&src.outputs, node.id.as_str());
        proof {
            lemma_key_index(entries_view(src.outputs@), node.id@);
        }
        if k < src.outputs.len() {
            let output = &src.outputs[k].1;
            assert(entries_view(src.outputs@)[k as int].1 == output@);
            match module_data_output(m, node, output, handle) {
                Some(v) => {
                    proof {
                        let (t, items) = module_data_output_spec(*m, node@, output@, handle@)->0;
                        lemma_collection_view(v, t, items);
                    }
                    Ok(v)
                },
                None => Err(concat3("步骤 ", node.label.as_str(), " 没有可用的数据输出口。")),
            }
        } else {
            Err(concat3("数据来源 ", node.label.as_str(), " 尚未运行完成，无法传给下游。"))
        }
    }
}

/// The handle an edge starts from, or the empty string.
fn from_handle_of(e: &crate::flow::FlowEdge) -> (r: &str)
    ensures
        r@ == handle_or_empty(opt_view(e.from_handle)),
{
    proof {
        reveal_strlit("");
    }
    match &e.from_handle {
        Some(h) => h.as_str(),
        None => "",
    }
}

/// Resolves port `handle` of node `node_id` while the ports `visiting` are
/// being resolved; on success `visiting` is as it was.
fn resolve_port(
    flow: &FlowDefinition,
    modules: &Vec<ModuleInfo>,
    src: &DataSources,
    visiting: &mut Vec<String>,
    node_id: &str,
    handle: &str,
) -> (r: Result<DataPortValue, String>)
    requires
        sources_fit(flow@, *src),
        visiting_ok(flow@.edges, strings_view(old(visiting)@)),
        old(visiting)@.len() > 0 ==> edge_keys(flow@.edges).contains(port_key(node_id@, handle@)),
    ensures
        port_result_view(r) == resolve_spec(data_env(flow@, modules@, *src), strings_view(old(visiting)@), node_id@, handle@),
        r is Ok ==> final(visiting)@ == old(visiting)@,
    decreases flow@.edges.len() + 1 - old(visiting)@.len(),
{
    let ghost env = data_env(flow@, modules@, *src);
    let ghost vis0 = strings_view(visiting@);
    let ghost v0 = visiting@;
    let key = concat3(node_id, ":", handle);
    assert(key@ == port_key(node_id@, handle@));
    if strings_contain(visiting, key.as_str()) {
        return Err("数据节点之间形成了闭环。".to_owned());
    }
    let i = match first_node_with_id(flow, node_id) {
        None => {
            return Err(concat2("找不到数据来源节点 ", node_id));
        },
        Some(i) => i,
    };
    proof {
        lemma_first_node_index(flow@.nodes, node_id@);
    }
    let node = &flow.nodes[i];
    assert(env.nodes[i as int] == node@);
    let mi = match find_module(modules, node.module_id.as_str()) {
        None => {
            return Err(concat2("找不到模块 ", node.module_id.as_str()));
        },
        Some(mi) => mi,
    };
    let m = &modules[mi];
    let kind = m.kind.as_str();
    let merge_images = str_eq(kind, "data_merge_images");
    let merge_texts = str_eq(kind, "data_merge_texts");
    if !(merge_images || merge_texts) {
        return direct_value_exec(flow, modules, src, i, m, handle);
    }
    let (ha, hb, ma, mb) = if merge_images {
        (HANDLE_IMAGES_A_IN, HANDLE_IMAGES_B_IN, " 缺少图片集合 A。", " 缺少图片集合 B。")
    } else {
        (HANDLE_TEXTS_A_IN, HANDLE_TEXTS_B_IN, " 缺少文本集合 A。", " 缺少文本集合 B。")
    };
    let la = match first_incoming_edge(flow, node_id, ha) {
        None => {
            return Err(concat3("步骤 ", node.label.as_str(), ma));
        },
        Some(x) => x,
    };
    let lb = match first_incoming_edge(flow, node_id, hb) {
        None => {
            return Err(concat3("步骤 ", node.label.as_str(), mb));
        },
        Some(x) => x,
    };
    proof {
        lemma_first_incoming(flow@.edges, node_id@, ha@);
        lemma_first_incoming(flow@.edges, node_id@, hb@);
        lemma_visiting_bound(flow@.edges, vis0, key@);
    }
    visiting.push(key);
    let ghost v1 = visiting@;
    assert(strings_view(v1) =~= vis0.push(port_key(node_id@, handle@)));
    let ea = &flow.edges[la];
    let eb = &flow.edges[lb];
    let ha_from = from_handle_of(ea);
    let hb_from = from_handle_of(eb);
    proof {
        assert(flow@.edges[la as int].from == ea.from@ && flow@.edges[la as int].from_handle == opt_view(ea.from_handle));
        assert(flow@.edges[lb as int].from == eb.from@ && flow@.edges[lb as int].from_handle == opt_view(eb.from_handle));
        assert(edge_keys(flow@.edges)[la as int] == port_key(ea.from@, ha_from@));
        assert(edge_keys(flow@.edges)[lb as int] == port_key(eb.from@, hb_from@));
    }
    let left = match resolve_port(flow, modules, src, visiting, ea.from.as_str(), ha_from) {
        Err(e) => {
            return Err(e);
        },
        Ok(v) => v,
    };
    let right = match resolve_port(flow, modules, src, visiting, eb.from.as_str(), hb_from) {
        Err(e) => {
            return Err(e);
        },
        Ok(v) => v,
    };
    visiting.pop();
    assert(visiting@ =~= v0);
    let merged = merge_collections(left, right);
    proof {
        lemma_collection_view(merged, left.data_type@, merged_items(left.data_type@, json_seq_view(left.items@), json_seq_view(right.items@)));
    }
    Ok(merged)
}

/// Every node whose value comes from disk has what the host read for it.
pub open spec fn leaves_complete(flow: FlowView, ms: Seq<ModuleInfo>, src: DataSources) -> bool {
    forall|i: int|
        0 <= i < flow.nodes.len() && (#[trigger] lookup_module(ms, flow.nodes[i].module_id) matches Some(m) && is_leaf_kind(
            m.kind@,
        )) ==> src.leaves@[i] is Some
}

/// The value on port `handle` of node `node_id`, resolved back along data edges.
pub fn resolve_data_value(flow: &FlowDefinition, modules: &Vec<ModuleInfo>, src: &DataSources, node_id: &str, handle: &str) -> (r: Result<DataPortValue, String>)
    requires
        sources_fit(flow@, *src),
        leaves_complete(flow@, modules@, *src),
    ensures
        port_result_view(r) == resolve_spec(data_env(flow@, modules@, *src), Seq::empty(), node_id@, handle@),
{
    let mut visiting: Vec<String> = Vec::new();
    assert(strings_view(visiting@) =~= Seq::<Seq<char>>::empty());
    resolve_port(flow, modules, src, &mut visiting, node_id, handle)
}

/// `entries` with the value of key `key` replaced, or the pair appended.
pub open spec fn port_insert(entries: Seq<(Seq<char>, PortView)>, key: Seq<char>, value: PortView) -> Seq<(Seq<char>, PortView)> {
    if exists|j: int| 0 <= j < entries.len() && #[trigger] entries[j].0 == key {
        let j = choose|j: int| 0 <= j < entries.len() && #[trigger] entries[j].0 == key;
        entries.update(j, (key, value))
    } else {
        entries.push((key, value))
    }
}

/// The input ports of node `node_id` fed by the first `k` edges, each data
/// edge's source resolved in turn; the first failure is the result.
pub open spec fn inputs_spec(env: DataEnv, node_id: Seq<char>, k: int) -> Result<Seq<(Seq<char>, PortView)>, Seq<char>>
    decreases k,
{
    if k <= 0 {
        Ok(Seq::empty())
    } else {
        match inputs_spec(env, node_id, k - 1) {
            Err(e) => Err(e),
            Ok(acc) => {
                let e = env.edges[k - 1];
                if e.edge_type == EDGE_TYPE_DATA@ && e.to == node_id {
                    match resolve_spec(env, Seq::empty(), e.from, handle_or_empty(e.from_handle)) {
                        Err(x) => Err(x),
                        Ok(v) => Ok(port_insert(acc, handle_or_empty(e.to_handle), v)),
                    }
                } else {
                    Ok(acc)
                }
            },
        }
    }
}

/// The views of input ports.
pub open spec fn inputs_view(v: Seq<(String, DataPortValue)>) -> Seq<(Seq<char>, PortView)> {
    v.map_values(|e: (String, DataPortValue)| (e.0@, port_view(e.1)))
}

/// No key occurs twice among the entries.
pub open spec fn keys_distinct(entries: Seq<(Seq<char>, PortView)>) -> bool {
    forall|i: int, j: int| 0 <= i < j < entries.len() ==> #[trigger] entries[i].0 != #[trigger] entries[j].0
}

/// Inserting keeps keys distinct, and with distinct keys the key's entry is the one replaced.
proof fn lemma_port_insert(entries: Seq<(Seq<char>, PortView)>, key: Seq<char>, value: PortView, j: int)
    requires
        keys_distinct(entries),
        0 <= j < entries.len(),
        entries[j].0 == key,
    ensures
        port_insert(entries, key, value) == entries.update(j, (key, value)),
{
    let c = choose|c: int| 0 <= c < entries.len() && #[trigger] entries[c].0 == key;
    if c != j {
        if c < j {
            assert(entries[c].0 != entries[j].0);
        } else {
            assert(entries[j].0 != entries[c].0);
        }
    }
}

/// Once an edge fails, the inputs fail with its error.
proof fn lemma_inputs_error_stays(env: DataEnv, node_id: Seq<char>, k: int, m: int)
    requires
        0 <= k <= m,
        inputs_spec(env, node_id, k) is Err,
    ensures
        inputs_spec(env, node_id, m) == inputs_spec(env, node_id, k),
    decreases m - k,
{
    if m > k {
        lemma_inputs_error_stays(env, node_id, k, m - 1);
    }
}

/// The values on the input ports of node `node_id`: for each data edge into
/// it, in order, its source port resolved, under the edge's input handle (a
/// later edge into the same handle replaces an earlier one).
pub fn data_inputs_for_node(flow: &FlowDefinition, modules: &Vec<ModuleInfo>, src: &DataSources, node_id: &str) -> (r: Result<Vec<(String, DataPortValue)>, String>)
    requires
        sources_fit(flow@, *src),
        leaves_complete(flow@, modules@, *src),
    ensures
        match r {
            Ok(v) => inputs_spec(data_env(flow@, modules@, *src), node_id@, flow@.edges.len() as int) == Ok::<Seq<(Seq<char>, PortView)>, Seq<char>>(inputs_view(v@)),
            Err(e) => inputs_spec(data_env(flow@, modules@, *src), node_id@, flow@.edges.len() as int) == Err::<Seq<(Seq<char>, PortView)>, Seq<char>>(e@),
        },
{
    let ghost env = data_env(flow@, modules@, *src);
    let ghost ev = flow@.edges;
    let mut inputs: Vec<(String, DataPortValue)> = Vec::new();
    assert(inputs_view(inputs@) =~= Seq::<(Seq<char>, PortView)>::empty());
    let mut k: usize = 0;
    while k < flow.edges.len()
        invariant
            env == data_env(flow@, modules@, *src),
            ev == flow@.edges,
            sources_fit(flow@, *src),
            leaves_complete(flow@, modules@, *src),
            k <= ev.len(),
            inputs_spec(env, node_id@, k as int) == Ok::<Seq<(Seq<char>, PortView)>, Seq<char>>(inputs_view(inputs@)),
            keys_distinct(inputs_view(inputs@)),
        decreases ev.len() - k,
    {
        let e = &flow.edges[k];
        assert(ev[k as int].edge_type == e.edge_type@ && ev[k as int].to == e.to@ && ev[k as int].from == e.from@);
        assert(ev[k as int].from_handle == opt_view(e.from_handle) && ev[k as int].to_handle == opt_view(e.to_handle));
        if str_eq(e.edge_type.as_str(), EDGE_TYPE_DATA) && str_eq(e.to.as_str(), node_id) {
            let from_handle = from_handle_of(e);
            let value = match resolve_data_value(flow, modules, src, e.from.as_str(), from_handle) {
                Err(x) => {
                    proof {
                        lemma_inputs_error_stays(env, node_id@, k + 1, ev.len() as int);
                    }
                    return Err(x);
                },
                Ok(v) => v,
            };
            let to_handle: String = match &e.to_handle {
                Some(h) => h.clone(),
                None => String::new(),
            };
            proof {
                reveal_strlit("");
                assert(to_handle@ == handle_or_empty(ev[k as int].to_handle));
            }
            let ghost before = inputs_view(inputs@);
            let mut j: usize = 0;
            let mut found = false;
            while !found && j < inputs.len()
                invariant
                    before == inputs_view(inputs@),
                    j <= inputs@.len(),
                    found ==> j < inputs@.len() && before[j as int].0 == to_handle@,
                    forall|q: int| 0 <= q < j ==> #[trigger] before[q].0 != to_handle@,
                decreases inputs@.len() - j + (if found { 0int } else { 1int }),
            {
                if str_eq(inputs[j].0.as_str(), to_handle.as_str()) {
                    found = true;
                } else {
                    j += 1;
                }
            }
            let ghost pv = port_view(value);
            if found {
                proof {
                    lemma_port_insert(before, to_handle@, pv, j as int);
                }
                inputs.set(j, (to_handle, value));
                assert(inputs_view(inputs@) =~= before.update(j as int, (before[j as int].0, pv)));
            } else {
                proof {
                    assert(!exists|q: int| 0 <= q < before.len() && #[trigger] before[q].0 == to_handle@);
                }
                inputs.push((to_handle, value));
                assert(inputs_view(inputs@) =~= before.push((to_handle@, pv)));
            }
        }
        k += 1;
    }
    Ok(inputs)
}

/// What the host reads from disk for a data node: the images or texts of the
/// products folder, the audited folder or the products folder (whole, or the
/// subfolder at the node's relative path, as configured).
#[derive(Debug)]
pub enum DataLeaf {
    ArtifactImages,
    ArtifactTexts,
    AuditFolder,
    AuditRelativeFolder(String),
    ArtifactFolder,
    ArtifactRelativeFolder(String),
}

/// What node `i` needs read from disk, by its module's kind.
pub open spec fn data_leaf_spec(flow: FlowView, ms: Seq<ModuleInfo>, i: int) -> Option<(Seq<char>, Seq<char>)> {
    match lookup_module(ms, flow.nodes[i].module_id) {
        Some(m) => if is_leaf_kind(m.kind@) {
            Some((m.kind@, relative_config(flow.nodes[i].config)))
        } else {
            None
        },
        None => None,
    }
}

/// The kind and relative path a leaf stands for.
pub open spec fn leaf_view(l: DataLeaf) -> (Seq<char>, Option<Seq<char>>) {
    match l {
        DataLeaf::ArtifactImages => ("data_artifact_images"@, None),
        DataLeaf::ArtifactTexts => ("data_artifact_texts"@, None),
        DataLeaf::AuditFolder => ("data_audit_folder"@, None),
        DataLeaf::AuditRelativeFolder(p) => ("data_audit_relative_folder"@, Some(p@)),
        DataLeaf::ArtifactFolder => ("data_artifact_folder"@, None),
        DataLeaf::ArtifactRelativeFolder(p) => ("data_artifact_relative_folder"@, Some(p@)),
    }
}

/// What the host must read from disk for node `i`, if anything.
pub fn data_leaf_request(flow: &FlowDefinition, modules: &Vec<ModuleInfo>, i: usize) -> (r: Option<DataLeaf>)
    requires
        i < flow@.nodes.len(),
    ensures
        match data_leaf_spec(flow@, modules@, i as int) {
            None => r is None,
            Some((kind, rel)) => r matches Some(l) && leaf_view(l).0 == kind && (leaf_view(l).1 matches Some(p) ==> p
                == rel),
        },
{
    let node = &flow.nodes[i];
    assert(flow@.nodes[i as int] == node@);
    let mi = match find_module(modules, node.module_id.as_str()) {
        None => {
            return None;
        },
        Some(mi) => mi,
    };
    let kind = modules[mi].kind.as_str();
    if str_eq(kind, "data_artifact_images") {
        Some(DataLeaf::ArtifactImages)
    } else if str_eq(kind, "data_artifact_texts") {
        Some(DataLeaf::ArtifactTexts)
    } else if str_eq(kind, "data_audit_folder") {
        Some(DataLeaf::AuditFolder)
    } else if str_eq(kind, "data_audit_relative_folder") {
        Some(DataLeaf::AuditRelativeFolder(relative_config_exec(&node.config).to_owned()))
    } else if str_eq(kind, "data_artifact_folder") {
        Some(DataLeaf::ArtifactFolder)
    } else if str_eq(kind, "data_artifact_relative_folder") {
        Some(DataLeaf::ArtifactRelativeFolder(relative_config_exec(&node.config).to_owned()))
    } else {
        None
    }
}

/// The folder a run audits: the trimmed path of the first folder asset whose
/// path is not blank.
pub open spec fn audit_folder_spec(assets: Seq<crate::run::AuditAsset>) -> Option<Seq<char>>
    decreases assets.len(),
{
    if assets.len() == 0 {
        None
    } else if assets[0].kind@ == "directory"@ && crate::strs::trim_spec(assets[0].path@).len() > 0 {
        Some(crate::strs::trim_spec(assets[0].path@))
    } else {
        audit_folder_spec(assets.drop_first())
    }
}

/// The folder a run audits, or the error a folder node reports without one.
pub fn audit_folder_root(assets: &Vec<crate::run::AuditAsset>) -> (r: Result<String, String>)
    ensures
        match audit_folder_spec(assets@) {
            Some(p) => r matches Ok(s) && s@ == p,
            None => r matches Err(e) && e@ == "本次运行没有选择待审核文件夹。"@,
        },
{
    let mut i: usize = 0;
    assert(assets@.skip(0) =~= assets@);
    while i < assets.len()
        invariant
            i <= assets@.len(),
            audit_folder_spec(assets@) == audit_folder_spec(assets@.skip(i as int)),
        decreases assets@.len() - i,
    {
        let t = crate::strs::trim(assets[i].path.as_str());
        let ghost rest = assets@.skip(i as int);
        assert(rest[0] == assets@[i as int]);
        assert(rest.drop_first() =~= assets@.skip(i + 1));
        if str_eq(assets[i].kind.as_str(), "directory") && !t.as_str().is_empty() {
            return Ok(t);
        }
        i += 1;
    }
    assert(assets@.skip(i as int) =~= Seq::<crate::run::AuditAsset>::empty());
    Err("本次运行没有选择待审核文件夹。".to_owned())
}


/// The kinds that read the run's files differ from one another and from the
/// kinds whose value the host reads from disk.
proof fn lemma_relative_kinds_differ()
    ensures
        "data_relative_images"@ != "data_all_images"@,
        "data_relative_images"@ != "data_all_texts"@,
        !is_leaf_kind("data_relative_images"@),
        "data_relative_texts"@ != "data_all_images"@,
        "data_relative_texts"@ != "data_all_texts"@,
        "data_relative_texts"@ != "data_relative_images"@,
        !is_leaf_kind("data_relative_texts"@),
        "data_relative_images"@ != "data_merge_images"@,
        "data_relative_images"@ != "data_merge_texts"@,
        "data_relative_texts"@ != "data_merge_images"@,
        "data_relative_texts"@ != "data_merge_texts"@,
{
    reveal_strlit("data_relative_images");
    reveal_strlit("data_relative_texts");
    reveal_strlit("data_all_images");
    reveal_strlit("data_all_texts");
    reveal_strlit("data_merge_images");
    reveal_strlit("data_merge_texts");
    reveal_strlit("data_artifact_images");
    reveal_strlit("data_artifact_texts");
    reveal_strlit("data_audit_folder");
    reveal_strlit("data_audit_relative_folder");
    reveal_strlit("data_artifact_folder");
    reveal_strlit("data_artifact_relative_folder");
    assert("data_relative_images"@[5] != "data_all_images"@[5]);
    assert("data_relative_images"@[5] != "data_all_texts"@[5]);
    assert("data_relative_texts"@[5] != "data_all_images"@[5]);
    assert("data_relative_texts"@[5] != "data_all_texts"@[5]);
    assert("data_relative_texts"@[14] != "data_relative_images"@[14]);
    assert("data_relative_images"@[5] != "data_merge_images"@[5]);
    assert("data_relative_images"@[5] != "data_merge_texts"@[5]);
    assert("data_relative_texts"@[5] != "data_merge_images"@[5]);
    assert("data_relative_texts"@[5] != "data_merge_texts"@[5]);
    assert("data_relative_images"@[5] != "data_artifact_images"@[5]);
    assert("data_relative_images"@[5] != "data_artifact_texts"@[5]);
    assert("data_relative_images"@[5] != "data_audit_folder"@[5]);
    assert("data_relative_images"@[5] != "data_audit_relative_folder"@[5]);
    assert("data_relative_images"@[5] != "data_artifact_folder"@[5]);
    assert("data_relative_images"@[5] != "data_artifact_relative_folder"@[5]);
    assert("data_relative_texts"@[5] != "data_artifact_images"@[5]);
    assert("data_relative_texts"@[5] != "data_artifact_texts"@[5]);
    assert("data_relative_texts"@[5] != "data_audit_folder"@[5]);
    assert("data_relative_texts"@[5] != "data_audit_relative_folder"@[5]);
    assert("data_relative_texts"@[5] != "data_artifact_folder"@[5]);
    assert("data_relative_texts"@[5] != "data_artifact_relative_folder"@[5]);
}

/// A node that picks the run's images (or texts) under a relative path gives,
/// on any port, a collection of that type holding exactly the items of the
/// run's files of that type whose relative path lies under the path configured
/// on the node: every item is such a file's, and every such file is there.
pub proof fn lemma_relative_collection_stays_under_path(env: DataEnv, node_id: Seq<char>, handle: Seq<char>, images: bool)
    requires
        first_node_index(env.nodes, node_id) >= 0,
        lookup_module(env.modules, env.nodes[first_node_index(env.nodes, node_id)].module_id) matches Some(m) && m.kind@
            == (if images {
            "data_relative_images"@
        } else {
            "data_relative_texts"@
        }),
    ensures
        resolve_spec(env, Seq::empty(), node_id, handle) matches Ok(v) && v.data_type == (if images {
            DATA_TYPE_IMAGES@
        } else {
            DATA_TYPE_TEXTS@
        }) && (forall|x: JsonView|
            #[trigger] v.items.contains(x) ==> exists|j: int|
                0 <= j < env.files.len() && file_under(
                    env.files,
                    images,
                    relative_config(env.nodes[first_node_index(env.nodes, node_id)].config),
                    j,
                ) && x == #[trigger] file_item(env.files, env.texts, images, j)) && (forall|j: int|
            0 <= j < env.files.len() && file_under(
                env.files,
                images,
                relative_config(env.nodes[first_node_index(env.nodes, node_id)].config),
                j,
            ) ==> v.items.contains(#[trigger] file_item(env.files, env.texts, images, j))),
{
    lemma_relative_kinds_differ();
    lemma_first_node_index(env.nodes, node_id);
    let i = first_node_index(env.nodes, node_id);
    let p = relative_config(env.nodes[i].config);
    let n = env.files.len() as int;
    assert(visiting_ok(env.edges, Seq::empty()));
    lemma_file_items_under_path(env.files, env.texts, images, p, n);
    let m = lookup_module(env.modules, env.nodes[i].module_id)->0;
    assert(direct_value(env, i, m, handle) == Ok::<PortView, Seq<char>>(
        collection_view(
            if images {
                DATA_TYPE_IMAGES@
            } else {
                DATA_TYPE_TEXTS@
            },
            file_items(env.files, env.texts, images, Some(p), n),
        ),
    ));
}

} // verus!
