//! Flow validation: the messages a flow earns, in the order the editor shows
//! them. A flow is valid exactly when it earns none.
use crate::catalog::{
    data_input_type, data_input_type_spec, data_output_type, data_output_type_spec, find_module,
    has_required_relative_path, has_required_relative_path_spec, has_sequence_input,
    has_sequence_input_spec, has_sequence_output, has_sequence_output_spec, lookup_module, opt_view,
    required_data_inputs, required_data_inputs_spec, ModuleInfo, HANDLE_SEQUENCE_IN,
    HANDLE_SEQUENCE_OUT, OUTPUT_MODULE_ID, START_MODULE_ID,
};
use crate::flow::{
    first_node_id_by_module, first_node_id_spec, has_node_id, node_id_taken, EdgeView, FlowDefinition,
    FlowView, NodeView, EDGE_TYPE_DATA, EDGE_TYPE_SEQUENCE,
};
use crate::graph::{find_last_node, has_path, last_node_index, seq_reachable, strings_view};
use crate::plan::{
    execution_plan, ids_distinct, lemma_sequence_circle_is_run_circle, run_matrix, sequence_matrix,
    waits_in_circle,
};
use crate::strs::{concat2, concat3, str_eq, trim, trim_spec};
use vstd::prelude::*;

verus! {

/// The outcome of validating a flow.
#[derive(Debug)]
pub struct ValidationResult {
    pub valid: bool,
    pub messages: Vec<String>,
}

/// `msg` when `cond` holds, nothing otherwise.
pub open spec fn opt_msg(cond: bool, msg: Seq<char>) -> Seq<Seq<char>> {
    if cond {
        seq![msg]
    } else {
        Seq::empty()
    }
}

/// The number of nodes using module `module_id`.
pub open spec fn count_module(nodes: Seq<NodeView>, module_id: Seq<char>) -> nat
    decreases nodes.len(),
{
    if nodes.len() == 0 {
        0
    } else {
        count_module(nodes.drop_last(), module_id) + if nodes.last().module_id == module_id {
            1nat
        } else {
            0nat
        }
    }
}

/// An earlier node has the same id as node `i`.
pub open spec fn id_seen_before(nodes: Seq<NodeView>, i: int) -> bool {
    exists|k: int| 0 <= k < i && #[trigger] nodes[k].id == nodes[i].id
}

/// The messages about node `i` on its own.
pub open spec fn node_checks(nodes: Seq<NodeView>, ms: Seq<ModuleInfo>, i: int) -> Seq<Seq<char>> {
    opt_msg(trim_spec(nodes[i].id).len() == 0, "存在没有 ID 的步骤。"@) + opt_msg(
        id_seen_before(nodes, i),
        "步骤 ID 重复："@ + nodes[i].id,
    ) + opt_msg(lookup_module(ms, nodes[i].module_id) is None, "步骤 "@ + nodes[i].label + " 使用了未知模块。"@)
}

/// The messages about the first `k` nodes.
pub open spec fn node_messages(nodes: Seq<NodeView>, ms: Seq<ModuleInfo>, k: int) -> Seq<Seq<char>>
    decreases k,
{
    if k <= 0 {
        Seq::empty()
    } else {
        node_messages(nodes, ms, k - 1) + node_checks(nodes, ms, k - 1)
    }
}

/// The node with id `id` (the last one with it).
pub open spec fn node_with_id(nodes: Seq<NodeView>, id: Seq<char>) -> Option<NodeView> {
    let i = last_node_index(nodes, id);
    if i >= 0 {
        Some(nodes[i])
    } else {
        None
    }
}

/// The two ends of an edge with their modules, when all four are known.
pub open spec fn edge_ends(nodes: Seq<NodeView>, ms: Seq<ModuleInfo>, e: EdgeView) -> Option<
    (NodeView, ModuleInfo, NodeView, ModuleInfo),
> {
    match (node_with_id(nodes, e.from), node_with_id(nodes, e.to)) {
        (Some(s), Some(t)) => match (lookup_module(ms, s.module_id), lookup_module(ms, t.module_id)) {
            (Some(sm), Some(tm)) => Some((s, sm, t, tm)),
            _ => None,
        },
        _ => None,
    }
}

/// A handle, or the empty string when it is absent.
pub open spec fn handle_or_empty(h: Option<Seq<char>>) -> Seq<char> {
    match h {
        Some(x) => x,
        None => Seq::empty(),
    }
}

/// An earlier checked data edge already feeds the input port that edge `j` feeds.
pub open spec fn data_target_taken(nodes: Seq<NodeView>, ms: Seq<ModuleInfo>, edges: Seq<EdgeView>, j: int) -> bool {
    exists|k: int|
        0 <= k < j && #[trigger] edges[k].edge_type == EDGE_TYPE_DATA@ && edge_ends(nodes, ms, edges[k]) is Some
            && edges[k].to == edges[j].to && handle_or_empty(edges[k].to_handle) == handle_or_empty(
            edges[j].to_handle,
        )
}

/// An earlier edge has the same id as edge `j`.
pub open spec fn edge_id_seen_before(edges: Seq<EdgeView>, j: int) -> bool {
    exists|k: int| 0 <= k < j && #[trigger] edges[k].id == edges[j].id
}

/// The port messages of data edge `j`, whose ends are known.
#[verifier::opaque]
pub open spec fn data_edge_checks(
    nodes: Seq<NodeView>,
    ms: Seq<ModuleInfo>,
    edges: Seq<EdgeView>,
    j: int,
    sm: ModuleInfo,
    t: NodeView,
    tm: ModuleInfo,
) -> Seq<Seq<char>> {
    let e = edges[j];
    let fh = handle_or_empty(e.from_handle);
    let th = handle_or_empty(e.to_handle);
    let ot = data_output_type_spec(sm, fh);
    let it = data_input_type_spec(tm.kind@, th);
    opt_msg(ot is None, "连线 "@ + e.id + " 的输出口不是有效数据口。"@) + opt_msg(
        it is None,
        "连线 "@ + e.id + " 的输入口不是有效数据口。"@,
    ) + opt_msg(ot is Some && it is Some && ot->0 != it->0, "连线 "@ + e.id + " 的数据类型不匹配。"@)
        + opt_msg(
        data_target_taken(nodes, ms, edges, j),
        "步骤 "@ + t.label + " 的输入口 "@ + th + " 被连接了多次。"@,
    )
}

/// The port messages of sequence edge `e`, whose ends are known.
#[verifier::opaque]
pub open spec fn sequence_edge_checks(e: EdgeView, s: NodeView, sm: ModuleInfo, t: NodeView, tm: ModuleInfo) -> Seq<
    Seq<char>,
> {
    let fh = handle_or_empty(e.from_handle);
    let th = handle_or_empty(e.to_handle);
    opt_msg(fh != HANDLE_SEQUENCE_OUT@ || th != HANDLE_SEQUENCE_IN@, "连线 "@ + e.id + " 的顺序口不正确。"@)
        + opt_msg(!has_sequence_output_spec(sm.kind@), "步骤 "@ + s.label + " 没有顺序输出口。"@) + opt_msg(
        !has_sequence_input_spec(tm.kind@),
        "步骤 "@ + t.label + " 没有顺序输入口。"@,
    )
}

/// The messages about edge `j`'s id and ends.
pub open spec fn edge_ref_checks(nodes: Seq<NodeView>, edges: Seq<EdgeView>, j: int) -> Seq<Seq<char>> {
    let e = edges[j];
    opt_msg(edge_id_seen_before(edges, j), "连线 ID 重复："@ + e.id) + opt_msg(
        !has_node_id(nodes, e.from),
        "连线 "@ + e.id + " 的起点不存在。"@,
    ) + opt_msg(!has_node_id(nodes, e.to), "连线 "@ + e.id + " 的终点不存在。"@) + opt_msg(
        e.from == e.to,
        "连线 "@ + e.id + " 指向了同一个步骤。"@,
    )
}

/// The messages about edge `j`.
pub open spec fn edge_checks(nodes: Seq<NodeView>, ms: Seq<ModuleInfo>, edges: Seq<EdgeView>, j: int) -> Seq<Seq<char>> {
    let e = edges[j];
    edge_ref_checks(nodes, edges, j) + match edge_ends(nodes, ms, e) {
        None => Seq::empty(),
        Some((s, sm, t, tm)) => if e.edge_type == EDGE_TYPE_DATA@ {
            data_edge_checks(nodes, ms, edges, j, sm, t, tm)
        } else {
            sequence_edge_checks(e, s, sm, t, tm)
        },
    }
}

/// The messages about the first `k` edges.
pub open spec fn edge_messages(nodes: Seq<NodeView>, ms: Seq<ModuleInfo>, edges: Seq<EdgeView>, k: int) -> Seq<
    Seq<char>,
>
    decreases k,
{
    if k <= 0 {
        Seq::empty()
    } else {
        edge_messages(nodes, ms, edges, k - 1) + edge_checks(nodes, ms, edges, k - 1)
    }
}

/// Some sequence edge ends at node `id`.
pub open spec fn has_sequence_edge_to(edges: Seq<EdgeView>, id: Seq<char>) -> bool {
    exists|i: int| 0 <= i < edges.len() && #[trigger] edges[i].edge_type == EDGE_TYPE_SEQUENCE@ && edges[i].to == id
}

/// Some sequence edge starts at node `id`.
pub open spec fn has_sequence_edge_from(edges: Seq<EdgeView>, id: Seq<char>) -> bool {
    exists|i: int| 0 <= i < edges.len() && #[trigger] edges[i].edge_type == EDGE_TYPE_SEQUENCE@ && edges[i].from == id
}

/// The messages about the start and output nodes (the first of each).
pub open spec fn endpoint_messages(nodes: Seq<NodeView>, edges: Seq<EdgeView>) -> Seq<Seq<char>> {
    let s = first_node_id_spec(nodes, START_MODULE_ID@);
    let o = first_node_id_spec(nodes, OUTPUT_MODULE_ID@);
    (match s {
        Some(sid) => opt_msg(has_sequence_edge_to(edges, sid), "开始节点不能有输入连线。"@),
        None => Seq::empty(),
    }) + (match o {
        Some(oid) => opt_msg(has_sequence_edge_from(edges, oid), "输出结果节点不能有输出连线。"@),
        None => Seq::empty(),
    }) + (match (s, o) {
        (Some(sid), Some(oid)) => opt_msg(!seq_reachable(edges, sid, oid), "开始节点必须能连到输出结果节点。"@),
        _ => Seq::empty(),
    })
}

/// A data edge feeds input port `handle` of node `node_id`.
pub open spec fn input_connected(edges: Seq<EdgeView>, node_id: Seq<char>, handle: Seq<char>) -> bool {
    exists|i: int|
        0 <= i < edges.len() && #[trigger] edges[i].edge_type == EDGE_TYPE_DATA@ && edges[i].to == node_id
            && edges[i].to_handle == Some(handle)
}

/// The messages about the first `k` required inputs of `node` left unconnected.
pub open spec fn missing_inputs(edges: Seq<EdgeView>, node: NodeView, reqs: Seq<(Seq<char>, Seq<char>)>, k: int) -> Seq<
    Seq<char>,
>
    decreases k,
{
    if k <= 0 {
        Seq::empty()
    } else {
        missing_inputs(edges, node, reqs, k - 1) + opt_msg(
            !input_connected(edges, node.id, reqs[k - 1].0),
            "步骤 "@ + node.label + " 缺少必需的数据输入："@ + reqs[k - 1].0 + "。"@,
        )
    }
}

/// The messages about what node `i` needs: its relative path and its inputs.
pub open spec fn requirement_checks(nodes: Seq<NodeView>, edges: Seq<EdgeView>, ms: Seq<ModuleInfo>, i: int) -> Seq<
    Seq<char>,
> {
    match lookup_module(ms, nodes[i].module_id) {
        None => Seq::empty(),
        Some(m) => opt_msg(
            !has_required_relative_path_spec(m.kind@, nodes[i].config),
            "步骤 "@ + nodes[i].label + " 需要填写相对路径。"@,
        ) + missing_inputs(
            edges,
            nodes[i],
            required_data_inputs_spec(m.kind@),
            required_data_inputs_spec(m.kind@).len() as int,
        ),
    }
}

/// The requirement messages of the first `k` nodes.
pub open spec fn requirement_messages(nodes: Seq<NodeView>, edges: Seq<EdgeView>, ms: Seq<ModuleInfo>, k: int) -> Seq<
    Seq<char>,
>
    decreases k,
{
    if k <= 0 {
        Seq::empty()
    } else {
        requirement_messages(nodes, edges, ms, k - 1) + requirement_checks(nodes, edges, ms, k - 1)
    }
}

/// The messages about the shape of the flow, before the circle check.
pub open spec fn structure_messages(flow: FlowView, ms: Seq<ModuleInfo>) -> Seq<Seq<char>> {
    let nodes = flow.nodes;
    let edges = flow.edges;
    opt_msg(nodes.len() == 0, "流程至少需要一个步骤。"@) + opt_msg(
        count_module(nodes, START_MODULE_ID@) != 1,
        "流程必须有且只能有一个开始节点。"@,
    ) + opt_msg(count_module(nodes, OUTPUT_MODULE_ID@) != 1, "流程必须有且只能有一个输出结果节点。"@)
        + node_messages(nodes, ms, nodes.len() as int) + edge_messages(nodes, ms, edges, edges.len() as int)
        + endpoint_messages(nodes, edges) + requirement_messages(nodes, edges, ms, nodes.len() as int)
}

/// All messages about a flow: those about its shape, and, when there are
/// none, whether its steps wait for one another in a circle.
pub open spec fn validation_messages(flow: FlowView, ms: Seq<ModuleInfo>) -> Seq<Seq<char>> {
    let m = structure_messages(flow, ms);
    if m.len() == 0 && waits_in_circle(flow.nodes, run_matrix(flow.nodes, flow.edges, ms)) {
        seq!["流程不能形成闭环。"@]
    } else {
        m
    }
}

/// Appends `m` when `cond` holds.
fn push_if(messages: &mut Vec<String>, cond: bool, m: String)
    ensures
        strings_view(final(messages)@) == strings_view(old(messages)@) + opt_msg(cond, m@),
{
    let ghost before = strings_view(messages@);
    let ghost mv = m@;
    if cond {
        messages.push(m);
        assert(strings_view(messages@) =~= before + opt_msg(cond, mv));
    } else {
        assert(strings_view(messages@) =~= before + opt_msg(cond, mv));
    }
}

/// The number of nodes using module `module_id`.
fn count_nodes_with_module(flow: &FlowDefinition, module_id: &str) -> (r: usize)
    ensures
        r == count_module(flow@.nodes, module_id@),
{
    let ghost nv = flow@.nodes;
    let mut r: usize = 0;
    let mut i: usize = 0;
    assert(nv.take(0) =~= Seq::<NodeView>::empty());
    while i < flow.nodes.len()
        invariant
            nv == flow@.nodes,
            i <= nv.len(),
            r <= i,
            r == count_module(nv.take(i as int), module_id@),
        decreases nv.len() - i,
    {
        assert(nv.take(i + 1).drop_last() =~= nv.take(i as int));
        assert(nv.take(i + 1).last() == nv[i as int]);
        assert(nv[i as int].module_id == flow.nodes@[i as int].module_id@);
        if str_eq(flow.nodes[i].module_id.as_str(), module_id) {
            r += 1;
        }
        i += 1;
    }
    assert(nv.take(nv.len() as int) =~= nv);
    r
}

/// Whether an earlier node has the same id as node `i`.
fn node_id_seen_before(flow: &FlowDefinition, i: usize) -> (r: bool)
    requires
        i < flow@.nodes.len(),
    ensures
        r == id_seen_before(flow@.nodes, i as int),
{
    let ghost nv = flow@.nodes;
    assert(nv[i as int].id == flow.nodes@[i as int].id@);
    let mut k: usize = 0;
    while k < i
        invariant
            nv == flow@.nodes,
            i < nv.len(),
            k <= i,
            nv[i as int].id == flow.nodes@[i as int].id@,
            forall|q: int| 0 <= q < k ==> #[trigger] nv[q].id != nv[i as int].id,
        decreases i - k,
    {
        assert(nv[k as int].id == flow.nodes@[k as int].id@);
        if str_eq(flow.nodes[k].id.as_str(), flow.nodes[i].id.as_str()) {
            return true;
        }
        k += 1;
    }
    false
}

/// Appends the messages about node `i` on its own.
fn check_node(flow: &FlowDefinition, modules: &Vec<ModuleInfo>, i: usize, messages: &mut Vec<String>)
    requires
        i < flow@.nodes.len(),
    ensures
        strings_view(final(messages)@) == strings_view(old(messages)@) + node_checks(flow@.nodes, modules@, i as int),
{
    let ghost nv = flow@.nodes;
    let node = &flow.nodes[i];
    assert(nv[i as int] == node@);
    let ghost v0 = strings_view(messages@);
    let trimmed = trim(node.id.as_str());
    push_if(messages, trimmed.as_str().is_empty(), "存在没有 ID 的步骤。".to_owned());
    let seen = node_id_seen_before(flow, i);
    push_if(messages, seen, concat2("步骤 ID 重复：", node.id.as_str()));
    let unknown = find_module(modules, node.module_id.as_str()).is_none();
    push_if(messages, unknown, concat3("步骤 ", node.label.as_str(), " 使用了未知模块。"));
    assert(strings_view(messages@) =~= v0 + node_checks(nv, modules@, i as int));
}

/// A handle, or the empty string when it is absent.
fn handle_str(h: &Option<String>) -> (r: &str)
    ensures
        r@ == handle_or_empty(opt_view(*h)),
{
    match h {
        Some(s) => {
            let r = s.as_str();
            assert(r@ == s@);
            r
        },
        None => {
            let r = "";
            proof {
                reveal_strlit("");
            }
            assert(r@ =~= Seq::<char>::empty());
            r
        },
    }
}

/// The positions of an edge's two end nodes and their modules, when all four are known.
fn find_edge_ends(flow: &FlowDefinition, modules: &Vec<ModuleInfo>, from: &str, to: &str) -> (r: Option<(usize, usize, usize, usize)>)
    ensures
        match r {
            Some((s, sm, t, tm)) => {
                &&& s < flow@.nodes.len()
                &&& sm < modules@.len()
                &&& t < flow@.nodes.len()
                &&& tm < modules@.len()
                &&& node_with_id(flow@.nodes, from@) == Some(flow@.nodes[s as int])
                &&& node_with_id(flow@.nodes, to@) == Some(flow@.nodes[t as int])
                &&& lookup_module(modules@, flow@.nodes[s as int].module_id) == Some(modules@[sm as int])
                &&& lookup_module(modules@, flow@.nodes[t as int].module_id) == Some(modules@[tm as int])
            },
            None => {
                ||| node_with_id(flow@.nodes, from@) is None
                ||| node_with_id(flow@.nodes, to@) is None
                ||| lookup_module(modules@, node_with_id(flow@.nodes, from@)->0.module_id) is None
                ||| lookup_module(modules@, node_with_id(flow@.nodes, to@)->0.module_id) is None
            },
        },
{
    proof {
        crate::graph::lemma_last_node_index(flow@.nodes, from@);
        crate::graph::lemma_last_node_index(flow@.nodes, to@);
    }
    let s = match find_last_node(flow, from) {
        Some(s) => s,
        None => {
            return None;
        },
    };
    assert(node_with_id(flow@.nodes, from@) == Some(flow@.nodes[s as int]));
    let t = match find_last_node(flow, to) {
        Some(t) => t,
        None => {
            return None;
        },
    };
    assert(node_with_id(flow@.nodes, to@) == Some(flow@.nodes[t as int]));
    assert(flow@.nodes[s as int].module_id == flow.nodes@[s as int].module_id@);
    assert(flow@.nodes[t as int].module_id == flow.nodes@[t as int].module_id@);
    let sm = match find_module(modules, flow.nodes[s].module_id.as_str()) {
        Some(m) => m,
        None => {
            assert(lookup_module(modules@, flow@.nodes[s as int].module_id) is None);
            return None;
        },
    };
    let tm = match find_module(modules, flow.nodes[t].module_id.as_str()) {
        Some(m) => m,
        None => {
            assert(lookup_module(modules@, flow@.nodes[t as int].module_id) is None);
            return None;
        },
    };
    Some((s, sm, t, tm))
}

/// Whether an earlier edge has the same id as edge `j`.
fn edge_id_seen(flow: &FlowDefinition, j: usize) -> (r: bool)
    requires
        j < flow@.edges.len(),
    ensures
        r == edge_id_seen_before(flow@.edges, j as int),
{
    let ghost ev = flow@.edges;
    assert(ev[j as int].id == flow.edges@[j as int].id@);
    let mut k: usize = 0;
    while k < j
        invariant
            ev == flow@.edges,
            j < ev.len(),
            k <= j,
            ev[j as int].id == flow.edges@[j as int].id@,
            forall|q: int| 0 <= q < k ==> #[trigger] ev[q].id != ev[j as int].id,
        decreases j - k,
    {
        assert(ev[k as int].id == flow.edges@[k as int].id@);
        if str_eq(flow.edges[k].id.as_str(), flow.edges[j].id.as_str()) {
            return true;
        }
        k += 1;
    }
    false
}

/// Whether an earlier checked data edge already feeds the port that edge `j` feeds.
fn data_port_taken(flow: &FlowDefinition, modules: &Vec<ModuleInfo>, j: usize) -> (r: bool)
    requires
        j < flow@.edges.len(),
    ensures
        r == data_target_taken(flow@.nodes, modules@, flow@.edges, j as int),
{
    let ghost ev = flow@.edges;
    let ghost nv = flow@.nodes;
    let target = &flow.edges[j];
    assert(ev[j as int] == target@);
    let th = handle_str(&target.to_handle);
    let mut k: usize = 0;
    while k < j
        invariant
            ev == flow@.edges,
            nv == flow@.nodes,
            j < ev.len(),
            k <= j,
            ev[j as int] == target@,
            th@ == handle_or_empty(target@.to_handle),
            forall|q: int|
                0 <= q < k ==> !(#[trigger] ev[q].edge_type == EDGE_TYPE_DATA@ && edge_ends(nv, modules@, ev[q]) is Some
                    && ev[q].to == ev[j as int].to && handle_or_empty(ev[q].to_handle) == handle_or_empty(
                    ev[j as int].to_handle,
                )),
        decreases j - k,
    {
        let e = &flow.edges[k];
        assert(ev[k as int] == e@);
        if str_eq(e.edge_type.as_str(), EDGE_TYPE_DATA) && str_eq(e.to.as_str(), target.to.as_str()) && str_eq(
            handle_str(&e.to_handle),
            th,
        ) {
            if find_edge_ends(flow, modules, e.from.as_str(), e.to.as_str()).is_some() {
                assert(ev[k as int].edge_type == EDGE_TYPE_DATA@);
                return true;
            }
        }
        k += 1;
    }
    false
}

/// Appends the port messages of data edge `j`, whose ends are known.
fn check_data_edge(
    flow: &FlowDefinition,
    modules: &Vec<ModuleInfo>,
    j: usize,
    sm: usize,
    t: usize,
    tm: usize,
    messages: &mut Vec<String>,
)
    requires
        j < flow@.edges.len(),
        sm < modules@.len(),
        t < flow@.nodes.len(),
        tm < modules@.len(),
    ensures
        strings_view(final(messages)@) == strings_view(old(messages)@) + data_edge_checks(
            flow@.nodes,
            modules@,
            flow@.edges,
            j as int,
            modules@[sm as int],
            flow@.nodes[t as int],
            modules@[tm as int],
        ),
{
    let ghost v1 = strings_view(messages@);
    let edge = &flow.edges[j];
    assert(flow@.edges[j as int] == edge@);
    let target = &flow.nodes[t];
    assert(flow@.nodes[t as int] == target@);
    let id = edge.id.as_str();
    let fh = handle_str(&edge.from_handle);
    let th = handle_str(&edge.to_handle);
    let ot = data_output_type(&modules[sm], fh);
    let it = data_input_type(&modules[tm], th);
    push_if(messages, ot.is_none(), concat3("连线 ", id, " 的输出口不是有效数据口。"));
    push_if(messages, it.is_none(), concat3("连线 ", id, " 的输入口不是有效数据口。"));
    let mismatch = match (&ot, &it) {
        (Some(o), Some(i)) => !str_eq(o.as_str(), i),
        _ => false,
    };
    push_if(messages, mismatch, concat3("连线 ", id, " 的数据类型不匹配。"));
    let taken = data_port_taken(flow, modules, j);
    let mut m = concat3("步骤 ", target.label.as_str(), " 的输入口 ");
    m.append(th);
    m.append(" 被连接了多次。");
    push_if(messages, taken, m);
    reveal(data_edge_checks);
    assert(strings_view(messages@) =~= v1 + data_edge_checks(
        flow@.nodes,
        modules@,
        flow@.edges,
        j as int,
        modules@[sm as int],
        target@,
        modules@[tm as int],
    ));
}

/// Appends the port messages of a sequence edge whose ends are known.
fn check_sequence_edge(
    edge: &crate::flow::FlowEdge,
    source: &crate::flow::FlowNode,
    sm: &ModuleInfo,
    target: &crate::flow::FlowNode,
    tm: &ModuleInfo,
    messages: &mut Vec<String>,
)
    ensures
        strings_view(final(messages)@) == strings_view(old(messages)@) + sequence_edge_checks(
            edge@,
            source@,
            *sm,
            target@,
            *tm,
        ),
{
    let ghost v1 = strings_view(messages@);
    let id = edge.id.as_str();
    let fh = handle_str(&edge.from_handle);
    let th = handle_str(&edge.to_handle);
    let bad_ports = !str_eq(fh, HANDLE_SEQUENCE_OUT) || !str_eq(th, HANDLE_SEQUENCE_IN);
    push_if(messages, bad_ports, concat3("连线 ", id, " 的顺序口不正确。"));
    push_if(messages, !has_sequence_output(sm), concat3("步骤 ", source.label.as_str(), " 没有顺序输出口。"));
    push_if(messages, !has_sequence_input(tm), concat3("步骤 ", target.label.as_str(), " 没有顺序输入口。"));
    reveal(sequence_edge_checks);
    assert(strings_view(messages@) =~= v1 + sequence_edge_checks(edge@, source@, *sm, target@, *tm));
}

/// Appends the messages about edge `j`'s id and ends.
fn check_edge_refs(flow: &FlowDefinition, j: usize, messages: &mut Vec<String>)
    requires
        j < flow@.edges.len(),
    ensures
        strings_view(final(messages)@) == strings_view(old(messages)@) + edge_ref_checks(flow@.nodes, flow@.edges, j as int),
{
    let edge = &flow.edges[j];
    assert(flow@.edges[j as int] == edge@);
    let ghost v0 = strings_view(messages@);
    let id = edge.id.as_str();
    push_if(messages, edge_id_seen(flow, j), concat2("连线 ID 重复：", id));
    push_if(messages, !node_id_taken(flow, edge.from.as_str()), concat3("连线 ", id, " 的起点不存在。"));
    push_if(messages, !node_id_taken(flow, edge.to.as_str()), concat3("连线 ", id, " 的终点不存在。"));
    push_if(messages, str_eq(edge.from.as_str(), edge.to.as_str()), concat3("连线 ", id, " 指向了同一个步骤。"));
    assert(strings_view(messages@) =~= v0 + edge_ref_checks(flow@.nodes, flow@.edges, j as int));
}

/// Appends the messages about edge `j`.
fn check_edge(flow: &FlowDefinition, modules: &Vec<ModuleInfo>, j: usize, messages: &mut Vec<String>)
    requires
        j < flow@.edges.len(),
    ensures
        strings_view(final(messages)@) == strings_view(old(messages)@) + edge_checks(
            flow@.nodes,
            modules@,
            flow@.edges,
            j as int,
        ),
{
    let ghost nv = flow@.nodes;
    let ghost ev = flow@.edges;
    let ghost ms = modules@;
    let edge = &flow.edges[j];
    assert(ev[j as int] == edge@);
    let ghost v0 = strings_view(messages@);
    check_edge_refs(flow, j, messages);
    let ghost v1 = strings_view(messages@);
    let ghost refs = edge_ref_checks(nv, ev, j as int);
    assert(v1 == v0 + refs);
    match find_edge_ends(flow, modules, edge.from.as_str(), edge.to.as_str()) {
        None => {
            assert(edge_ends(nv, ms, edge@) is None);
            assert(edge_checks(nv, ms, ev, j as int) == refs + Seq::<Seq<char>>::empty());
            assert(v1 =~= v0 + (refs + Seq::<Seq<char>>::empty()));
        },
        Some((s, sm, t, tm)) => {
            assert(nv[s as int] == flow.nodes@[s as int]@);
            assert(nv[t as int] == flow.nodes@[t as int]@);
            assert(edge_ends(nv, ms, edge@) == Some((nv[s as int], ms[sm as int], nv[t as int], ms[tm as int])));
            if str_eq(edge.edge_type.as_str(), EDGE_TYPE_DATA) {
                check_data_edge(flow, modules, j, sm, t, tm, messages);
                let ghost tail = data_edge_checks(nv, ms, ev, j as int, ms[sm as int], nv[t as int], ms[tm as int]);
                assert(edge_checks(nv, ms, ev, j as int) == refs + tail);
                assert(strings_view(messages@) =~= v0 + (refs + tail));
            } else {
                check_sequence_edge(edge, &flow.nodes[s], &modules[sm], &flow.nodes[t], &modules[tm], messages);
                let ghost tail = sequence_edge_checks(edge@, nv[s as int], ms[sm as int], nv[t as int], ms[tm as int]);
                assert(edge_checks(nv, ms, ev, j as int) == refs + tail);
                assert(strings_view(messages@) =~= v0 + (refs + tail));
            }
        },
    }
}

/// Whether some sequence edge ends at node `id`.
fn sequence_edge_into(flow: &FlowDefinition, id: &str) -> (r: bool)
    ensures
        r == has_sequence_edge_to(flow@.edges, id@),
{
    let ghost ev = flow@.edges;
    let mut e: usize = 0;
    while e < flow.edges.len()
        invariant
            ev == flow@.edges,
            e <= ev.len(),
            forall|q: int| 0 <= q < e ==> !(#[trigger] ev[q].edge_type == EDGE_TYPE_SEQUENCE@ && ev[q].to == id@),
        decreases ev.len() - e,
    {
        let edge = &flow.edges[e];
        assert(ev[e as int] == edge@);
        if str_eq(edge.edge_type.as_str(), EDGE_TYPE_SEQUENCE) && str_eq(edge.to.as_str(), id) {
            assert(ev[e as int].edge_type == EDGE_TYPE_SEQUENCE@);
            return true;
        }
        e += 1;
    }
    false
}

/// Whether some sequence edge starts at node `id`.
fn sequence_edge_out_of(flow: &FlowDefinition, id: &str) -> (r: bool)
    ensures
        r == has_sequence_edge_from(flow@.edges, id@),
{
    let ghost ev = flow@.edges;
    let mut e: usize = 0;
    while e < flow.edges.len()
        invariant
            ev == flow@.edges,
            e <= ev.len(),
            forall|q: int| 0 <= q < e ==> !(#[trigger] ev[q].edge_type == EDGE_TYPE_SEQUENCE@ && ev[q].from == id@),
        decreases ev.len() - e,
    {
        let edge = &flow.edges[e];
        assert(ev[e as int] == edge@);
        if str_eq(edge.edge_type.as_str(), EDGE_TYPE_SEQUENCE) && str_eq(edge.from.as_str(), id) {
            assert(ev[e as int].edge_type == EDGE_TYPE_SEQUENCE@);
            return true;
        }
        e += 1;
    }
    false
}

/// Appends the messages about the start and output nodes.
fn check_endpoints(flow: &FlowDefinition, messages: &mut Vec<String>)
    ensures
        strings_view(final(messages)@) == strings_view(old(messages)@) + endpoint_messages(flow@.nodes, flow@.edges),
{
    let ghost v0 = strings_view(messages@);
    let start = first_node_id_by_module(flow, START_MODULE_ID);
    let output = first_node_id_by_module(flow, OUTPUT_MODULE_ID);
    let ghost part1 = match opt_view(start) {
        Some(sid) => opt_msg(has_sequence_edge_to(flow@.edges, sid), "开始节点不能有输入连线。"@),
        None => Seq::<Seq<char>>::empty(),
    };
    let ghost part2 = match opt_view(output) {
        Some(oid) => opt_msg(has_sequence_edge_from(flow@.edges, oid), "输出结果节点不能有输出连线。"@),
        None => Seq::<Seq<char>>::empty(),
    };
    let ghost part3 = match (opt_view(start), opt_view(output)) {
        (Some(sid), Some(oid)) => opt_msg(!seq_reachable(flow@.edges, sid, oid), "开始节点必须能连到输出结果节点。"@),
        _ => Seq::<Seq<char>>::empty(),
    };
    match &start {
        Some(sid) => {
            push_if(messages, sequence_edge_into(flow, sid.as_str()), "开始节点不能有输入连线。".to_owned());
        },
        None => {},
    }
    assert(strings_view(messages@) =~= v0 + part1);
    let ghost v1 = strings_view(messages@);
    match &output {
        Some(oid) => {
            push_if(messages, sequence_edge_out_of(flow, oid.as_str()), "输出结果节点不能有输出连线。".to_owned());
        },
        None => {},
    }
    assert(strings_view(messages@) =~= v1 + part2);
    let ghost v2 = strings_view(messages@);
    match (&start, &output) {
        (Some(sid), Some(oid)) => {
            push_if(messages, !has_path(flow, sid.as_str(), oid.as_str()), "开始节点必须能连到输出结果节点。".to_owned());
        },
        _ => {},
    }
    assert(strings_view(messages@) =~= v2 + part3);
    assert(endpoint_messages(flow@.nodes, flow@.edges) == part1 + part2 + part3);
    assert(strings_view(messages@) =~= v0 + endpoint_messages(flow@.nodes, flow@.edges));
}

/// Whether a data edge feeds input port `handle` of node `node_id`.
fn input_is_connected(flow: &FlowDefinition, node_id: &str, handle: &str) -> (r: bool)
    ensures
        r == input_connected(flow@.edges, node_id@, handle@),
{
    let ghost ev = flow@.edges;
    let mut e: usize = 0;
    while e < flow.edges.len()
        invariant
            ev == flow@.edges,
            e <= ev.len(),
            forall|q: int|
                0 <= q < e ==> !(#[trigger] ev[q].edge_type == EDGE_TYPE_DATA@ && ev[q].to == node_id@ && ev[q].to_handle
                    == Some(handle@)),
        decreases ev.len() - e,
    {
        let edge = &flow.edges[e];
        assert(ev[e as int] == edge@);
        let connected = match &edge.to_handle {
            Some(h) => str_eq(h.as_str(), handle),
            None => false,
        };
        if str_eq(edge.edge_type.as_str(), EDGE_TYPE_DATA) && str_eq(edge.to.as_str(), node_id) && connected {
            assert(ev[e as int].edge_type == EDGE_TYPE_DATA@);
            return true;
        }
        e += 1;
    }
    false
}

/// Appends the messages about what node `i` needs.
fn check_requirements(flow: &FlowDefinition, modules: &Vec<ModuleInfo>, i: usize, messages: &mut Vec<String>)
    requires
        i < flow@.nodes.len(),
    ensures
        strings_view(final(messages)@) == strings_view(old(messages)@) + requirement_checks(
            flow@.nodes,
            flow@.edges,
            modules@,
            i as int,
        ),
{
    let ghost nv = flow@.nodes;
    let ghost ev = flow@.edges;
    let node = &flow.nodes[i];
    assert(nv[i as int] == node@);
    let ghost v0 = strings_view(messages@);
    match find_module(modules, node.module_id.as_str()) {
        None => {
            assert(strings_view(messages@) =~= v0 + requirement_checks(nv, ev, modules@, i as int));
        },
        Some(m) => {
            let module = &modules[m];
            push_if(
                messages,
                !has_required_relative_path(module, &node.config),
                concat3("步骤 ", node.label.as_str(), " 需要填写相对路径。"),
            );
            let ghost v1 = strings_view(messages@);
            let reqs = required_data_inputs(module);
            let ghost rv = required_data_inputs_spec(module.kind@);
            let mut k: usize = 0;
            while k < reqs.len()
                invariant
                    ev == flow@.edges,
                    nv[i as int] == node@,
                    crate::catalog::pairs_view(reqs@) == rv,
                    k <= reqs@.len(),
                    strings_view(messages@) == v1 + missing_inputs(ev, node@, rv, k as int),
                decreases reqs@.len() - k,
            {
                let (handle, _) = reqs[k];
                assert(rv[k as int].0 == handle@);
                let connected = input_is_connected(flow, node.id.as_str(), handle);
                let mut msg = concat3("步骤 ", node.label.as_str(), " 缺少必需的数据输入：");
                msg.append(handle);
                msg.append("。");
                let ghost before = strings_view(messages@);
                push_if(messages, !connected, msg);
                assert(strings_view(messages@) =~= v1 + missing_inputs(ev, node@, rv, k + 1));
                k += 1;
            }
            assert(strings_view(messages@) =~= v0 + requirement_checks(nv, ev, modules@, i as int));
        },
    }
}

/// Every message of the first `k` nodes comes from some node's own checks; in
/// particular, without messages no node repeats an earlier id.
proof fn lemma_no_node_messages(nodes: Seq<NodeView>, ms: Seq<ModuleInfo>, k: int)
    requires
        node_messages(nodes, ms, k).len() == 0,
        k <= nodes.len(),
    ensures
        forall|i: int| 0 <= i < k ==> !#[trigger] id_seen_before(nodes, i),
    decreases k,
{
    if k > 0 {
        lemma_no_node_messages(nodes, ms, k - 1);
        assert(node_checks(nodes, ms, k - 1).len() == 0);
    }
}

/// A flow without node messages has distinct node ids.
proof fn lemma_ids_distinct(nodes: Seq<NodeView>, ms: Seq<ModuleInfo>)
    requires
        node_messages(nodes, ms, nodes.len() as int).len() == 0,
    ensures
        ids_distinct(nodes),
{
    lemma_no_node_messages(nodes, ms, nodes.len() as int);
    assert forall|i: int, j: int| 0 <= i < nodes.len() && 0 <= j < nodes.len() && i != j implies #[trigger] nodes[i].id
        != #[trigger] nodes[j].id by {
        if i < j {
            assert(!id_seen_before(nodes, j));
        } else {
            assert(!id_seen_before(nodes, i));
        }
    }
}

/// Validates a flow against the registered modules: every message the flow
/// earns, in order; the flow is valid when there is none.
pub fn validate_flow_inner(flow: &FlowDefinition, modules: &Vec<ModuleInfo>) -> (r: ValidationResult)
    ensures
        strings_view(r.messages@) == validation_messages(flow@, modules@),
        r.valid == (r.messages@.len() == 0),
{
    let ghost nv = flow@.nodes;
    let ghost ev = flow@.edges;
    let ghost ms = modules@;
    let mut messages: Vec<String> = Vec::new();
    push_if(&mut messages, flow.nodes.len() == 0, "流程至少需要一个步骤。".to_owned());
    push_if(&mut messages, count_nodes_with_module(flow, START_MODULE_ID) != 1, "流程必须有且只能有一个开始节点。".to_owned());
    push_if(
        &mut messages,
        count_nodes_with_module(flow, OUTPUT_MODULE_ID) != 1,
        "流程必须有且只能有一个输出结果节点。".to_owned(),
    );
    let ghost head = strings_view(messages@);
    let mut i: usize = 0;
    while i < flow.nodes.len()
        invariant
            nv == flow@.nodes,
            ms == modules@,
            i <= nv.len(),
            strings_view(messages@) == head + node_messages(nv, ms, i as int),
        decreases nv.len() - i,
    {
        check_node(flow, modules, i, &mut messages);
        assert(strings_view(messages@) =~= head + node_messages(nv, ms, i + 1));
        i += 1;
    }
    let ghost after_nodes = strings_view(messages@);
    let mut j: usize = 0;
    while j < flow.edges.len()
        invariant
            nv == flow@.nodes,
            ev == flow@.edges,
            ms == modules@,
            j <= ev.len(),
            strings_view(messages@) == after_nodes + edge_messages(nv, ms, ev, j as int),
        decreases ev.len() - j,
    {
        check_edge(flow, modules, j, &mut messages);
        assert(strings_view(messages@) =~= after_nodes + edge_messages(nv, ms, ev, j + 1));
        j += 1;
    }
    let ghost after_edges = strings_view(messages@);
    check_endpoints(flow, &mut messages);
    let ghost after_ends = strings_view(messages@);
    let mut k: usize = 0;
    while k < flow.nodes.len()
        invariant
            nv == flow@.nodes,
            ev == flow@.edges,
            ms == modules@,
            k <= nv.len(),
            strings_view(messages@) == after_ends + requirement_messages(nv, ev, ms, k as int),
        decreases nv.len() - k,
    {
        check_requirements(flow, modules, k, &mut messages);
        assert(strings_view(messages@) =~= after_ends + requirement_messages(nv, ev, ms, k + 1));
        k += 1;
    }
    assert(strings_view(messages@) =~= structure_messages(flow@, ms));
    if messages.len() == 0 {
        proof {
            assert(node_messages(nv, ms, nv.len() as int).len() == 0);
            lemma_ids_distinct(nv, ms);
        }
        if execution_plan(flow, modules).is_err() {
            messages.push("流程不能形成闭环。".to_owned());
            assert(strings_view(messages@) =~= seq!["流程不能形成闭环。"@]);
        }
    }
    let valid = messages.len() == 0;
    ValidationResult { valid, messages }
}

/// Without node messages, every node of the first `k` uses a registered module.
proof fn lemma_modules_known(nodes: Seq<NodeView>, ms: Seq<ModuleInfo>, k: int)
    requires
        node_messages(nodes, ms, k).len() == 0,
        k <= nodes.len(),
    ensures
        forall|i: int| 0 <= i < k ==> #[trigger] lookup_module(ms, nodes[i].module_id) is Some,
    decreases k,
{
    if k > 0 {
        lemma_modules_known(nodes, ms, k - 1);
        assert(node_checks(nodes, ms, k - 1).len() == 0);
    }
}

/// What a valid flow is: it has steps, exactly one start and one output node,
/// distinct step ids, only registered modules, a sequence path from the start
/// to the output, and no steps that wait for one another in a circle.
pub proof fn lemma_valid_flow_shape(flow: FlowView, ms: Seq<ModuleInfo>)
    requires
        validation_messages(flow, ms).len() == 0,
    ensures
        flow.nodes.len() > 0,
        count_module(flow.nodes, START_MODULE_ID@) == 1,
        count_module(flow.nodes, OUTPUT_MODULE_ID@) == 1,
        ids_distinct(flow.nodes),
        forall|i: int| 0 <= i < flow.nodes.len() ==> #[trigger] lookup_module(ms, flow.nodes[i].module_id) is Some,
        forall|sid: Seq<char>, oid: Seq<char>|
            first_node_id_spec(flow.nodes, START_MODULE_ID@) == Some(sid) && first_node_id_spec(
                flow.nodes,
                OUTPUT_MODULE_ID@,
            ) == Some(oid) ==> #[trigger] seq_reachable(flow.edges, sid, oid),
        !waits_in_circle(flow.nodes, run_matrix(flow.nodes, flow.edges, ms)),
{
    let nodes = flow.nodes;
    let edges = flow.edges;
    assert(structure_messages(flow, ms).len() == 0);
    assert(node_messages(nodes, ms, nodes.len() as int).len() == 0);
    assert(endpoint_messages(nodes, edges).len() == 0);
    lemma_ids_distinct(nodes, ms);
    lemma_modules_known(nodes, ms, nodes.len() as int);
}

/// Without edge messages, none of the first `k` edges leads from a step to itself.
proof fn lemma_no_self_edges(nodes: Seq<NodeView>, ms: Seq<ModuleInfo>, edges: Seq<EdgeView>, k: int)
    requires
        edge_messages(nodes, ms, edges, k).len() == 0,
        k <= edges.len(),
    ensures
        forall|j: int| 0 <= j < k ==> #[trigger] edges[j].from != edges[j].to,
    decreases k,
{
    if k > 0 {
        lemma_no_self_edges(nodes, ms, edges, k - 1);
        assert(edge_checks(nodes, ms, edges, k - 1).len() == 0);
        assert(edge_ref_checks(nodes, edges, k - 1).len() == 0);
    }
}

/// A flow that passes validation can always be put in order: no edge leads
/// from a step to itself, and the steps never follow one another in a circle
/// along sequence edges, so ordering it by its sequence edges succeeds.
pub proof fn lemma_valid_flow_can_be_ordered(flow: FlowView, ms: Seq<ModuleInfo>)
    requires
        validation_messages(flow, ms).len() == 0,
    ensures
        forall|j: int| 0 <= j < flow.edges.len() ==> #[trigger] flow.edges[j].from != flow.edges[j].to,
        ids_distinct(flow.nodes),
        !waits_in_circle(flow.nodes, sequence_matrix(flow.nodes, flow.edges)),
{
    lemma_valid_flow_shape(flow, ms);
    assert(structure_messages(flow, ms).len() == 0);
    assert(edge_messages(flow.nodes, ms, flow.edges, flow.edges.len() as int).len() == 0);
    lemma_no_self_edges(flow.nodes, ms, flow.edges, flow.edges.len() as int);
    lemma_sequence_circle_is_run_circle(flow.nodes, flow.edges, ms);
}


/// Without messages about missing inputs, each of the first `k` required inputs
/// of `node` is fed by a data edge.
proof fn lemma_inputs_connected(edges: Seq<EdgeView>, node: NodeView, reqs: Seq<(Seq<char>, Seq<char>)>, k: int)
    requires
        missing_inputs(edges, node, reqs, k).len() == 0,
        k <= reqs.len(),
    ensures
        forall|j: int| 0 <= j < k ==> input_connected(edges, node.id, #[trigger] reqs[j].0),
    decreases k,
{
    if k > 0 {
        lemma_inputs_connected(edges, node, reqs, k - 1);
    }
}

/// Without requirement messages, every required input of each of the first
/// `k` nodes is fed by a data edge.
proof fn lemma_requirements_met(nodes: Seq<NodeView>, edges: Seq<EdgeView>, ms: Seq<ModuleInfo>, k: int)
    requires
        requirement_messages(nodes, edges, ms, k).len() == 0,
        k <= nodes.len(),
    ensures
        forall|i: int, j: int|
            0 <= i < k && lookup_module(ms, nodes[i].module_id) is Some && 0 <= j < required_data_inputs_spec(
                lookup_module(ms, nodes[i].module_id)->0.kind@,
            ).len() ==> input_connected(
                edges,
                nodes[i].id,
                #[trigger] required_data_inputs_spec(lookup_module(ms, #[trigger] nodes[i].module_id)->0.kind@)[j].0,
            ),
    decreases k,
{
    if k > 0 {
        lemma_requirements_met(nodes, edges, ms, k - 1);
        let i = k - 1;
        if let Some(m) = lookup_module(ms, nodes[i].module_id) {
            let reqs = required_data_inputs_spec(m.kind@);
            assert(requirement_checks(nodes, edges, ms, i).len() == 0);
            lemma_inputs_connected(edges, nodes[i], reqs, reqs.len() as int);
        }
    }
}

/// A valid flow leaves no data input port unconnected: for every step whose
/// module has an input port `handle`, some data edge feeds that port (so an
/// image check without its images, or a merge with one side missing, is
/// never valid).
pub proof fn lemma_valid_flow_feeds_every_input(flow: FlowView, ms: Seq<ModuleInfo>, i: int, handle: Seq<char>)
    requires
        validation_messages(flow, ms).len() == 0,
        0 <= i < flow.nodes.len(),
        lookup_module(ms, flow.nodes[i].module_id) is Some,
        data_input_type_spec(lookup_module(ms, flow.nodes[i].module_id)->0.kind@, handle) is Some,
    ensures
        input_connected(flow.edges, flow.nodes[i].id, handle),
{
    let nodes = flow.nodes;
    let edges = flow.edges;
    assert(structure_messages(flow, ms).len() == 0);
    assert(requirement_messages(nodes, edges, ms, nodes.len() as int).len() == 0);
    lemma_requirements_met(nodes, edges, ms, nodes.len() as int);
    let kind = lookup_module(ms, nodes[i].module_id)->0.kind@;
    let t = data_input_type_spec(kind, handle)->0;
    crate::catalog::lemma_input_ports_are_required(kind, handle);
    let reqs = required_data_inputs_spec(kind);
    assert(reqs.contains((handle, t)));
    let j = choose|j: int| 0 <= j < reqs.len() && reqs[j] == (handle, t);
    assert(reqs[j].0 == handle);
}

} // verus!
