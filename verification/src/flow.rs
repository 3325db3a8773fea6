//! Audit flows: nodes, sequence and data edges, the default flow, and the
//! normalisation that every loaded or saved flow goes through.
use crate::catalog::{
    clone_opt, lookup_module, normalize_module_id_spec, opt_view, START_MODULE_ID, OUTPUT_MODULE_ID,
    START_NODE_ID, OUTPUT_NODE_ID, DATA_ALL_IMAGES_MODULE_ID, HANDLE_SEQUENCE_IN,
    HANDLE_SEQUENCE_OUT, HANDLE_IMAGES_IN, HANDLE_IMAGES_OUT, HANDLE_TEXTS_IN, HANDLE_TEXTS_OUT,
};
use crate::json::{JsonValue, JsonView};
use crate::strs::{decimal, str_eq, trim, trim_spec};
use vstd::prelude::*;

verus! {

pub const EDGE_TYPE_SEQUENCE: &'static str = "sequence";

pub const EDGE_TYPE_DATA: &'static str = "data";

pub const DEFAULT_FLOW_ID: &'static str = "flow.default.image-audit";

/// A canvas position; each coordinate is kept as the bit pattern of its `f64`.
#[derive(Clone, Copy, Debug)]
pub struct Position {
    pub x_bits: u64,
    pub y_bits: u64,
}

/// A step of a flow.
#[derive(Debug)]
pub struct FlowNode {
    pub id: String,
    pub module_id: String,
    pub label: String,
    pub position: Position,
    pub config: JsonValue,
}

/// A sequence or data connection between two steps.
#[derive(Debug)]
pub struct FlowEdge {
    pub id: String,
    pub from: String,
    pub to: String,
    pub edge_type: String,
    pub from_handle: Option<String>,
    pub to_handle: Option<String>,
}

/// An audit flow.
#[derive(Debug)]
pub struct FlowDefinition {
    pub id: String,
    pub name: String,
    pub version: u32,
    pub nodes: Vec<FlowNode>,
    pub edges: Vec<FlowEdge>,
}

/// The view of a step.
pub struct NodeView {
    pub id: Seq<char>,
    pub module_id: Seq<char>,
    pub label: Seq<char>,
    pub position: Position,
    pub config: JsonView,
}

/// The view of an edge.
pub struct EdgeView {
    pub id: Seq<char>,
    pub from: Seq<char>,
    pub to: Seq<char>,
    pub edge_type: Seq<char>,
    pub from_handle: Option<Seq<char>>,
    pub to_handle: Option<Seq<char>>,
}

/// The view of a flow.
pub struct FlowView {
    pub id: Seq<char>,
    pub name: Seq<char>,
    pub version: u32,
    pub nodes: Seq<NodeView>,
    pub edges: Seq<EdgeView>,
}

impl View for FlowNode {
    type V = NodeView;

    open spec fn view(&self) -> NodeView {
        NodeView {
            id: self.id@,
            module_id: self.module_id@,
            label: self.label@,
            position: self.position,
            config: self.config@,
        }
    }
}

impl View for FlowEdge {
    type V = EdgeView;

    open spec fn view(&self) -> EdgeView {
        EdgeView {
            id: self.id@,
            from: self.from@,
            to: self.to@,
            edge_type: self.edge_type@,
            from_handle: opt_view(self.from_handle),
            to_handle: opt_view(self.to_handle),
        }
    }
}

/// The views of a sequence of nodes.
pub open spec fn nodes_view(nodes: Seq<FlowNode>) -> Seq<NodeView> {
    nodes.map_values(|n: FlowNode| n@)
}

/// The views of a sequence of edges.
pub open spec fn edges_view(edges: Seq<FlowEdge>) -> Seq<EdgeView> {
    edges.map_values(|e: FlowEdge| e@)
}

impl View for FlowDefinition {
    type V = FlowView;

    open spec fn view(&self) -> FlowView {
        FlowView {
            id: self.id@,
            name: self.name@,
            version: self.version,
            nodes: nodes_view(self.nodes@),
            edges: edges_view(self.edges@),
        }
    }
}

impl FlowNode {
    /// A copy of this node.
    pub fn duplicate(&self) -> (r: Self)
        ensures
            r@ == self@,
    {
        FlowNode {
            id: self.id.clone(),
            module_id: self.module_id.clone(),
            label: self.label.clone(),
            position: self.position,
            config: self.config.deep_clone(),
        }
    }
}

impl FlowEdge {
    /// A copy of this edge.
    pub fn duplicate(&self) -> (r: Self)
        ensures
            r == *self,
    {
        FlowEdge {
            id: self.id.clone(),
            from: self.from.clone(),
            to: self.to.clone(),
            edge_type: self.edge_type.clone(),
            from_handle: clone_opt(&self.from_handle),
            to_handle: clone_opt(&self.to_handle),
        }
    }
}

impl FlowDefinition {
    /// A copy of this flow.
    pub fn duplicate(&self) -> (r: Self)
        ensures
            r@ == self@,
    {
        let mut nodes: Vec<FlowNode> = Vec::new();
        let mut i: usize = 0;
        while i < self.nodes.len()
            invariant
                i <= self.nodes.len(),
                nodes@.len() == i,
                nodes_view(nodes@) == nodes_view(self.nodes@).take(i as int),
            decreases self.nodes.len() - i,
        {
            let ghost prev = nodes@;
            nodes.push(self.nodes[i].duplicate());
            assert(nodes@ == prev.push(nodes@[i as int]));
            assert(nodes_view(nodes@) =~= nodes_view(prev).push(self.nodes@[i as int]@));
            i += 1;
            assert(nodes_view(nodes@) =~= nodes_view(self.nodes@).take(i as int));
        }
        let mut edges: Vec<FlowEdge> = Vec::new();
        let mut j: usize = 0;
        while j < self.edges.len()
            invariant
                j <= self.edges.len(),
                edges@.len() == j,
                edges_view(edges@) == edges_view(self.edges@).take(j as int),
            decreases self.edges.len() - j,
        {
            let ghost prev = edges@;
            edges.push(self.edges[j].duplicate());
            assert(edges@ == prev.push(edges@[j as int]));
            assert(edges_view(edges@) =~= edges_view(prev).push(self.edges@[j as int]@));
            j += 1;
            assert(edges_view(edges@) =~= edges_view(self.edges@).take(j as int));
        }
        assert(nodes_view(self.nodes@).take(self.nodes.len() as int) =~= nodes_view(self.nodes@));
        assert(edges_view(self.edges@).take(self.edges.len() as int) =~= edges_view(self.edges@));
        FlowDefinition {
            id: self.id.clone(),
            name: self.name.clone(),
            version: self.version,
            nodes,
            edges,
        }
    }
}

/// The edge type a flow edge has when none is given.
pub fn default_edge_type() -> (r: String)
    ensures
        r@ == EDGE_TYPE_SEQUENCE@,
{
    EDGE_TYPE_SEQUENCE.to_owned()
}

/// `data` stays `data`; every other edge type is a sequence edge.
pub open spec fn normalized_edge_type_spec(value: Seq<char>) -> Seq<char> {
    if value == EDGE_TYPE_DATA@ {
        EDGE_TYPE_DATA@
    } else {
        EDGE_TYPE_SEQUENCE@
    }
}

/// The edge type as the client understands it.
pub fn normalized_edge_type(value: &str) -> (r: String)
    ensures
        r@ == normalized_edge_type_spec(value@),
{
    if str_eq(value, EDGE_TYPE_DATA) {
        EDGE_TYPE_DATA.to_owned()
    } else {
        EDGE_TYPE_SEQUENCE.to_owned()
    }
}

/// A handle counts as missing when it is absent or blank.
pub open spec fn blank_handle(h: Option<Seq<char>>) -> bool {
    match h {
        Some(s) => trim_spec(s).len() == 0,
        None => true,
    }
}

/// What `normalize_flow_edge` makes of an edge.
pub open spec fn normalize_edge_spec(e: EdgeView) -> EdgeView {
    let t = normalized_edge_type_spec(e.edge_type);
    if t == EDGE_TYPE_SEQUENCE@ {
        EdgeView {
            edge_type: t,
            from_handle: if blank_handle(e.from_handle) {
                Some(HANDLE_SEQUENCE_OUT@)
            } else {
                e.from_handle
            },
            to_handle: if blank_handle(e.to_handle) {
                Some(HANDLE_SEQUENCE_IN@)
            } else {
                e.to_handle
            },
            ..e
        }
    } else {
        EdgeView { edge_type: t, ..e }
    }
}

/// Whether an optional handle is absent or blank.
fn handle_is_blank(h: &Option<String>) -> (r: bool)
    ensures
        r == blank_handle(opt_view(*h)),
{
    match h {
        Some(s) => {
            let t = trim(s.as_str());
            t.as_str().is_empty()
        },
        None => true,
    }
}

/// Gives an edge a known type, and a sequence edge its default handles.
pub fn normalize_flow_edge(edge: &mut FlowEdge)
    ensures
        final(edge)@ == normalize_edge_spec(old(edge)@),
{
    edge.edge_type = normalized_edge_type(edge.edge_type.as_str());
    if str_eq(edge.edge_type.as_str(), EDGE_TYPE_SEQUENCE) {
        if handle_is_blank(&edge.from_handle) {
            edge.from_handle = Some(HANDLE_SEQUENCE_OUT.to_owned());
        }
        if handle_is_blank(&edge.to_handle) {
            edge.to_handle = Some(HANDLE_SEQUENCE_IN.to_owned());
        }
    }
}

/// The view of a sequence edge.
pub open spec fn sequence_edge_spec(id: Seq<char>, from: Seq<char>, to: Seq<char>) -> EdgeView {
    EdgeView {
        id,
        from,
        to,
        edge_type: EDGE_TYPE_SEQUENCE@,
        from_handle: Some(HANDLE_SEQUENCE_OUT@),
        to_handle: Some(HANDLE_SEQUENCE_IN@),
    }
}

/// The view of a data edge.
pub open spec fn data_edge_spec(
    id: Seq<char>,
    from: Seq<char>,
    from_handle: Seq<char>,
    to: Seq<char>,
    to_handle: Seq<char>,
) -> EdgeView {
    EdgeView {
        id,
        from,
        to,
        edge_type: EDGE_TYPE_DATA@,
        from_handle: Some(from_handle),
        to_handle: Some(to_handle),
    }
}

/// A sequence edge from `from` to `to`.
pub fn sequence_edge(id: &str, from: &str, to: &str) -> (r: FlowEdge)
    ensures
        r@ == sequence_edge_spec(id@, from@, to@),
{
    FlowEdge {
        id: id.to_owned(),
        from: from.to_owned(),
        to: to.to_owned(),
        edge_type: EDGE_TYPE_SEQUENCE.to_owned(),
        from_handle: Some(HANDLE_SEQUENCE_OUT.to_owned()),
        to_handle: Some(HANDLE_SEQUENCE_IN.to_owned()),
    }
}

/// A data edge from port `from_handle` of `from` to port `to_handle` of `to`.
pub fn data_edge(id: &str, from: &str, from_handle: &str, to: &str, to_handle: &str) -> (r:
    FlowEdge)
    ensures
        r@ == data_edge_spec(id@, from@, from_handle@, to@, to_handle@),
{
    FlowEdge {
        id: id.to_owned(),
        from: from.to_owned(),
        to: to.to_owned(),
        edge_type: EDGE_TYPE_DATA.to_owned(),
        from_handle: Some(from_handle.to_owned()),
        to_handle: Some(to_handle.to_owned()),
    }
}

/// An empty configuration object.
pub open spec fn empty_config() -> JsonView {
    JsonView::Object(Seq::empty())
}

/// The view of a node with an empty configuration.
pub open spec fn node_spec(
    id: Seq<char>,
    module_id: Seq<char>,
    label: Seq<char>,
    x_bits: u64,
    y_bits: u64,
) -> NodeView {
    NodeView { id, module_id, label, position: Position { x_bits, y_bits }, config: empty_config() }
}

/// A node with an empty configuration.
pub fn new_node(id: &str, module_id: &str, label: &str, x_bits: u64, y_bits: u64) -> (r: FlowNode)
    ensures
        r@ == node_spec(id@, module_id@, label@, x_bits, y_bits),
{
    FlowNode {
        id: id.to_owned(),
        module_id: module_id.to_owned(),
        label: label.to_owned(),
        position: Position { x_bits, y_bits },
        config: JsonValue::empty_object(),
    }
}

/// The default image audit flow: start, all images, OCR, image safety,
/// text safety and output, wired by sequence and data edges.
pub open spec fn default_flow_spec() -> FlowView {
    FlowView {
        id: DEFAULT_FLOW_ID@,
        name: "图片 UGC 默认审核"@,
        version: 1,
        nodes: seq![
            node_spec(START_NODE_ID@, START_MODULE_ID@, "开始"@, 0x405e000000000000, 0x4070400000000000),
            node_spec("all_images"@, DATA_ALL_IMAGES_MODULE_ID@, "待测项目中所有图片"@, 0x4076800000000000, 0x404e000000000000),
            node_spec("image_ocr"@, "preset.custom.paddleocr"@, "图片文字识别"@, 0x4080400000000000, 0x4064000000000000),
            node_spec("image_safety"@, "preset.custom.shieldgemma2"@, "图片合规检测"@, 0x4080400000000000, 0x4076800000000000),
            node_spec("text_safety"@, "preset.custom.qwen3guard"@, "文本合规检测"@, 0x4089a00000000000, 0x4064000000000000),
            node_spec(OUTPUT_NODE_ID@, OUTPUT_MODULE_ID@, "输出结果"@, 0x4091800000000000, 0x4070400000000000),
        ],
        edges: seq![
            sequence_edge_spec("edge_flow_start_image_ocr"@, START_NODE_ID@, "image_ocr"@),
            sequence_edge_spec("edge_flow_start_image_safety"@, START_NODE_ID@, "image_safety"@),
            sequence_edge_spec("edge_seq_image_ocr_text_safety"@, "image_ocr"@, "text_safety"@),
            sequence_edge_spec("edge_image_safety_output"@, "image_safety"@, OUTPUT_NODE_ID@),
            sequence_edge_spec("edge_text_safety_output"@, "text_safety"@, OUTPUT_NODE_ID@),
            data_edge_spec("edge_all_images_image_ocr"@, "all_images"@, HANDLE_IMAGES_OUT@, "image_ocr"@, HANDLE_IMAGES_IN@),
            data_edge_spec("edge_all_images_image_safety"@, "all_images"@, HANDLE_IMAGES_OUT@, "image_safety"@, HANDLE_IMAGES_IN@),
            data_edge_spec("edge_data_image_ocr_text_safety"@, "image_ocr"@, HANDLE_TEXTS_OUT@, "text_safety"@, HANDLE_TEXTS_IN@),
        ],
    }
}

/// The default image audit flow.
pub fn default_flow() -> (r: FlowDefinition)
    ensures
        r@ == default_flow_spec(),
{
    let mut nodes: Vec<FlowNode> = Vec::new();
    nodes.push(new_node(START_NODE_ID, START_MODULE_ID, "开始", 0x405e000000000000, 0x4070400000000000));
    nodes.push(new_node("all_images", DATA_ALL_IMAGES_MODULE_ID, "待测项目中所有图片", 0x4076800000000000, 0x404e000000000000));
    nodes.push(new_node("image_ocr", "preset.custom.paddleocr", "图片文字识别", 0x4080400000000000, 0x4064000000000000));
    nodes.push(new_node("image_safety", "preset.custom.shieldgemma2", "图片合规检测", 0x4080400000000000, 0x4076800000000000));
    nodes.push(new_node("text_safety", "preset.custom.qwen3guard", "文本合规检测", 0x4089a00000000000, 0x4064000000000000));
    nodes.push(new_node(OUTPUT_NODE_ID, OUTPUT_MODULE_ID, "输出结果", 0x4091800000000000, 0x4070400000000000));
    let mut edges: Vec<FlowEdge> = Vec::new();
    edges.push(sequence_edge("edge_flow_start_image_ocr", START_NODE_ID, "image_ocr"));
    edges.push(sequence_edge("edge_flow_start_image_safety", START_NODE_ID, "image_safety"));
    edges.push(sequence_edge("edge_seq_image_ocr_text_safety", "image_ocr", "text_safety"));
    edges.push(sequence_edge("edge_image_safety_output", "image_safety", OUTPUT_NODE_ID));
    edges.push(sequence_edge("edge_text_safety_output", "text_safety", OUTPUT_NODE_ID));
    edges.push(data_edge("edge_all_images_image_ocr", "all_images", HANDLE_IMAGES_OUT, "image_ocr", HANDLE_IMAGES_IN));
    edges.push(data_edge("edge_all_images_image_safety", "all_images", HANDLE_IMAGES_OUT, "image_safety", HANDLE_IMAGES_IN));
    edges.push(data_edge("edge_data_image_ocr_text_safety", "image_ocr", HANDLE_TEXTS_OUT, "text_safety", HANDLE_TEXTS_IN));
    let r = FlowDefinition {
        id: DEFAULT_FLOW_ID.to_owned(),
        name: "图片 UGC 默认审核".to_owned(),
        version: 1,
        nodes,
        edges,
    };
    assert(r@.nodes =~= default_flow_spec().nodes);
    assert(r@.edges =~= default_flow_spec().edges);
    r
}

/// Index of the first node using module `module_id`, or the length when none.
pub open spec fn node_index_by_module(nodes: Seq<NodeView>, module_id: Seq<char>) -> int
    decreases nodes.len(),
{
    if nodes.len() == 0 {
        0
    } else if nodes[0].module_id == module_id {
        0
    } else {
        1 + node_index_by_module(nodes.drop_first(), module_id)
    }
}

/// Facts about `node_index_by_module`.
pub proof fn lemma_node_index_by_module(nodes: Seq<NodeView>, module_id: Seq<char>)
    ensures
        0 <= node_index_by_module(nodes, module_id) <= nodes.len(),
        forall|j: int|
            0 <= j < node_index_by_module(nodes, module_id) ==> #[trigger] nodes[j].module_id
                != module_id,
        node_index_by_module(nodes, module_id) < nodes.len() ==> nodes[node_index_by_module(
            nodes,
            module_id,
        )].module_id == module_id,
    decreases nodes.len(),
{
    if nodes.len() > 0 && nodes[0].module_id != module_id {
        lemma_node_index_by_module(nodes.drop_first(), module_id);
        assert forall|j: int| 0 <= j < node_index_by_module(nodes, module_id) implies #[trigger] nodes[j].module_id
            != module_id by {
            if j > 0 {
                assert(nodes[j] == nodes.drop_first()[j - 1]);
            }
        }
    }
}

/// The id of the first node using module `module_id`.
pub open spec fn first_node_id_spec(nodes: Seq<NodeView>, module_id: Seq<char>) -> Option<Seq<char>> {
    let i = node_index_by_module(nodes, module_id);
    if i < nodes.len() {
        Some(nodes[i].id)
    } else {
        None
    }
}

/// The position of the first node using module `module_id`.
pub fn find_node_by_module(flow: &FlowDefinition, module_id: &str) -> (r: Option<usize>)
    ensures
        match r {
            Some(i) => i < flow.nodes@.len() && i as int == node_index_by_module(flow@.nodes, module_id@),
            None => node_index_by_module(flow@.nodes, module_id@) == flow@.nodes.len(),
        },
{
    let ghost nv = flow@.nodes;
    proof {
        lemma_node_index_by_module(nv, module_id@);
    }
    let mut i: usize = 0;
    while i < flow.nodes.len()
        invariant
            nv == flow@.nodes,
            i <= flow.nodes.len(),
            i <= node_index_by_module(nv, module_id@),
            0 <= node_index_by_module(nv, module_id@) <= nv.len(),
            forall|j: int|
                0 <= j < node_index_by_module(nv, module_id@) ==> #[trigger] nv[j].module_id
                    != module_id@,
            node_index_by_module(nv, module_id@) < nv.len() ==> nv[node_index_by_module(
                nv,
                module_id@,
            )].module_id == module_id@,
        decreases flow.nodes.len() - i,
    {
        if str_eq(flow.nodes[i].module_id.as_str(), module_id) {
            assert(nv[i as int].module_id == module_id@);
            return Some(i);
        }
        assert(nv[i as int].module_id != module_id@);
        i += 1;
    }
    None
}

/// The id of the first node using module `module_id`.
pub fn first_node_id_by_module(flow: &FlowDefinition, module_id: &str) -> (r: Option<String>)
    ensures
        opt_view(r) == first_node_id_spec(flow@.nodes, module_id@),
{
    match find_node_by_module(flow, module_id) {
        Some(i) => Some(flow.nodes[i].id.clone()),
        None => None,
    }
}

/// Whether some node of the flow uses module `module_id`.
pub open spec fn has_node_with_module(nodes: Seq<NodeView>, module_id: Seq<char>) -> bool {
    exists|i: int| 0 <= i < nodes.len() && #[trigger] nodes[i].module_id == module_id
}

/// Whether the flow has a node of the system module `module_id`.
pub fn has_system_node(flow: &FlowDefinition, module_id: &str) -> (r: bool)
    ensures
        r == has_node_with_module(flow@.nodes, module_id@),
{
    let ghost nv = flow@.nodes;
    proof {
        lemma_node_index_by_module(nv, module_id@);
    }
    match find_node_by_module(flow, module_id) {
        Some(i) => {
            assert(nv[i as int].module_id == module_id@);
            true
        },
        None => false,
    }
}

/// Whether the flow has some data edge.
pub open spec fn has_data_edge(edges: Seq<EdgeView>) -> bool {
    exists|i: int| 0 <= i < edges.len() && #[trigger] edges[i].edge_type == EDGE_TYPE_DATA@
}

/// Whether the flow has some data edge.
pub fn flow_has_data_edges(flow: &FlowDefinition) -> (r: bool)
    ensures
        r == has_data_edge(flow@.edges),
{
    let ghost ev = flow@.edges;
    let mut i: usize = 0;
    while i < flow.edges.len()
        invariant
            ev == flow@.edges,
            i <= flow.edges.len(),
            forall|j: int| 0 <= j < i ==> #[trigger] ev[j].edge_type != EDGE_TYPE_DATA@,
        decreases flow.edges.len() - i,
    {
        if str_eq(flow.edges[i].edge_type.as_str(), EDGE_TYPE_DATA) {
            assert(ev[i as int].edge_type == EDGE_TYPE_DATA@);
            return true;
        }
        i += 1;
    }
    false
}

/// Whether some node has id `id`.
pub open spec fn has_node_id(nodes: Seq<NodeView>, id: Seq<char>) -> bool {
    exists|i: int| 0 <= i < nodes.len() && #[trigger] nodes[i].id == id
}

/// Whether some node of `flow` has id `id`.
pub fn node_id_taken(flow: &FlowDefinition, id: &str) -> (r: bool)
    ensures
        r == has_node_id(flow@.nodes, id@),
{
    let ghost nv = flow@.nodes;
    let mut i: usize = 0;
    while i < flow.nodes.len()
        invariant
            nv == flow@.nodes,
            i <= flow.nodes.len(),
            forall|j: int| 0 <= j < i ==> #[trigger] nv[j].id != id@,
        decreases flow.nodes.len() - i,
    {
        if str_eq(flow.nodes[i].id.as_str(), id) {
            assert(nv[i as int].id == id@);
            return true;
        }
        i += 1;
    }
    false
}

/// The `k`-th alternative id for `preferred`: `{preferred}_{k}`.
pub open spec fn node_id_candidate(preferred: Seq<char>, k: int) -> Seq<char> {
    preferred + seq!['_'] + decimal(k as nat)
}

/// The least `k >= 2` whose candidate is free (it exists: see `lemma_free_node_id`).
pub open spec fn first_free_index(nodes: Seq<NodeView>, preferred: Seq<char>) -> int {
    choose|k: int|
        k >= 2 && !has_node_id(nodes, node_id_candidate(preferred, k)) && forall|j: int|
            2 <= j < k ==> has_node_id(nodes, #[trigger] node_id_candidate(preferred, j))
}

/// The id `unique_node_id` picks: `preferred` when free, else the first free candidate.
pub open spec fn unique_node_id_spec(nodes: Seq<NodeView>, preferred: Seq<char>) -> Seq<char> {
    if !has_node_id(nodes, preferred) {
        preferred
    } else {
        node_id_candidate(preferred, first_free_index(nodes, preferred))
    }
}

/// Candidates for different indexes differ.
pub proof fn lemma_candidates_differ(preferred: Seq<char>, i: int, j: int)
    requires
        i >= 0,
        j >= 0,
        node_id_candidate(preferred, i) == node_id_candidate(preferred, j),
    ensures
        i == j,
{
    let a = node_id_candidate(preferred, i);
    let b = node_id_candidate(preferred, j);
    let p: int = preferred.len() as int + 1;
    assert(a.skip(p) =~= decimal(i as nat));
    assert(b.skip(p) =~= decimal(j as nat));
    crate::strs::lemma_decimal_injective(i as nat, j as nat);
}

/// Some candidate among the first `nodes.len() + 1` is free, and the least free one
/// is what `first_free_index` picks.
pub proof fn lemma_free_node_id(nodes: Seq<NodeView>, preferred: Seq<char>)
    ensures
        ({
            let k = first_free_index(nodes, preferred);
            &&& 2 <= k <= nodes.len() + 2
            &&& !has_node_id(nodes, node_id_candidate(preferred, k))
            &&& forall|j: int|
                2 <= j < k ==> has_node_id(nodes, #[trigger] node_id_candidate(preferred, j))
        }),
{
    let ids = nodes.map_values(|n: NodeView| n.id);
    let f = |k: int| node_id_candidate(preferred, k);
    assert forall|i: int, j: int|
        2 <= i <= 2 + ids.len() && 2 <= j <= 2 + ids.len() && i != j implies #[trigger] f(i) != #[trigger] f(j) by {
        if f(i) == f(j) {
            lemma_candidates_differ(preferred, i, j);
        }
    }
    crate::strs::lemma_free_candidate(ids, f, 2);
    let free = choose|i: int| 2 <= i <= 2 + ids.len() && !ids.contains(#[trigger] f(i));
    assert(!has_node_id(nodes, f(free))) by {
        if has_node_id(nodes, f(free)) {
            let w = choose|w: int| 0 <= w < nodes.len() && #[trigger] nodes[w].id == f(free);
            assert(ids[w] == f(free));
        }
    }
    least_free(nodes, preferred, 2, free);
}

/// The least free candidate at or after `from` that is at most `bound`.
proof fn least_free(nodes: Seq<NodeView>, preferred: Seq<char>, from: int, bound: int)
    requires
        2 <= from <= bound,
        !has_node_id(nodes, node_id_candidate(preferred, bound)),
        forall|j: int| 2 <= j < from ==> has_node_id(nodes, #[trigger] node_id_candidate(preferred, j)),
    ensures
        ({
            let k = first_free_index(nodes, preferred);
            &&& 2 <= k <= bound
            &&& !has_node_id(nodes, node_id_candidate(preferred, k))
            &&& forall|j: int|
                2 <= j < k ==> has_node_id(nodes, #[trigger] node_id_candidate(preferred, j))
        }),
    decreases bound - from,
{
    if !has_node_id(nodes, node_id_candidate(preferred, from)) {
        let k = first_free_index(nodes, preferred);
        assert(from >= 2 && !has_node_id(nodes, node_id_candidate(preferred, from)) && forall|j: int|
            2 <= j < from ==> has_node_id(nodes, #[trigger] node_id_candidate(preferred, j)));
        if k < from {
            assert(has_node_id(nodes, node_id_candidate(preferred, k)));
        }
        if k > from {
            assert(has_node_id(nodes, node_id_candidate(preferred, from)));
        }
    } else {
        least_free(nodes, preferred, from + 1, bound);
    }
}

/// A node id not used in `flow`: `preferred`, or `{preferred}_{k}` for the least free `k >= 2`.
pub fn unique_node_id(flow: &FlowDefinition, preferred: &str) -> (r: String)
    ensures
        r@ == unique_node_id_spec(flow@.nodes, preferred@),
        !has_node_id(flow@.nodes, r@),
{
    if !node_id_taken(flow, preferred) {
        return preferred.to_owned();
    }
    let ghost nv = flow@.nodes;
    proof {
        lemma_free_node_id(nv, preferred@);
    }
    let ghost target = first_free_index(nv, preferred@);
    let mut j: usize = 0;
    while j <= flow.nodes.len()
        invariant
            nv == flow@.nodes,
            has_node_id(nv, preferred@),
            2 <= j + 2 <= target,
            target <= nv.len() + 2,
            !has_node_id(nv, node_id_candidate(preferred@, target)),
            forall|k: int| 2 <= k < target ==> has_node_id(nv, #[trigger] node_id_candidate(preferred@, k)),
        decreases target - j,
    {
        let index: u128 = (j as u128) + 2;
        let mut candidate = preferred.to_owned();
        crate::strs::push_char(&mut candidate, '_');
        crate::strs::push_decimal(&mut candidate, index);
        assert(candidate@ =~= node_id_candidate(preferred@, index as int));
        if !node_id_taken(flow, candidate.as_str()) {
            assert(index == target) by {
                if index < target {
                    assert(has_node_id(nv, node_id_candidate(preferred@, index as int)));
                }
            }
            assert(candidate@ == node_id_candidate(preferred@, target));
            assert(has_node_id(nv, preferred@));
            assert(unique_node_id_spec(nv, preferred@) == node_id_candidate(preferred@, target));
            return candidate;
        }
        assert(index != target);
        j += 1;
    }
    proof {
        assert(nv.len() == flow.nodes@.len());
    }
    preferred.to_owned()
}

} // verus!
