//! Reachability in a flow: along sequence edges, and along data edges
//! through the nodes that only pass data on.
use crate::catalog::{find_module, is_pure_data_kind, is_pure_data_module_kind, lookup_module, ModuleInfo};
use crate::flow::{EdgeView, FlowDefinition, NodeView, EDGE_TYPE_DATA, EDGE_TYPE_SEQUENCE};
use crate::strs::str_eq;
use vstd::prelude::*;

verus! {

/// Some sequence edge leads from `a` to `b`.
pub open spec fn seq_step(edges: Seq<EdgeView>, a: Seq<char>, b: Seq<char>) -> bool {
    exists|i: int|
        0 <= i < edges.len() && #[trigger] edges[i].edge_type == EDGE_TYPE_SEQUENCE@ && edges[i].from
            == a && edges[i].to == b
}

/// `path` follows sequence edges from its first id to its last.
pub open spec fn is_seq_walk(edges: Seq<EdgeView>, path: Seq<Seq<char>>) -> bool {
    path.len() >= 1 && forall|k: int| 0 <= k < path.len() - 1 ==> seq_step(edges, #[trigger] path[k], path[k + 1])
}

/// `to` can be reached from `from` along sequence edges (every id reaches itself).
pub open spec fn seq_reachable(edges: Seq<EdgeView>, from: Seq<char>, to: Seq<char>) -> bool {
    exists|path: Seq<Seq<char>>| is_seq_walk(edges, path) && path[0] == from && path.last() == to
}

/// A walk that starts inside a set closed under sequence steps stays inside it.
pub proof fn lemma_walk_stays_closed(edges: Seq<EdgeView>, seen: Seq<Seq<char>>, path: Seq<Seq<char>>)
    requires
        is_seq_walk(edges, path),
        seen.contains(path[0]),
        forall|x: Seq<char>, y: Seq<char>| seen.contains(x) && #[trigger] seq_step(edges, x, y) ==> seen.contains(y),
    ensures
        seen.contains(path.last()),
    decreases path.len(),
{
    if path.len() > 1 {
        let init = path.drop_last();
        assert forall|k: int| 0 <= k < init.len() - 1 implies seq_step(edges, #[trigger] init[k], init[k + 1]) by {
            assert(seq_step(edges, path[k], path[k + 1]));
        }
        lemma_walk_stays_closed(edges, seen, init);
        assert(seq_step(edges, path[path.len() - 2], path[path.len() - 1]));
    }
}

/// A sequence without repeats whose members are all among `pool` is no longer than `pool`.
pub proof fn lemma_distinct_within(s: Seq<Seq<char>>, pool: Seq<Seq<char>>)
    requires
        s.no_duplicates(),
        forall|i: int| 0 <= i < s.len() ==> pool.contains(#[trigger] s[i]),
    ensures
        s.len() <= pool.len(),
{
    s.unique_seq_to_set();
    pool.lemma_cardinality_of_set();
    assert forall|x: Seq<char>| s.to_set().contains(x) implies pool.to_set().contains(x) by {
        let i = choose|i: int| 0 <= i < s.len() && s[i] == x;
    }
    vstd::set_lib::lemma_len_subset(s.to_set(), pool.to_set());
}

/// The views of a vector of strings.
pub open spec fn strings_view(v: Seq<String>) -> Seq<Seq<char>> {
    v.map_values(|s: String| s@)
}

/// Whether `v` holds `s`.
pub fn strings_contain(v: &Vec<String>, s: &str) -> (r: bool)
    ensures
        r == strings_view(v@).contains(s@),
{
    let mut i: usize = 0;
    while i < v.len()
        invariant
            i <= v.len(),
            forall|j: int| 0 <= j < i ==> #[trigger] strings_view(v@)[j] != s@,
        decreases v.len() - i,
    {
        if str_eq(v[i].as_str(), s) {
            assert(strings_view(v@)[i as int] == s@);
            return true;
        }
        i += 1;
    }
    false
}

/// The targets of all edges.
pub open spec fn edge_targets(edges: Seq<EdgeView>) -> Seq<Seq<char>> {
    edges.map_values(|e: EdgeView| e.to)
}

/// Whether sequence edges lead from `from` to `to` (`to == from` counts).
pub fn has_path(flow: &FlowDefinition, from: &str, to: &str) -> (r: bool)
    ensures
        r == seq_reachable(flow@.edges, from@, to@),
{
    let ghost edges = flow@.edges;
    let mut seen: Vec<String> = Vec::new();
    seen.push(from.to_owned());
    let mut idx: usize = 0;
    proof {
        let p = seq![from@];
        assert(is_seq_walk(edges, p) && p[0] == from@ && p.last() == from@);
        assert(seq_reachable(edges, from@, from@));
        assert(strings_view(seen@) =~= seq![from@]);
    }
    while idx < seen.len()
        invariant
            edges == flow@.edges,
            idx <= seen@.len(),
            seen@.len() >= 1,
            strings_view(seen@)[0] == from@,
            strings_view(seen@).no_duplicates(),
            seen@.len() <= edges.len() + 1,
            forall|k: int| 1 <= k < seen@.len() ==> edge_targets(edges).contains(#[trigger] strings_view(seen@)[k]),
            forall|k: int| 0 <= k < seen@.len() ==> seq_reachable(edges, from@, #[trigger] strings_view(seen@)[k]),
            forall|k: int| 0 <= k < idx ==> #[trigger] strings_view(seen@)[k] != to@,
            forall|k: int, y: Seq<char>|
                0 <= k < idx && #[trigger] seq_step(edges, strings_view(seen@)[k], y) ==> strings_view(seen@).contains(y),
        decreases edges.len() + 1 - idx,
    {
        let current = seen[idx].clone();
        if str_eq(current.as_str(), to) {
            assert(strings_view(seen@)[idx as int] == current@);
            return true;
        }
        let mut e: usize = 0;
        let ghost before = strings_view(seen@);
        while e < flow.edges.len()
            invariant
                edges == flow@.edges,
                idx < seen@.len(),
                e <= flow.edges.len(),
                current@ == strings_view(seen@)[idx as int],
                strings_view(seen@).take(before.len() as int) == before,
                before.len() <= seen@.len(),
                seen@.len() >= 1,
                strings_view(seen@)[0] == from@,
                strings_view(seen@).no_duplicates(),
                forall|k: int| 1 <= k < seen@.len() ==> edge_targets(edges).contains(#[trigger] strings_view(seen@)[k]),
                forall|k: int| 0 <= k < seen@.len() ==> seq_reachable(edges, from@, #[trigger] strings_view(seen@)[k]),
                forall|j: int|
                    0 <= j < e && #[trigger] edges[j].edge_type == EDGE_TYPE_SEQUENCE@ && edges[j].from == current@
                        ==> strings_view(seen@).contains(edges[j].to),
            decreases flow.edges.len() - e,
        {
            let edge = &flow.edges[e];
            assert(edges[e as int] == edge@);
            let ghost old_seen = strings_view(seen@);
            if str_eq(edge.edge_type.as_str(), EDGE_TYPE_SEQUENCE) && str_eq(edge.from.as_str(), current.as_str())
                && !strings_contain(&seen, edge.to.as_str()) {
                proof {
                    assert(edges[e as int].edge_type == EDGE_TYPE_SEQUENCE@);
                    assert(edges[e as int].from == current@ && edges[e as int].to == edge.to@);
                    assert(seq_reachable(edges, from@, current@));
                    let p = choose|p: Seq<Seq<char>>| is_seq_walk(edges, p) && p[0] == from@ && p.last() == current@;
                    let q = p.push(edge.to@);
                    assert(seq_step(edges, current@, edge.to@));
                    assert forall|k: int| 0 <= k < q.len() - 1 implies seq_step(edges, #[trigger] q[k], q[k + 1]) by {
                        if k < p.len() - 1 {
                            assert(q[k] == p[k] && q[k + 1] == p[k + 1]);
                        } else {
                            assert(q[k] == current@);
                        }
                    }
                    assert(is_seq_walk(edges, q) && q[0] == from@ && q.last() == edge.to@);
                    assert(edge_targets(edges)[e as int] == edge.to@);
                }
                seen.push(edge.to.clone());
                assert(strings_view(seen@) =~= old_seen.push(edge.to@));
                proof {
                    let sv = strings_view(seen@);
                    assert(sv[old_seen.len() as int] == edge.to@);
                    assert forall|y: Seq<char>| old_seen.contains(y) implies sv.contains(y) by {
                        let w = choose|w: int| 0 <= w < old_seen.len() && old_seen[w] == y;
                        assert(sv[w] == y);
                    }
                }
            }
            proof {
                if edges[e as int].edge_type == EDGE_TYPE_SEQUENCE@ && edges[e as int].from == current@ {
                    assert(strings_view(seen@).contains(edges[e as int].to));
                }
            }
            e += 1;
        }
        proof {
            let sv = strings_view(seen@);
            lemma_distinct_within(sv.drop_first(), edge_targets(edges));
            assert forall|k: int, y: Seq<char>|
                0 <= k < idx + 1 && #[trigger] seq_step(edges, sv[k], y) implies sv.contains(y) by {
                if k < idx {
                    assert(before[k] == sv[k]);
                    assert(before.contains(y));
                    let w = choose|w: int| 0 <= w < before.len() && before[w] == y;
                    assert(sv[w] == y);
                } else {
                    let w = choose|w: int| 0 <= w < edges.len() && #[trigger] edges[w].edge_type == EDGE_TYPE_SEQUENCE@
                        && edges[w].from == sv[k] && edges[w].to == y;
                }
            }
            assert forall|k: int| 0 <= k < idx + 1 implies #[trigger] sv[k] != to@ by {
                if k < idx {
                    assert(before[k] == sv[k]);
                }
            }
        }
        idx += 1;
    }
    proof {
        let sv = strings_view(seen@);
        if seq_reachable(edges, from@, to@) {
            let p = choose|p: Seq<Seq<char>>| is_seq_walk(edges, p) && p[0] == from@ && p.last() == to@;
            assert(sv[0] == from@);
            lemma_walk_stays_closed(edges, sv, p);
            let w = choose|w: int| 0 <= w < sv.len() && sv[w] == to@;
        }
    }
    false
}

/// Some data edge leads from `a` to `b`.
pub open spec fn data_step(edges: Seq<EdgeView>, a: Seq<char>, b: Seq<char>) -> bool {
    exists|i: int|
        0 <= i < edges.len() && #[trigger] edges[i].edge_type == EDGE_TYPE_DATA@ && edges[i].from == a
            && edges[i].to == b
}

/// Index of the last node with id `id`, or -1 when there is none.
pub open spec fn last_node_index(nodes: Seq<NodeView>, id: Seq<char>) -> int
    decreases nodes.len(),
{
    if nodes.len() == 0 {
        -1
    } else if nodes.last().id == id {
        nodes.len() - 1
    } else {
        last_node_index(nodes.drop_last(), id)
    }
}

/// Facts about `last_node_index`.
pub proof fn lemma_last_node_index(nodes: Seq<NodeView>, id: Seq<char>)
    ensures
        -1 <= last_node_index(nodes, id) < nodes.len(),
        last_node_index(nodes, id) >= 0 ==> nodes[last_node_index(nodes, id)].id == id,
        forall|j: int| last_node_index(nodes, id) < j < nodes.len() ==> #[trigger] nodes[j].id != id,
    decreases nodes.len(),
{
    if nodes.len() > 0 && nodes.last().id != id {
        lemma_last_node_index(nodes.drop_last(), id);
        assert forall|j: int| last_node_index(nodes, id) < j < nodes.len() implies #[trigger] nodes[j].id != id by {
            if j < nodes.len() - 1 {
                assert(nodes[j] == nodes.drop_last()[j]);
            }
        }
    }
}

/// How the data flow sees the node with id `id` (the last one with that id):
/// `Some(true)` when its module only passes data on, `Some(false)` when it runs
/// a process, `None` when the node or its module is unknown.
pub open spec fn data_role(nodes: Seq<NodeView>, modules: Seq<ModuleInfo>, id: Seq<char>) -> Option<bool> {
    let i = last_node_index(nodes, id);
    if i < 0 {
        None
    } else {
        match lookup_module(modules, nodes[i].module_id) {
            Some(m) => Some(is_pure_data_kind(m.kind@)),
            None => None,
        }
    }
}

/// `path` carries data from its first node to its last: data edges all along,
/// and every node in between only passes data on.
pub open spec fn is_data_feed(
    nodes: Seq<NodeView>,
    edges: Seq<EdgeView>,
    modules: Seq<ModuleInfo>,
    path: Seq<Seq<char>>,
) -> bool {
    &&& path.len() >= 2
    &&& forall|k: int| 0 <= k < path.len() - 1 ==> data_step(edges, #[trigger] path[k], path[k + 1])
    &&& forall|k: int| 1 <= k < path.len() - 1 ==> data_role(nodes, modules, #[trigger] path[k]) == Some(true)
}

/// Data flows from node `from` to node `to`.
pub open spec fn data_feeds(
    nodes: Seq<NodeView>,
    edges: Seq<EdgeView>,
    modules: Seq<ModuleInfo>,
    from: Seq<char>,
    to: Seq<char>,
) -> bool {
    exists|p: Seq<Seq<char>>| #[trigger] is_data_feed(nodes, edges, modules, p) && p[0] == from && p.last() == to
}

/// Node `id` runs a process and consumes data that `source` outputs.
pub open spec fn is_data_consumer(
    nodes: Seq<NodeView>,
    edges: Seq<EdgeView>,
    modules: Seq<ModuleInfo>,
    source: Seq<char>,
    id: Seq<char>,
) -> bool {
    data_feeds(nodes, edges, modules, source, id) && data_role(nodes, modules, id) == Some(false)
}

/// The position of the last node with id `id`.
pub fn find_last_node(flow: &FlowDefinition, id: &str) -> (r: Option<usize>)
    ensures
        match r {
            Some(i) => i as int == last_node_index(flow@.nodes, id@),
            None => last_node_index(flow@.nodes, id@) == -1,
        },
{
    let ghost nv = flow@.nodes;
    proof {
        lemma_last_node_index(nv, id@);
    }
    let mut i: usize = flow.nodes.len();
    while i > 0
        invariant
            nv == flow@.nodes,
            i <= nv.len(),
            last_node_index(nv, id@) < i,
            -1 <= last_node_index(nv, id@) < nv.len(),
            last_node_index(nv, id@) >= 0 ==> nv[last_node_index(nv, id@)].id == id@,
            forall|j: int| last_node_index(nv, id@) < j < nv.len() ==> #[trigger] nv[j].id != id@,
        decreases i,
    {
        i -= 1;
        assert(nv[i as int].id == flow.nodes@[i as int].id@);
        if str_eq(flow.nodes[i].id.as_str(), id) {
            return Some(i);
        }
    }
    None
}

/// How the data flow sees the node with id `id`.
pub fn node_data_role(flow: &FlowDefinition, modules: &Vec<ModuleInfo>, id: &str) -> (r: Option<bool>)
    ensures
        r == data_role(flow@.nodes, modules@, id@),
{
    proof {
        lemma_last_node_index(flow@.nodes, id@);
    }
    match find_last_node(flow, id) {
        None => None,
        Some(i) => {
            assert(flow@.nodes[i as int].module_id == flow.nodes@[i as int].module_id@);
            match find_module(modules, flow.nodes[i].module_id.as_str()) {
                None => None,
                Some(m) => Some(is_pure_data_module_kind(modules[m].kind.as_str())),
            }
        },
    }
}

/// Every node that a data feed from `source` reaches lies in `seen`, when `seen`
/// holds the first hop and is closed under passing data on.
proof fn lemma_feed_stays_closed(
    nodes: Seq<NodeView>,
    edges: Seq<EdgeView>,
    modules: Seq<ModuleInfo>,
    seen: Seq<Seq<char>>,
    p: Seq<Seq<char>>,
    k: int,
)
    requires
        is_data_feed(nodes, edges, modules, p),
        forall|y: Seq<char>| #[trigger] data_step(edges, p[0], y) ==> seen.contains(y),
        forall|x: Seq<char>, y: Seq<char>|
            seen.contains(x) && data_role(nodes, modules, x) == Some(true) && #[trigger] data_step(edges, x, y)
                ==> seen.contains(y),
        1 <= k < p.len(),
    ensures
        seen.contains(p[k]),
    decreases k,
{
    assert(data_step(edges, p[k - 1], p[k]));
    if k > 1 {
        lemma_feed_stays_closed(nodes, edges, modules, seen, p, k - 1);
        assert(data_role(nodes, modules, p[k - 1]) == Some(true));
    }
}

/// The nodes that run a process and consume what node `source_id` outputs,
/// directly or through nodes that only pass data on.
pub fn executable_data_consumers(flow: &FlowDefinition, modules: &Vec<ModuleInfo>, source_id: &str) -> (r: Vec<String>)
    ensures
        strings_view(r@).no_duplicates(),
        forall|x: Seq<char>|
            strings_view(r@).contains(x) <==> is_data_consumer(flow@.nodes, flow@.edges, modules@, source_id@, x),
{
    let ghost nv = flow@.nodes;
    let ghost edges = flow@.edges;
    let ghost ms = modules@;
    let ghost src = source_id@;
    let mut seen: Vec<String> = Vec::new();
    let mut e: usize = 0;
    while e < flow.edges.len()
        invariant
            edges == flow@.edges,
            nv == flow@.nodes,
            ms == modules@,
            src == source_id@,
            e <= edges.len(),
            strings_view(seen@).no_duplicates(),
            forall|k: int| 0 <= k < seen@.len() ==> edge_targets(edges).contains(#[trigger] strings_view(seen@)[k]),
            forall|k: int| 0 <= k < seen@.len() ==> data_feeds(nv, edges, ms, src, #[trigger] strings_view(seen@)[k]),
            forall|j: int|
                0 <= j < e && #[trigger] edges[j].edge_type == EDGE_TYPE_DATA@ && edges[j].from == src
                    ==> strings_view(seen@).contains(edges[j].to),
        decreases edges.len() - e,
    {
        let edge = &flow.edges[e];
        assert(edges[e as int] == edge@);
        let ghost old_seen = strings_view(seen@);
        if str_eq(edge.edge_type.as_str(), EDGE_TYPE_DATA) && str_eq(edge.from.as_str(), source_id)
            && !strings_contain(&seen, edge.to.as_str()) {
            proof {
                assert(edges[e as int].edge_type == EDGE_TYPE_DATA@);
                let p = seq![src, edge.to@];
                assert(data_step(edges, p[0], p[1]));
                assert(is_data_feed(nv, edges, ms, p));
                assert(edge_targets(edges)[e as int] == edge.to@);
            }
            seen.push(edge.to.clone());
            proof {
                let sv = strings_view(seen@);
                assert(sv =~= old_seen.push(edge.to@));
                assert(sv[old_seen.len() as int] == edge.to@);
                assert forall|y: Seq<char>| old_seen.contains(y) implies sv.contains(y) by {
                    let w = choose|w: int| 0 <= w < old_seen.len() && old_seen[w] == y;
                    assert(sv[w] == y);
                }
            }
        }
        proof {
            if edges[e as int].edge_type == EDGE_TYPE_DATA@ && edges[e as int].from == src {
                assert(strings_view(seen@).contains(edges[e as int].to));
            }
        }
        e += 1;
    }
    proof {
        assert forall|y: Seq<char>| #[trigger] data_step(edges, src, y) implies strings_view(seen@).contains(y) by {
            let w = choose|w: int|
                0 <= w < edges.len() && #[trigger] edges[w].edge_type == EDGE_TYPE_DATA@ && edges[w].from == src
                    && edges[w].to == y;
        }
        lemma_distinct_within(strings_view(seen@), edge_targets(edges));
    }
    let mut consumers: Vec<String> = Vec::new();
    let mut idx: usize = 0;
    while idx < seen.len()
        invariant
            edges == flow@.edges,
            nv == flow@.nodes,
            ms == modules@,
            src == source_id@,
            idx <= seen@.len(),
            seen@.len() <= edges.len(),
            strings_view(seen@).no_duplicates(),
            forall|k: int| 0 <= k < seen@.len() ==> edge_targets(edges).contains(#[trigger] strings_view(seen@)[k]),
            forall|k: int| 0 <= k < seen@.len() ==> data_feeds(nv, edges, ms, src, #[trigger] strings_view(seen@)[k]),
            forall|y: Seq<char>| #[trigger] data_step(edges, src, y) ==> strings_view(seen@).contains(y),
            forall|k: int, y: Seq<char>|
                0 <= k < idx && data_role(nv, ms, strings_view(seen@)[k]) == Some(true) && #[trigger] data_step(
                    edges,
                    strings_view(seen@)[k],
                    y,
                ) ==> strings_view(seen@).contains(y),
            strings_view(consumers@).no_duplicates(),
            forall|x: Seq<char>|
                strings_view(consumers@).contains(x) <==> exists|k: int|
                    0 <= k < idx && #[trigger] strings_view(seen@)[k] == x && data_role(nv, ms, x) == Some(false),
        decreases edges.len() - idx,
    {
        let current = seen[idx].clone();
        let ghost before = strings_view(seen@);
        assert(before[idx as int] == current@);
        let ghost old_cv = strings_view(consumers@);
        assert(forall|x: Seq<char>|
            old_cv.contains(x) <==> exists|k: int|
                0 <= k < idx && #[trigger] before[k] == x && data_role(nv, ms, x) == Some(false));
        assert(before.take(before.len() as int) =~= before);
        let role = node_data_role(flow, modules, current.as_str());
        if role == Some(true) {
            let mut e: usize = 0;
            while e < flow.edges.len()
                invariant
                    edges == flow@.edges,
                    nv == flow@.nodes,
                    ms == modules@,
                    src == source_id@,
                    idx < seen@.len(),
                    e <= edges.len(),
                    current@ == strings_view(seen@)[idx as int],
                    data_role(nv, ms, current@) == Some(true),
                    strings_view(seen@).take(before.len() as int) == before,
                    before.len() <= seen@.len(),
                    strings_view(seen@).no_duplicates(),
                    forall|k: int| 0 <= k < seen@.len() ==> edge_targets(edges).contains(#[trigger] strings_view(seen@)[k]),
                    forall|k: int| 0 <= k < seen@.len() ==> data_feeds(nv, edges, ms, src, #[trigger] strings_view(seen@)[k]),
                    forall|j: int|
                        0 <= j < e && #[trigger] edges[j].edge_type == EDGE_TYPE_DATA@ && edges[j].from == current@
                            ==> strings_view(seen@).contains(edges[j].to),
                decreases edges.len() - e,
            {
                let edge = &flow.edges[e];
                assert(edges[e as int] == edge@);
                let ghost old_seen = strings_view(seen@);
                if str_eq(edge.edge_type.as_str(), EDGE_TYPE_DATA) && str_eq(edge.from.as_str(), current.as_str())
                    && !strings_contain(&seen, edge.to.as_str()) {
                    proof {
                        assert(edges[e as int].edge_type == EDGE_TYPE_DATA@);
                        assert(data_feeds(nv, edges, ms, src, current@));
                        let p = choose|p: Seq<Seq<char>>| #[trigger] is_data_feed(nv, edges, ms, p) && p[0] == src && p.last() == current@;
                        let q = p.push(edge.to@);
                        assert(data_step(edges, current@, edge.to@));
                        assert forall|k: int| 0 <= k < q.len() - 1 implies data_step(edges, #[trigger] q[k], q[k + 1]) by {
                            if k < p.len() - 1 {
                                assert(q[k] == p[k] && q[k + 1] == p[k + 1]);
                            } else {
                                assert(q[k] == current@);
                            }
                        }
                        assert forall|k: int| 1 <= k < q.len() - 1 implies data_role(nv, ms, #[trigger] q[k]) == Some(true) by {
                            assert(q[k] == p[k]);
                        }
                        assert(is_data_feed(nv, edges, ms, q) && q[0] == src && q.last() == edge.to@);
                        assert(edge_targets(edges)[e as int] == edge.to@);
                    }
                    seen.push(edge.to.clone());
                    proof {
                        let sv = strings_view(seen@);
                        assert(sv =~= old_seen.push(edge.to@));
                        assert(sv[old_seen.len() as int] == edge.to@);
                        assert forall|y: Seq<char>| old_seen.contains(y) implies sv.contains(y) by {
                            let w = choose|w: int| 0 <= w < old_seen.len() && old_seen[w] == y;
                            assert(sv[w] == y);
                        }
                    }
                }
                proof {
                    if edges[e as int].edge_type == EDGE_TYPE_DATA@ && edges[e as int].from == current@ {
                        assert(strings_view(seen@).contains(edges[e as int].to));
                    }
                }
                e += 1;
            }
        } else if role == Some(false) {
            consumers.push(current.clone());
        }
        proof {
            let sv = strings_view(seen@);
            assert(sv[idx as int] == current@);
            lemma_distinct_within(sv, edge_targets(edges));
            assert forall|y: Seq<char>| #[trigger] data_step(edges, src, y) implies sv.contains(y) by {
                assert(before.contains(y));
                let w = choose|w: int| 0 <= w < before.len() && before[w] == y;
                assert(sv[w] == y);
            }
            assert forall|k: int, y: Seq<char>|
                0 <= k < idx + 1 && data_role(nv, ms, sv[k]) == Some(true) && #[trigger] data_step(edges, sv[k], y)
                    implies sv.contains(y) by {
                if k < idx {
                    assert(before[k] == sv[k]);
                    assert(before.contains(y));
                    let w = choose|w: int| 0 <= w < before.len() && before[w] == y;
                    assert(sv[w] == y);
                } else {
                    let w = choose|w: int|
                        0 <= w < edges.len() && #[trigger] edges[w].edge_type == EDGE_TYPE_DATA@ && edges[w].from
                            == sv[k] && edges[w].to == y;
                }
            }
            let cv = strings_view(consumers@);
            if role == Some(false) {
                assert(cv =~= old_cv.push(current@));
            } else {
                assert(cv =~= old_cv);
            }
            assert forall|k: int| 0 <= k < before.len() implies #[trigger] sv[k] == before[k] by {
                assert(sv.take(before.len() as int)[k] == sv[k]);
            }
            assert forall|x: Seq<char>|
                cv.contains(x) <==> exists|k: int|
                    0 <= k < idx + 1 && #[trigger] sv[k] == x && data_role(nv, ms, x) == Some(false) by {
                if cv.contains(x) {
                    if old_cv.contains(x) {
                        let k = choose|k: int| 0 <= k < idx && #[trigger] before[k] == x && data_role(nv, ms, x) == Some(false);
                        assert(sv[k] == x);
                    } else {
                        let w = choose|w: int| 0 <= w < cv.len() && cv[w] == x;
                        if w < old_cv.len() {
                            assert(old_cv[w] == x);
                        }
                        assert(x == current@);
                        assert(sv[idx as int] == x);
                    }
                }
                if exists|k: int| 0 <= k < idx + 1 && #[trigger] sv[k] == x && data_role(nv, ms, x) == Some(false) {
                    let k = choose|k: int| 0 <= k < idx + 1 && #[trigger] sv[k] == x && data_role(nv, ms, x) == Some(false);
                    if k < idx {
                        assert(before[k] == x);
                        assert(old_cv.contains(x));
                        let w = choose|w: int| 0 <= w < old_cv.len() && old_cv[w] == x;
                        assert(cv[w] == x);
                    } else {
                        assert(x == current@);
                        assert(cv[cv.len() - 1] == x);
                    }
                }
            }
            if role == Some(false) {
                assert(cv.no_duplicates()) by {
                    assert forall|p: int, q: int| 0 <= p < q < cv.len() implies cv[p] != cv[q] by {
                        if q == cv.len() - 1 {
                            assert(cv[p] == old_cv[p]);
                            assert(old_cv.contains(cv[p]));
                            let k = choose|k: int| 0 <= k < idx && #[trigger] before[k] == cv[p] && data_role(nv, ms, cv[p]) == Some(false);
                            assert(sv[k] == cv[p]);
                            assert(sv[idx as int] == current@);
                        } else {
                            assert(old_cv[p] == cv[p] && old_cv[q] == cv[q]);
                        }
                    }
                }
            }
        }
        idx += 1;
    }
    proof {
        let sv = strings_view(seen@);
        let cv = strings_view(consumers@);
        assert forall|x: Seq<char>, y: Seq<char>|
            sv.contains(x) && data_role(nv, ms, x) == Some(true) && #[trigger] data_step(edges, x, y) implies sv.contains(y) by {
            let k = choose|k: int| 0 <= k < sv.len() && sv[k] == x;
        }
        assert forall|x: Seq<char>| cv.contains(x) <==> is_data_consumer(nv, edges, ms, src, x) by {
            if is_data_consumer(nv, edges, ms, src, x) {
                let p = choose|p: Seq<Seq<char>>| #[trigger] is_data_feed(nv, edges, ms, p) && p[0] == src && p.last() == x;
                lemma_feed_stays_closed(nv, edges, ms, sv, p, p.len() - 1);
                let k = choose|k: int| 0 <= k < sv.len() && sv[k] == x;
            }
            if cv.contains(x) {
                let k = choose|k: int| 0 <= k < idx && #[trigger] sv[k] == x && data_role(nv, ms, x) == Some(false);
            }
        }
    }
    consumers
}

/// Whether some sequence edge leads from `from` to `to`.
pub fn has_sequence_edge(flow: &FlowDefinition, from: &str, to: &str) -> (r: bool)
    ensures
        r == seq_step(flow@.edges, from@, to@),
{
    let ghost edges = flow@.edges;
    let mut e: usize = 0;
    while e < flow.edges.len()
        invariant
            edges == flow@.edges,
            e <= edges.len(),
            forall|j: int|
                0 <= j < e ==> !(#[trigger] edges[j].edge_type == EDGE_TYPE_SEQUENCE@ && edges[j].from == from@
                    && edges[j].to == to@),
        decreases edges.len() - e,
    {
        let edge = &flow.edges[e];
        assert(edges[e as int] == edge@);
        if str_eq(edge.edge_type.as_str(), EDGE_TYPE_SEQUENCE) && str_eq(edge.from.as_str(), from) && str_eq(
            edge.to.as_str(),
            to,
        ) {
            assert(edges[e as int].edge_type == EDGE_TYPE_SEQUENCE@);
            return true;
        }
        e += 1;
    }
    false
}

} // verus!
