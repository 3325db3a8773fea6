//! The outputs a module step is shown as "previous": those of the steps that
//! feed it data, directly or through data nodes.
use crate::catalog::{find_module, is_pure_data_kind, is_pure_data_module_kind, lookup_module, ModuleInfo};
use crate::flow::{EdgeView, FlowDefinition, NodeView, EDGE_TYPE_DATA};
use crate::graph::{lemma_distinct_within, strings_contain, strings_view};
use crate::json::{entries_key_index, entries_lookup, entries_view, find_key, lemma_key_index, JsonValue, JsonView};
use crate::resolve::{first_node_index, first_node_with_id, lemma_first_node_index};
use crate::strs::str_eq;
use vstd::prelude::*;

verus! {

/// The node with id `id` (the first one) is a data node: its module passes
/// data on and runs no process.
pub open spec fn pure_data_source(nodes: Seq<NodeView>, ms: Seq<ModuleInfo>, id: Seq<char>) -> bool {
    let i = first_node_index(nodes, id);
    i >= 0 && match lookup_module(ms, nodes[i].module_id) {
        Some(m) => is_pure_data_kind(m.kind@),
        None => false,
    }
}

/// Data node `b` feeds node `a` along a data edge.
pub open spec fn fed_by(edges: Seq<EdgeView>, nodes: Seq<NodeView>, ms: Seq<ModuleInfo>, a: Seq<char>, b: Seq<char>) -> bool {
    pure_data_source(nodes, ms, b) && exists|j: int|
        0 <= j < edges.len() && #[trigger] edges[j].edge_type == EDGE_TYPE_DATA@ && edges[j].to == a && edges[j].from == b
}

/// `path` goes back from node to data node along data edges.
pub open spec fn is_feed_walk(edges: Seq<EdgeView>, nodes: Seq<NodeView>, ms: Seq<ModuleInfo>, path: Seq<Seq<char>>) -> bool {
    path.len() >= 1 && forall|k: int| 0 <= k < path.len() - 1 ==> fed_by(edges, nodes, ms, #[trigger] path[k], path[k + 1])
}

/// Node `x` feeds node `from` through data nodes (every node feeds itself).
pub open spec fn feeds_through(edges: Seq<EdgeView>, nodes: Seq<NodeView>, ms: Seq<ModuleInfo>, from: Seq<char>, x: Seq<char>) -> bool {
    exists|path: Seq<Seq<char>>| #[trigger] is_feed_walk(edges, nodes, ms, path) && path[0] == from && path.last() == x
}

/// Node `x` is a step whose output node `node_id` is shown: a data edge
/// leads from it into node `node_id` or into a data node feeding it; it runs
/// a process (its module is known and is no data module); and it has an output.
pub open spec fn previous_source(
    edges: Seq<EdgeView>,
    nodes: Seq<NodeView>,
    ms: Seq<ModuleInfo>,
    outputs: Seq<(Seq<char>, JsonView)>,
    node_id: Seq<char>,
    x: Seq<char>,
) -> bool {
    &&& exists|j: int|
        0 <= j < edges.len() && #[trigger] edges[j].edge_type == EDGE_TYPE_DATA@ && edges[j].from == x && feeds_through(
            edges,
            nodes,
            ms,
            node_id,
            edges[j].to,
        )
    &&& first_node_index(nodes, x) >= 0
    &&& (lookup_module(ms, nodes[first_node_index(nodes, x)].module_id) matches Some(m) && !is_pure_data_kind(m.kind@))
    &&& entries_lookup(outputs, x) is Some
}

/// A walk that starts inside a set closed under feeding stays inside it.
proof fn lemma_feed_walk_closed(edges: Seq<EdgeView>, nodes: Seq<NodeView>, ms: Seq<ModuleInfo>, seen: Seq<Seq<char>>, path: Seq<Seq<char>>)
    requires
        is_feed_walk(edges, nodes, ms, path),
        seen.contains(path[0]),
        forall|x: Seq<char>, y: Seq<char>| seen.contains(x) && #[trigger] fed_by(edges, nodes, ms, x, y) ==> seen.contains(y),
    ensures
        seen.contains(path.last()),
    decreases path.len(),
{
    if path.len() > 1 {
        let init = path.drop_last();
        assert forall|k: int| 0 <= k < init.len() - 1 implies fed_by(edges, nodes, ms, #[trigger] init[k], init[k + 1]) by {
            assert(fed_by(edges, nodes, ms, path[k], path[k + 1]));
        }
        assert(is_feed_walk(edges, nodes, ms, init));
        lemma_feed_walk_closed(edges, nodes, ms, seen, init);
        assert(fed_by(edges, nodes, ms, path[path.len() - 2], path[path.len() - 1]));
    }
}

/// The ids of the nodes.
pub open spec fn node_ids(nodes: Seq<NodeView>) -> Seq<Seq<char>> {
    nodes.map_values(|n: NodeView| n.id)
}

/// The keys of output entries.
pub open spec fn output_keys(v: Seq<(String, JsonValue)>) -> Seq<Seq<char>> {
    v.map_values(|e: (String, JsonValue)| e.0@)
}

/// Whether some entry has key `key`.
fn has_output_key(v: &Vec<(String, JsonValue)>, key: &str) -> (r: bool)
    ensures
        r == output_keys(v@).contains(key@),
{
    let mut i: usize = 0;
    while i < v.len()
        invariant
            i <= v@.len(),
            forall|k: int| 0 <= k < i ==> #[trigger] output_keys(v@)[k] != key@,
        decreases v@.len() - i,
    {
        if str_eq(v[i].0.as_str(), key) {
            assert(output_keys(v@)[i as int] == key@);
            return true;
        }
        i += 1;
    }
    false
}

/// The outputs node `node_id` is shown from the steps that feed it data,
/// directly or through data nodes, each under the step's id, each once.
pub fn collect_previous_output_sources(
    flow: &FlowDefinition,
    modules: &Vec<ModuleInfo>,
    outputs: &Vec<(String, JsonValue)>,
    node_id: &str,
) -> (r: Vec<(String, JsonValue)>)
    ensures
        output_keys(r@).no_duplicates(),
        forall|k: int|
            0 <= k < r@.len() ==> previous_source(
                flow@.edges,
                flow@.nodes,
                modules@,
                entries_view(outputs@),
                node_id@,
                #[trigger] r@[k].0@,
            ) && entries_lookup(entries_view(outputs@), r@[k].0@) == Some(r@[k].1@),
        forall|x: Seq<char>|
            previous_source(flow@.edges, flow@.nodes, modules@, entries_view(outputs@), node_id@, x) ==> #[trigger] output_keys(
                r@,
            ).contains(x),
{
    let ghost edges = flow@.edges;
    let ghost nodes = flow@.nodes;
    let ghost ms = modules@;
    let ghost ov = entries_view(outputs@);
    let mut targets: Vec<String> = Vec::new();
    targets.push(node_id.to_owned());
    let mut result: Vec<(String, JsonValue)> = Vec::new();
    let mut idx: usize = 0;
    proof {
        let p = seq![node_id@];
        assert(is_feed_walk(edges, nodes, ms, p) && p[0] == node_id@ && p.last() == node_id@);
        assert(strings_view(targets@) =~= seq![node_id@]);
        assert(output_keys(result@) =~= Seq::<Seq<char>>::empty());
    }
    while idx < targets.len()
        invariant
            edges == flow@.edges,
            nodes == flow@.nodes,
            ms == modules@,
            ov == entries_view(outputs@),
            idx <= targets@.len(),
            targets@.len() >= 1,
            strings_view(targets@)[0] == node_id@,
            strings_view(targets@).no_duplicates(),
            targets@.len() <= nodes.len() + 1,
            forall|k: int| 1 <= k < targets@.len() ==> node_ids(nodes).contains(#[trigger] strings_view(targets@)[k]),
            forall|k: int| 0 <= k < targets@.len() ==> feeds_through(edges, nodes, ms, node_id@, #[trigger] strings_view(targets@)[k]),
            forall|k: int, y: Seq<char>|
                0 <= k < idx && #[trigger] fed_by(edges, nodes, ms, strings_view(targets@)[k], y) ==> strings_view(targets@).contains(y),
            output_keys(result@).no_duplicates(),
            forall|k: int|
                0 <= k < result@.len() ==> previous_source(edges, nodes, ms, ov, node_id@, #[trigger] result@[k].0@)
                    && entries_lookup(ov, result@[k].0@) == Some(result@[k].1@),
            forall|k: int, j: int|
                0 <= k < idx && 0 <= j < edges.len() && #[trigger] edges[j].edge_type == EDGE_TYPE_DATA@ && edges[j].to
                    == #[trigger] strings_view(targets@)[k] && previous_source_at(edges, nodes, ms, ov, edges[j].from)
                    ==> output_keys(result@).contains(edges[j].from),
        decreases nodes.len() + 1 - idx,
    {
        let current = targets[idx].clone();
        let ghost before = strings_view(targets@);
        let ghost res_before = output_keys(result@);
        assert(current@ == before[idx as int]);
        let mut e: usize = 0;
        while e < flow.edges.len()
            invariant
                edges == flow@.edges,
                nodes == flow@.nodes,
                ms == modules@,
                ov == entries_view(outputs@),
                idx < targets@.len(),
                e <= edges.len(),
                current@ == strings_view(targets@)[idx as int],
                strings_view(targets@).take(before.len() as int) == before,
                before.len() <= targets@.len(),
                targets@.len() >= 1,
                strings_view(targets@)[0] == node_id@,
                strings_view(targets@).no_duplicates(),
                forall|k: int| 1 <= k < targets@.len() ==> node_ids(nodes).contains(#[trigger] strings_view(targets@)[k]),
                forall|k: int| 0 <= k < targets@.len() ==> feeds_through(edges, nodes, ms, node_id@, #[trigger] strings_view(targets@)[k]),
                forall|j: int|
                    0 <= j < e && #[trigger] edges[j].edge_type == EDGE_TYPE_DATA@ && edges[j].to == current@
                        && pure_data_source(nodes, ms, edges[j].from) ==> strings_view(targets@).contains(edges[j].from),
                output_keys(result@).no_duplicates(),
                output_keys(result@).take(res_before.len() as int) == res_before,
                res_before.len() <= result@.len(),
                forall|k: int|
                    0 <= k < result@.len() ==> previous_source(edges, nodes, ms, ov, node_id@, #[trigger] result@[k].0@)
                        && entries_lookup(ov, result@[k].0@) == Some(result@[k].1@),
                forall|j: int|
                    0 <= j < e && #[trigger] edges[j].edge_type == EDGE_TYPE_DATA@ && edges[j].to == current@
                        && previous_source_at(edges, nodes, ms, ov, edges[j].from) ==> output_keys(result@).contains(edges[j].from),
            decreases edges.len() - e,
        {
            let edge = &flow.edges[e];
            assert(edges[e as int].edge_type == edge.edge_type@ && edges[e as int].to == edge.to@ && edges[e as int].from == edge.from@);
            if str_eq(edge.edge_type.as_str(), EDGE_TYPE_DATA) && str_eq(edge.to.as_str(), current.as_str()) {
                proof {
                    lemma_first_node_index(nodes, edge.from@);
                }
                if let Some(i) = first_node_with_id(flow, edge.from.as_str()) {
                    assert(nodes[i as int].module_id == flow.nodes@[i as int].module_id@);
                    if let Some(mi) = find_module(modules, flow.nodes[i].module_id.as_str()) {
                        let src = edge.from.clone();
                        if is_pure_data_module_kind(modules[mi].kind.as_str()) {
                            if !strings_contain(&targets, src.as_str()) {
                                let ghost old_t = strings_view(targets@);
                                proof {
                                    assert(fed_by(edges, nodes, ms, current@, src@));
                                    let p = choose|p: Seq<Seq<char>>|
                                        #[trigger] is_feed_walk(edges, nodes, ms, p) && p[0] == node_id@ && p.last() == current@;
                                    let q = p.push(src@);
                                    assert forall|k: int| 0 <= k < q.len() - 1 implies fed_by(edges, nodes, ms, #[trigger] q[k], q[k + 1]) by {
                                        if k < p.len() - 1 {
                                            assert(q[k] == p[k] && q[k + 1] == p[k + 1]);
                                        } else {
                                            assert(q[k] == current@);
                                        }
                                    }
                                    assert(is_feed_walk(edges, nodes, ms, q) && q[0] == node_id@ && q.last() == src@);
                                    assert(node_ids(nodes)[i as int] == src@);
                                }
                                targets.push(src);
                                proof {
                                    let tv = strings_view(targets@);
                                    assert(tv =~= old_t.push(edge.from@));
                                    assert forall|y: Seq<char>| old_t.contains(y) implies tv.contains(y) by {
                                        let w = choose|w: int| 0 <= w < old_t.len() && old_t[w] == y;
                                        assert(tv[w] == y);
                                    }
                                    assert(tv.contains(edge.from@)) by {
                                        assert(tv[old_t.len() as int] == edge.from@);
                                    }
                                    lemma_distinct_within(tv.drop_first(), node_ids(nodes));
                                }
                            }
                        } else {
                            let k = find_key(outputs, src.as_str());
                            proof {
                                lemma_key_index(ov, src@);
                            }
                            if k < outputs.len() && !has_output_key(&result, src.as_str()) {
                                assert(ov[k as int].1 == outputs@[k as int].1@);
                                let value = outputs[k].1.deep_clone();
                                let ghost old_r = output_keys(result@);
                                proof {
                                    assert(previous_source(edges, nodes, ms, ov, node_id@, src@)) by {
                                        assert(feeds_through(edges, nodes, ms, node_id@, edges[e as int].to));
                                    }
                                }
                                result.push((src, value));
                                proof {
                                    let rk = output_keys(result@);
                                    assert(rk =~= old_r.push(edge.from@));
                                    assert(rk.contains(edge.from@)) by {
                                        assert(rk[old_r.len() as int] == edge.from@);
                                    }
                                    assert forall|y: Seq<char>| old_r.contains(y) implies rk.contains(y) by {
                                        let w = choose|w: int| 0 <= w < old_r.len() && old_r[w] == y;
                                        assert(rk[w] == y);
                                    }
                                }
                            }
                        }
                    }
                }
            }
            e += 1;
        }
        proof {
            let tv = strings_view(targets@);
            let rk = output_keys(result@);
            let tail = tv.drop_first();
            assert forall|a: int, b: int| 0 <= a < b < tail.len() implies tail[a] != tail[b] by {
                assert(tail[a] == tv[a + 1] && tail[b] == tv[b + 1]);
            }
            assert forall|a: int| 0 <= a < tail.len() implies node_ids(nodes).contains(#[trigger] tail[a]) by {
                assert(tail[a] == tv[a + 1]);
            }
            lemma_distinct_within(tail, node_ids(nodes));
            assert forall|k: int, y: Seq<char>|
                0 <= k < idx + 1 && #[trigger] fed_by(edges, nodes, ms, tv[k], y) implies tv.contains(y) by {
                if k < idx {
                    assert(before[k] == tv[k]);
                    assert(before.contains(y));
                    let w = choose|w: int| 0 <= w < before.len() && before[w] == y;
                    assert(tv[w] == y);
                } else {
                    let w = choose|w: int|
                        0 <= w < edges.len() && #[trigger] edges[w].edge_type == EDGE_TYPE_DATA@ && edges[w].to == tv[k]
                            && edges[w].from == y;
                }
            }
            assert forall|k: int, j: int|
                0 <= k < idx + 1 && 0 <= j < edges.len() && #[trigger] edges[j].edge_type == EDGE_TYPE_DATA@ && edges[j].to
                    == #[trigger] tv[k] && previous_source_at(edges, nodes, ms, ov, edges[j].from) implies rk.contains(
                edges[j].from,
            ) by {
                if k < idx {
                    assert(before[k] == tv[k]);
                    assert(res_before.contains(edges[j].from));
                    let w = choose|w: int| 0 <= w < res_before.len() && res_before[w] == edges[j].from;
                    assert(rk[w] == edges[j].from);
                }
            }
        }
        idx += 1;
    }
    proof {
        let tv = strings_view(targets@);
        let rk = output_keys(result@);
        assert forall|x: Seq<char>| previous_source(edges, nodes, ms, ov, node_id@, x) implies #[trigger] rk.contains(x) by {
            let j = choose|j: int|
                0 <= j < edges.len() && #[trigger] edges[j].edge_type == EDGE_TYPE_DATA@ && edges[j].from == x && feeds_through(
                    edges,
                    nodes,
                    ms,
                    node_id@,
                    edges[j].to,
                );
            let p = choose|p: Seq<Seq<char>>|
                #[trigger] is_feed_walk(edges, nodes, ms, p) && p[0] == node_id@ && p.last() == edges[j].to;
            assert(tv[0] == node_id@);
            lemma_feed_walk_closed(edges, nodes, ms, tv, p);
            let w = choose|w: int| 0 <= w < tv.len() && tv[w] == edges[j].to;
            assert(previous_source_at(edges, nodes, ms, ov, x));
        }
    }
    result
}

/// Node `x` runs a process (its module is known and is no data module) and has an output.
pub open spec fn previous_source_at(
    edges: Seq<EdgeView>,
    nodes: Seq<NodeView>,
    ms: Seq<ModuleInfo>,
    outputs: Seq<(Seq<char>, JsonView)>,
    x: Seq<char>,
) -> bool {
    &&& first_node_index(nodes, x) >= 0
    &&& (lookup_module(ms, nodes[first_node_index(nodes, x)].module_id) matches Some(m) && !is_pure_data_kind(m.kind@))
    &&& entries_lookup(outputs, x) is Some
}

} // verus!
