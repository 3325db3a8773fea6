//! Execution order of a flow: which steps wait for which, in what order the
//! steps start, and in which parallel group each one runs.
//!
//! Steps that are ready to run are taken one at a time, the one placed first
//! on the canvas (by x, then y, then id) first.
use crate::catalog::{is_pure_data_module_id, is_pure_data_module_id_spec};
use crate::catalog::ModuleInfo;
use crate::flow::{EdgeView, FlowDefinition, FlowNode, NodeView, EDGE_TYPE_SEQUENCE};
use crate::graph::{executable_data_consumers, has_sequence_edge, is_data_consumer, seq_step, strings_contain, strings_view};
use crate::catalog::clone_strings;
use crate::strs::{chars_of, str_eq};
use vstd::prelude::*;

verus! {

/// Strings ordered character by character (by code point), a proper prefix first.
pub open spec fn lex_lt(a: Seq<char>, b: Seq<char>) -> bool
    decreases a.len(),
{
    if a.len() == 0 {
        b.len() > 0
    } else if b.len() == 0 {
        false
    } else if a[0] != b[0] {
        a[0] < b[0]
    } else {
        lex_lt(a.drop_first(), b.drop_first())
    }
}

/// No string is before itself.
pub proof fn lemma_lex_irreflexive(a: Seq<char>)
    ensures
        !lex_lt(a, a),
    decreases a.len(),
{
    if a.len() > 0 {
        lemma_lex_irreflexive(a.drop_first());
    }
}

/// Two different strings are ordered one way or the other.
pub proof fn lemma_lex_total(a: Seq<char>, b: Seq<char>)
    requires
        a != b,
    ensures
        lex_lt(a, b) || lex_lt(b, a),
    decreases a.len(),
{
    if a.len() == 0 && b.len() == 0 {
        assert(a =~= b);
    }
    if a.len() > 0 && b.len() > 0 && a[0] == b[0] {
        if a.drop_first() == b.drop_first() {
            assert(a =~= seq![a[0]] + a.drop_first());
            assert(b =~= seq![b[0]] + b.drop_first());
        }
        lemma_lex_total(a.drop_first(), b.drop_first());
    }
}

/// The order of strings is transitive.
pub proof fn lemma_lex_trans(a: Seq<char>, b: Seq<char>, c: Seq<char>)
    requires
        lex_lt(a, b),
        lex_lt(b, c),
    ensures
        lex_lt(a, c),
    decreases a.len(),
{
    if a.len() > 0 && a[0] == b[0] && b[0] == c[0] {
        lemma_lex_trans(a.drop_first(), b.drop_first(), c.drop_first());
    }
}

/// Whether `a` comes before `b`, character by character.
pub fn str_lt(a: &str, b: &str) -> (r: bool)
    ensures
        r == lex_lt(a@, b@),
{
    let x = chars_of(a);
    let y = chars_of(b);
    let mut i: usize = 0;
    assert(a@.skip(0) =~= a@);
    assert(b@.skip(0) =~= b@);
    while i < x.len() && i < y.len()
        invariant
            x@ == a@,
            y@ == b@,
            i <= x.len(),
            i <= y.len(),
            lex_lt(a@, b@) == lex_lt(a@.skip(i as int), b@.skip(i as int)),
        decreases x.len() - i,
    {
        let c = x[i];
        let d = y[i];
        if c != d {
            return c < d;
        }
        assert(a@.skip(i as int).drop_first() =~= a@.skip(i + 1));
        assert(b@.skip(i as int).drop_first() =~= b@.skip(i + 1));
        i += 1;
    }
    i < y.len()
}

/// A key on `f64` bit patterns that orders them as `f64::total_cmp` orders the
/// floats: negative values (sign bit set) reversed and below the positive ones.
pub open spec fn float_order_key(bits: u64) -> u64 {
    if bits >= 0x8000_0000_0000_0000 {
        (0xffff_ffff_ffff_ffffu64 - bits) as u64
    } else {
        (bits + 0x8000_0000_0000_0000u64) as u64
    }
}

/// The total-order key of an `f64` bit pattern.
pub fn float_key(bits: u64) -> (r: u64)
    ensures
        r == float_order_key(bits),
{
    if bits >= 0x8000_0000_0000_0000 {
        0xffff_ffff_ffff_ffffu64 - bits
    } else {
        bits + 0x8000_0000_0000_0000u64
    }
}

/// Whether an `f64` bit pattern has its sign bit set.
pub open spec fn float_negative(bits: u64) -> bool {
    bits >= 0x8000_0000_0000_0000
}

/// The magnitude of an `f64` bit pattern: the bits without the sign bit.
pub open spec fn float_magnitude(bits: u64) -> int {
    if float_negative(bits) {
        bits - 0x8000_0000_0000_0000
    } else {
        bits as int
    }
}

/// How `f64::total_cmp` orders two floats, read from their bit patterns: a
/// float with the sign bit set comes before one without; among floats without
/// it the larger magnitude is the larger float; among floats with it the
/// larger magnitude is the smaller float (so -5.0 before -1.0 before -0.0
/// before 0.0 before 1.0).
pub open spec fn total_cmp_less(p: u64, q: u64) -> bool {
    if float_negative(p) != float_negative(q) {
        float_negative(p)
    } else if float_negative(p) {
        float_magnitude(q) < float_magnitude(p)
    } else {
        float_magnitude(p) < float_magnitude(q)
    }
}

/// The key orders floats exactly as `f64::total_cmp` does: one key is below
/// another exactly when its float comes first, and two keys are equal exactly
/// when the bit patterns are.
pub proof fn lemma_float_key_orders_as_total_cmp(p: u64, q: u64)
    ensures
        (float_order_key(p) < float_order_key(q)) == total_cmp_less(p, q),
        (float_order_key(p) == float_order_key(q)) == (p == q),
{
}

/// Steps are taken by their place on the canvas: a step further left first;
/// at the same x, the step higher up (the smaller y by `f64::total_cmp`)
/// first; only at the same place does the tie-break decide.
pub proof fn lemma_key_before_follows_position(nv: Seq<NodeView>, a: int, b: int, by_id: bool)
    ensures
        key_before(nv, a, b, by_id) == (total_cmp_less(nv[a].position.x_bits, nv[b].position.x_bits) || (
        nv[a].position.x_bits == nv[b].position.x_bits && total_cmp_less(
            nv[a].position.y_bits,
            nv[b].position.y_bits,
        )) || (nv[a].position.x_bits == nv[b].position.x_bits && nv[a].position.y_bits
            == nv[b].position.y_bits && (if by_id {
            lex_lt(nv[a].id, nv[b].id)
        } else {
            a < b
        }))),
{
    lemma_float_key_orders_as_total_cmp(nv[a].position.x_bits, nv[b].position.x_bits);
    lemma_float_key_orders_as_total_cmp(nv[a].position.y_bits, nv[b].position.y_bits);
}

/// Whether node `a` is taken before node `b`: by x, then y, then by id when
/// `by_id`, else by the nodes' order in the flow.
pub open spec fn key_before(nv: Seq<NodeView>, a: int, b: int, by_id: bool) -> bool {
    let xa = float_order_key(nv[a].position.x_bits);
    let xb = float_order_key(nv[b].position.x_bits);
    let ya = float_order_key(nv[a].position.y_bits);
    let yb = float_order_key(nv[b].position.y_bits);
    ||| xa < xb
    ||| xa == xb && ya < yb
    ||| xa == xb && ya == yb && (if by_id {
        lex_lt(nv[a].id, nv[b].id)
    } else {
        a < b
    })
}

/// No two nodes share an id.
pub open spec fn ids_distinct(nv: Seq<NodeView>) -> bool {
    forall|i: int, j: int| 0 <= i < nv.len() && 0 <= j < nv.len() && i != j ==> #[trigger] nv[i].id != #[trigger] nv[j].id
}

/// `key_before` orders any two different nodes one way or the other.
pub proof fn lemma_key_total(nv: Seq<NodeView>, a: int, b: int, by_id: bool)
    requires
        ids_distinct(nv),
        0 <= a < nv.len(),
        0 <= b < nv.len(),
        a != b,
    ensures
        key_before(nv, a, b, by_id) || key_before(nv, b, a, by_id),
{
    if by_id {
        assert(nv[a].id != nv[b].id);
        lemma_lex_total(nv[a].id, nv[b].id);
    }
}

/// `key_before` is transitive.
pub proof fn lemma_key_trans(nv: Seq<NodeView>, a: int, b: int, c: int, by_id: bool)
    requires
        key_before(nv, a, b, by_id),
        key_before(nv, b, c, by_id),
    ensures
        key_before(nv, a, c, by_id),
{
    if by_id {
        let xa = float_order_key(nv[a].position.x_bits);
        let xb = float_order_key(nv[b].position.x_bits);
        let xc = float_order_key(nv[c].position.x_bits);
        let ya = float_order_key(nv[a].position.y_bits);
        let yb = float_order_key(nv[b].position.y_bits);
        let yc = float_order_key(nv[c].position.y_bits);
        if xa == xb && xb == xc && ya == yb && yb == yc {
            lemma_lex_trans(nv[a].id, nv[b].id, nv[c].id);
        }
    }
}

/// Whether node `a` is taken before node `b`.
pub fn node_before(flow: &FlowDefinition, a: usize, b: usize, by_id: bool) -> (r: bool)
    requires
        a < flow@.nodes.len(),
        b < flow@.nodes.len(),
    ensures
        r == key_before(flow@.nodes, a as int, b as int, by_id),
{
    let na = &flow.nodes[a];
    let nb = &flow.nodes[b];
    assert(flow@.nodes[a as int] == na@);
    assert(flow@.nodes[b as int] == nb@);
    let xa = float_key(na.position.x_bits);
    let xb = float_key(nb.position.x_bits);
    let ya = float_key(na.position.y_bits);
    let yb = float_key(nb.position.y_bits);
    if xa != xb {
        return xa < xb;
    }
    if ya != yb {
        return ya < yb;
    }
    if by_id {
        str_lt(na.id.as_str(), nb.id.as_str())
    } else {
        a < b
    }
}

/// Node `i` runs a process: it is not a built-in data, annotation or canvas node.
pub open spec fn exec_node(nv: Seq<NodeView>, i: int) -> bool {
    0 <= i < nv.len() && !is_pure_data_module_id_spec(nv[i].module_id)
}

/// A dependency matrix as a sequence of rows: `dm[b][a]` says that node `b` waits for node `a`.
pub open spec fn matrix_view(m: Seq<Vec<bool>>) -> Seq<Seq<bool>> {
    m.map_values(|row: Vec<bool>| row@)
}

/// A square matrix over the nodes of the flow.
pub open spec fn square(dm: Seq<Seq<bool>>, n: int) -> bool {
    dm.len() == n && forall|i: int| 0 <= i < n ==> #[trigger] dm[i].len() == n
}

/// Node `j` can start once the nodes of `prefix` have started.
pub open spec fn ready_at(nv: Seq<NodeView>, dm: Seq<Seq<bool>>, prefix: Seq<int>, j: int) -> bool {
    &&& exec_node(nv, j)
    &&& !prefix.contains(j)
    &&& forall|a: int| 0 <= a < nv.len() && #[trigger] dm[j][a] ==> prefix.contains(a)
}

/// Whether, at step `k`, the waiting steps are ordered by id: once a step that has
/// followers has been taken (`resorts`), the queue is sorted by position and id.
pub open spec fn by_id_at(resorts: Seq<bool>, order: Seq<int>, k: int) -> bool {
    exists|m: int| 0 <= m < k && #[trigger] resorts[order[m]]
}

/// Step `k` of `order` takes a ready node, the first of the ready ones.
pub open spec fn greedy_step(nv: Seq<NodeView>, dm: Seq<Seq<bool>>, resorts: Seq<bool>, order: Seq<int>, k: int) -> bool {
    &&& ready_at(nv, dm, order.take(k), order[k])
    &&& forall|j: int|
        #[trigger] ready_at(nv, dm, order.take(k), j) && j != order[k] ==> key_before(
            nv,
            order[k],
            j,
            by_id_at(resorts, order, k),
        )
}

/// Every step of `order` takes the first ready node.
pub open spec fn greedy_order(nv: Seq<NodeView>, dm: Seq<Seq<bool>>, resorts: Seq<bool>, order: Seq<int>) -> bool {
    forall|k: int| 0 <= k < order.len() ==> #[trigger] greedy_step(nv, dm, resorts, order, k)
}

/// Parallel groups: a node runs in a later group than every node it waits for,
/// exactly one later than the latest of them, and in group 0 when it waits for none.
pub open spec fn layered(dm: Seq<Seq<bool>>, order: Seq<int>, groups: Seq<usize>) -> bool {
    &&& groups.len() == order.len()
    &&& forall|k: int, m: int|
        0 <= m < k < order.len() && #[trigger] dm[order[k]][order[m]] ==> groups[m] < #[trigger] groups[k]
    &&& forall|k: int|
        0 <= k < order.len() && #[trigger] groups[k] != 0 ==> exists|m: int|
            0 <= m < k && #[trigger] dm[order[k]][order[m]] && groups[k] == groups[m] + 1
}

/// Node `j` can start once the nodes marked `done` have started.
pub open spec fn ready_with(nv: Seq<NodeView>, dm: Seq<Seq<bool>>, done: Seq<bool>, j: int) -> bool {
    &&& exec_node(nv, j)
    &&& !done[j]
    &&& forall|a: int| 0 <= a < nv.len() && #[trigger] dm[j][a] ==> done[a]
}

/// Whether node `j` can start once the nodes marked `done` have started.
fn is_ready(flow: &FlowDefinition, deps: &Vec<Vec<bool>>, done: &Vec<bool>, j: usize) -> (r: bool)
    requires
        square(matrix_view(deps@), flow@.nodes.len() as int),
        done@.len() == flow@.nodes.len(),
        j < flow@.nodes.len(),
    ensures
        r == ready_with(flow@.nodes, matrix_view(deps@), done@, j as int),
{
    let ghost dm = matrix_view(deps@);
    if is_pure_data_module_id(flow.nodes[j].module_id.as_str()) || done[j] {
        assert(flow@.nodes[j as int].module_id == flow.nodes@[j as int].module_id@);
        return false;
    }
    assert(flow@.nodes[j as int].module_id == flow.nodes@[j as int].module_id@);
    let row = &deps[j];
    assert(row@ == dm[j as int]);
    let mut a: usize = 0;
    while a < done.len()
        invariant
            dm == matrix_view(deps@),
            square(dm, flow@.nodes.len() as int),
            done@.len() == flow@.nodes.len(),
            j < flow@.nodes.len(),
            row@ == dm[j as int],
            a <= done@.len(),
            forall|b: int| 0 <= b < a && #[trigger] dm[j as int][b] ==> done@[b],
        decreases done.len() - a,
    {
        if row[a] && !done[a] {
            return false;
        }
        a += 1;
    }
    true
}

/// The first node that can start once the nodes marked `done` have started.
fn pick_ready(flow: &FlowDefinition, deps: &Vec<Vec<bool>>, done: &Vec<bool>, by_id: bool) -> (r: Option<usize>)
    requires
        ids_distinct(flow@.nodes),
        square(matrix_view(deps@), flow@.nodes.len() as int),
        done@.len() == flow@.nodes.len(),
    ensures
        r is None ==> forall|j: int| !#[trigger] ready_with(flow@.nodes, matrix_view(deps@), done@, j),
        r matches Some(b) ==> {
            &&& ready_with(flow@.nodes, matrix_view(deps@), done@, b as int)
            &&& forall|j: int|
                #[trigger] ready_with(flow@.nodes, matrix_view(deps@), done@, j) && j != b ==> key_before(
                    flow@.nodes,
                    b as int,
                    j,
                    by_id,
                )
        },
{
    let ghost nv = flow@.nodes;
    let ghost dm = matrix_view(deps@);
    let mut best: Option<usize> = None;
    let mut j: usize = 0;
    while j < flow.nodes.len()
        invariant
            nv == flow@.nodes,
            dm == matrix_view(deps@),
            ids_distinct(nv),
            square(dm, nv.len() as int),
            done@.len() == nv.len(),
            j <= nv.len(),
            best is None ==> forall|i: int| 0 <= i < j ==> !#[trigger] ready_with(nv, dm, done@, i),
            best matches Some(b) ==> {
                &&& b < j
                &&& ready_with(nv, dm, done@, b as int)
                &&& forall|i: int|
                    0 <= i < j && #[trigger] ready_with(nv, dm, done@, i) && i != b ==> key_before(nv, b as int, i, by_id)
            },
        decreases nv.len() - j,
    {
        if is_ready(flow, deps, done, j) {
            match best {
                None => {
                    best = Some(j);
                },
                Some(b) => {
                    if node_before(flow, j, b, by_id) {
                        proof {
                            assert forall|i: int|
                                0 <= i < j + 1 && #[trigger] ready_with(nv, dm, done@, i) && i != j implies key_before(nv, j as int, i, by_id) by {
                                if i != b {
                                    lemma_key_trans(nv, j as int, b as int, i, by_id);
                                }
                            }
                        }
                        best = Some(j);
                    } else {
                        proof {
                            lemma_key_total(nv, j as int, b as int, by_id);
                        }
                    }
                },
            }
        }
        j += 1;
    }
    best
}

/// Node indexes as integers.
pub open spec fn as_ints(s: Seq<usize>) -> Seq<int> {
    s.map_values(|x: usize| x as int)
}

/// Distinct node indexes, none of them `b`, number fewer than the nodes.
proof fn lemma_room_left(ord: Seq<int>, n: int, b: int)
    requires
        ord.no_duplicates(),
        forall|k: int| 0 <= k < ord.len() ==> 0 <= #[trigger] ord[k] < n,
        0 <= b < n,
        !ord.contains(b),
    ensures
        ord.len() < n,
{
    let range = vstd::set_lib::set_int_range(0, n);
    vstd::set_lib::lemma_int_range(0, n);
    ord.unique_seq_to_set();
    assert(ord.to_set().subset_of(range.remove(b))) by {
        assert forall|x: int| ord.to_set().contains(x) implies range.remove(b).contains(x) by {
            let k = choose|k: int| 0 <= k < ord.len() && ord[k] == x;
        }
    }
    vstd::set_lib::lemma_len_subset(ord.to_set(), range.remove(b));
}

/// With `done` marking exactly the nodes of `ord`, the two readiness tests agree.
proof fn lemma_ready_same(nv: Seq<NodeView>, dm: Seq<Seq<bool>>, done: Seq<bool>, ord: Seq<int>, j: int)
    requires
        done.len() == nv.len(),
        forall|a: int| 0 <= a < nv.len() ==> (#[trigger] done[a] <==> ord.contains(a)),
    ensures
        ready_with(nv, dm, done, j) <==> ready_at(nv, dm, ord, j),
{
    if exec_node(nv, j) {
        assert(done[j] <==> ord.contains(j));
    }
}

/// Taking one more node keeps the earlier steps as they were.
proof fn lemma_greedy_push(nv: Seq<NodeView>, dm: Seq<Seq<bool>>, resorts: Seq<bool>, ord: Seq<int>, b: int)
    requires
        greedy_order(nv, dm, resorts, ord),
        ready_at(nv, dm, ord, b),
        forall|j: int| #[trigger] ready_at(nv, dm, ord, j) && j != b ==> key_before(
            nv,
            b,
            j,
            by_id_at(resorts, ord, ord.len() as int),
        ),
    ensures
        greedy_order(nv, dm, resorts, ord.push(b)),
{
    let o2 = ord.push(b);
    assert forall|k: int| 0 <= k < o2.len() implies #[trigger] greedy_step(nv, dm, resorts, o2, k) by {
        assert(o2.take(k) =~= ord.take(k));
        if k < ord.len() {
            assert(greedy_step(nv, dm, resorts, ord, k));
            assert(o2[k] == ord[k]);
        } else {
            assert(ord.take(k) =~= ord);
        }
        assert(by_id_at(resorts, o2, k) == by_id_at(resorts, ord, k)) by {
            if by_id_at(resorts, ord, k) {
                let m = choose|m: int| 0 <= m < k && #[trigger] resorts[ord[m]];
                assert(o2[m] == ord[m]);
            }
            if by_id_at(resorts, o2, k) {
                let m = choose|m: int| 0 <= m < k && #[trigger] resorts[o2[m]];
                assert(o2[m] == ord[m]);
            }
        }
    }
}

/// Takes ready nodes one at a time, the first of them each time, until none is
/// ready; returns the order, each node's group, and whether every process node
/// was taken.
fn schedule(flow: &FlowDefinition, deps: &Vec<Vec<bool>>, resorts: &Vec<bool>) -> (r: (Vec<usize>, Vec<usize>, bool))
    requires
        ids_distinct(flow@.nodes),
        square(matrix_view(deps@), flow@.nodes.len() as int),
        resorts@.len() == flow@.nodes.len(),
    ensures
        greedy_order(flow@.nodes, matrix_view(deps@), resorts@, as_ints(r.0@)),
        as_ints(r.0@).no_duplicates(),
        layered(matrix_view(deps@), as_ints(r.0@), r.1@),
        r.2 <==> forall|j: int| exec_node(flow@.nodes, j) ==> #[trigger] as_ints(r.0@).contains(j),
        !r.2 ==> forall|j: int| !#[trigger] ready_at(flow@.nodes, matrix_view(deps@), as_ints(r.0@), j),
{
    let ghost nv = flow@.nodes;
    let ghost dm = matrix_view(deps@);
    let n = flow.nodes.len();
    let mut done: Vec<bool> = Vec::new();
    let mut group_of: Vec<usize> = Vec::new();
    let mut i: usize = 0;
    while i < n
        invariant
            i <= n,
            done@.len() == i,
            group_of@.len() == i,
            forall|a: int| 0 <= a < i ==> !#[trigger] done@[a],
        decreases n - i,
    {
        done.push(false);
        group_of.push(0);
        i += 1;
    }
    let mut order: Vec<usize> = Vec::new();
    let mut groups: Vec<usize> = Vec::new();
    let mut by_id = false;
    assert(as_ints(order@) =~= Seq::<int>::empty());
    loop
        invariant
            nv == flow@.nodes,
            dm == matrix_view(deps@),
            n == nv.len(),
            ids_distinct(nv),
            square(dm, n as int),
            resorts@.len() == n,
            done@.len() == n,
            group_of@.len() == n,
            forall|a: int| 0 <= a < n ==> (#[trigger] done@[a] <==> as_ints(order@).contains(a)),
            forall|k: int| 0 <= k < order@.len() ==> #[trigger] order@[k] < n,
            greedy_order(nv, dm, resorts@, as_ints(order@)),
            as_ints(order@).no_duplicates(),
            layered(dm, as_ints(order@), groups@),
            forall|m: int| 0 <= m < order@.len() ==> #[trigger] group_of@[order@[m] as int] == groups@[m],
            forall|m: int| 0 <= m < order@.len() ==> #[trigger] groups@[m] <= m,
            by_id == by_id_at(resorts@, as_ints(order@), order@.len() as int),
        ensures
            forall|j: int| !#[trigger] ready_with(nv, dm, done@, j),
        decreases n - order@.len(),
    {
        let ghost ord = as_ints(order@);
        let pick = pick_ready(flow, deps, &done, by_id);
        match pick {
            None => {
                break;
            },
            Some(b) => {
                proof {
                    lemma_ready_same(nv, dm, done@, ord, b as int);
                    assert forall|j: int| #[trigger] ready_at(nv, dm, ord, j) && j != b implies key_before(
                        nv,
                        b as int,
                        j,
                        by_id_at(resorts@, ord, ord.len() as int),
                    ) by {
                        lemma_ready_same(nv, dm, done@, ord, j);
                    }
                    lemma_greedy_push(nv, dm, resorts@, ord, b as int);
                    lemma_room_left(ord, n as int, b as int);
                }
                let row = &deps[b];
                assert(row@ == dm[b as int]);
                let mut g: usize = 0;
                let mut a: usize = 0;
                while a < n
                    invariant
                        nv == flow@.nodes,
                        dm == matrix_view(deps@),
                        n == nv.len(),
                        square(dm, n as int),
                        row@ == dm[b as int],
                        b < n,
                        ready_at(nv, dm, ord, b as int),
                        ord == as_ints(order@),
                        ord.len() < n,
                        done@.len() == n,
                        group_of@.len() == n,
                        forall|x: int| 0 <= x < n ==> (#[trigger] done@[x] <==> ord.contains(x)),
                        forall|m: int| 0 <= m < order@.len() ==> #[trigger] group_of@[order@[m] as int] == groups@[m],
                        forall|m: int| 0 <= m < order@.len() ==> #[trigger] groups@[m] <= m,
                        a <= n,
                        g <= ord.len(),
                        forall|x: int| 0 <= x < a && #[trigger] dm[b as int][x] ==> group_of@[x] < g,
                        g != 0 ==> exists|x: int| 0 <= x < a && #[trigger] dm[b as int][x] && g == group_of@[x] + 1,
                    decreases n - a,
                {
                    if row[a] {
                        assert(dm[b as int][a as int]);
                        assert(ord.contains(a as int));
                        let ghost m = choose|m: int| 0 <= m < ord.len() && ord[m] == a as int;
                        assert(order@[m] as int == a as int);
                        assert(group_of@[a as int] == groups@[m]);
                        let cand = group_of[a] + 1;
                        if cand > g {
                            g = cand;
                        }
                    }
                    a += 1;
                }
                let ghost old_groups = groups@;
                let ghost old_group_of = group_of@;
                let ghost old_done = done@;
                order.push(b);
                groups.push(g);
                done.set(b, true);
                group_of.set(b, g);
                if resorts[b] {
                    by_id = true;
                }
                proof {
                    let o2 = as_ints(order@);
                    assert(o2 =~= ord.push(b as int));
                    assert forall|x: int| 0 <= x < n implies (#[trigger] done@[x] <==> o2.contains(x)) by {
                        if x != b {
                            assert(done@[x] == old_done[x]);
                            if ord.contains(x) {
                                let w = choose|w: int| 0 <= w < ord.len() && ord[w] == x;
                                assert(o2[w] == x);
                            }
                            if o2.contains(x) {
                                let w = choose|w: int| 0 <= w < o2.len() && o2[w] == x;
                                assert(w < ord.len());
                                assert(ord[w] == x);
                            }
                        } else {
                            assert(o2[ord.len() as int] == x);
                        }
                    }
                    assert forall|m: int| 0 <= m < order@.len() implies #[trigger] group_of@[order@[m] as int] == groups@[m] by {
                        if m < ord.len() {
                            assert(order@[m] as int == ord[m]);
                            assert(ord[m] != b) by {
                                assert(ord.contains(ord[m]));
                            }
                            assert(group_of@[order@[m] as int] == old_group_of[order@[m] as int]);
                        }
                    }
                    assert(o2.no_duplicates()) by {
                        assert forall|p: int, q: int| 0 <= p < q < o2.len() implies o2[p] != o2[q] by {
                            if q == ord.len() {
                                assert(ord.contains(ord[p]));
                            }
                        }
                    }
                    assert forall|k: int, m: int|
                        0 <= m < k < o2.len() && #[trigger] dm[o2[k]][o2[m]] implies groups@[m] < #[trigger] groups@[k] by {
                        if k == ord.len() {
                            assert(o2[m] == ord[m]);
                            assert(group_of@[order@[m] as int] == groups@[m]);
                            assert(old_group_of[ord[m]] == groups@[m]);
                        } else {
                            assert(o2[k] == ord[k] && o2[m] == ord[m]);
                            assert(groups@[k] == old_groups[k] && groups@[m] == old_groups[m]);
                        }
                    }
                    assert forall|k: int| 0 <= k < o2.len() && #[trigger] groups@[k] != 0 implies exists|m: int|
                        0 <= m < k && #[trigger] dm[o2[k]][o2[m]] && groups@[k] == groups@[m] + 1 by {
                        if k == ord.len() {
                            let x = choose|x: int| 0 <= x < n && #[trigger] dm[b as int][x] && g == old_group_of[x] + 1;
                            assert(ord.contains(x));
                            let m = choose|m: int| 0 <= m < ord.len() && ord[m] == x;
                            assert(o2[m] == x);
                            assert(old_group_of[order@[m] as int] == old_groups[m]);
                            assert(dm[o2[k]][o2[m]]);
                        } else {
                            assert(o2[k] == ord[k]);
                            assert(groups@[k] == old_groups[k]);
                            let m = choose|m: int| 0 <= m < k && #[trigger] dm[ord[k]][ord[m]] && old_groups[k] == old_groups[m] + 1;
                            assert(o2[m] == ord[m]);
                            assert(dm[o2[k]][o2[m]]);
                        }
                    }
                    assert(layered(dm, o2, groups@));
                    assert(by_id == by_id_at(resorts@, o2, o2.len() as int)) by {
                        if by_id_at(resorts@, ord, ord.len() as int) {
                            let m = choose|m: int| 0 <= m < ord.len() && #[trigger] resorts@[ord[m]];
                            assert(o2[m] == ord[m]);
                        }
                        if resorts@[b as int] {
                            assert(o2[ord.len() as int] == b);
                        }
                        if by_id_at(resorts@, o2, o2.len() as int) {
                            let m = choose|m: int| 0 <= m < o2.len() && #[trigger] resorts@[o2[m]];
                            if m < ord.len() {
                                assert(o2[m] == ord[m]);
                            }
                        }
                    }
                }
            },
        }
    }
    let ghost ord = as_ints(order@);
    proof {
        assert forall|j: int| !#[trigger] ready_at(nv, dm, ord, j) by {
            lemma_ready_same(nv, dm, done@, ord, j);
        }
    }
    let mut complete = true;
    let mut j: usize = 0;
    while j < n
        invariant
            nv == flow@.nodes,
            n == nv.len(),
            ord == as_ints(order@),
            done@.len() == n,
            forall|a: int| 0 <= a < n ==> (#[trigger] done@[a] <==> ord.contains(a)),
            j <= n,
            complete <==> forall|x: int| 0 <= x < j && exec_node(nv, x) ==> #[trigger] ord.contains(x),
        decreases n - j,
    {
        assert(nv[j as int].module_id == flow.nodes@[j as int].module_id@);
        if !is_pure_data_module_id(flow.nodes[j].module_id.as_str()) && !done[j] {
            complete = false;
        }
        j += 1;
    }
    (order, groups, complete)
}

/// The dependency matrix only relates nodes that run a process.
pub open spec fn among_processes(nv: Seq<NodeView>, dm: Seq<Seq<bool>>) -> bool {
    forall|b: int, a: int| 0 <= a < nv.len() && 0 <= b < nv.len() && #[trigger] dm[b][a] ==> exec_node(nv, a) && exec_node(nv, b)
}

/// Every node of `s` runs a process and waits for some node of `s`.
pub open spec fn closed_wait(nv: Seq<NodeView>, dm: Seq<Seq<bool>>, s: Set<int>) -> bool {
    forall|x: int| #[trigger] s.contains(x) ==> exec_node(nv, x) && exists|y: int| s.contains(y) && #[trigger] dm[x][y]
}

/// Some process nodes wait for one another in a circle: every node of a
/// nonempty set waits for another node of the set.
pub open spec fn waits_in_circle(nv: Seq<NodeView>, dm: Seq<Seq<bool>>) -> bool {
    exists|s: Set<int>| #[trigger] closed_wait(nv, dm, s) && exists|x: int| s.contains(x)
}

/// In a greedy order, no node of a circle is ever taken.
proof fn lemma_circle_never_ready(
    nv: Seq<NodeView>,
    dm: Seq<Seq<bool>>,
    resorts: Seq<bool>,
    ord: Seq<int>,
    s: Set<int>,
    k: int,
)
    requires
        square(dm, nv.len() as int),
        greedy_order(nv, dm, resorts, ord),
        closed_wait(nv, dm, s),
        0 <= k <= ord.len(),
    ensures
        forall|m: int| 0 <= m < k ==> !s.contains(#[trigger] ord[m]),
    decreases k,
{
    if k > 0 {
        lemma_circle_never_ready(nv, dm, resorts, ord, s, k - 1);
        let x = ord[k - 1];
        assert(greedy_step(nv, dm, resorts, ord, k - 1));
        if s.contains(x) {
            let y = choose|y: int| s.contains(y) && #[trigger] dm[x][y];
            assert(exec_node(nv, y));
            assert(ord.take(k - 1).contains(y));
            let m = choose|m: int| 0 <= m < k - 1 && #[trigger] ord.take(k - 1)[m] == y;
            assert(ord[m] == y);
        }
    }
}

/// A greedy order that takes every process node leaves no circle.
proof fn lemma_complete_no_circle(nv: Seq<NodeView>, dm: Seq<Seq<bool>>, resorts: Seq<bool>, ord: Seq<int>)
    requires
        square(dm, nv.len() as int),
        greedy_order(nv, dm, resorts, ord),
        forall|j: int| exec_node(nv, j) ==> #[trigger] ord.contains(j),
    ensures
        !waits_in_circle(nv, dm),
{
    if waits_in_circle(nv, dm) {
        let s = choose|s: Set<int>| #[trigger] closed_wait(nv, dm, s) && exists|x: int| s.contains(x);
        let x = choose|x: int| s.contains(x);
        assert(exec_node(nv, x));
        lemma_circle_never_ready(nv, dm, resorts, ord, s, ord.len() as int);
        assert(ord.contains(x));
        let m = choose|m: int| 0 <= m < ord.len() && ord[m] == x;
        assert(!s.contains(ord[m]));
    }
}

/// A greedy order that stops with a process node left and none ready shows a circle.
proof fn lemma_stuck_circle(nv: Seq<NodeView>, dm: Seq<Seq<bool>>, ord: Seq<int>, j0: int)
    requires
        square(dm, nv.len() as int),
        among_processes(nv, dm),
        exec_node(nv, j0),
        !ord.contains(j0),
        forall|j: int| !#[trigger] ready_at(nv, dm, ord, j),
    ensures
        waits_in_circle(nv, dm),
{
    let s = Set::new(|x: int| exec_node(nv, x) && !ord.contains(x));
    assert(s.contains(j0));
    assert forall|x: int| #[trigger] s.contains(x) implies exec_node(nv, x) && exists|y: int|
        s.contains(y) && #[trigger] dm[x][y] by {
        assert(!ready_at(nv, dm, ord, x));
        let y = choose|y: int| 0 <= y < nv.len() && #[trigger] dm[x][y] && !ord.contains(y);
        assert(exec_node(nv, y));
        assert(s.contains(y));
    }
    assert(closed_wait(nv, dm, s));
}

/// A greedy order that takes every process node leaves no circle; one that
/// stops with process nodes left, none of them ready, shows a circle.
proof fn lemma_circle_iff_stuck(nv: Seq<NodeView>, dm: Seq<Seq<bool>>, resorts: Seq<bool>, ord: Seq<int>, complete: bool)
    requires
        square(dm, nv.len() as int),
        among_processes(nv, dm),
        greedy_order(nv, dm, resorts, ord),
        complete <==> forall|j: int| exec_node(nv, j) ==> #[trigger] ord.contains(j),
        !complete ==> forall|j: int| !#[trigger] ready_at(nv, dm, ord, j),
    ensures
        complete <==> !waits_in_circle(nv, dm),
{
    if complete {
        lemma_complete_no_circle(nv, dm, resorts, ord);
    } else {
        let j0 = choose|j: int| !(exec_node(nv, j) ==> #[trigger] ord.contains(j));
        lemma_stuck_circle(nv, dm, ord, j0);
    }
}

/// The ordered steps of a plan, each with its group, by view.
pub open spec fn ordered_view(s: Seq<(FlowNode, usize)>) -> Seq<(NodeView, usize)> {
    s.map_values(|e: (FlowNode, usize)| (e.0@, e.1))
}

/// The groups of the ordered steps.
pub open spec fn groups_of(s: Seq<(NodeView, usize)>) -> Seq<usize> {
    s.map_values(|e: (NodeView, usize)| e.1)
}

/// `ordered` lists the nodes `order` picks, in that order, with their groups:
/// every process node once, each taken as the first ready one.
pub open spec fn is_schedule(
    nv: Seq<NodeView>,
    dm: Seq<Seq<bool>>,
    resorts: Seq<bool>,
    order: Seq<int>,
    ordered: Seq<(NodeView, usize)>,
) -> bool {
    &&& order.len() == ordered.len()
    &&& forall|k: int| 0 <= k < order.len() ==> 0 <= order[k] < nv.len() && #[trigger] ordered[k].0 == nv[order[k]]
    &&& greedy_order(nv, dm, resorts, order)
    &&& layered(dm, order, groups_of(ordered))
    &&& forall|j: int| exec_node(nv, j) ==> #[trigger] order.contains(j)
}

/// `ordered` is the schedule of the flow's process nodes under `dm` and `resorts`.
pub open spec fn schedules(nv: Seq<NodeView>, dm: Seq<Seq<bool>>, resorts: Seq<bool>, ordered: Seq<(NodeView, usize)>) -> bool {
    exists|order: Seq<int>| #[trigger] is_schedule(nv, dm, resorts, order, ordered)
}

/// The steps of `order`, each copied from the flow, with their groups.
fn ordered_steps(flow: &FlowDefinition, order: &Vec<usize>, groups: &Vec<usize>) -> (r: Vec<(FlowNode, usize)>)
    requires
        order@.len() == groups@.len(),
        forall|k: int| 0 <= k < order@.len() ==> #[trigger] order@[k] < flow@.nodes.len(),
    ensures
        r@.len() == order@.len(),
        forall|k: int| 0 <= k < order@.len() ==> #[trigger] ordered_view(r@)[k].0 == flow@.nodes[order@[k] as int],
        groups_of(ordered_view(r@)) == groups@,
{
    let mut r: Vec<(FlowNode, usize)> = Vec::new();
    let mut k: usize = 0;
    while k < order.len()
        invariant
            order@.len() == groups@.len(),
            forall|q: int| 0 <= q < order@.len() ==> #[trigger] order@[q] < flow@.nodes.len(),
            k <= order@.len(),
            r@.len() == k,
            forall|q: int| 0 <= q < k ==> #[trigger] ordered_view(r@)[q].0 == flow@.nodes[order@[q] as int],
            forall|q: int| 0 <= q < k ==> #[trigger] ordered_view(r@)[q].1 == groups@[q],
        decreases order@.len() - k,
    {
        let node = flow.nodes[order[k]].duplicate();
        assert(node@ == flow@.nodes[order@[k as int] as int]);
        let ghost prev = r@;
        r.push((node, groups[k]));
        assert(ordered_view(r@) =~= ordered_view(prev).push((flow@.nodes[order@[k as int] as int], groups@[k as int])));
        k += 1;
    }
    assert(groups_of(ordered_view(r@)) =~= groups@);
    r
}

/// Runs the greedy order and packs the steps, or reports the circle.
fn order_steps(flow: &FlowDefinition, deps: &Vec<Vec<bool>>, resorts: &Vec<bool>) -> (r: Result<Vec<(FlowNode, usize)>, String>)
    requires
        ids_distinct(flow@.nodes),
        square(matrix_view(deps@), flow@.nodes.len() as int),
        among_processes(flow@.nodes, matrix_view(deps@)),
        resorts@.len() == flow@.nodes.len(),
    ensures
        match r {
            Ok(steps) => schedules(flow@.nodes, matrix_view(deps@), resorts@, ordered_view(steps@)),
            Err(msg) => msg@ == "流程不能形成闭环。"@,
        },
        r is Ok <==> !waits_in_circle(flow@.nodes, matrix_view(deps@)),
{
    let (order, groups, complete) = schedule(flow, deps, resorts);
    let ghost ord = as_ints(order@);
    proof {
        lemma_circle_iff_stuck(flow@.nodes, matrix_view(deps@), resorts@, ord, complete);
    }
    if !complete {
        return Err("流程不能形成闭环。".to_owned());
    }
    proof {
        assert forall|k: int| 0 <= k < order@.len() implies #[trigger] order@[k] < flow@.nodes.len() by {
            assert(greedy_step(flow@.nodes, matrix_view(deps@), resorts@, ord, k));
            assert(ord[k] == order@[k] as int);
        }
    }
    let steps = ordered_steps(flow, &order, &groups);
    proof {
        let ov = ordered_view(steps@);
        assert forall|k: int| 0 <= k < ord.len() implies 0 <= ord[k] < flow@.nodes.len() && #[trigger] ov[k].0 == flow@.nodes[ord[k]] by {
            assert(ord[k] == order@[k] as int);
        }
        assert(groups_of(ov) == groups@);
        assert(is_schedule(flow@.nodes, matrix_view(deps@), resorts@, ord, ov));
    }
    Ok(steps)
}

/// Node `b` waits for node `a` in a run: both run processes, they differ, and a
/// sequence edge leads from `a` to `b` or `b` consumes data that `a` outputs.
pub open spec fn run_depends(nv: Seq<NodeView>, ev: Seq<EdgeView>, ms: Seq<ModuleInfo>, a: int, b: int) -> bool {
    &&& exec_node(nv, a)
    &&& exec_node(nv, b)
    &&& a != b
    &&& (seq_step(ev, nv[a].id, nv[b].id) || is_data_consumer(nv, ev, ms, nv[a].id, nv[b].id))
}

/// The run dependencies as a matrix: row `b` marks the nodes `b` waits for.
pub open spec fn run_matrix(nv: Seq<NodeView>, ev: Seq<EdgeView>, ms: Seq<ModuleInfo>) -> Seq<Seq<bool>> {
    Seq::new(nv.len(), |b: int| Seq::new(nv.len(), |a: int| run_depends(nv, ev, ms, a, b)))
}

/// Node `b` follows node `a` along a sequence edge, both running a process
/// (an edge from a node to itself counts).
pub open spec fn sequence_depends(nv: Seq<NodeView>, ev: Seq<EdgeView>, a: int, b: int) -> bool {
    &&& exec_node(nv, a)
    &&& exec_node(nv, b)
    &&& seq_step(ev, nv[a].id, nv[b].id)
}

/// The sequence dependencies as a matrix: row `b` marks the nodes `b` follows.
pub open spec fn sequence_matrix(nv: Seq<NodeView>, ev: Seq<EdgeView>) -> Seq<Seq<bool>> {
    Seq::new(nv.len(), |b: int| Seq::new(nv.len(), |a: int| sequence_depends(nv, ev, a, b)))
}

/// Without edges from a step to itself, steps that follow one another in a
/// circle along sequence edges also wait for one another in a circle in a run.
pub proof fn lemma_sequence_circle_is_run_circle(nv: Seq<NodeView>, ev: Seq<EdgeView>, ms: Seq<ModuleInfo>)
    requires
        forall|j: int| 0 <= j < ev.len() ==> #[trigger] ev[j].from != ev[j].to,
    ensures
        waits_in_circle(nv, sequence_matrix(nv, ev)) ==> waits_in_circle(nv, run_matrix(nv, ev, ms)),
{
    let sm = sequence_matrix(nv, ev);
    let rm = run_matrix(nv, ev, ms);
    if waits_in_circle(nv, sm) {
        let s = choose|s: Set<int>| #[trigger] closed_wait(nv, sm, s) && exists|x: int| s.contains(x);
        assert forall|x: int| #[trigger] s.contains(x) implies exec_node(nv, x) && exists|y: int|
            s.contains(y) && #[trigger] rm[x][y] by {
            let y = choose|y: int| s.contains(y) && #[trigger] sm[x][y];
            assert(0 <= x < nv.len());
            assert(0 <= y < nv.len());
            assert(sequence_depends(nv, ev, y, x));
            let i = choose|i: int|
                0 <= i < ev.len() && #[trigger] ev[i].edge_type == EDGE_TYPE_SEQUENCE@ && ev[i].from == nv[y].id
                    && ev[i].to == nv[x].id;
            assert(ev[i].from != ev[i].to);
            assert(run_depends(nv, ev, ms, y, x));
            assert(rm[x][y]);
        }
        assert(closed_wait(nv, rm, s));
    }
}

/// Every node: the waiting steps are sorted again after each step is taken.
pub open spec fn always(n: nat) -> Seq<bool> {
    Seq::new(n, |i: int| true)
}

/// Whether some process node follows node `j` along a sequence edge.
pub open spec fn has_follower(nv: Seq<NodeView>, ev: Seq<EdgeView>, j: int) -> bool {
    exists|b: int| 0 <= b < nv.len() && #[trigger] sequence_depends(nv, ev, j, b)
}

/// The nodes after which the waiting steps are sorted again: those with followers.
pub open spec fn followers_mark(nv: Seq<NodeView>, ev: Seq<EdgeView>) -> Seq<bool> {
    Seq::new(nv.len(), |j: int| has_follower(nv, ev, j))
}

/// Whether node `i` runs a process.
pub fn is_exec_node(flow: &FlowDefinition, i: usize) -> (r: bool)
    requires
        i < flow@.nodes.len(),
    ensures
        r == exec_node(flow@.nodes, i as int),
{
    assert(flow@.nodes[i as int].module_id == flow.nodes@[i as int].module_id@);
    !is_pure_data_module_id(flow.nodes[i].module_id.as_str())
}

/// For each process node, the nodes that consume its data; empty for the others.
fn consumers_by_node(flow: &FlowDefinition, modules: &Vec<ModuleInfo>) -> (r: Vec<Vec<String>>)
    ensures
        r@.len() == flow@.nodes.len(),
        forall|a: int, x: Seq<char>|
            0 <= a < flow@.nodes.len() && exec_node(flow@.nodes, a) ==> (#[trigger] strings_view(r@[a]@).contains(x)
                <==> is_data_consumer(flow@.nodes, flow@.edges, modules@, flow@.nodes[a].id, x)),
{
    let mut r: Vec<Vec<String>> = Vec::new();
    let mut a: usize = 0;
    while a < flow.nodes.len()
        invariant
            a <= flow@.nodes.len(),
            r@.len() == a,
            forall|q: int, x: Seq<char>|
                0 <= q < a && exec_node(flow@.nodes, q) ==> (#[trigger] strings_view(r@[q]@).contains(x)
                    <==> is_data_consumer(flow@.nodes, flow@.edges, modules@, flow@.nodes[q].id, x)),
        decreases flow@.nodes.len() - a,
    {
        if is_exec_node(flow, a) {
            assert(flow@.nodes[a as int].id == flow.nodes@[a as int].id@);
            r.push(executable_data_consumers(flow, modules, flow.nodes[a].id.as_str()));
        } else {
            r.push(Vec::new());
        }
        a += 1;
    }
    r
}

/// The run dependency matrix of the flow.
pub(crate) fn run_dependency_matrix(flow: &FlowDefinition, modules: &Vec<ModuleInfo>) -> (r: Vec<Vec<bool>>)
    ensures
        matrix_view(r@) == run_matrix(flow@.nodes, flow@.edges, modules@),
{
    let ghost nv = flow@.nodes;
    let ghost ev = flow@.edges;
    let ghost dm = run_matrix(nv, ev, modules@);
    let n = flow.nodes.len();
    let cons = consumers_by_node(flow, modules);
    let mut rows: Vec<Vec<bool>> = Vec::new();
    let mut b: usize = 0;
    while b < n
        invariant
            nv == flow@.nodes,
            ev == flow@.edges,
            dm == run_matrix(nv, ev, modules@),
            n == nv.len(),
            cons@.len() == n,
            forall|a: int, x: Seq<char>|
                0 <= a < n && exec_node(nv, a) ==> (#[trigger] strings_view(cons@[a]@).contains(x)
                    <==> is_data_consumer(nv, ev, modules@, nv[a].id, x)),
            b <= n,
            rows@.len() == b,
            forall|q: int| 0 <= q < b ==> #[trigger] matrix_view(rows@)[q] == dm[q],
        decreases n - b,
    {
        let mut row: Vec<bool> = Vec::new();
        let exec_b = is_exec_node(flow, b);
        let mut a: usize = 0;
        while a < n
            invariant
                nv == flow@.nodes,
                ev == flow@.edges,
                n == nv.len(),
                cons@.len() == n,
                forall|q: int, x: Seq<char>|
                    0 <= q < n && exec_node(nv, q) ==> (#[trigger] strings_view(cons@[q]@).contains(x)
                        <==> is_data_consumer(nv, ev, modules@, nv[q].id, x)),
                b < n,
                exec_b == exec_node(nv, b as int),
                a <= n,
                row@.len() == a,
                forall|q: int| 0 <= q < a ==> #[trigger] row@[q] == run_depends(nv, ev, modules@, q, b as int),
            decreases n - a,
        {
            let mut v = false;
            if exec_b && a != b && is_exec_node(flow, a) {
                assert(nv[a as int].id == flow.nodes@[a as int].id@);
                assert(nv[b as int].id == flow.nodes@[b as int].id@);
                v = has_sequence_edge(flow, flow.nodes[a].id.as_str(), flow.nodes[b].id.as_str())
                    || strings_contain(&cons[a], flow.nodes[b].id.as_str());
            }
            row.push(v);
            a += 1;
        }
        assert(row@ =~= dm[b as int]);
        let ghost prev = rows@;
        rows.push(row);
        assert(matrix_view(rows@) =~= matrix_view(prev).push(dm[b as int]));
        b += 1;
    }
    assert(matrix_view(rows@) =~= dm);
    rows
}

/// The sequence dependency matrix of the flow.
fn sequence_dependency_matrix(flow: &FlowDefinition) -> (r: Vec<Vec<bool>>)
    ensures
        matrix_view(r@) == sequence_matrix(flow@.nodes, flow@.edges),
{
    let ghost nv = flow@.nodes;
    let ghost ev = flow@.edges;
    let ghost dm = sequence_matrix(nv, ev);
    let n = flow.nodes.len();
    let mut rows: Vec<Vec<bool>> = Vec::new();
    let mut b: usize = 0;
    while b < n
        invariant
            nv == flow@.nodes,
            ev == flow@.edges,
            dm == sequence_matrix(nv, ev),
            n == nv.len(),
            b <= n,
            rows@.len() == b,
            forall|q: int| 0 <= q < b ==> #[trigger] matrix_view(rows@)[q] == dm[q],
        decreases n - b,
    {
        let mut row: Vec<bool> = Vec::new();
        let exec_b = is_exec_node(flow, b);
        let mut a: usize = 0;
        while a < n
            invariant
                nv == flow@.nodes,
                ev == flow@.edges,
                n == nv.len(),
                b < n,
                exec_b == exec_node(nv, b as int),
                a <= n,
                row@.len() == a,
                forall|q: int| 0 <= q < a ==> #[trigger] row@[q] == sequence_depends(nv, ev, q, b as int),
            decreases n - a,
        {
            let mut v = false;
            if exec_b && is_exec_node(flow, a) {
                assert(nv[a as int].id == flow.nodes@[a as int].id@);
                assert(nv[b as int].id == flow.nodes@[b as int].id@);
                v = has_sequence_edge(flow, flow.nodes[a].id.as_str(), flow.nodes[b].id.as_str());
            }
            row.push(v);
            a += 1;
        }
        assert(row@ =~= dm[b as int]);
        let ghost prev = rows@;
        rows.push(row);
        assert(matrix_view(rows@) =~= matrix_view(prev).push(dm[b as int]));
        b += 1;
    }
    assert(matrix_view(rows@) =~= dm);
    rows
}

/// `true` for every node.
fn all_marked(n: usize) -> (r: Vec<bool>)
    ensures
        r@ == always(n as nat),
{
    let mut r: Vec<bool> = Vec::new();
    let mut i: usize = 0;
    while i < n
        invariant
            i <= n,
            r@.len() == i,
            forall|q: int| 0 <= q < i ==> #[trigger] r@[q],
        decreases n - i,
    {
        r.push(true);
        i += 1;
    }
    assert(r@ =~= always(n as nat));
    r
}

/// For each node, whether a process node follows it along a sequence edge.
fn follower_marks(flow: &FlowDefinition, deps: &Vec<Vec<bool>>) -> (r: Vec<bool>)
    requires
        matrix_view(deps@) == sequence_matrix(flow@.nodes, flow@.edges),
    ensures
        r@ == followers_mark(flow@.nodes, flow@.edges),
{
    let ghost nv = flow@.nodes;
    let ghost ev = flow@.edges;
    let n = flow.nodes.len();
    let mut r: Vec<bool> = Vec::new();
    let mut j: usize = 0;
    while j < n
        invariant
            nv == flow@.nodes,
            ev == flow@.edges,
            n == nv.len(),
            matrix_view(deps@) == sequence_matrix(nv, ev),
            j <= n,
            r@.len() == j,
            forall|q: int| 0 <= q < j ==> #[trigger] r@[q] == has_follower(nv, ev, q),
        decreases n - j,
    {
        let mut found = false;
        let mut b: usize = 0;
        while b < n
            invariant
                nv == flow@.nodes,
                ev == flow@.edges,
                n == nv.len(),
                matrix_view(deps@) == sequence_matrix(nv, ev),
                j < n,
                b <= n,
                found <==> exists|q: int| 0 <= q < b && #[trigger] sequence_depends(nv, ev, j as int, q),
            decreases n - b,
        {
            assert(matrix_view(deps@).len() == deps@.len());
            assert(sequence_matrix(nv, ev)[b as int].len() == n);
            assert(deps@[b as int]@ == matrix_view(deps@)[b as int]);
            if deps[b][j] {
                assert(sequence_depends(nv, ev, j as int, b as int));
                found = true;
            }
            b += 1;
        }
        r.push(found);
        j += 1;
    }
    assert(r@ =~= followers_mark(nv, ev));
    r
}

/// The order in which a run starts the steps: the steps taken one at a time
/// as their sequence predecessors have started, the first ready one on the
/// canvas first; with each step's parallel group. Fails when the sequence
/// edges run in a circle.
pub fn topological_order(flow: &FlowDefinition) -> (r: Result<Vec<(FlowNode, usize)>, String>)
    requires
        ids_distinct(flow@.nodes),
    ensures
        match r {
            Ok(steps) => schedules(
                flow@.nodes,
                sequence_matrix(flow@.nodes, flow@.edges),
                followers_mark(flow@.nodes, flow@.edges),
                ordered_view(steps@),
            ),
            Err(msg) => msg@ == "流程不能形成闭环。"@,
        },
        r is Ok <==> !waits_in_circle(flow@.nodes, sequence_matrix(flow@.nodes, flow@.edges)),
{
    let deps = sequence_dependency_matrix(flow);
    let resorts = follower_marks(flow, &deps);
    order_steps(flow, &deps, &resorts)
}

/// How a run proceeds: the steps in start order with their parallel groups,
/// and for each step the steps it waits for.
#[derive(Debug)]
pub struct ExecutionPlan {
    pub ordered: Vec<(FlowNode, usize)>,
    pub dependencies: Vec<(String, Vec<String>)>,
}

/// The dependency lists by view.
pub open spec fn deps_view(v: Seq<(String, Vec<String>)>) -> Seq<(Seq<char>, Seq<Seq<char>>)> {
    v.map_values(|e: (String, Vec<String>)| (e.0@, strings_view(e.1@)))
}

/// `entry` names node `b` and lists, once each, the ids of the nodes `b` waits for.
pub open spec fn dependency_entry(nv: Seq<NodeView>, dm: Seq<Seq<bool>>, b: int, entry: (Seq<char>, Seq<Seq<char>>)) -> bool {
    &&& entry.0 == nv[b].id
    &&& entry.1.no_duplicates()
    &&& forall|x: Seq<char>|
        #[trigger] entry.1.contains(x) <==> exists|a: int| 0 <= a < nv.len() && #[trigger] dm[b][a] && nv[a].id == x
}

/// `entries` are the dependency entries of the process nodes `idx`, in node order.
pub open spec fn indexes_entries(nv: Seq<NodeView>, dm: Seq<Seq<bool>>, idx: Seq<int>, entries: Seq<(Seq<char>, Seq<Seq<char>>)>) -> bool {
    &&& idx.len() == entries.len()
    &&& forall|i: int| 0 <= i < idx.len() ==> exec_node(nv, idx[i]) && dependency_entry(nv, dm, idx[i], #[trigger] entries[i])
    &&& forall|i: int, j: int| 0 <= i < j < idx.len() ==> #[trigger] idx[i] < #[trigger] idx[j]
    &&& forall|b: int| exec_node(nv, b) ==> #[trigger] idx.contains(b)
}

/// One entry per process node, in node order, listing what it waits for.
pub open spec fn lists_dependencies(nv: Seq<NodeView>, dm: Seq<Seq<bool>>, entries: Seq<(Seq<char>, Seq<Seq<char>>)>) -> bool {
    exists|idx: Seq<int>| #[trigger] indexes_entries(nv, dm, idx, entries)
}

/// The ids of the nodes that node `b` waits for.
fn waited_ids(flow: &FlowDefinition, deps: &Vec<Vec<bool>>, b: usize) -> (r: Vec<String>)
    requires
        ids_distinct(flow@.nodes),
        square(matrix_view(deps@), flow@.nodes.len() as int),
        b < flow@.nodes.len(),
    ensures
        dependency_entry(flow@.nodes, matrix_view(deps@), b as int, (flow@.nodes[b as int].id, strings_view(r@))),
{
    let ghost nv = flow@.nodes;
    let ghost dm = matrix_view(deps@);
    let row = &deps[b];
    assert(row@ == dm[b as int]);
    let mut r: Vec<String> = Vec::new();
    let mut a: usize = 0;
    while a < flow.nodes.len()
        invariant
            nv == flow@.nodes,
            dm == matrix_view(deps@),
            ids_distinct(nv),
            square(dm, nv.len() as int),
            b < nv.len(),
            row@ == dm[b as int],
            a <= nv.len(),
            strings_view(r@).no_duplicates(),
            forall|x: Seq<char>|
                #[trigger] strings_view(r@).contains(x) <==> exists|q: int| 0 <= q < a && #[trigger] dm[b as int][q] && nv[q].id == x,
        decreases nv.len() - a,
    {
        if row[a] {
            let ghost old_r = strings_view(r@);
            assert(nv[a as int].id == flow.nodes@[a as int].id@);
            r.push(flow.nodes[a].id.clone());
            proof {
                let sv = strings_view(r@);
                assert(sv =~= old_r.push(nv[a as int].id));
                assert(!old_r.contains(nv[a as int].id)) by {
                    if old_r.contains(nv[a as int].id) {
                        let q = choose|q: int| 0 <= q < a && #[trigger] dm[b as int][q] && nv[q].id == nv[a as int].id;
                        assert(nv[q].id != nv[a as int].id);
                    }
                }
                assert(dm[b as int][a as int]);
                assert forall|x: Seq<char>|
                    #[trigger] sv.contains(x) <==> exists|q: int| 0 <= q < a + 1 && #[trigger] dm[b as int][q] && nv[q].id == x by {
                    if sv.contains(x) {
                        let k = choose|k: int| 0 <= k < sv.len() && sv[k] == x;
                        if k < old_r.len() {
                            assert(old_r[k] == x);
                            assert(old_r.contains(x));
                            let q = choose|q: int| 0 <= q < a && #[trigger] dm[b as int][q] && nv[q].id == x;
                            assert(0 <= q < a + 1 && dm[b as int][q] && nv[q].id == x);
                        } else {
                            assert(x == nv[a as int].id);
                            assert(0 <= a < a + 1 && dm[b as int][a as int] && nv[a as int].id == x);
                        }
                    }
                    if exists|q: int| 0 <= q < a + 1 && #[trigger] dm[b as int][q] && nv[q].id == x {
                        let q = choose|q: int| 0 <= q < a + 1 && #[trigger] dm[b as int][q] && nv[q].id == x;
                        if q < a {
                            assert(old_r.contains(x));
                            let k = choose|k: int| 0 <= k < old_r.len() && old_r[k] == x;
                            assert(sv[k] == x);
                        } else {
                            assert(sv[old_r.len() as int] == x);
                        }
                    }
                }
            }
        }
        a += 1;
    }
    r
}

/// One entry per process node, in node order, listing what it waits for.
fn dependency_lists(flow: &FlowDefinition, deps: &Vec<Vec<bool>>) -> (r: Vec<(String, Vec<String>)>)
    requires
        ids_distinct(flow@.nodes),
        square(matrix_view(deps@), flow@.nodes.len() as int),
    ensures
        lists_dependencies(flow@.nodes, matrix_view(deps@), deps_view(r@)),
{
    let ghost nv = flow@.nodes;
    let ghost dm = matrix_view(deps@);
    let mut r: Vec<(String, Vec<String>)> = Vec::new();
    let ghost mut idx: Seq<int> = Seq::empty();
    let mut b: usize = 0;
    while b < flow.nodes.len()
        invariant
            nv == flow@.nodes,
            dm == matrix_view(deps@),
            ids_distinct(nv),
            square(dm, nv.len() as int),
            b <= nv.len(),
            idx.len() == r@.len(),
            forall|i: int| 0 <= i < idx.len() ==> dependency_entry(nv, dm, idx[i], #[trigger] deps_view(r@)[i]),
            forall|i: int| 0 <= i < idx.len() ==> exec_node(nv, #[trigger] idx[i]) && idx[i] < b,
            forall|i: int, j: int| 0 <= i < j < idx.len() ==> #[trigger] idx[i] < #[trigger] idx[j],
            forall|q: int| 0 <= q < b && exec_node(nv, q) ==> #[trigger] idx.contains(q),
        decreases nv.len() - b,
    {
        if is_exec_node(flow, b) {
            let waited = waited_ids(flow, deps, b);
            assert(nv[b as int].id == flow.nodes@[b as int].id@);
            let ghost old_r = deps_view(r@);
            let ghost old_idx = idx;
            r.push((flow.nodes[b].id.clone(), waited));
            proof {
                idx = idx.push(b as int);
                assert(deps_view(r@) =~= old_r.push((nv[b as int].id, strings_view(waited@))));
                assert forall|i: int| 0 <= i < idx.len() implies dependency_entry(nv, dm, idx[i], #[trigger] deps_view(r@)[i]) by {
                    if i < old_idx.len() {
                        assert(deps_view(r@)[i] == old_r[i]);
                        assert(idx[i] == old_idx[i]);
                    }
                }
                assert forall|i: int| 0 <= i < idx.len() implies exec_node(nv, #[trigger] idx[i]) && idx[i] < b + 1 by {
                    if i < old_idx.len() {
                        assert(idx[i] == old_idx[i]);
                    }
                }
                assert forall|i: int, j: int| 0 <= i < j < idx.len() implies #[trigger] idx[i] < #[trigger] idx[j] by {
                    if j == old_idx.len() {
                        assert(old_idx[i] < b);
                    } else {
                        assert(old_idx[i] < old_idx[j]);
                    }
                }
                assert forall|q: int| 0 <= q < b + 1 && exec_node(nv, q) implies #[trigger] idx.contains(q) by {
                    if q < b {
                        assert(old_idx.contains(q));
                        let w = choose|w: int| 0 <= w < old_idx.len() && old_idx[w] == q;
                        assert(idx[w] == q);
                    } else {
                        assert(idx[old_idx.len() as int] == q);
                    }
                }
            }
        }
        b += 1;
    }
    assert forall|i: int| 0 <= i < idx.len() implies exec_node(nv, idx[i]) && dependency_entry(nv, dm, idx[i], #[trigger] deps_view(r@)[i]) by {
        assert(exec_node(nv, idx[i]));
    }
    assert(indexes_entries(nv, dm, idx, deps_view(r@)));
    r
}

/// The run plan of a flow: every process step with the steps it waits for
/// (sequence predecessors, and the process steps whose data it consumes),
/// and the order in which a run starts them, the first ready one on the
/// canvas first, with each step's parallel group. Fails when steps wait for
/// one another in a circle.
pub fn execution_plan(flow: &FlowDefinition, modules: &Vec<ModuleInfo>) -> (r: Result<ExecutionPlan, String>)
    requires
        ids_distinct(flow@.nodes),
    ensures
        match r {
            Ok(plan) => {
                &&& schedules(
                    flow@.nodes,
                    run_matrix(flow@.nodes, flow@.edges, modules@),
                    always(flow@.nodes.len()),
                    ordered_view(plan.ordered@),
                )
                &&& lists_dependencies(
                    flow@.nodes,
                    run_matrix(flow@.nodes, flow@.edges, modules@),
                    deps_view(plan.dependencies@),
                )
            },
            Err(msg) => msg@ == "流程不能形成闭环。"@,
        },
        r is Ok <==> !waits_in_circle(flow@.nodes, run_matrix(flow@.nodes, flow@.edges, modules@)),
{
    let deps = run_dependency_matrix(flow, modules);
    let resorts = all_marked(flow.nodes.len());
    match order_steps(flow, &deps, &resorts) {
        Err(msg) => Err(msg),
        Ok(ordered) => {
            let dependencies = dependency_lists(flow, &deps);
            Ok(ExecutionPlan { ordered, dependencies })
        },
    }
}

impl ExecutionPlan {
    /// The steps that step `id` waits for: the list of the first entry for `id`.
    pub fn dependencies_of(&self, id: &str) -> (r: Option<Vec<String>>)
        ensures
            match r {
                Some(v) => exists|i: int|
                    0 <= i < self.dependencies@.len() && #[trigger] deps_view(self.dependencies@)[i].0 == id@
                        && strings_view(v@) == deps_view(self.dependencies@)[i].1,
                None => forall|i: int|
                    0 <= i < self.dependencies@.len() ==> #[trigger] deps_view(self.dependencies@)[i].0 != id@,
            },
    {
        let ghost dv = deps_view(self.dependencies@);
        let mut i: usize = 0;
        while i < self.dependencies.len()
            invariant
                dv == deps_view(self.dependencies@),
                i <= self.dependencies@.len(),
                forall|j: int| 0 <= j < i ==> #[trigger] dv[j].0 != id@,
            decreases self.dependencies@.len() - i,
        {
            let entry = &self.dependencies[i];
            assert(dv[i as int] == (entry.0@, strings_view(entry.1@)));
            if str_eq(entry.0.as_str(), id) {
                let v = clone_strings(&entry.1);
                assert(dv[i as int].0 == id@ && strings_view(v@) == dv[i as int].1);
                return Some(v);
            }
            i += 1;
        }
        None
    }
}

/// Whether no two nodes of the flow share an id.
pub fn node_ids_distinct(flow: &FlowDefinition) -> (r: bool)
    ensures
        r == ids_distinct(flow@.nodes),
{
    let ghost nv = flow@.nodes;
    let n = flow.nodes.len();
    let mut i: usize = 0;
    while i < n
        invariant
            nv == flow@.nodes,
            n == nv.len(),
            i <= n,
            forall|p: int, q: int| 0 <= p < i && 0 <= q < n && p != q ==> #[trigger] nv[p].id != #[trigger] nv[q].id,
        decreases n - i,
    {
        let mut j: usize = 0;
        while j < n
            invariant
                nv == flow@.nodes,
                n == nv.len(),
                i < n,
                j <= n,
                forall|p: int, q: int| 0 <= p < i && 0 <= q < n && p != q ==> #[trigger] nv[p].id != #[trigger] nv[q].id,
                forall|q: int| 0 <= q < j && q != i ==> #[trigger] nv[q].id != nv[i as int].id,
            decreases n - j,
        {
            assert(nv[i as int].id == flow.nodes@[i as int].id@);
            assert(nv[j as int].id == flow.nodes@[j as int].id@);
            if j != i && str_eq(flow.nodes[i].id.as_str(), flow.nodes[j].id.as_str()) {
                assert(nv[i as int].id == nv[j as int].id);
                return false;
            }
            j += 1;
        }
        i += 1;
    }
    true
}

/// In a schedule, a step starts after every step it waits for, and runs in a
/// later parallel group.
pub proof fn lemma_schedule_respects_waits(
    nv: Seq<NodeView>,
    dm: Seq<Seq<bool>>,
    resorts: Seq<bool>,
    order: Seq<int>,
    ordered: Seq<(NodeView, usize)>,
    k: int,
    a: int,
)
    requires
        is_schedule(nv, dm, resorts, order, ordered),
        0 <= k < order.len(),
        0 <= a < nv.len(),
        dm[order[k]][a],
    ensures
        exists|m: int| 0 <= m < k && order[m] == a && #[trigger] ordered[m].1 < ordered[k].1,
{
    assert(greedy_step(nv, dm, resorts, order, k));
    assert(order.take(k).contains(a));
    let m = choose|m: int| 0 <= m < k && #[trigger] order.take(k)[m] == a;
    assert(order[m] == a);
    assert(groups_of(ordered)[m] < groups_of(ordered)[k]);
}

/// A schedule takes every process node exactly once, and nothing else.
pub proof fn lemma_schedule_is_permutation(
    nv: Seq<NodeView>,
    dm: Seq<Seq<bool>>,
    resorts: Seq<bool>,
    order: Seq<int>,
    ordered: Seq<(NodeView, usize)>,
)
    requires
        is_schedule(nv, dm, resorts, order, ordered),
    ensures
        order.no_duplicates(),
        forall|j: int| exec_node(nv, j) <==> #[trigger] order.contains(j),
{
    assert forall|p: int, q: int| 0 <= p < q < order.len() implies order[p] != order[q] by {
        assert(greedy_step(nv, dm, resorts, order, q));
        assert(order.take(q)[p] == order[p]);
    }
    assert forall|j: int| #[trigger] order.contains(j) implies exec_node(nv, j) by {
        let k = choose|k: int| 0 <= k < order.len() && order[k] == j;
        assert(greedy_step(nv, dm, resorts, order, k));
    }
}

} // verus!
