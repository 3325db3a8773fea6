//! The live run: which steps to start, and when. The host starts the
//! processes and reports each one that ends; this state machine decides.
use crate::catalog::ModuleInfo;
use crate::flow::{FlowDefinition, NodeView};
use crate::plan::{
    among_processes, closed_wait, exec_node, ids_distinct, key_before, lemma_key_total, lemma_key_trans,
    matrix_view, node_before, run_dependency_matrix, run_matrix, square, waits_in_circle,
};
use crate::catalog::is_pure_data_module_id;
use crate::plan::{lemma_lex_total, lemma_lex_trans, lex_lt, str_lt};
use crate::run::StepRun;
use vstd::prelude::*;

verus! {

/// How many module processes a live run keeps going at once.
pub const MAX_PARALLEL_MODULES: usize = 2;

/// The state of a live run over the nodes of its flow: `deps[b][a]` says that
/// node `b` waits for node `a`; which nodes have started and finished; how many
/// are running; whether the run has been stopped; and whether the waiting
/// steps are ordered by id (once a step has finished while the run went on).
#[derive(Debug)]
pub struct LiveRun {
    pub deps: Vec<Vec<bool>>,
    pub started: Vec<bool>,
    pub finished: Vec<bool>,
    pub running: usize,
    pub stopped: bool,
    pub by_id: bool,
}

/// Node `j` can start: it runs a process, has not started, and every node it
/// waits for has finished.
pub open spec fn startable(nv: Seq<NodeView>, dm: Seq<Seq<bool>>, started: Seq<bool>, finished: Seq<bool>, j: int) -> bool {
    &&& exec_node(nv, j)
    &&& !started[j]
    &&& forall|a: int| 0 <= a < nv.len() && #[trigger] dm[j][a] ==> finished[a]
}

/// The number of the first `k` nodes that have started and not finished.
pub open spec fn count_running(started: Seq<bool>, finished: Seq<bool>, k: int) -> nat
    decreases k,
{
    if k <= 0 {
        0
    } else {
        count_running(started, finished, k - 1) + if started[k - 1] && !finished[k - 1] {
            1nat
        } else {
            0nat
        }
    }
}

impl LiveRun {
    /// The dependency matrix.
    pub open spec fn dm(&self) -> Seq<Seq<bool>> {
        matrix_view(self.deps@)
    }

    /// The state is one of the run over the nodes `nv`: the marks cover the
    /// nodes; only nodes that run a process wait or are waited for; a node
    /// finishes only after it started, and starts only after every node it
    /// waits for finished; `running` counts the nodes between the two, and
    /// never exceeds the limit.
    pub open spec fn wf(&self, nv: Seq<NodeView>) -> bool {
        let n = nv.len();
        &&& square(self.dm(), n as int)
        &&& among_processes(nv, self.dm())
        &&& self.started@.len() == n
        &&& self.finished@.len() == n
        &&& forall|i: int| 0 <= i < n && #[trigger] self.finished@[i] ==> self.started@[i]
        &&& forall|i: int| 0 <= i < n && #[trigger] self.started@[i] ==> exec_node(nv, i)
        &&& forall|i: int, a: int|
            0 <= i < n && 0 <= a < n && #[trigger] self.started@[i] && #[trigger] self.dm()[i][a] ==> self.finished@[a]
        &&& self.running == count_running(self.started@, self.finished@, n as int)
        &&& self.running <= MAX_PARALLEL_MODULES
    }

    /// Node `j` can start now.
    pub open spec fn can_start(&self, nv: Seq<NodeView>, j: int) -> bool {
        startable(nv, self.dm(), self.started@, self.finished@, j)
    }
}

/// Marks of `n` nodes, none set.
fn no_marks(n: usize) -> (r: Vec<bool>)
    ensures
        r@.len() == n,
        forall|i: int| 0 <= i < n ==> !#[trigger] r@[i],
{
    let mut r: Vec<bool> = Vec::new();
    let mut i: usize = 0;
    while i < n
        invariant
            i <= n,
            r@.len() == i,
            forall|k: int| 0 <= k < i ==> !#[trigger] r@[k],
        decreases n - i,
    {
        r.push(false);
        i += 1;
    }
    r
}

/// No node counts as running when none has started.
proof fn lemma_count_none(started: Seq<bool>, finished: Seq<bool>, k: int)
    requires
        k <= started.len(),
        forall|i: int| 0 <= i < k ==> !#[trigger] started[i],
    ensures
        count_running(started, finished, k) == 0,
    decreases k,
{
    if k > 0 {
        lemma_count_none(started, finished, k - 1);
    }
}

/// Setting a mark at `j` changes the count by what it changes at `j`.
proof fn lemma_count_update(s0: Seq<bool>, f0: Seq<bool>, s1: Seq<bool>, f1: Seq<bool>, j: int, k: int)
    requires
        s0.len() == s1.len(),
        f0.len() == f1.len(),
        s0.len() == f0.len(),
        0 <= j < s0.len(),
        0 <= k <= s0.len(),
        forall|i: int| 0 <= i < s0.len() && i != j ==> s0[i] == s1[i] && f0[i] == f1[i],
    ensures
        count_running(s1, f1, k) + (if j < k && s0[j] && !f0[j] {
            1int
        } else {
            0int
        }) == count_running(s0, f0, k) + (if j < k && s1[j] && !f1[j] {
            1int
        } else {
            0int
        }),
    decreases k,
{
    if k > 0 {
        lemma_count_update(s0, f0, s1, f1, j, k - 1);
    }
}

/// A running node is counted.
proof fn lemma_count_positive(started: Seq<bool>, finished: Seq<bool>, j: int, k: int)
    requires
        0 <= j < k <= started.len(),
        started.len() == finished.len(),
        started[j] && !finished[j],
    ensures
        count_running(started, finished, k) >= 1,
    decreases k,
{
    if k - 1 > j {
        lemma_count_positive(started, finished, j, k - 1);
    }
}

/// Without any counted node, every started node has finished.
proof fn lemma_count_zero(started: Seq<bool>, finished: Seq<bool>, k: int)
    requires
        0 <= k <= started.len(),
        started.len() == finished.len(),
        count_running(started, finished, k) == 0,
    ensures
        forall|i: int| 0 <= i < k && #[trigger] started[i] ==> finished[i],
{
    assert forall|i: int| 0 <= i < k && #[trigger] started[i] implies finished[i] by {
        if !finished[i] {
            lemma_count_positive(started, finished, i, k);
        }
    }
}

impl LiveRun {
    /// A live run of a flow that has not begun: the nodes wait for one another
    /// as the execution plan says, none has started, none is running.
    pub fn new(flow: &FlowDefinition, modules: &Vec<ModuleInfo>) -> (r: Self)
        ensures
            r.wf(flow@.nodes),
            r.dm() == run_matrix(flow@.nodes, flow@.edges, modules@),
            forall|i: int| 0 <= i < flow@.nodes.len() ==> !#[trigger] r.started@[i] && !r.finished@[i],
            r.running == 0,
            !r.stopped,
            !r.by_id,
    {
        let deps = run_dependency_matrix(flow, modules);
        let n = flow.nodes.len();
        let started = no_marks(n);
        let finished = no_marks(n);
        proof {
            let nv = flow@.nodes;
            let dm = matrix_view(deps@);
            assert forall|b: int, a: int| 0 <= a < nv.len() && 0 <= b < nv.len() && #[trigger] dm[b][a] implies exec_node(nv, a)
                && exec_node(nv, b) by {
                assert(dm[b][a] == crate::plan::run_depends(nv, flow@.edges, modules@, a, b));
            }
            assert forall|i: int| 0 <= i < n implies #[trigger] dm[i].len() == n by {}
            lemma_count_none(started@, finished@, n as int);
        }
        LiveRun { deps, started, finished, running: 0, stopped: false, by_id: false }
    }
}

/// Whether node `j` can start.
fn can_start_at(flow: &FlowDefinition, run: &LiveRun, j: usize) -> (r: bool)
    requires
        run.wf(flow@.nodes),
        j < flow@.nodes.len(),
    ensures
        r == run.can_start(flow@.nodes, j as int),
{
    let ghost nv = flow@.nodes;
    let ghost dm = run.dm();
    assert(nv[j as int].module_id == flow.nodes@[j as int].module_id@);
    if is_pure_data_module_id(flow.nodes[j].module_id.as_str()) || run.started[j] {
        return false;
    }
    let row = &run.deps[j];
    assert(row@ == dm[j as int]);
    let mut a: usize = 0;
    while a < run.finished.len()
        invariant
            nv == flow@.nodes,
            dm == run.dm(),
            run.wf(nv),
            j < nv.len(),
            row@ == dm[j as int],
            a <= nv.len(),
            forall|b: int| 0 <= b < a && #[trigger] dm[j as int][b] ==> run.finished@[b],
        decreases nv.len() - a,
    {
        if row[a] && !run.finished[a] {
            return false;
        }
        a += 1;
    }
    true
}

/// The first node that can start, by position and then by id or by order in
/// the flow; none when no node can start.
fn first_startable(flow: &FlowDefinition, run: &LiveRun) -> (r: Option<usize>)
    requires
        run.wf(flow@.nodes),
        ids_distinct(flow@.nodes),
    ensures
        r is None ==> forall|j: int| !#[trigger] run.can_start(flow@.nodes, j),
        r matches Some(b) ==> {
            &&& b < flow@.nodes.len()
            &&& run.can_start(flow@.nodes, b as int)
            &&& forall|j: int|
                #[trigger] run.can_start(flow@.nodes, j) && j != b ==> key_before(flow@.nodes, b as int, j, run.by_id)
        },
{
    let ghost nv = flow@.nodes;
    let mut best: Option<usize> = None;
    let mut j: usize = 0;
    while j < flow.nodes.len()
        invariant
            nv == flow@.nodes,
            run.wf(nv),
            ids_distinct(nv),
            j <= nv.len(),
            best is None ==> forall|i: int| 0 <= i < j ==> !#[trigger] run.can_start(nv, i),
            best matches Some(b) ==> {
                &&& b < j
                &&& run.can_start(nv, b as int)
                &&& forall|i: int|
                    0 <= i < j && #[trigger] run.can_start(nv, i) && i != b ==> key_before(nv, b as int, i, run.by_id)
            },
        decreases nv.len() - j,
    {
        if can_start_at(flow, run, j) {
            match best {
                None => {
                    best = Some(j);
                },
                Some(b) => {
                    if node_before(flow, j, b, run.by_id) {
                        proof {
                            assert forall|i: int|
                                0 <= i < j + 1 && #[trigger] run.can_start(nv, i) && i != j implies key_before(
                                nv,
                                j as int,
                                i,
                                run.by_id,
                            ) by {
                                if i != b {
                                    lemma_key_trans(nv, j as int, b as int, i, run.by_id);
                                }
                            }
                        }
                        best = Some(j);
                    } else {
                        proof {
                            lemma_key_total(nv, j as int, b as int, run.by_id);
                        }
                    }
                },
            }
        }
        j += 1;
    }
    proof {
        assert forall|i: int| #[trigger] run.can_start(nv, i) implies 0 <= i < nv.len() by {}
    }
    best
}

impl LiveRun {
    /// Asks for the next step to start. `cancelled` says whether the run has
    /// been asked to stop; once it has, no step starts again. Otherwise, while
    /// fewer than the limit run, the first step that can start (by position,
    /// then by id once a step has finished, else by order in the flow) starts.
    pub fn next_start(&mut self, flow: &FlowDefinition, cancelled: bool) -> (r: Option<usize>)
        requires
            old(self).wf(flow@.nodes),
            ids_distinct(flow@.nodes),
        ensures
            final(self).wf(flow@.nodes),
            final(self).deps == old(self).deps,
            final(self).finished == old(self).finished,
            final(self).stopped == (old(self).stopped || cancelled),
            final(self).by_id == old(self).by_id,
            r is None <==> (final(self).stopped || old(self).running >= MAX_PARALLEL_MODULES || !exists|j: int|
                #[trigger] old(self).can_start(flow@.nodes, j)),
            r is None ==> final(self).started == old(self).started && final(self).running == old(self).running,
            r matches Some(b) ==> {
                &&& old(self).can_start(flow@.nodes, b as int)
                &&& forall|j: int|
                    #[trigger] old(self).can_start(flow@.nodes, j) && j != b ==> key_before(
                        flow@.nodes,
                        b as int,
                        j,
                        old(self).by_id,
                    )
                &&& final(self).started@ == old(self).started@.update(b as int, true)
                &&& final(self).running == old(self).running + 1
            },
    {
        let ghost nv = flow@.nodes;
        let ghost s0 = self.started@;
        let ghost f0 = self.finished@;
        self.stopped = self.stopped || cancelled;
        if self.stopped || self.running >= MAX_PARALLEL_MODULES {
            return None;
        }
        let pick = first_startable(flow, self);
        match pick {
            None => None,
            Some(b) => {
                self.started.set(b, true);
                proof {
                    let n = nv.len() as int;
                    lemma_count_update(s0, f0, self.started@, self.finished@, b as int, n);
                    assert(!s0[b as int]);
                    assert(!f0[b as int]);
                    assert forall|i: int, a: int|
                        0 <= i < n && 0 <= a < n && #[trigger] self.started@[i] && #[trigger] self.dm()[i][a] implies self.finished@[a] by {
                        if i != b {
                            assert(s0[i]);
                        }
                    }
                    assert forall|i: int| 0 <= i < n && #[trigger] self.finished@[i] implies self.started@[i] by {
                        if i != b {
                            assert(f0[i] ==> s0[i]);
                        }
                    }
                }
                self.running = self.running + 1;
                Some(b)
            },
        }
    }

    /// Records that the step at node `i` ended. `cancelled` says whether the
    /// run has now been asked to stop (the step itself may have asked); while
    /// the run goes on, the waiting steps are ordered by id from now on.
    pub fn finish(&mut self, flow: &FlowDefinition, i: usize, cancelled: bool)
        requires
            old(self).wf(flow@.nodes),
            i < flow@.nodes.len(),
            old(self).started@[i as int],
            !old(self).finished@[i as int],
        ensures
            final(self).wf(flow@.nodes),
            final(self).deps == old(self).deps,
            final(self).started == old(self).started,
            final(self).finished@ == old(self).finished@.update(i as int, true),
            final(self).running == old(self).running - 1,
            final(self).stopped == (old(self).stopped || cancelled),
            final(self).by_id == (old(self).by_id || !final(self).stopped),
    {
        let ghost nv = flow@.nodes;
        let ghost s0 = self.started@;
        let ghost f0 = self.finished@;
        proof {
            lemma_count_positive(s0, f0, i as int, nv.len() as int);
        }
        self.finished.set(i, true);
        proof {
            let n = nv.len() as int;
            lemma_count_update(s0, f0, self.started@, self.finished@, i as int, n);
            assert forall|k: int, a: int|
                0 <= k < n && 0 <= a < n && #[trigger] self.started@[k] && #[trigger] self.dm()[k][a] implies self.finished@[a] by {
                assert(f0[a]);
            }
        }
        self.running = self.running - 1;
        self.stopped = self.stopped || cancelled;
        if !self.stopped {
            self.by_id = true;
        }
    }

    /// The steps that never finished, in the order of the flow: those a
    /// stopped run marks as interrupted.
    pub fn unfinished_steps(&self, flow: &FlowDefinition) -> (r: Vec<usize>)
        requires
            self.wf(flow@.nodes),
        ensures
            forall|k: int| 0 <= k < r@.len() ==> #[trigger] r@[k] < flow@.nodes.len(),
            forall|k: int, m: int| 0 <= k < m < r@.len() ==> #[trigger] r@[k] < #[trigger] r@[m],
            forall|j: int|
                0 <= j < flow@.nodes.len() ==> (r@.contains(j as usize) <==> exec_node(flow@.nodes, j)
                    && !self.finished@[j]),
    {
        let ghost nv = flow@.nodes;
        let mut r: Vec<usize> = Vec::new();
        let mut j: usize = 0;
        while j < flow.nodes.len()
            invariant
                nv == flow@.nodes,
                self.wf(nv),
                j <= nv.len(),
                forall|k: int| 0 <= k < r@.len() ==> #[trigger] r@[k] < j,
                forall|k: int, m: int| 0 <= k < m < r@.len() ==> #[trigger] r@[k] < #[trigger] r@[m],
                forall|q: int| 0 <= q < nv.len() ==> (r@.contains(q as usize) <==> q < j && exec_node(nv, q) && !self.finished@[q]),
            decreases nv.len() - j,
        {
            assert(nv[j as int].module_id == flow.nodes@[j as int].module_id@);
            let ghost before = r@;
            if !is_pure_data_module_id(flow.nodes[j].module_id.as_str()) && !self.finished[j] {
                r.push(j);
                proof {
                    assert forall|q: int| 0 <= q < nv.len() implies (r@.contains(q as usize) <==> q < j + 1 && exec_node(nv, q)
                        && !self.finished@[q]) by {
                        if q == j {
                            assert(r@[r@.len() - 1] == j);
                        } else {
                            if r@.contains(q as usize) {
                                let k = choose|k: int| 0 <= k < r@.len() && r@[k] == q as usize;
                                if k < before.len() {
                                    assert(before[k] == q as usize);
                                }
                            }
                            if before.contains(q as usize) {
                                let k = choose|k: int| 0 <= k < before.len() && before[k] == q as usize;
                                assert(r@[k] == q as usize);
                            }
                        }
                    }
                }
            } else {
                proof {
                    assert forall|q: int| 0 <= q < nv.len() implies (r@.contains(q as usize) <==> q < j + 1 && exec_node(nv, q)
                        && !self.finished@[q]) by {
                        if q == j {
                            if r@.contains(q as usize) {
                                let k = choose|k: int| 0 <= k < r@.len() && r@[k] == q as usize;
                                assert(r@[k] < j);
                            }
                        }
                    }
                }
            }
            j += 1;
        }
        r
    }
}

/// A run that goes on finishes every step: when it is not stopped, nothing is
/// running and no step can start, every step of a flow whose steps do not wait
/// for one another in a circle has finished.
pub proof fn lemma_run_finishes_every_step(run: LiveRun, nv: Seq<NodeView>)
    requires
        run.wf(nv),
        run.running == 0,
        forall|j: int| !#[trigger] run.can_start(nv, j),
        !waits_in_circle(nv, run.dm()),
    ensures
        forall|j: int| #[trigger] exec_node(nv, j) ==> run.finished@[j],
{
    let n = nv.len() as int;
    let dm = run.dm();
    lemma_count_zero(run.started@, run.finished@, n);
    let s = Set::new(|x: int| exec_node(nv, x) && !run.finished@[x]);
    assert forall|x: int| #[trigger] s.contains(x) implies exec_node(nv, x) && exists|y: int| s.contains(y) && #[trigger] dm[x][y] by {
        assert(!run.can_start(nv, x));
        assert(!run.started@[x]);
        let y = choose|y: int| 0 <= y < n && #[trigger] dm[x][y] && !run.finished@[y];
        assert(exec_node(nv, y));
        assert(s.contains(y));
    }
    assert(closed_wait(nv, dm, s));
    if exists|x: int| s.contains(x) {
        assert(waits_in_circle(nv, dm));
    }
    assert forall|j: int| #[trigger] exec_node(nv, j) implies run.finished@[j] by {
        if !run.finished@[j] {
            assert(s.contains(j));
        }
    }
}

/// A step starts only after every step it waits for has finished, and never
/// more steps run at once than the limit allows.
pub proof fn lemma_steps_start_after_their_dependencies(run: LiveRun, nv: Seq<NodeView>, i: int, a: int)
    requires
        run.wf(nv),
        0 <= i < nv.len(),
        0 <= a < nv.len(),
        run.started@[i],
        run.dm()[i][a],
    ensures
        run.finished@[a],
        run.running <= MAX_PARALLEL_MODULES,
{
}

/// Step `i` of `s` is listed before step `j` in a run's record: by parallel
/// group, then by label, then by the order in which the steps came.
pub open spec fn step_listed_before(s: Seq<StepRun>, i: int, j: int) -> bool {
    ||| s[i].execution_group < s[j].execution_group
    ||| s[i].execution_group == s[j].execution_group && lex_lt(s[i].label@, s[j].label@)
    ||| s[i].execution_group == s[j].execution_group && s[i].label@ == s[j].label@ && i < j
}

/// `p` lists each of `0..n` exactly once.
pub open spec fn is_permutation(p: Seq<int>, n: int) -> bool {
    &&& p.len() == n
    &&& forall|k: int| 0 <= k < n ==> 0 <= #[trigger] p[k] < n
    &&& forall|k: int, m: int| 0 <= k < m < n ==> #[trigger] p[k] != #[trigger] p[m]
}

/// `r` is `s` listed in the record's order: a rearrangement of `s` in which
/// each step comes before the ones listed after it.
pub open spec fn listed_in_record_order(s: Seq<StepRun>, r: Seq<StepRun>) -> bool {
    exists|p: Seq<int>|
        #[trigger] is_permutation(p, s.len() as int) && r.len() == s.len() && (forall|k: int|
            0 <= k < r.len() ==> #[trigger] r[k] == s[p[k]]) && (forall|k: int, m: int|
            0 <= k < m < r.len() ==> step_listed_before(s, #[trigger] p[k], #[trigger] p[m]))
}

/// The record's order is total on different steps.
proof fn lemma_listed_total(s: Seq<StepRun>, i: int, j: int)
    requires
        i != j,
    ensures
        step_listed_before(s, i, j) || step_listed_before(s, j, i),
{
    if s[i].execution_group == s[j].execution_group && s[i].label@ != s[j].label@ {
        lemma_lex_total(s[i].label@, s[j].label@);
    }
}

/// The record's order is transitive.
proof fn lemma_listed_trans(s: Seq<StepRun>, i: int, j: int, k: int)
    requires
        step_listed_before(s, i, j),
        step_listed_before(s, j, k),
    ensures
        step_listed_before(s, i, k),
{
    if s[i].execution_group == s[j].execution_group && s[j].execution_group == s[k].execution_group {
        if lex_lt(s[i].label@, s[j].label@) && lex_lt(s[j].label@, s[k].label@) {
            lemma_lex_trans(s[i].label@, s[j].label@, s[k].label@);
        }
    }
}

/// Whether the step at `a` (which came as step `ia`) is listed before the one
/// at `b` (which came as step `ib`).
fn listed_before(a: &StepRun, ia: usize, b: &StepRun, ib: usize) -> (r: bool)
    ensures
        r == ({
            ||| a.execution_group < b.execution_group
            ||| a.execution_group == b.execution_group && lex_lt(a.label@, b.label@)
            ||| a.execution_group == b.execution_group && a.label@ == b.label@ && ia < ib
        }),
{
    if a.execution_group != b.execution_group {
        return a.execution_group < b.execution_group;
    }
    if str_lt(a.label.as_str(), b.label.as_str()) {
        return true;
    }
    if str_lt(b.label.as_str(), a.label.as_str()) {
        return false;
    }
    proof {
        if a.label@ != b.label@ {
            lemma_lex_total(a.label@, b.label@);
        }
    }
    ia < ib
}

/// The steps of a run as its record lists them: by parallel group, then by
/// label, steps alike in both keeping the order in which they came.
pub fn sort_run_steps(steps: Vec<StepRun>) -> (r: Vec<StepRun>)
    ensures
        listed_in_record_order(steps@, r@),
{
    let ghost s = steps@;
    let ghost n = s.len() as int;
    let mut rest = steps;
    let mut idx: Vec<usize> = Vec::new();
    let mut t: usize = 0;
    while t < rest.len()
        invariant
            rest@ == s,
            t <= s.len(),
            idx@.len() == t,
            forall|q: int| 0 <= q < t ==> #[trigger] idx@[q] == q,
        decreases s.len() - t,
    {
        idx.push(t);
        t += 1;
    }
    let mut out: Vec<StepRun> = Vec::new();
    let ghost mut p: Seq<int> = Seq::empty();
    while rest.len() > 0
        invariant
            n == s.len(),
            rest@.len() == idx@.len(),
            out@.len() == p.len(),
            p.len() + rest@.len() == n,
            forall|q: int| 0 <= q < rest@.len() ==> 0 <= #[trigger] idx@[q] < n && rest@[q] == s[idx@[q] as int],
            forall|q: int, w: int| 0 <= q < w < idx@.len() ==> #[trigger] idx@[q] != #[trigger] idx@[w],
            forall|k: int| 0 <= k < p.len() ==> 0 <= #[trigger] p[k] < n && out@[k] == s[p[k]],
            forall|k: int, m: int| 0 <= k < m < p.len() ==> #[trigger] p[k] != #[trigger] p[m],
            forall|k: int, q: int| 0 <= k < p.len() && 0 <= q < idx@.len() ==> #[trigger] p[k] != #[trigger] idx@[q] as int,
            forall|k: int, m: int| 0 <= k < m < p.len() ==> step_listed_before(s, #[trigger] p[k], #[trigger] p[m]),
            forall|k: int, q: int|
                0 <= k < p.len() && 0 <= q < idx@.len() ==> step_listed_before(s, #[trigger] p[k], #[trigger] idx@[q] as int),
        decreases rest@.len(),
    {
        let mut best: usize = 0;
        let mut q: usize = 1;
        while q < rest.len()
            invariant
                rest@.len() == idx@.len(),
                forall|w: int| 0 <= w < rest@.len() ==> 0 <= #[trigger] idx@[w] < n && rest@[w] == s[idx@[w] as int],
                forall|w: int, v: int| 0 <= w < v < idx@.len() ==> #[trigger] idx@[w] != #[trigger] idx@[v],
                rest@.len() > 0,
                best < rest@.len(),
                1 <= q <= rest@.len(),
                best < q,
                forall|w: int| 0 <= w < q && w != best ==> step_listed_before(s, idx@[best as int] as int, #[trigger] idx@[w] as int),
            decreases rest@.len() - q,
        {
            if listed_before(&rest[q], idx[q], &rest[best], idx[best]) {
                proof {
                    let bq = idx@[q as int] as int;
                    let bb = idx@[best as int] as int;
                    assert(step_listed_before(s, bq, bb));
                    assert forall|w: int| 0 <= w < q + 1 && w != q implies step_listed_before(s, bq, #[trigger] idx@[w] as int) by {
                        if w != best {
                            lemma_listed_trans(s, bq, bb, idx@[w] as int);
                        }
                    }
                }
                best = q;
            } else {
                proof {
                    let bq = idx@[q as int] as int;
                    let bb = idx@[best as int] as int;
                    lemma_listed_total(s, bq, bb);
                }
            }
            q += 1;
        }
        let ghost chosen = idx@[best as int] as int;
        let ghost rest0 = rest@;
        let ghost idx0 = idx@;
        let step = rest.remove(best);
        idx.remove(best);
        out.push(step);
        proof {
            p = p.push(chosen);
            assert forall|q: int| 0 <= q < idx@.len() implies step_listed_before(s, chosen, #[trigger] idx@[q] as int) by {
                if q < best {
                    assert(idx@[q] == idx0[q]);
                } else {
                    assert(idx@[q] == idx0[q + 1]);
                }
            }
            assert forall|q: int| 0 <= q < rest@.len() implies 0 <= #[trigger] idx@[q] < n && rest@[q] == s[idx@[q] as int] by {
                if q < best {
                    assert(idx@[q] == idx0[q] && rest@[q] == rest0[q]);
                } else {
                    assert(idx@[q] == idx0[q + 1] && rest@[q] == rest0[q + 1]);
                }
            }
            assert forall|q: int, w: int| 0 <= q < w < idx@.len() implies #[trigger] idx@[q] != #[trigger] idx@[w] by {
                let q0 = if q < best { q } else { q + 1 };
                let w0 = if w < best { w } else { w + 1 };
                assert(idx@[q] == idx0[q0] && idx@[w] == idx0[w0]);
            }
            assert forall|k: int, q: int| 0 <= k < p.len() && 0 <= q < idx@.len() implies #[trigger] p[k] != #[trigger] idx@[q] as int by {
                let q0 = if q < best { q } else { q + 1 };
                assert(idx@[q] == idx0[q0]);
                if k == p.len() - 1 {
                    assert(q0 != best);
                }
            }
            assert forall|k: int, q: int| 0 <= k < p.len() && 0 <= q < idx@.len() implies step_listed_before(s, #[trigger] p[k], #[trigger] idx@[q] as int) by {
                let q0 = if q < best { q } else { q + 1 };
                assert(idx@[q] == idx0[q0]);
            }
            assert forall|k: int, m: int| 0 <= k < m < p.len() implies step_listed_before(s, #[trigger] p[k], #[trigger] p[m]) by {
                if m == p.len() - 1 {
                    assert(p[m] == idx0[best as int]);
                }
            }
            assert forall|k: int, m: int| 0 <= k < m < p.len() implies #[trigger] p[k] != #[trigger] p[m] by {
                if m == p.len() - 1 {
                    assert(p[m] == idx0[best as int]);
                }
            }
        }
    }
    proof {
        assert(is_permutation(p, n));
    }
    out
}

} // verus!
