//! The node graph of a dataflow task: topological order and the walk from a node.
use vstd::prelude::*;
use super::DataFlowEdge;
use super::DataFlowState;
use super::node::DataFlowNode;
use crate::error::Error;

verus! {

/// `order` lists each of the nodes `0..n` exactly once.
pub open spec fn is_node_order(n: nat, order: Seq<u32>) -> bool {
    &&& order.len() == n
    &&& forall|i: int| 0 <= i < order.len() ==> (#[trigger] order[i]) < n
    &&& forall|i: int, j: int| 0 <= i < j < order.len() ==> order[i] != order[j]
}

/// Every edge whose ends are both among the nodes `0..n` goes from an earlier position of
/// `order` to a later one.
pub open spec fn respects_edges(n: nat, edges: Seq<DataFlowEdge>, order: Seq<u32>) -> bool {
    forall|e: int, i: int, j: int|
        #![trigger edges[e], order[i], order[j]]
        0 <= e < edges.len() && 0 <= i < order.len() && 0 <= j < order.len() && edges[e].from < n
            && edges[e].to < n && order[i] == edges[e].from && order[j] == edges[e].to ==> i < j
}

/// Both ends of every edge are among the nodes `0..n`.
pub open spec fn edges_in_bounds(n: nat, edges: Seq<DataFlowEdge>) -> bool {
    forall|e: int| 0 <= e < edges.len() ==> (#[trigger] edges[e]).from < n && edges[e].to < n
}

/// `order` is a topological order of the graph: every node once, every edge forward.
pub open spec fn is_topo_order(n: nat, edges: Seq<DataFlowEdge>, order: Seq<u32>) -> bool {
    is_node_order(n, order) && respects_edges(n, edges, order)
}

/// The graph has a topological order.
pub open spec fn acyclic(n: nat, edges: Seq<DataFlowEdge>) -> bool {
    exists|order: Seq<u32>| is_topo_order(n, edges, order)
}

/// Some edge goes from `a` to `b`.
pub open spec fn has_edge(edges: Seq<DataFlowEdge>, a: u32, b: u32) -> bool {
    exists|e: int| 0 <= e < edges.len() && edges[e].from == a && edges[e].to == b
}

/// `p` is a path along edges.
pub open spec fn is_path(edges: Seq<DataFlowEdge>, p: Seq<u32>) -> bool {
    &&& p.len() >= 1
    &&& forall|i: int| 0 <= i < p.len() - 1 ==> has_edge(edges, #[trigger] p[i], p[i + 1])
}

/// Node `v` lies on a cycle: a path of at least one edge leads from `v` back to `v`.
pub open spec fn on_cycle(edges: Seq<DataFlowEdge>, v: u32) -> bool {
    exists|p: Seq<u32>| is_path(edges, p) && p.len() >= 2 && p[0] == v && p.last() == v
}

/// The position of a node in an order.
pub open spec fn pos(order: Seq<u32>, v: u32) -> int {
    choose|i: int| 0 <= i < order.len() && order[i] == v
}

/// Every node of `0..n` has a position in a node order.
pub proof fn lemma_pos(n: nat, order: Seq<u32>, v: u32)
    requires
        is_node_order(n, order),
        v < n,
        n <= u32::MAX,
    ensures
        0 <= pos(order, v) < order.len(),
        order[pos(order, v)] == v,
        forall|i: int| 0 <= i < order.len() && order[i] == v ==> i == pos(order, v),
{
    // Every value below n appears: the order has n distinct values below n.
    lemma_node_order_covers(n, order, v);
}

/// A node order of `0..n` holds each node.
pub proof fn lemma_node_order_covers(n: nat, order: Seq<u32>, v: u32)
    requires
        is_node_order(n, order),
        v < n,
        n <= u32::MAX,
    ensures
        exists|i: int| 0 <= i < order.len() && order[i] == v,
{
    let s = order.to_set();
    assert forall|x: u32| #[trigger] s.contains(x) implies (x as int) < n by {
        let i = choose|i: int| 0 <= i < order.len() && order[i] == x;
        assert(order[i] < n);
    }
    assert(order.no_duplicates());
    order.unique_seq_to_set();
    // The set of values below n has n elements and contains the n values of the order.
    let all = Set::new(|x: u32| (x as int) < n);
    lemma_set_below(n);
    assert(s.subset_of(all));
    if !s.contains(v) {
        vstd::set_lib::lemma_len_subset(s, all.remove(v));
        assert(all.remove(v).len() == n - 1);
        assert(false);
    }
}

/// The set of 32-bit values below `n` has `n` elements.
pub proof fn lemma_set_below(n: nat)
    requires
        n <= u32::MAX + 1,
    ensures
        Set::new(|x: u32| (x as int) < n).finite(),
        Set::new(|x: u32| (x as int) < n).len() == n,
    decreases n,
{
    let all = Set::new(|x: u32| (x as int) < n);
    if n == 0 {
        assert(all =~= Set::empty());
    } else {
        lemma_set_below((n - 1) as nat);
        let smaller = Set::new(|x: u32| (x as int) < n - 1);
        let top = (n - 1) as u32;
        assert(all =~= smaller.insert(top));
    }
}

/// A graph with a node on a cycle has no topological order.
pub proof fn lemma_cycle_excludes_order(n: nat, edges: Seq<DataFlowEdge>, v: u32)
    requires
        n <= u32::MAX,
        edges_in_bounds(n, edges),
        on_cycle(edges, v),
    ensures
        !acyclic(n, edges),
{
    if acyclic(n, edges) {
        let order = choose|order: Seq<u32>| is_topo_order(n, edges, order);
        let p = choose|p: Seq<u32>| is_path(edges, p) && p.len() >= 2 && p[0] == v && p.last() == v;
        lemma_path_forward(n, edges, order, p, p.len() - 1);
        let e0 = choose|e: int| 0 <= e < edges.len() && edges[e].from == p[0] && edges[e].to == p[1];
        lemma_pos(n, order, v);
        assert(false);
    }
}

/// Along a path of at least one edge, positions in a topological order strictly increase.
pub proof fn lemma_path_forward(n: nat, edges: Seq<DataFlowEdge>, order: Seq<u32>, p: Seq<u32>, k: int)
    requires
        n <= u32::MAX,
        edges_in_bounds(n, edges),
        is_topo_order(n, edges, order),
        is_path(edges, p),
        1 <= k < p.len(),
    ensures
        p[0] < n,
        p[k] < n,
        pos(order, p[0]) < pos(order, p[k]),
    decreases k,
{
    assert(has_edge(edges, p[k - 1], p[k]));
    let e = choose|e: int| 0 <= e < edges.len() && edges[e].from == p[k - 1] && edges[e].to == p[k];
    assert(edges[e].from < n && edges[e].to < n);
    lemma_pos(n, order, p[k - 1]);
    lemma_pos(n, order, p[k]);
    if k > 1 {
        lemma_path_forward(n, edges, order, p, k - 1);
    } else {
        assert(has_edge(edges, p[0], p[1]));
    }
}

/// The edges as plain pairs of node indices, in order.
pub open spec fn edge_pairs(edges: Seq<DataFlowEdge>) -> Seq<(u32, u32)> {
    edges.map_values(|e: DataFlowEdge| (e.from, e.to))
}

/// What `petgraph::algo::toposort` returns on a graph of the nodes `0..num_nodes` with the given
/// edges added in order: the nodes in its order, or the node it reports on a cycle.
pub uninterp spec fn graph_order(num_nodes: nat, edges: Seq<(u32, u32)>) -> Result<Seq<u32>, u32>;

/// What the topological sort of the graph library returns for the nodes `0..num_nodes` and
/// the given edges (`petgraph::algo::toposort` on a graph built from them). The result is the
/// one `graph_order` names for these nodes and edges.
///
/// The library documents that an acyclic graph gives its nodes in topological order (each
/// node before its successors, self loops counting as cycles) and that otherwise the error
/// names a node that participates in a cycle; this contract states just that. Which order,
/// and which node of a cycle, is left unsaid.
#[verifier::external_body]
fn graph_toposort(num_nodes: usize, edges: &Vec<DataFlowEdge>) -> (r: Result<Vec<u32>, u32>)
    requires
        num_nodes <= u32::MAX,
        edges.len() <= u32::MAX,
        edges_in_bounds(num_nodes as nat, edges@),
    ensures
        match r {
            Ok(order) => is_topo_order(num_nodes as nat, edges@, order@),
            Err(v) => v < num_nodes && on_cycle(edges@, v),
        },
        match r {
            Ok(order) => graph_order(num_nodes as nat, edge_pairs(edges@)) == Ok::<Seq<u32>, u32>(order@),
            Err(v) => graph_order(num_nodes as nat, edge_pairs(edges@)) == Err::<Seq<u32>, u32>(v),
        },
{
    let mut graph = petgraph::graph::DiGraph::<u32, ()>::with_capacity(num_nodes, edges.len());
    let idx: Vec<_> = (0..num_nodes).map(|i| graph.add_node(i as u32)).collect();
    for e in edges.iter() {
        graph.add_edge(idx[e.from as usize], idx[e.to as usize], ());
    }
    match petgraph::algo::toposort(&graph, None) {
        Ok(sorted) => Ok(sorted.into_iter().map(|n| graph[n]).collect()),
        Err(cycle) => Err(graph[cycle.node_id()]),
    }
}

/// The index of the first edge with an end outside `0..n`, or the number of edges.
pub open spec fn first_bad_edge(n: nat, edges: Seq<DataFlowEdge>) -> int {
    if edges_in_bounds(n, edges) {
        edges.len() as int
    } else {
        choose|i: int|
            0 <= i < edges.len() && !(edges[i].from < n && edges[i].to < n) && forall|j: int|
                0 <= j < i ==> edges[j].from < n && edges[j].to < n
    }
}

/// Sorts the nodes `0..num_nodes` topologically.
///
/// The first edge with an end outside the nodes is reported as `BadEdgeIndex`; a graph with a
/// cycle is reported as `DataflowCycle` with a node on the cycle; otherwise the result is a
/// topological order. So the result is `Ok` exactly when every edge is in bounds and the graph
/// is acyclic.
pub fn toposort_nodes(num_nodes: usize, edges: &Vec<DataFlowEdge>) -> (r: Result<Vec<u32>, Error>)
    requires
        num_nodes <= u32::MAX,
        edges.len() <= u32::MAX,
    ensures
        !edges_in_bounds(num_nodes as nat, edges@) ==> {
            let i = first_bad_edge(num_nodes as nat, edges@);
            &&& 0 <= i < edges@.len()
            &&& r == Err::<Vec<u32>, Error>(Error::BadEdgeIndex(edges@[i].from, edges@[i].to))
        },
        edges_in_bounds(num_nodes as nat, edges@) ==> match r {
            Ok(order) => is_topo_order(num_nodes as nat, edges@, order@),
            Err(Error::DataflowCycle(v)) => v < num_nodes && on_cycle(edges@, v),
            Err(_) => false,
        },
        r is Ok <==> edges_in_bounds(num_nodes as nat, edges@) && acyclic(num_nodes as nat, edges@),
        edges_in_bounds(num_nodes as nat, edges@) ==> match graph_order(num_nodes as nat, edge_pairs(edges@)) {
            Ok(order) => r is Ok && r->Ok_0@ == order,
            Err(v) => r == Err::<Vec<u32>, Error>(Error::DataflowCycle(v)),
        },
{
    let n = num_nodes as u32;
    let mut i: usize = 0;
    while i < edges.len()
        invariant
            n as int == num_nodes as int,
            i <= edges.len(),
            forall|j: int| 0 <= j < i ==> edges@[j].from < num_nodes && edges@[j].to < num_nodes,
        decreases edges.len() - i,
    {
        let e = edges[i];
        if e.from >= n || e.to >= n {
            assert(!edges_in_bounds(num_nodes as nat, edges@));
            assert(first_bad_edge(num_nodes as nat, edges@) == i) by {
                let k = first_bad_edge(num_nodes as nat, edges@);
                if k < i {
                    assert(edges@[k].from < num_nodes && edges@[k].to < num_nodes);
                } else if k > i {
                    assert(edges@[i as int].from < num_nodes && edges@[i as int].to < num_nodes);
                }
            }
            return Err(Error::BadEdgeIndex(e.from, e.to));
        }
        i = i + 1;
    }
    assert(edges_in_bounds(num_nodes as nat, edges@));
    match graph_toposort(num_nodes, edges) {
        Ok(order) => Ok(order),
        Err(v) => {
            proof {
                lemma_cycle_excludes_order(num_nodes as nat, edges@, v);
            }
            Err(Error::DataflowCycle(v))
        },
    }
}


/// The nodes, edges and code of a dataflow task, with the nodes in topological order.
pub struct DataFlowConfig {
    pub nodes: Vec<DataFlowNode>,
    /// The connection between nodes.
    pub edges: Vec<DataFlowEdge>,
    /// The compiled JavaScript for all the nodes and their dependencies, bundled as an IIFE
    pub compiled: String,
    /// A source map for the compiled JavaScript
    pub map: Option<String>,
    pub toposorted: Vec<u32>,
}

impl DataFlowConfig {
    /// The stored order lists every node once and every edge between nodes goes forward in it.
    pub open spec fn wf(&self) -> bool {
        &&& self.nodes.len() <= u32::MAX
        &&& is_node_order(self.nodes.len() as nat, self.toposorted@)
        &&& respects_edges(self.nodes.len() as nat, self.edges@, self.toposorted@)
    }

    /// Builds a configuration, sorting the nodes topologically: it stores exactly the order
    /// `toposort_nodes` returns. Fails as `toposort_nodes` does.
    pub fn new(
        nodes: Vec<DataFlowNode>,
        edges: Vec<DataFlowEdge>,
        compiled: String,
        map: Option<String>,
    ) -> (r: Result<DataFlowConfig, Error>)
        requires
            nodes.len() <= u32::MAX,
            edges.len() <= u32::MAX,
        ensures
            match r {
                Ok(c) => {
                    &&& c.nodes == nodes
                    &&& c.edges == edges
                    &&& c.compiled == compiled
                    &&& c.map == map
                    &&& c.wf()
                    &&& edges_in_bounds(nodes.len() as nat, edges@)
                    &&& is_topo_order(nodes.len() as nat, edges@, c.toposorted@)
                    &&& graph_order(nodes.len() as nat, edge_pairs(edges@)) == Ok::<Seq<u32>, u32>(c.toposorted@)
                },
                Err(e) => {
                    &&& !(edges_in_bounds(nodes.len() as nat, edges@) && acyclic(
                        nodes.len() as nat,
                        edges@,
                    ))
                    &&& (!edges_in_bounds(nodes.len() as nat, edges@) ==> {
                        let i = first_bad_edge(nodes.len() as nat, edges@);
                        e == Error::BadEdgeIndex(edges@[i].from, edges@[i].to)
                    })
                    &&& (edges_in_bounds(nodes.len() as nat, edges@) ==> (e matches Error::DataflowCycle(
                        v,
                    ) && v < nodes.len() && on_cycle(edges@, v)
                        && graph_order(nodes.len() as nat, edge_pairs(edges@)) == Err::<Seq<u32>, u32>(v)))
                },
            },
    {
        let toposorted = match toposort_nodes(nodes.len(), &edges) {
            Ok(t) => t,
            Err(e) => {
                return Err(e);
            },
        };
        Ok(DataFlowConfig { toposorted, compiled, map, nodes, edges })
    }

    /// The state of a task that has not run yet: no node has stored anything.
    pub fn default_state(&self) -> (r: DataFlowState)
        ensures
            r.nodes@.len() == 0,
    {
        DataFlowState { nodes: Vec::new() }
    }
}

/// The index of the first edge at or after `i` that leaves `u`, or the number of edges.
pub open spec fn scan_start(edges: Seq<DataFlowEdge>, u: u32, i: int) -> int
    decreases edges.len() - i,
{
    if i >= edges.len() || i < 0 {
        edges.len() as int
    } else if edges[i].from == u {
        i
    } else {
        scan_start(edges, u, i + 1)
    }
}

/// The end of the run of edges leaving `u` that begins at `i`.
pub open spec fn scan_end(edges: Seq<DataFlowEdge>, u: u32, i: int) -> int
    decreases edges.len() - i,
{
    if i >= edges.len() || i < 0 {
        edges.len() as int
    } else if edges[i].from != u {
        i
    } else {
        scan_end(edges, u, i + 1)
    }
}

/// The edges that the walk follows out of `u`: the first run of consecutive edges leaving `u`.
/// (Configurations keep edges sorted by source, so the run holds all edges leaving `u`.)
pub open spec fn in_block(edges: Seq<DataFlowEdge>, u: u32, i: int) -> bool {
    scan_start(edges, u, 0) <= i < scan_end(edges, u, scan_start(edges, u, 0))
}

/// The walk follows an edge from `a` to `b`.
pub open spec fn walk_edge(edges: Seq<DataFlowEdge>, a: u32, b: u32) -> bool {
    exists|i: int| in_block(edges, a, i) && edges[i].to == b
}

/// `p` is a path of followed edges.
pub open spec fn is_walk(edges: Seq<DataFlowEdge>, p: Seq<u32>) -> bool {
    &&& p.len() >= 1
    &&& forall|i: int| 0 <= i < p.len() - 1 ==> walk_edge(edges, #[trigger] p[i], p[i + 1])
}

/// `v` can be reached from `s` by following edges (`s` reaches itself).
pub open spec fn reachable(edges: Seq<DataFlowEdge>, s: u32, v: u32) -> bool {
    exists|p: Seq<u32>| is_walk(edges, p) && p[0] == s && p.last() == v
}

/// The nodes reachable from `s`, as a set of indices.
pub open spec fn reach_set(edges: Seq<DataFlowEdge>, s: u32) -> Set<nat> {
    Set::new(|x: nat| x <= u32::MAX && reachable(edges, s, x as u32))
}

/// Every node of `set` has the targets of its followed edges in `set` too.
pub open spec fn closed_under(edges: Seq<DataFlowEdge>, set: Set<nat>) -> bool {
    forall|a: u32, i: int|
        #![trigger set.contains(a as nat), in_block(edges, a, i)]
        set.contains(a as nat) && in_block(edges, a, i) ==> set.contains(edges[i].to as nat)
}

/// The edges of a run all leave `u`, and the run starts at or after `i`.
pub proof fn lemma_scan(edges: Seq<DataFlowEdge>, u: u32, i: int)
    requires
        0 <= i <= edges.len(),
    ensures
        i <= scan_start(edges, u, i) <= edges.len(),
        scan_start(edges, u, i) < edges.len() ==> edges[scan_start(edges, u, i)].from == u,
        forall|j: int| i <= j < scan_start(edges, u, i) ==> edges[j].from != u,
    decreases edges.len() - i,
{
    if i < edges.len() && edges[i].from != u {
        lemma_scan(edges, u, i + 1);
    }
}

/// The run that begins at `i` ends at the first edge that does not leave `u`.
pub proof fn lemma_scan_end(edges: Seq<DataFlowEdge>, u: u32, i: int)
    requires
        0 <= i <= edges.len(),
    ensures
        i <= scan_end(edges, u, i) <= edges.len(),
        scan_end(edges, u, i) < edges.len() ==> edges[scan_end(edges, u, i)].from != u,
        forall|j: int| i <= j < scan_end(edges, u, i) ==> edges[j].from == u,
    decreases edges.len() - i,
{
    if i < edges.len() && edges[i].from == u {
        lemma_scan_end(edges, u, i + 1);
    }
}

/// A followed edge leaves its source node.
pub proof fn lemma_in_block(edges: Seq<DataFlowEdge>, u: u32, i: int)
    requires
        in_block(edges, u, i),
    ensures
        0 <= i < edges.len(),
        edges[i].from == u,
{
    lemma_scan(edges, u, 0);
    lemma_scan_end(edges, u, scan_start(edges, u, 0));
}

/// Following an edge from `s` to `t` extends every walk from `t`.
pub proof fn lemma_reach_prepend(edges: Seq<DataFlowEdge>, s: u32, t: u32, v: u32)
    requires
        walk_edge(edges, s, t),
        reachable(edges, t, v),
    ensures
        reachable(edges, s, v),
{
    let p = choose|p: Seq<u32>| is_walk(edges, p) && p[0] == t && p.last() == v;
    let q = seq![s] + p;
    assert forall|i: int| 0 <= i < q.len() - 1 implies walk_edge(edges, #[trigger] q[i], q[i + 1]) by {
        if i > 0 {
            assert(q[i] == p[i - 1]);
            assert(q[i + 1] == p[i]);
            assert(walk_edge(edges, p[i - 1], p[i]));
        }
    }
    assert(is_walk(edges, q));
    assert(q[0] == s && q.last() == v);
}

/// Every node reaches itself.
pub proof fn lemma_reach_self(edges: Seq<DataFlowEdge>, s: u32)
    ensures
        reachable(edges, s, s),
{
    let p = seq![s];
    assert(is_walk(edges, p));
    assert(p[0] == s && p.last() == s);
}

/// A set closed under followed edges holds every node of a walk that starts in it.
proof fn lemma_closed_walk(edges: Seq<DataFlowEdge>, set: Set<nat>, p: Seq<u32>, k: int)
    requires
        closed_under(edges, set),
        is_walk(edges, p),
        set.contains(p[0] as nat),
        0 <= k < p.len(),
    ensures
        set.contains(p[k] as nat),
    decreases k,
{
    if k > 0 {
        lemma_closed_walk(edges, set, p, k - 1);
        assert(walk_edge(edges, p[k - 1], p[k]));
        let i = choose|i: int| in_block(edges, p[k - 1], i) && edges[i].to == p[k];
        assert(set.contains(edges[i].to as nat));
    }
}

/// A set closed under followed edges holds everything reachable from its members.
pub proof fn lemma_closed_reach(edges: Seq<DataFlowEdge>, set: Set<nat>, s: u32, v: u32)
    requires
        closed_under(edges, set),
        set.contains(s as nat),
        reachable(edges, s, v),
    ensures
        set.contains(v as nat),
{
    let p = choose|p: Seq<u32>| is_walk(edges, p) && p[0] == s && p.last() == v;
    lemma_closed_walk(edges, set, p, p.len() - 1);
}

/// The contents of a bit set (`bit_set::BitSet`), as a set of indices.
pub uninterp spec fn bitset_contents(s: bit_set::BitSet) -> Set<nat>;

#[verifier::external_type_specification]
#[verifier::external_body]
#[verifier::reject_recursive_types(B)]
pub struct ExBitSet<B>(bit_set::BitSet<B>);

/// An empty bit set with room for `nbits` entries (`BitSet::with_capacity`).
#[verifier::external_body]
fn bitset_with_capacity(nbits: usize) -> (r: bit_set::BitSet)
    ensures
        bitset_contents(r) == Set::<nat>::empty(),
{
    bit_set::BitSet::with_capacity(nbits)
}

/// Whether a bit set holds an index (`BitSet::contains`).
#[verifier::external_body]
fn bitset_contains(s: &bit_set::BitSet, value: usize) -> (r: bool)
    ensures
        r == bitset_contents(*s).contains(value as nat),
{
    s.contains(value)
}

/// Adds an index to a bit set, growing it as needed (`BitSet::insert`); reports whether the
/// index was new.
#[verifier::external_body]
fn bitset_insert(s: &mut bit_set::BitSet, value: usize) -> (r: bool)
    ensures
        bitset_contents(*final(s)) == bitset_contents(*old(s)).insert(value as nat),
        r == !bitset_contents(*old(s)).contains(value as nat),
{
    s.insert(value)
}

/// Walks the nodes of a configuration in topological order, starting at one node and visiting
/// only the nodes reachable from it.
pub struct NodeWalker<'a> {
    config: &'a DataFlowConfig,
    current_index: usize,
    active: bit_set::BitSet,
}

impl<'a> NodeWalker<'a> {
    /// The configuration being walked.
    pub closed spec fn config(&self) -> &'a DataFlowConfig {
        self.config
    }

    /// The position in the topological order where the next lookup starts.
    pub closed spec fn cursor(&self) -> nat {
        self.current_index as nat
    }

    /// The nodes the walk visits.
    pub closed spec fn active(&self) -> Set<nat> {
        bitset_contents(self.active)
    }

    pub closed spec fn wf(&self) -> bool {
        &&& self.config.wf()
        &&& self.current_index <= self.config.toposorted.len() + 1
    }

    /// Starts a walk at `node_id`: the walk visits exactly the nodes reachable from it, in
    /// topological order, beginning at its position.
    ///
    /// A node that is not in the configuration is `MissingDataFlowNode`; a followed edge to a
    /// node outside the configuration is `BadEdgeIndex` (never when all edges are in bounds).
    pub fn starting_from(config: &'a DataFlowConfig, node_id: u32) -> (r: Result<NodeWalker<'a>, Error>)
        requires
            config.wf(),
        ensures
            node_id >= config.nodes.len() ==> r == Err::<NodeWalker<'a>, Error>(
                Error::MissingDataFlowNode(node_id),
            ),
            node_id < config.nodes.len() ==> match r {
                Ok(w) => {
                    &&& w.wf()
                    &&& w.config() == config
                    &&& w.cursor() == pos(config.toposorted@, node_id)
                    &&& w.active() == reach_set(config.edges@, node_id)
                },
                Err(e) => (e matches Error::BadEdgeIndex(a, b) && b >= config.nodes.len()
                    && walk_edge(config.edges@, a, b) && reachable(config.edges@, node_id, a)),
            },
            edges_in_bounds(config.nodes.len() as nat, config.edges@) && node_id
                < config.nodes.len() ==> r is Ok,
    {
        let n = config.toposorted.len();
        let mut start_idx: usize = 0;
        let mut found = false;
        while start_idx < n && !found
            invariant
                n == config.toposorted.len(),
                start_idx <= n,
                found ==> start_idx < n && config.toposorted@[start_idx as int] == node_id,
                forall|j: int| 0 <= j < start_idx ==> config.toposorted@[j] != node_id,
            decreases n - start_idx, if found { 0int } else { 1int },
        {
            if config.toposorted[start_idx] == node_id {
                found = true;
            } else {
                start_idx = start_idx + 1;
            }
        }
        if !found {
            proof {
                if node_id < config.nodes.len() {
                    lemma_pos(config.nodes.len() as nat, config.toposorted@, node_id);
                }
            }
            return Err(Error::MissingDataFlowNode(node_id));
        }
        proof {
            lemma_pos(config.nodes.len() as nat, config.toposorted@, node_id);
        }
        let max_node = config.nodes.len();
        let capacity = if max_node < usize::MAX { max_node + 1 } else { max_node };
        let mut active = bitset_with_capacity(capacity);
        let ghost empty = bitset_contents(active);
        match Self::find_active_nodes(config, node_id, &mut active) {
            Ok(()) => {},
            Err(e) => {
                return Err(e);
            },
        }
        proof {
            assert(closed_under(config.edges@, empty));
            assert forall|x: nat| reach_set(config.edges@, node_id).contains(x) implies bitset_contents(
                active,
            ).contains(x) by {
                lemma_closed_reach(config.edges@, bitset_contents(active), node_id, x as u32);
            }
            assert(bitset_contents(active) =~= reach_set(config.edges@, node_id));
        }
        Ok(NodeWalker { config, current_index: start_idx, active })
    }

    /// Adds to `active` the node `start_idx` and the nodes reachable from it, following the
    /// edges depth first and not going into nodes already active.
    fn find_active_nodes(config: &DataFlowConfig, start_idx: u32, active: &mut bit_set::BitSet) -> (r:
        Result<(), Error>)
        requires
            config.wf(),
            start_idx < config.nodes.len(),
        ensures
            bitset_contents(*old(active)).subset_of(bitset_contents(*final(active))),
            forall|x: nat|
                #[trigger] bitset_contents(*final(active)).contains(x) && !bitset_contents(
                    *old(active),
                ).contains(x) ==> x <= u32::MAX && reachable(config.edges@, start_idx, x as u32),
            r is Ok ==> bitset_contents(*final(active)).contains(start_idx as nat),
            r is Ok && closed_under(config.edges@, bitset_contents(*old(active))) ==> closed_under(
                config.edges@,
                bitset_contents(*final(active)),
            ),
            match r {
                Ok(()) => true,
                Err(e) => (e matches Error::BadEdgeIndex(a, b) && b >= config.nodes.len()
                    && walk_edge(config.edges@, a, b) && reachable(config.edges@, start_idx, a)),
            },
            edges_in_bounds(config.nodes.len() as nat, config.edges@) ==> r is Ok,
        decreases config.nodes.len() - pos(config.toposorted@, start_idx),
    {
        let ghost edges = config.edges@;
        let ghost initial = bitset_contents(*active);
        let ghost n = config.nodes.len() as nat;
        proof {
            lemma_pos(n, config.toposorted@, start_idx);
            lemma_scan(edges, start_idx, 0);
            lemma_scan_end(edges, start_idx, scan_start(edges, start_idx, 0));
            lemma_reach_self(edges, start_idx);
        }
        let len = config.edges.len();
        let mut i: usize = 0;
        while i < len && config.edges[i].from != start_idx
            invariant
                len == edges.len(),
                edges == config.edges@,
                i <= len,
                forall|j: int| 0 <= j < i ==> edges[j].from != start_idx,
            decreases len - i,
        {
            i = i + 1;
        }
        let ghost block_start = i as int;
        proof {
            lemma_scan(edges, start_idx, 0);
            if i < len {
                assert(scan_start(edges, start_idx, 0) == i) by {
                    let k = scan_start(edges, start_idx, 0);
                    if k < i {
                        assert(edges[k].from == start_idx);
                    }
                }
            } else {
                assert(scan_start(edges, start_idx, 0) == len);
            }
        }
        while i < len && config.edges[i].from == start_idx
            invariant
                config.wf(),
                start_idx < config.nodes.len(),
                n == config.nodes.len(),
                len == edges.len(),
                edges == config.edges@,
                block_start == scan_start(edges, start_idx, 0),
                block_start <= i <= scan_end(edges, start_idx, block_start),
                scan_end(edges, start_idx, block_start) <= len,
                forall|j: int| block_start <= j < scan_end(edges, start_idx, block_start) ==> edges[j].from == start_idx,
                scan_end(edges, start_idx, block_start) < len ==> edges[scan_end(edges, start_idx, block_start)].from != start_idx,
                0 <= pos(config.toposorted@, start_idx) < config.toposorted@.len(),
                config.toposorted@[pos(config.toposorted@, start_idx)] == start_idx,
                initial == bitset_contents(*old(active)),
                initial.subset_of(bitset_contents(*active)),
                forall|x: nat|
                    #[trigger] bitset_contents(*active).contains(x) && !initial.contains(x) ==> x
                        <= u32::MAX && reachable(edges, start_idx, x as u32),
                closed_under(edges, initial) ==> closed_under(edges, bitset_contents(*active)),
                forall|j: int| block_start <= j < i ==> bitset_contents(*active).contains(#[trigger] edges[j].to as nat),
                reachable(edges, start_idx, start_idx),
            decreases len - i,
        {
            let edge = config.edges[i];
            assert(in_block(edges, start_idx, i as int));
            assert(walk_edge(edges, start_idx, edge.to));
            if edge.to >= config.nodes.len() as u32 {
                return Err(Error::BadEdgeIndex(start_idx, edge.to));
            }
            if !bitset_contains(active, edge.to as usize) {
                proof {
                    lemma_pos(n, config.toposorted@, edge.to);
                    assert(config.toposorted@[pos(config.toposorted@, edge.to)] == edge.to);
                    assert(edges[i as int].from < n && edges[i as int].to < n);
                }
                let ghost before = bitset_contents(*active);
                let res = Self::find_active_nodes(config, edge.to, active);
                proof {
                    assert forall|x: nat|
                        #[trigger] bitset_contents(*active).contains(x) && !initial.contains(x) implies x
                        <= u32::MAX && reachable(edges, start_idx, x as u32) by {
                        if !before.contains(x) {
                            lemma_reach_prepend(edges, start_idx, edge.to, x as u32);
                        }
                    }
                }
                match res {
                    Ok(()) => {},
                    Err(e) => {
                        proof {
                            let a = e->BadEdgeIndex_0;
                            lemma_reach_prepend(edges, start_idx, edge.to, a);
                        }
                        return Err(e);
                    },
                }
            }
            i = i + 1;
        }
        proof {
            lemma_scan_end(edges, start_idx, block_start);
            assert(i == scan_end(edges, start_idx, block_start));
        }
        let ghost before = bitset_contents(*active);
        bitset_insert(active, start_idx as usize);
        proof {
            if closed_under(edges, initial) {
                assert forall|a: u32, j: int|
                    #![trigger bitset_contents(*active).contains(a as nat), in_block(edges, a, j)]
                    bitset_contents(*active).contains(a as nat) && in_block(edges, a, j) implies bitset_contents(
                    *active,
                ).contains(edges[j].to as nat) by {
                    if a != start_idx {
                        assert(before.contains(a as nat));
                    } else {
                        assert(bitset_contents(*active).contains(edges[j].to as nat));
                    }
                }
            }
        }
        Ok(())
    }

    /// The next node of the walk: the first active node at or after the cursor.
    pub fn next(&mut self) -> (r: Option<usize>)
        requires
            old(self).wf(),
        ensures
            final(self).wf(),
            final(self).config() == old(self).config(),
            final(self).active() == old(self).active(),
            match r {
                Some(x) => {
                    let j = final(self).cursor() - 1;
                    &&& old(self).cursor() <= j < old(self).config().toposorted@.len()
                    &&& x == old(self).config().toposorted@[j]
                    &&& old(self).active().contains(x as nat)
                    &&& forall|k: int|
                        old(self).cursor() <= k < j ==> !old(self).active().contains(
                            #[trigger] old(self).config().toposorted@[k] as nat,
                        )
                },
                None => {
                    &&& final(self).cursor() >= old(self).config().toposorted@.len()
                    &&& forall|k: int|
                        old(self).cursor() <= k < old(self).config().toposorted@.len()
                            ==> !old(self).active().contains(
                            #[trigger] old(self).config().toposorted@[k] as nat,
                        )
                },
            },
    {
        let len = self.config.toposorted.len();
        if self.current_index >= len {
            return None;
        }
        let ghost start = self.current_index as int;
        loop
            invariant
                self.wf(),
                self.config == old(self).config,
                self.active == old(self).active,
                start == old(self).current_index,
                len == self.config.toposorted.len(),
                start <= self.current_index <= len,
                forall|k: int|
                    start <= k < self.current_index ==> !bitset_contents(self.active).contains(
                        #[trigger] self.config.toposorted@[k] as nat,
                    ),
            decreases len + 1 - self.current_index,
        {
            let lookup_index = self.current_index;
            if lookup_index < len {
                self.current_index = lookup_index + 1;
                let node = self.config.toposorted[lookup_index];
                if bitset_contains(&self.active, node as usize) {
                    return Some(node as usize);
                }
            } else {
                return None;
            }
        }
    }

    /// Runs the walk to its end: the nodes it hands out from here on (see `walk_from`).
    pub fn rest(&mut self) -> (r: Vec<u32>)
        requires
            old(self).wf(),
        ensures
            final(self).wf(),
            final(self).config() == old(self).config(),
            r@ == walk_from(old(self).config().toposorted@, old(self).active(), old(self).cursor() as int),
    {
        let ghost order = self.config.toposorted@;
        let ghost act = self.active();
        let ghost start = self.cursor() as int;
        let mut out: Vec<u32> = Vec::new();
        loop
            invariant
                self.wf(),
                self.config == old(self).config,
                order == self.config.toposorted@,
                act == self.active(),
                act == old(self).active(),
                start == old(self).cursor(),
                out@ + walk_from(order, act, self.cursor() as int) == walk_from(order, act, start),
            decreases self.config.toposorted@.len() + 1 - self.cursor(),
        {
            let ghost before = self.cursor() as int;
            match self.next() {
                None => {
                    proof {
                        if before < order.len() {
                            lemma_walk_skip(order, act, before, order.len() as int);
                        }
                        assert(walk_from(order, act, before) =~= Seq::<u32>::empty());
                        assert(out@ + walk_from(order, act, before) =~= out@);
                    }
                    return out;
                },
                Some(x) => {
                    let ghost j = self.cursor() as int - 1;
                    proof {
                        lemma_walk_skip(order, act, before, j);
                        assert(walk_from(order, act, j) == seq![order[j]] + walk_from(order, act, j + 1));
                    }
                    let ghost prev = out@;
                    out.push(x as u32);
                    proof {
                        assert(out@ + walk_from(order, act, j + 1) =~= prev + (seq![order[j]] + walk_from(order, act, j + 1)));
                    }
                },
            }
        }
    }
}

/// The nodes a walk hands out from position `k` of `order` on: those of `active`, in order.
pub open spec fn walk_from(order: Seq<u32>, active: Set<nat>, k: int) -> Seq<u32>
    decreases order.len() - k,
{
    if k < 0 || k >= order.len() {
        Seq::empty()
    } else if active.contains(order[k] as nat) {
        seq![order[k]] + walk_from(order, active, k + 1)
    } else {
        walk_from(order, active, k + 1)
    }
}

/// Positions without active nodes add nothing to a walk.
proof fn lemma_walk_skip(order: Seq<u32>, active: Set<nat>, a: int, b: int)
    requires
        0 <= a <= b,
        forall|k: int| a <= k < b && k < order.len() ==> !active.contains(#[trigger] order[k] as nat),
    ensures
        walk_from(order, active, a) == walk_from(order, active, b),
    decreases b - a,
{
    if a < b {
        lemma_walk_skip(order, active, a + 1, b);
    }
}

/// A walk from position `k` of a node order hands out active nodes, each at or after `k`, in
/// strictly increasing positions, and every active node at or after `k`.
proof fn lemma_walk_props(n: nat, order: Seq<u32>, active: Set<nat>, k: int)
    requires
        is_node_order(n, order),
        n <= u32::MAX,
        0 <= k,
    ensures
        forall|a: int| 0 <= a < walk_from(order, active, k).len() ==> {
            let x = #[trigger] walk_from(order, active, k)[a];
            &&& x < n
            &&& k <= pos(order, x) < order.len()
            &&& order[pos(order, x)] == x
            &&& active.contains(x as nat)
        },
        forall|a: int, b: int| 0 <= a < b < walk_from(order, active, k).len() ==> pos(order, #[trigger] walk_from(order, active, k)[a])
            < pos(order, #[trigger] walk_from(order, active, k)[b]),
        forall|i: int| k <= i < order.len() && active.contains(#[trigger] order[i] as nat) ==> walk_from(order, active, k).contains(order[i]),
    decreases order.len() - k,
{
    if k < order.len() {
        lemma_walk_props(n, order, active, k + 1);
        let rest = walk_from(order, active, k + 1);
        let w = walk_from(order, active, k);
        let x = order[k];
        lemma_pos(n, order, x);
        assert(pos(order, x) == k);
        if active.contains(x as nat) {
            assert(w == seq![x] + rest);
            assert forall|a: int| 0 <= a < w.len() implies {
                let y = #[trigger] w[a];
                &&& y < n
                &&& k <= pos(order, y) < order.len()
                &&& order[pos(order, y)] == y
                &&& active.contains(y as nat)
            } by {
                if a > 0 {
                    assert(w[a] == rest[a - 1]);
                }
            }
            assert forall|a: int, b: int| 0 <= a < b < w.len() implies pos(order, #[trigger] w[a]) < pos(order, #[trigger] w[b]) by {
                assert(w[b] == rest[b - 1]);
                if a > 0 {
                    assert(w[a] == rest[a - 1]);
                }
            }
            assert forall|i: int| k <= i < order.len() && active.contains(#[trigger] order[i] as nat) implies w.contains(order[i]) by {
                if i == k {
                    assert(w[0] == order[i]);
                } else {
                    let c = choose|c: int| 0 <= c < rest.len() && rest[c] == order[i];
                    assert(w[c + 1] == order[i]);
                }
            }
        } else {
            assert(w == rest);
        }
    }
}

/// A walk started at a node hands out every node reachable from it and no other, each once, in
/// the stored topological order.
pub proof fn law_walk_visits_reachable_once(config: &DataFlowConfig, s: u32)
    requires
        config.wf(),
        edges_in_bounds(config.nodes.len() as nat, config.edges@),
        s < config.nodes.len(),
    ensures
        forall|x: u32| #[trigger] walk_from(config.toposorted@, reach_set(config.edges@, s), pos(config.toposorted@, s)).contains(x)
            <==> reachable(config.edges@, s, x),
        forall|a: int, b: int| 0 <= a < b < walk_from(config.toposorted@, reach_set(config.edges@, s), pos(config.toposorted@, s)).len()
            ==> pos(config.toposorted@, #[trigger] walk_from(config.toposorted@, reach_set(config.edges@, s), pos(config.toposorted@, s))[a])
            < pos(config.toposorted@, #[trigger] walk_from(config.toposorted@, reach_set(config.edges@, s), pos(config.toposorted@, s))[b]),
        walk_from(config.toposorted@, reach_set(config.edges@, s), pos(config.toposorted@, s)).no_duplicates(),
{
    let n = config.nodes.len() as nat;
    let order = config.toposorted@;
    let act = reach_set(config.edges@, s);
    lemma_pos(n, order, s);
    let k = pos(order, s);
    let w = walk_from(order, act, k);
    lemma_walk_props(n, order, act, k);
    assert forall|x: u32| #[trigger] w.contains(x) <==> reachable(config.edges@, s, x) by {
        if w.contains(x) {
            let a = choose|a: int| 0 <= a < w.len() && w[a] == x;
            assert(act.contains(w[a] as nat));
        }
        if reachable(config.edges@, s, x) {
            lemma_reachable_after_start(config, s, x);
            lemma_pos(n, order, x);
            assert(act.contains(order[pos(order, x)] as nat));
        }
    }
    assert forall|a: int, b: int| 0 <= a < w.len() && 0 <= b < w.len() && a != b implies w[a] != w[b] by {
        if a < b {
            assert(pos(order, w[a]) < pos(order, w[b]));
        } else {
            assert(pos(order, w[b]) < pos(order, w[a]));
        }
    }
}

/// Along a walk between in-bound nodes, positions in the stored order never decrease.
proof fn lemma_walk_forward(config: &DataFlowConfig, p: Seq<u32>, k: int)
    requires
        config.wf(),
        edges_in_bounds(config.nodes.len() as nat, config.edges@),
        is_walk(config.edges@, p),
        p[0] < config.nodes.len(),
        0 <= k < p.len(),
    ensures
        p[k] < config.nodes.len(),
        pos(config.toposorted@, p[0]) <= pos(config.toposorted@, p[k]),
    decreases k,
{
    let n = config.nodes.len() as nat;
    let order = config.toposorted@;
    let edges = config.edges@;
    lemma_pos(n, order, p[0]);
    if k > 0 {
        lemma_walk_forward(config, p, k - 1);
        assert(walk_edge(edges, p[k - 1], p[k]));
        let i = choose|i: int| in_block(edges, p[k - 1], i) && edges[i].to == p[k];
        lemma_in_block(edges, p[k - 1], i);
        assert(edges[i].from < n && edges[i].to < n);
        lemma_pos(n, order, p[k - 1]);
        lemma_pos(n, order, p[k]);
    }
}

/// Along followed edges between in-bound nodes, positions in the stored order never decrease:
/// every node reachable from `s` comes at or after `s`, so a walk from `s` sees all of them.
pub proof fn lemma_reachable_after_start(config: &DataFlowConfig, s: u32, v: u32)
    requires
        config.wf(),
        edges_in_bounds(config.nodes.len() as nat, config.edges@),
        s < config.nodes.len(),
        reachable(config.edges@, s, v),
    ensures
        v < config.nodes.len(),
        pos(config.toposorted@, s) <= pos(config.toposorted@, v),
{
    let p = choose|p: Seq<u32>| is_walk(config.edges@, p) && p[0] == s && p.last() == v;
    lemma_walk_forward(config, p, p.len() - 1);
}

} // verus!
