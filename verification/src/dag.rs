//! The resource dependency graph: distinct resource identifiers, explicit
//! "depends on" edges between them, and the order in which the resources
//! can be provisioned. The graph itself is kept by `petgraph`.

use vstd::prelude::*;
use vstd::hash_map::StringHashMap;
use vstd::set_lib::{
    lemma_int_range, lemma_len_subset, lemma_subset_equality, set_int_range,
};
use crate::text::texts;

verus! {

/// `petgraph`'s adjacency-list graph. Verus sees nothing inside it.
#[verifier::external_type_specification]
#[verifier::external_body]
#[verifier::reject_recursive_types(N)]
#[verifier::reject_recursive_types(E)]
#[verifier::reject_recursive_types(Ty)]
#[verifier::reject_recursive_types(Ix)]
pub struct ExGraph<N, E, Ty, Ix>(petgraph::graph::Graph<N, E, Ty, Ix>);

/// `petgraph`'s marker for graphs with directed edges.
#[verifier::external_type_specification]
#[verifier::external_body]
pub struct ExDirected(petgraph::Directed);

/// The node weights of a graph, by node index: the order in which the
/// nodes were added.
pub uninterp spec fn graph_nodes(
    g: petgraph::graph::Graph<String, (), petgraph::Directed, usize>,
) -> Seq<Seq<char>>;

/// The edges of a graph as pairs of node indices, source first, by edge
/// index. This library only ever adds to a graph, so this is the order in
/// which the edges were added, and it fixes the graph's adjacency lists.
pub uninterp spec fn graph_edges(
    g: petgraph::graph::Graph<String, (), petgraph::Directed, usize>,
) -> Seq<(int, int)>;

/// What `petgraph::algo::toposort` returns for the graph with `nodes`
/// nodes and the given edges: the node indices in its order, or a node on
/// a cycle.
pub uninterp spec fn toposort_of(nodes: nat, edges: Seq<(int, int)>) -> Result<Seq<int>, int>;

/// `order` lists each of the indices `0..n` exactly once.
pub open spec fn is_permutation(order: Seq<int>, n: nat) -> bool {
    &&& order.len() == n
    &&& order.no_duplicates()
    &&& forall|i: int| 0 <= i < order.len() ==> 0 <= #[trigger] order[i] < n
}

/// In `order`, the source of every edge stands before its target.
pub open spec fn sorts(order: Seq<int>, edges: Seq<(int, int)>) -> bool {
    forall|i: int, j: int|
        0 <= i < order.len() && 0 <= j < order.len() && edges.contains(
            (#[trigger] order[i], #[trigger] order[j]),
        ) ==> i < j
}

/// `walk` follows edges from a node back to that node.
pub open spec fn is_closed_walk(walk: Seq<int>, edges: Seq<(int, int)>) -> bool {
    &&& walk.len() >= 2
    &&& walk.first() == walk.last()
    &&& forall|k: int| 0 <= k < walk.len() - 1 ==> edges.contains((#[trigger] walk[k], walk[k + 1]))
}

/// Some walk along the edges returns to where it started. A loop from a
/// node to itself is such a walk.
pub open spec fn has_cycle(edges: Seq<(int, int)>) -> bool {
    exists|walk: Seq<int>| is_closed_walk(walk, edges)
}

/// The indices held by a vector, as mathematical integers.
pub open spec fn ints(v: Seq<usize>) -> Seq<int> {
    Seq::new(v.len(), |i: int| v[i] as int)
}

/// The model of what the sort wrapper returns.
pub open spec fn index_result(r: Result<Vec<usize>, usize>) -> Result<Seq<int>, int> {
    match r {
        Ok(v) => Ok(ints(v@)),
        Err(node) => Err(node as int),
    }
}

/// `Graph::with_capacity`: a graph without nodes and edges.
#[verifier::external_body]
fn graph_new() -> (g: petgraph::graph::Graph<String, (), petgraph::Directed, usize>)
    ensures
        graph_nodes(g) == Seq::<Seq<char>>::empty(),
        graph_edges(g) == Seq::<(int, int)>::empty(),
{
    petgraph::graph::Graph::with_capacity(0, 0)
}

/// `Graph::node_count`: the number of nodes.
#[verifier::external_body]
fn graph_node_count(
    g: &petgraph::graph::Graph<String, (), petgraph::Directed, usize>,
) -> (n: usize)
    ensures
        n == graph_nodes(*g).len(),
{
    g.node_count()
}

/// `Graph::edge_count`: the number of edges.
#[verifier::external_body]
fn graph_edge_count(
    g: &petgraph::graph::Graph<String, (), petgraph::Directed, usize>,
) -> (n: usize)
    ensures
        n == graph_edges(*g).len(),
{
    g.edge_count()
}

/// `Graph::add_node`: the new node gets the next index and leaves all
/// else as it was. With `usize` indices the graph is never full.
#[verifier::external_body]
fn graph_add_node(
    g: &mut petgraph::graph::Graph<String, (), petgraph::Directed, usize>,
    name: String,
) -> (index: usize)
    ensures
        index == graph_nodes(*old(g)).len(),
        graph_nodes(*final(g)) == graph_nodes(*old(g)).push(name@),
        graph_edges(*final(g)) == graph_edges(*old(g)),
{
    g.add_node(name).index()
}

/// `Graph::update_edge` with the unit weight: an edge that is already
/// there stays as it is, a new one is added behind the others. The call
/// panics on an unknown node, which the preconditions rule out; with
/// `usize` indices the graph is never full.
#[verifier::external_body]
fn graph_update_edge(
    g: &mut petgraph::graph::Graph<String, (), petgraph::Directed, usize>,
    from: usize,
    to: usize,
)
    requires
        from < graph_nodes(*old(g)).len(),
        to < graph_nodes(*old(g)).len(),
    ensures
        graph_nodes(*final(g)) == graph_nodes(*old(g)),
        graph_edges(*final(g)) == (if graph_edges(*old(g)).contains((from as int, to as int)) {
            graph_edges(*old(g))
        } else {
            graph_edges(*old(g)).push((from as int, to as int))
        }),
{
    g.update_edge(
        petgraph::graph::NodeIndex::new(from),
        petgraph::graph::NodeIndex::new(to),
        (),
    );
}

/// Indexing a graph by a node index: a copy of that node's weight. The
/// call panics on an unknown node, which the precondition rules out.
#[verifier::external_body]
fn graph_node_name(
    g: &petgraph::graph::Graph<String, (), petgraph::Directed, usize>,
    index: usize,
) -> (name: String)
    requires
        index < graph_nodes(*g).len(),
    ensures
        name@ == graph_nodes(*g)[index as int],
{
    g[petgraph::graph::NodeIndex::new(index)].clone()
}

/// `petgraph::algo::toposort`: for a graph without cycles, all nodes in an
/// order in which each node stands before its successors; for any other
/// graph, an error. The search walks the adjacency lists and uses nothing
/// else, so for a graph that has only grown the result depends on the
/// number of nodes and the sequence of edges alone.
#[verifier::external_body]
fn graph_toposort(
    g: &petgraph::graph::Graph<String, (), petgraph::Directed, usize>,
) -> (r: Result<Vec<usize>, usize>)
    ensures
        index_result(r) == toposort_of(graph_nodes(*g).len(), graph_edges(*g)),
        r is Ok <==> !has_cycle(graph_edges(*g)),
        r matches Ok(order) ==> is_permutation(ints(order@), graph_nodes(*g).len()) && sorts(
            ints(order@),
            graph_edges(*g),
        ),
{
    match petgraph::algo::toposort(g, None) {
        Ok(order) => Ok(order.into_iter().map(|node| node.index()).collect()),
        Err(cycle) => Err(cycle.node_id().index()),
    }
}

/// Why an operation on the graph failed.
#[derive(Clone, Copy, Debug, PartialEq, Eq, Structural)]
pub enum GraphError {
    /// A dependency names a resource that was never added.
    NotFound,
    /// The dependencies run in a circle.
    CycleDetected,
}

/// The mathematical content of a [`ResourceGraph`].
pub struct GraphModel {
    /// The resource identifiers in the order in which they were added.
    pub nodes: Seq<Seq<char>>,
    /// The dependencies as pairs of positions in `nodes`: the first
    /// depends on the second.
    pub edges: Seq<(int, int)>,
}

impl GraphModel {
    /// No identifier and no dependency occurs twice, and dependencies
    /// hold between identifiers of the graph.
    pub open spec fn well_formed(self) -> bool {
        &&& self.nodes.no_duplicates()
        &&& self.edges.no_duplicates()
        &&& forall|k: int|
            0 <= k < self.edges.len() ==> 0 <= (#[trigger] self.edges[k]).0 < self.nodes.len() && 0
                <= self.edges[k].1 < self.nodes.len()
    }

    /// Whether `id` was added.
    pub open spec fn contains(self, id: Seq<char>) -> bool {
        self.nodes.contains(id)
    }

    /// Whether `from` was declared to depend on `to`.
    pub open spec fn depends_on(self, from: Seq<char>, to: Seq<char>) -> bool {
        exists|i: int, j: int|
            0 <= i < self.nodes.len() && 0 <= j < self.nodes.len() && self.nodes[i] == from
                && self.nodes[j] == to && #[trigger] self.edges.contains((i, j))
    }

    /// The graph with `id` among its resources.
    pub open spec fn with_resource(self, id: Seq<char>) -> GraphModel {
        if self.contains(id) {
            self
        } else {
            GraphModel { nodes: self.nodes.push(id), edges: self.edges }
        }
    }

    /// The graph in which `from` depends on `to`, both being resources of it.
    pub open spec fn with_dependency(self, from: Seq<char>, to: Seq<char>) -> GraphModel {
        let edge = (self.nodes.index_of(from), self.nodes.index_of(to));
        if self.edges.contains(edge) {
            self
        } else {
            GraphModel { nodes: self.nodes, edges: self.edges.push(edge) }
        }
    }

    /// Whether the dependencies run in a circle.
    pub open spec fn has_cycle(self) -> bool {
        has_cycle(self.edges)
    }

    /// Whether `order` lists every resource once and each resource behind
    /// all those it depends on.
    pub open spec fn is_order(self, order: Seq<Seq<char>>) -> bool {
        &&& order.len() == self.nodes.len()
        &&& order.no_duplicates()
        &&& forall|id: Seq<char>| self.contains(id) <==> #[trigger] order.contains(id)
        &&& forall|i: int, j: int|
            0 <= i < order.len() && 0 <= j < order.len() && self.depends_on(
                #[trigger] order[i],
                #[trigger] order[j],
            ) ==> j < i
    }

    /// The provisioning order of the graph: the sorted node indices read
    /// backwards, each replaced by its identifier.
    pub open spec fn ordered(self) -> Result<Seq<Seq<char>>, GraphError> {
        match toposort_of(self.nodes.len(), self.edges) {
            Ok(indices) => Ok(
                Seq::new(indices.len(), |k: int| self.nodes[indices[indices.len() - 1 - k]]),
            ),
            Err(_) => Err(GraphError::CycleDetected),
        }
    }
}

/// The model of a list of identifiers, or of the error in its place.
pub open spec fn order_result(
    r: Result<Vec<String>, GraphError>,
) -> Result<Seq<Seq<char>>, GraphError> {
    match r {
        Ok(v) => Ok(texts(v@)),
        Err(e) => Err(e),
    }
}

/// Resources and the dependencies between them.
pub struct ResourceGraph {
    graph: petgraph::graph::Graph<String, (), petgraph::Directed, usize>,
    nodes: StringHashMap<usize>,
}

impl View for ResourceGraph {
    type V = GraphModel;

    closed spec fn view(&self) -> GraphModel {
        GraphModel { nodes: graph_nodes(self.graph), edges: graph_edges(self.graph) }
    }
}

impl ResourceGraph {
    /// The graph's content is well formed and its index of identifiers
    /// agrees with its nodes.
    pub closed spec fn well_formed(&self) -> bool {
        &&& self@.well_formed()
        &&& forall|i: int|
            0 <= i < self@.nodes.len() ==> self.nodes@.contains_key(#[trigger] self@.nodes[i])
                && self.nodes@[self@.nodes[i]] == i
        &&& forall|id: Seq<char>| #[trigger]
            self.nodes@.contains_key(id) ==> 0 <= self.nodes@[id] < self@.nodes.len()
                && self@.nodes[self.nodes@[id] as int] == id
    }

    /// A well-formed graph has well-formed content.
    pub proof fn lemma_content_well_formed(&self)
        requires
            self.well_formed(),
        ensures
            self@.well_formed(),
    {
    }

    /// A graph without resources.
    pub fn new() -> (r: ResourceGraph)
        ensures
            r.well_formed(),
            r@.nodes.len() == 0,
            r@.edges.len() == 0,
    {
        ResourceGraph { graph: graph_new(), nodes: StringHashMap::new() }
    }

    /// The number of resources.
    pub fn resource_count(&self) -> (n: usize)
        ensures
            n == self@.nodes.len(),
    {
        graph_node_count(&self.graph)
    }

    /// The number of dependencies.
    pub fn dependency_count(&self) -> (n: usize)
        ensures
            n == self@.edges.len(),
    {
        graph_edge_count(&self.graph)
    }

    /// Whether `name` was added.
    pub fn has_resource(&self, name: &str) -> (r: bool)
        requires
            self.well_formed(),
        ensures
            r == self@.contains(name@),
    {
        let r = self.nodes.contains_key(name);
        proof {
            if self@.contains(name@) {
                let i = choose|i: int| 0 <= i < self@.nodes.len() && self@.nodes[i] == name@;
                assert(self.nodes@.contains_key(self@.nodes[i]));
            }
            if r {
                assert(self@.nodes[self.nodes@[name@] as int] == name@);
            }
        }
        r
    }

    /// Adds the resource `name` unless it is there already, and returns
    /// its position among the resources.
    pub fn add_resource(&mut self, name: &str) -> (index: usize)
        requires
            old(self).well_formed(),
        ensures
            final(self).well_formed(),
            final(self)@ == old(self)@.with_resource(name@),
            0 <= index < final(self)@.nodes.len(),
            final(self)@.nodes[index as int] == name@,
    {
        let known = self.has_resource(name);
        if known {
            let found = self.nodes.get(name);
            *found.unwrap()
        } else {
            let ghost before = self@;
            let ghost index_before = self.nodes@;
            let index = graph_add_node(&mut self.graph, name.to_owned());
            self.nodes.insert(name.to_owned(), index);
            proof {
                let now = self@;
                assert(now.nodes == before.nodes.push(name@));
                assert(now.nodes.no_duplicates()) by {
                    assert forall|i: int, j: int|
                        0 <= i < now.nodes.len() && 0 <= j < now.nodes.len() && i
                            != j implies now.nodes[i] != now.nodes[j] by {
                        if i < before.nodes.len() {
                            assert(before.nodes.contains(before.nodes[i]));
                        }
                        if j < before.nodes.len() {
                            assert(before.nodes.contains(before.nodes[j]));
                        }
                    }
                }
                assert forall|i: int| 0 <= i < now.nodes.len() implies self.nodes@.contains_key(
                    #[trigger] now.nodes[i],
                ) && self.nodes@[now.nodes[i]] == i by {
                    if i < before.nodes.len() {
                        assert(before.nodes.contains(before.nodes[i]));
                        assert(index_before.contains_key(before.nodes[i]));
                    }
                }
                assert forall|id: Seq<char>| #[trigger] self.nodes@.contains_key(id) implies 0
                    <= self.nodes@[id] < now.nodes.len() && now.nodes[self.nodes@[id] as int]
                    == id by {
                    if id != name@ {
                        assert(index_before.contains_key(id));
                    }
                }
            }
            index
        }
    }

    /// Declares that `from` depends on `to`. Both must have been added;
    /// if one was not, the graph stays as it is. Declaring a dependency
    /// again changes nothing.
    pub fn add_dependency(&mut self, from: &str, to: &str) -> (r: Result<(), GraphError>)
        requires
            old(self).well_formed(),
        ensures
            final(self).well_formed(),
            old(self)@.contains(from@) && old(self)@.contains(to@) ==> r == Ok::<(), GraphError>(())
                && final(self)@ == old(self)@.with_dependency(from@, to@),
            !(old(self)@.contains(from@) && old(self)@.contains(to@)) ==> r == Err::<
                (),
                GraphError,
            >(GraphError::NotFound) && final(self)@ == old(self)@,
    {
        if !self.has_resource(from) || !self.has_resource(to) {
            return Err(GraphError::NotFound);
        }
        let source = *self.nodes.get(from).unwrap();
        let target = *self.nodes.get(to).unwrap();
        let ghost before = self@;
        proof {
            lemma_index_of(before.nodes, source as int);
            lemma_index_of(before.nodes, target as int);
        }
        graph_update_edge(&mut self.graph, source, target);
        proof {
            let now = self@;
            let edge = (source as int, target as int);
            if !before.edges.contains(edge) {
                assert(now.edges == before.edges.push(edge));
                assert(now.edges.no_duplicates()) by {
                    assert forall|i: int, j: int|
                        0 <= i < now.edges.len() && 0 <= j < now.edges.len() && i
                            != j implies now.edges[i] != now.edges[j] by {
                        if i < before.edges.len() {
                            assert(before.edges.contains(before.edges[i]));
                        }
                        if j < before.edges.len() {
                            assert(before.edges.contains(before.edges[j]));
                        }
                    }
                }
            }
        }
        Ok(())
    }

    /// Lists the resources in an order in which they can be provisioned:
    /// each resource stands behind all those it depends on. Fails with
    /// `CycleDetected` exactly when the dependencies run in a circle. The
    /// order is a function of the graph's content: asking again gives the
    /// same list.
    pub fn get_ordered_resources(&self) -> (r: Result<Vec<String>, GraphError>)
        requires
            self.well_formed(),
        ensures
            order_result(r) == self@.ordered(),
            r is Ok <==> !self@.has_cycle(),
            r matches Ok(order) ==> self@.is_order(texts(order@)),
            r matches Err(e) ==> e == GraphError::CycleDetected,
    {
        match graph_toposort(&self.graph) {
            Err(_) => Err(GraphError::CycleDetected),
            Ok(sorted) => {
                let n = sorted.len();
                let mut order: Vec<String> = Vec::new();
                let mut k: usize = 0;
                while k < n
                    invariant
                        k <= n,
                        n == sorted@.len(),
                        n == self@.nodes.len(),
                        is_permutation(ints(sorted@), self@.nodes.len()),
                        order@.len() == k,
                        forall|i: int|
                            0 <= i < k ==> (#[trigger] order@[i])@ == self@.nodes[sorted@[n - 1
                                - i] as int],
                    decreases n - k,
                {
                    let index = sorted[n - 1 - k];
                    assert(ints(sorted@)[n - 1 - k] == index);
                    order.push(graph_node_name(&self.graph, index));
                    k = k + 1;
                }
                proof {
                    let indices = ints(sorted@);
                    let names = texts(order@);
                    assert(names =~= Seq::new(
                        indices.len(),
                        |k: int| self@.nodes[indices[indices.len() - 1 - k]],
                    ));
                    lemma_reversed_sort_is_order(self@, indices, names);
                }
                Ok(order)
            },
        }
    }
}

/// A permutation of `0..n` lists every one of these indices.
pub proof fn lemma_permutation_lists_all(order: Seq<int>, n: nat, k: int)
    requires
        is_permutation(order, n),
        0 <= k < n,
    ensures
        order.contains(k),
{
    let listed = order.to_set();
    let all = set_int_range(0, n as int);
    order.unique_seq_to_set();
    lemma_int_range(0, n as int);
    assert(listed.subset_of(all)) by {
        assert forall|x: int| listed.contains(x) implies all.contains(x) by {
            let i = choose|i: int| 0 <= i < order.len() && order[i] == x;
            assert(0 <= order[i] < n);
        }
    }
    lemma_len_subset(listed, all);
    lemma_subset_equality(listed, all);
    assert(all.contains(k));
    assert(listed.contains(k));
}

/// While the resources are provisioned in order, everything that a
/// resource depends on has been provisioned before its turn comes.
pub proof fn lemma_dependencies_come_first(
    g: GraphModel,
    order: Seq<Seq<char>>,
    i: int,
    dependency: Seq<char>,
)
    requires
        g.is_order(order),
        0 <= i < order.len(),
        g.depends_on(order[i], dependency),
    ensures
        order.take(i).contains(dependency),
{
    assert(g.contains(dependency));
    assert(order.contains(dependency));
    let j = choose|j: int| 0 <= j < order.len() && order[j] == dependency;
    assert(g.depends_on(order[i], order[j]));
    assert(order.take(i)[j] == dependency);
}

/// In a sequence without duplicates, the position of an element is its index.
pub proof fn lemma_index_of(s: Seq<Seq<char>>, i: int)
    requires
        s.no_duplicates(),
        0 <= i < s.len(),
    ensures
        s.index_of(s[i]) == i,
{
    assert(s.contains(s[i]));
}

/// Reading a sort of the "depends on" edges backwards, by name, gives a
/// provisioning order.
pub proof fn lemma_reversed_sort_is_order(g: GraphModel, indices: Seq<int>, names: Seq<Seq<char>>)
    requires
        g.well_formed(),
        is_permutation(indices, g.nodes.len()),
        sorts(indices, g.edges),
        names.len() == indices.len(),
        forall|k: int| 0 <= k < names.len() ==> names[k] == g.nodes[indices[indices.len() - 1 - k]],
    ensures
        g.is_order(names),
{
    let n = names.len() as int;
    assert forall|i: int, j: int| 0 <= i < n && 0 <= j < n && i != j implies names[i]
        != names[j] by {
        assert(indices[n - 1 - i] != indices[n - 1 - j]);
    }
    assert forall|id: Seq<char>| g.contains(id) <==> #[trigger] names.contains(id) by {
        if names.contains(id) {
            let i = choose|i: int| 0 <= i < n && names[i] == id;
            assert(g.nodes[indices[n - 1 - i]] == id);
        }
        if g.contains(id) {
            let k = choose|k: int| 0 <= k < g.nodes.len() && g.nodes[k] == id;
            lemma_permutation_lists_all(indices, n as nat, k);
            let p = choose|p: int| 0 <= p < n && indices[p] == k;
            assert(names[n - 1 - p] == id);
        }
    }
    assert forall|i: int, j: int|
        0 <= i < n && 0 <= j < n && g.depends_on(
            #[trigger] names[i],
            #[trigger] names[j],
        ) implies j < i by {
        let (a, b) = choose|a: int, b: int|
            0 <= a < g.nodes.len() && 0 <= b < g.nodes.len() && g.nodes[a] == names[i]
                && g.nodes[b] == names[j] && #[trigger] g.edges.contains((a, b));
        assert(a == indices[n - 1 - i]);
        assert(b == indices[n - 1 - j]);
        assert(g.edges.contains((indices[n - 1 - i], indices[n - 1 - j])));
    }
}

/// Adding a resource a second time changes nothing.
pub proof fn lemma_add_resource_twice(g: GraphModel, id: Seq<char>)
    ensures
        g.with_resource(id).with_resource(id) == g.with_resource(id),
{
    if !g.contains(id) {
        let h = g.with_resource(id);
        assert(h.nodes[h.nodes.len() - 1] == id);
    }
}

/// Declaring a dependency a second time changes nothing.
pub proof fn lemma_add_dependency_twice(g: GraphModel, from: Seq<char>, to: Seq<char>)
    ensures
        g.with_dependency(from, to).with_dependency(from, to) == g.with_dependency(from, to),
{
    let edge = (g.nodes.index_of(from), g.nodes.index_of(to));
    if !g.edges.contains(edge) {
        let h = g.with_dependency(from, to);
        assert(h.edges[h.edges.len() - 1] == edge);
    }
}

/// The provisioning order is a function of the graph's content: two
/// results for the same content are the same.
pub proof fn lemma_order_is_reproducible(
    g: GraphModel,
    first: Result<Vec<String>, GraphError>,
    second: Result<Vec<String>, GraphError>,
)
    requires
        order_result(first) == g.ordered(),
        order_result(second) == g.ordered(),
    ensures
        order_result(first) == order_result(second),
{
}

/// Two resources that depend on each other form a cycle.
pub proof fn lemma_mutual_dependency_is_cycle(g: GraphModel, a: Seq<char>, b: Seq<char>)
    requires
        g.well_formed(),
        g.depends_on(a, b),
        g.depends_on(b, a),
    ensures
        g.has_cycle(),
{
    let (i, j) = choose|i: int, j: int|
        0 <= i < g.nodes.len() && 0 <= j < g.nodes.len() && g.nodes[i] == a && g.nodes[j] == b
            && #[trigger] g.edges.contains((i, j));
    let (k, l) = choose|k: int, l: int|
        0 <= k < g.nodes.len() && 0 <= l < g.nodes.len() && g.nodes[k] == b && g.nodes[l] == a
            && #[trigger] g.edges.contains((k, l));
    let walk = seq![i, j, i];
    assert(k == j && l == i);
    assert(is_closed_walk(walk, g.edges));
}

} // verus!
