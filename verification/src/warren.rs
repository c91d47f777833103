//! The rooms and corridors of a dungeon, held in a `petgraph` graph.
//!
//! Verus cannot look inside the graph, so what it holds is given two names:
//! [`node_weights`], the numbers of the rooms, and [`edge_ends`], the two
//! ends of each corridor. The contracts of the methods of `petgraph` that
//! are called here are stated over these names and taken on trust from its
//! source; what the library does with the graph is proved from them.

use crate::dice::random_index;
use crate::dungeon::{
    all_pairs, lemma_pairs_below_len, lemma_pairs_in_range, may_remove, room_pairs,
};
use petgraph::graph::{EdgeIndex, Graph, NodeIndex};
use vstd::prelude::*;

verus! {

/// `petgraph::graph::Graph`, a graph of nodes and edges that are known by
/// their indices. Verus is told that the type is there and nothing of what
/// is inside.
#[verifier::external_type_specification]
#[verifier::external_body]
#[verifier::reject_recursive_types(N)]
#[verifier::reject_recursive_types(E)]
#[verifier::reject_recursive_types(Ty)]
#[verifier::reject_recursive_types(Ix)]
pub struct ExGraph<N, E, Ty, Ix>(petgraph::graph::Graph<N, E, Ty, Ix>);

/// `petgraph::Directed`, the mark of a graph whose edges have a direction.
#[verifier::external_type_specification]
#[verifier::external_body]
pub struct ExDirected(petgraph::Directed);

/// The weights of the nodes of a graph, in the order of their indices.
pub uninterp spec fn node_weights(graph: Graph<u16, ()>) -> Seq<u16>;

/// The edges of a graph, in the order of their indices: of each the index
/// of the node it leaves and the index of the node it reaches.
pub uninterp spec fn edge_ends(graph: Graph<u16, ()>) -> Seq<(int, int)>;

/// The number of edges that leave `node`.
pub open spec fn out_degree(edges: Seq<(int, int)>, node: int) -> nat
    decreases edges.len(),
{
    if edges.len() == 0 {
        0
    } else if edges.last().0 == node {
        out_degree(edges.drop_last(), node) + 1
    } else {
        out_degree(edges.drop_last(), node)
    }
}

/// The edges after the one numbered `edge` was taken out: the last edge
/// takes its place.
pub open spec fn swap_removed(edges: Seq<(int, int)>, edge: int) -> Seq<(int, int)> {
    edges.update(edge, edges.last()).drop_last()
}

/// The edges after an attempt to take out the one numbered `edge`: it goes
/// only if it is there and if more than one edge leaves each of its ends.
pub open spec fn pruned(edges: Seq<(int, int)>, edge: int) -> Seq<(int, int)> {
    if 0 <= edge < edges.len() && out_degree(edges, edges[edge].0) > 1 && out_degree(
        edges,
        edges[edge].1,
    ) > 1 {
        swap_removed(edges, edge)
    } else {
        edges
    }
}

/// `Graph::with_capacity`: a graph without nodes and edges that has room
/// for `nodes` nodes and `edges` edges. A node and an edge of this graph
/// take no more than 16 bytes each, and the call panics where the room asked
/// for is more than `isize::MAX` bytes; the bounds required here keep it
/// below that on every machine.
#[verifier::external_body]
fn new_graph(nodes: usize, edges: usize) -> (graph: Graph<u16, ()>)
    requires
        nodes <= 0xffff,
        edges <= 0x7ff_ffff,
    ensures
        node_weights(graph) == Seq::<u16>::empty(),
        edge_ends(graph) == Seq::<(int, int)>::empty(),
{
    Graph::with_capacity(nodes, edges)
}

/// `Graph::add_node` appends a node with the given weight and returns its
/// index. It panics where the graph holds `u32::MAX` nodes already.
#[verifier::external_body]
fn add_node(graph: &mut Graph<u16, ()>, weight: u16) -> (index: usize)
    requires
        node_weights(*old(graph)).len() < u32::MAX,
    ensures
        index == node_weights(*old(graph)).len(),
        node_weights(*final(graph)) == node_weights(*old(graph)).push(weight),
        edge_ends(*final(graph)) == edge_ends(*old(graph)),
{
    graph.add_node(weight).index()
}

/// `Graph::add_edge` appends an edge from the node `source` to the node
/// `target` and returns its index. It panics where one of the nodes is not
/// there, and where the graph holds `u32::MAX` edges already.
#[verifier::external_body]
fn add_edge(graph: &mut Graph<u16, ()>, source: usize, target: usize) -> (index: usize)
    requires
        source < node_weights(*old(graph)).len(),
        target < node_weights(*old(graph)).len(),
        node_weights(*old(graph)).len() <= u32::MAX,
        edge_ends(*old(graph)).len() < u32::MAX,
    ensures
        index == edge_ends(*old(graph)).len(),
        edge_ends(*final(graph)) == edge_ends(*old(graph)).push((source as int, target as int)),
        node_weights(*final(graph)) == node_weights(*old(graph)),
{
    graph.add_edge(NodeIndex::new(source), NodeIndex::new(target), ()).index()
}

/// `Graph::edge_count`: the number of edges.
#[verifier::external_body]
fn edge_count(graph: &Graph<u16, ()>) -> (count: usize)
    ensures
        count == edge_ends(*graph).len(),
{
    graph.edge_count()
}

/// `Graph::edge_endpoints`: the two ends of the edge numbered `edge`, or
/// nothing where the graph has no such edge.
#[verifier::external_body]
fn edge_endpoints(graph: &Graph<u16, ()>, edge: usize) -> (found: Option<(usize, usize)>)
    requires
        edge <= u32::MAX,
    ensures
        found is Some <==> edge < edge_ends(*graph).len(),
        found matches Some(pair) ==> pair.0 == edge_ends(*graph)[edge as int].0 && pair.1
            == edge_ends(*graph)[edge as int].1,
{
    graph.edge_endpoints(EdgeIndex::new(edge)).map(|(s, t)| (s.index(), t.index()))
}

/// `Graph::neighbors`, counted: in a directed graph it yields one node for
/// each edge that leaves `node`.
#[verifier::external_body]
fn neighbor_count(graph: &Graph<u16, ()>, node: usize) -> (count: usize)
    requires
        node < node_weights(*graph).len(),
        node <= u32::MAX,
    ensures
        count == out_degree(edge_ends(*graph), node as int),
{
    graph.neighbors(NodeIndex::new(node)).count()
}

/// `Graph::remove_edge` takes out the edge numbered `edge`, if there is
/// one, and says whether there was. The last edge of the graph then takes
/// the index of the one that went; the nodes stay as they are.
#[verifier::external_body]
fn remove_edge(graph: &mut Graph<u16, ()>, edge: usize) -> (removed: bool)
    requires
        edge <= u32::MAX,
    ensures
        removed == (edge < edge_ends(*old(graph)).len()),
        removed ==> edge_ends(*final(graph)) == swap_removed(edge_ends(*old(graph)), edge as int),
        !removed ==> edge_ends(*final(graph)) == edge_ends(*old(graph)),
        node_weights(*final(graph)) == node_weights(*old(graph)),
{
    graph.remove_edge(EdgeIndex::new(edge)).is_some()
}

/// Indexing a `Graph` by a node index gives the weight of that node. It
/// panics where the node is not there.
#[verifier::external_body]
fn node_weight(graph: &Graph<u16, ()>, node: usize) -> (weight: u16)
    requires
        node < node_weights(*graph).len(),
        node <= u32::MAX,
    ensures
        weight == node_weights(*graph)[node as int],
{
    graph[NodeIndex::new(node)]
}

/// What a warren holds.
pub struct Plan {
    /// The numbers of the rooms.
    pub rooms: Seq<u16>,
    /// The corridors that are left, each from one room to another, both
    /// given by their place among the rooms.
    pub ways: Seq<(int, int)>,
    /// The numbers under which the corridors were made: those from which
    /// one is picked when a corridor is to go.
    pub picks: Seq<usize>,
}

/// The rooms of a dungeon and the corridors between them.
pub struct Warren {
    graph: Graph<u16, ()>,
    corridors: Vec<usize>,
}

impl View for Warren {
    type V = Plan;

    closed spec fn view(&self) -> Plan {
        Plan {
            rooms: node_weights(self.graph),
            ways: edge_ends(self.graph),
            picks: self.corridors@,
        }
    }
}

/// Every corridor joins two rooms that are there, and there are no more
/// corridors than numbers to pick from, all of them numbers that an edge of
/// the graph can have.
pub open spec fn sound(plan: Plan) -> bool {
    &&& plan.rooms.len() <= u16::MAX
    &&& plan.ways.len() <= plan.picks.len() < u32::MAX
    &&& forall|e: int|
        0 <= e < plan.ways.len() ==> 0 <= (#[trigger] plan.ways[e]).0 < plan.rooms.len() && 0
            <= plan.ways[e].1 < plan.rooms.len()
    &&& forall|i: int| 0 <= i < plan.picks.len() ==> #[trigger] plan.picks[i] <= u32::MAX
}

/// Taking an edge out leaves only edges that were there.
proof fn lemma_swap_removed_sound(edges: Seq<(int, int)>, edge: int, rooms: int)
    requires
        0 <= edge < edges.len(),
        forall|e: int|
            0 <= e < edges.len() ==> 0 <= (#[trigger] edges[e]).0 < rooms && 0 <= edges[e].1
                < rooms,
    ensures
        swap_removed(edges, edge).len() == edges.len() - 1,
        forall|e: int|
            0 <= e < swap_removed(edges, edge).len() ==> 0 <= (#[trigger] swap_removed(
                edges,
                edge,
            )[e]).0 < rooms && 0 <= swap_removed(edges, edge)[e].1 < rooms,
{
    assert forall|e: int| 0 <= e < swap_removed(edges, edge).len() implies 0 <= (
    #[trigger] swap_removed(edges, edge)[e]).0 < rooms && 0 <= swap_removed(edges, edge)[e].1
        < rooms by {
        if e == edge {
            assert(swap_removed(edges, edge)[e] == edges[edges.len() - 1]);
        } else {
            assert(swap_removed(edges, edge)[e] == edges[e]);
        }
    }
}

impl Warren {
    #[verifier::type_invariant]
    spec fn well_formed(&self) -> bool {
        sound(self@)
    }

    /// A warren of `size` rooms, numbered from zero, in which a corridor
    /// leads from every room to every room with a higher number. The
    /// corridors are made in the order of `all_pairs`, and numbered in that
    /// order from zero.
    pub fn complete(size: u16) -> (warren: Self)
        ensures
            sound(warren@),
            warren@.rooms == Seq::new(size as nat, |i: int| i as u16),
            warren@.ways == all_pairs(size as int),
            warren@.picks == Seq::new(all_pairs(size as int).len(), |i: int| i as usize),
    {
        let twice: u64 = 2 * (size as u64);
        let others: u64 = if size == 0 {
            0
        } else {
            (size - 1) as u64
        };
        assert(twice * others <= 0x1_fffe * 0xfffe) by (nonlinear_arith)
            requires
                twice <= 0x1_fffe,
                others <= 0xfffe,
        ;
        let wanted: u64 = twice * others;
        let room: usize = if wanted <= 0x7ff_ffff {
            wanted as usize
        } else {
            0x7ff_ffff
        };
        let mut graph = new_graph(size as usize, room);
        let mut id: u16 = 0;
        while id < size
            invariant
                id <= size,
                node_weights(graph) == Seq::new(id as nat, |i: int| i as u16),
                edge_ends(graph) == Seq::<(int, int)>::empty(),
            decreases size - id,
        {
            add_node(&mut graph, id);
            id += 1;
        }
        let pairs = room_pairs(size);
        let ghost ends = pairs@.map_values(|p: (u16, u16)| (p.0 as int, p.1 as int));
        proof {
            lemma_pairs_below_len(size as int, size as int);
            assert(2 * ends.len() <= 0xffff * 0xffff) by (nonlinear_arith)
                requires
                    2 * ends.len() == size * (2 * size - size - 1),
                    0 <= size <= 0xffff,
            ;
            lemma_pairs_in_range(size as int, size as int);
        }
        let mut corridors: Vec<usize> = Vec::new();
        let mut k: usize = 0;
        while k < pairs.len()
            invariant
                k <= pairs@.len(),
                ends == pairs@.map_values(|p: (u16, u16)| (p.0 as int, p.1 as int)),
                ends == all_pairs(size as int),
                ends.len() < u32::MAX,
                forall|e: int|
                    0 <= e < ends.len() ==> 0 <= (#[trigger] ends[e]).0 < size && 0 <= ends[e].1
                        < size,
                node_weights(graph) == Seq::new(size as nat, |i: int| i as u16),
                edge_ends(graph) == ends.take(k as int),
                corridors@ == Seq::new(k as nat, |i: int| i as usize),
            decreases pairs.len() - k,
        {
            let (a, b) = pairs[k];
            assert(ends[k as int] == (a as int, b as int));
            let made = add_edge(&mut graph, a as usize, b as usize);
            corridors.push(made);
            assert(ends.take(k + 1) == ends.take(k as int).push(ends[k as int]));
            k += 1;
        }
        assert(ends.take(k as int) == ends);
        Warren { graph, corridors }
    }

    /// The number of corridors that are left.
    pub fn corridor_count(&self) -> (count: usize)
        ensures
            count == self@.ways.len(),
    {
        edge_count(&self.graph)
    }

    /// Tries to take out the corridor that has the number which stands at
    /// `pick` in the list of numbers. The corridor goes only if the room it
    /// leaves and the room it reaches both have another way on. Where a
    /// corridor goes, the last one takes its number.
    pub fn prune_corridor(&mut self, pick: usize)
        requires
            pick < old(self)@.picks.len(),
        ensures
            final(self)@.rooms == old(self)@.rooms,
            final(self)@.picks == old(self)@.picks,
            final(self)@.ways == pruned(old(self)@.ways, old(self)@.picks[pick as int] as int),
    {
        // The graph is taken out, changed, and put back: an empty warren
        // stands in for it meanwhile.
        let mut taken = Warren::complete(0);
        core::mem::swap(self, &mut taken);
        let (mut graph, corridors) = taken.into_parts();
        let corridor = corridors[pick];
        match edge_endpoints(&graph, corridor) {
            Some((source, target)) => {
                let ways_from_source = neighbor_count(&graph, source);
                let ways_from_target = neighbor_count(&graph, target);
                if may_remove(ways_from_source, ways_from_target) {
                    proof {
                        lemma_swap_removed_sound(
                            edge_ends(graph),
                            corridor as int,
                            node_weights(graph).len() as int,
                        );
                    }
                    remove_edge(&mut graph, corridor);
                }
            },
            None => {},
        }
        *self = Warren { graph, corridors };
    }

    /// Tries to take out a corridor picked at random, as `prune_corridor`
    /// does with the one it is told.
    pub fn prune(&mut self)
        requires
            old(self)@.ways.len() > 0,
        ensures
            final(self)@.rooms == old(self)@.rooms,
            final(self)@.picks == old(self)@.picks,
            exists|pick: int|
                0 <= pick < old(self)@.picks.len() && final(self)@.ways == pruned(
                    old(self)@.ways,
                    #[trigger] old(self)@.picks[pick] as int,
                ),
    {
        proof {
            use_type_invariant(&*self);
        }
        let pick = random_index(self.corridors.len());
        self.prune_corridor(pick);
    }

    /// The corridors that are left, in the order of their numbers: of each
    /// the number of the room it leaves and the number of the room it
    /// reaches.
    pub fn corridors(&self) -> (ways: Vec<(u16, u16)>)
        ensures
            ways@.len() == self@.ways.len(),
            forall|e: int|
                0 <= e < ways@.len() ==> (#[trigger] ways@[e]).0 == self@.rooms[self@.ways[e].0]
                    && ways@[e].1 == self@.rooms[self@.ways[e].1],
    {
        proof {
            use_type_invariant(self);
        }
        let count = edge_count(&self.graph);
        let mut ways: Vec<(u16, u16)> = Vec::new();
        let mut e: usize = 0;
        while e < count
            invariant
                e <= count,
                count == edge_ends(self.graph).len(),
                sound(self@),
                ways@.len() == e,
                forall|k: int|
                    0 <= k < e ==> (#[trigger] ways@[k]).0 == self@.rooms[self@.ways[k].0]
                        && ways@[k].1 == self@.rooms[self@.ways[k].1],
            decreases count - e,
        {
            match edge_endpoints(&self.graph, e) {
                Some((source, target)) => {
                    assert(0 <= self@.ways[e as int].0 < self@.rooms.len());
                    ways.push((node_weight(&self.graph, source), node_weight(&self.graph, target)));
                },
                None => {},
            }
            e += 1;
        }
        ways
    }

    /// Takes the warren apart: its graph and the numbers of its corridors.
    fn into_parts(self) -> (parts: (Graph<u16, ()>, Vec<usize>))
        ensures
            node_weights(parts.0) == self@.rooms,
            edge_ends(parts.0) == self@.ways,
            parts.1@ == self@.picks,
            sound(self@),
    {
        proof {
            use_type_invariant(&self);
        }
        (self.graph, self.corridors)
    }
}

} // verus!
