//! Functions as control-flow graphs: nodes are blocks, edges denote possible
//! transfers, and the entry node is always index 0. The builder currently
//! produces a single entry block with no outgoing edges, and the rendering
//! contract covers exactly such edge-free graphs.

use petgraph::graph::Graph;

use vstd::prelude::*;

use crate::ir::{Block, StmtV};
use crate::render::spec_render_block;
use crate::LiftError;

verus! {

#[verifier::external_type_specification]
#[verifier::external_body]
#[verifier::reject_recursive_types(N)]
#[verifier::reject_recursive_types(E)]
#[verifier::reject_recursive_types(Ty)]
#[verifier::reject_recursive_types(Ix)]
pub struct ExGraph<N, E, Ty, Ix>(Graph<N, E, Ty, Ix>);

#[verifier::external_type_specification]
#[verifier::external_body]
pub struct ExDirected(petgraph::Directed);

/// The node weights of a graph, in index order.
pub uninterp spec fn graph_nodes(g: Graph<Block, ()>) -> Seq<Block>;

/// How many edges a graph holds.
pub uninterp spec fn graph_edge_count(g: Graph<Block, ()>) -> nat;

/// Relies on petgraph's `Graph::new`: the fresh graph has no nodes and no
/// edges.
#[verifier::external_body]
fn pg_new() -> (r: Graph<Block, ()>)
    ensures
        graph_nodes(r) == Seq::<Block>::empty(),
        graph_edge_count(r) == 0,
{
    Graph::new()
}

/// Relies on petgraph's `add_node`: it appends the weight to the node list,
/// returns its index, and leaves the edges alone.
#[verifier::external_body]
fn pg_add_node(g: &mut Graph<Block, ()>, b: Block) -> (r: usize)
    requires
        graph_nodes(*old(g)).len() < 0xffff_ffff,
    ensures
        graph_nodes(*final(g)) == graph_nodes(*old(g)).push(b),
        graph_edge_count(*final(g)) == graph_edge_count(*old(g)),
        r == graph_nodes(*old(g)).len(),
{
    g.add_node(b).index()
}

/// Relies on petgraph's `node_count`.
#[verifier::external_body]
fn pg_node_count(g: &Graph<Block, ()>) -> (r: usize)
    ensures
        r == graph_nodes(*g).len(),
{
    g.node_count()
}

/// Relies on petgraph's `node_weight`: index `i` holds the `i`-th weight of
/// the node list.
#[verifier::external_body]
fn pg_node_weight<'a>(g: &'a Graph<Block, ()>, i: usize) -> (r: &'a Block)
    requires
        i < graph_nodes(*g).len(),
    ensures
        *r == graph_nodes(*g)[i as int],
{
    g.node_weight(petgraph::graph::NodeIndex::new(i)).expect("node index out of range")
}

/// Relies on petgraph's `Dfs`: a depth-first traversal from node 0 of a
/// non-empty graph without edges visits exactly node 0.
#[verifier::external_body]
fn pg_dfs_zero(g: &Graph<Block, ()>) -> (r: Vec<usize>)
    requires
        graph_nodes(*g).len() > 0,
    ensures
        graph_edge_count(*g) == 0 ==> r@ == seq![0usize],
{
    let mut dfs = petgraph::visit::Dfs::new(g, petgraph::graph::NodeIndex::new(0));
    let mut order: Vec<usize> = Vec::new();
    while let Some(ix) = dfs.next(g) {
        order.push(ix.index());
    }
    order
}

/// A lifted function: a control-flow graph of blocks with entry node 0.
#[derive(Debug)]
pub struct Function {
    /// Control flow graph.
    pub cfg: Graph<Block, ()>,
}

/// The depth-first rendering of an edge-free function: with no edges, the
/// traversal from the entry reaches exactly node 0, so the entry block is
/// rendered under its index and every other node is unreachable.
pub open spec fn spec_render_function(blocks: Seq<Seq<StmtV>>) -> Seq<char> {
    if blocks.len() == 0 {
        Seq::<char>::empty()
    } else {
        "0:\n"@ + spec_render_block(blocks[0])
    }
}

impl Function {
    /// The blocks of this function, in node-index order.
    pub open spec fn blocks(self) -> Seq<Block> {
        graph_nodes(self.cfg)
    }

    /// A well-formed function has no edges yet (the builder never adds any)
    /// and room for another node.
    pub open spec fn wf(self) -> bool {
        &&& graph_edge_count(self.cfg) == 0
        &&& graph_nodes(self.cfg).len() < 0xffff_ffff
    }

    /// Make a new empty function.
    pub fn new() -> (r: Function)
        ensures
            r.wf(),
            r.blocks() == Seq::<Block>::empty(),
    {
        Function { cfg: pg_new() }
    }

    /// Append a block as a new node, returning its index.
    pub fn add_block(&mut self, b: Block) -> (r: usize)
        requires
            old(self).wf(),
            old(self).blocks().len() + 1 < 0xffff_ffff,
        ensures
            final(self).wf(),
            final(self).blocks() == old(self).blocks().push(b),
            r == old(self).blocks().len(),
    {
        pg_add_node(&mut self.cfg, b)
    }

    /// How many blocks this function holds.
    pub fn block_count(&self) -> (r: usize)
        ensures
            r == self.blocks().len(),
    {
        pg_node_count(&self.cfg)
    }

    /// The block at a given node index.
    pub fn block_at<'a>(&'a self, i: usize) -> (r: &'a Block)
        requires
            i < self.blocks().len(),
        ensures
            *r == self.blocks()[i as int],
    {
        pg_node_weight(&self.cfg, i)
    }

    /// Render the function: each node reached by the depth-first traversal
    /// from the entry, as `<index>:` followed by the block's statements.
    pub fn render(&self) -> (r: Result<String, LiftError>)
        requires
            self.wf(),
        ensures
            (match r {
                Ok(s) => s@ == spec_render_function(self@),
                Err(e) => e == LiftError::Decode,
            }),
            self@.len() == 0 ==> r is Ok,
            (self@.len() > 0 && (forall|k: int| 0 <= k < self@[0].len() ==> self@[0][k] is Assign))
                ==> r is Ok,
    {
        if self.block_count() == 0 {
            return Ok(String::new());
        }
        let order = pg_dfs_zero(&self.cfg);
        let entry = order[0];
        let b = self.block_at(entry);
        match b.render() {
            Ok(body) => {
                let mut s = "0:\n".to_owned();
                s.append(body.as_str());
                proof {
                    assert(self@[0] == self.blocks()[0]@);
                }
                Ok(s)
            },
            Err(_) => Err(LiftError::Decode),
        }
    }
}

impl View for Function {
    type V = Seq<Seq<StmtV>>;

    open spec fn view(&self) -> Seq<Seq<StmtV>> {
        self.blocks().map(|i: int, b: Block| b@)
    }
}

} // verus!
