//! The append-only computation graph.

use vstd::prelude::*;

use crate::identity::{FreeList, Id, IdGenerator, IdPool};
use crate::ops::{Kind, Node, Op};

verus! {

/// Mathematical model of a [`Graph`]: its nodes in order of creation and
/// the state of its identifier allocator.
pub struct GraphModel {
    pub nodes: Seq<Node>,
    pub pool: IdPool,
}

impl GraphModel {
    /// Every node produces an identifier that the allocator has issued and
    /// not taken back, no two nodes produce the same one, and the allocator
    /// is well formed: the next identifier it issues names nothing yet.
    pub open spec fn consistent(self) -> bool {
        &&& self.pool.wf()
        &&& forall|j: int| 0 <= j < self.nodes.len() ==> self.pool.is_live((#[trigger] self.nodes[j]).out)
        &&& forall|i: int, j: int|
            0 <= i < j < self.nodes.len() ==> (#[trigger] self.nodes[i]).out != (
            #[trigger] self.nodes[j]).out
    }

    /// The graph after one more operation of kind `kind` on `inputs`, its
    /// result named by the next identifier of the pool.
    pub open spec fn record(self, kind: Kind, inputs: Seq<Id>) -> GraphModel {
        GraphModel {
            nodes: self.nodes.push(Node { kind, inputs, out: self.pool.next() }),
            pool: self.pool.advance(),
        }
    }
}

/// Recording an operation in a consistent graph gives a consistent graph
/// in which the new node produces an identifier that no other node
/// produces.
pub proof fn lemma_record_keeps_consistent(g: GraphModel, kind: Kind, inputs: Seq<Id>)
    requires
        g.consistent(),
        g.pool.headroom() > 0,
    ensures
        g.record(kind, inputs).consistent(),
        forall|j: int| 0 <= j < g.nodes.len() ==> (#[trigger] g.nodes[j]).out != g.pool.next(),
{
    g.pool.lemma_advance();
    let after = g.record(kind, inputs);
    assert forall|j: int| 0 <= j < after.nodes.len() implies after.pool.is_live(
        (#[trigger] after.nodes[j]).out,
    ) by {
        if j < g.nodes.len() {
            assert(g.pool.is_live(g.nodes[j].out));
        }
    }
    assert forall|j: int| 0 <= j < g.nodes.len() implies (#[trigger] g.nodes[j]).out
        != g.pool.next() by {
        assert(g.pool.is_live(g.nodes[j].out));
    }
}

/// Some node among the first `i` of `nodes` produces `id`.
pub open spec fn produced_before(nodes: Seq<Node>, i: int, id: Id) -> bool {
    exists|j: int| 0 <= j < i && j < nodes.len() && (#[trigger] nodes[j]).out == id
}

/// A node appended to `nodes` may read `id`: it is a declared input or
/// some node produces it.
pub open spec fn ready(nodes: Seq<Node>, declared: Set<Id>, id: Id) -> bool {
    declared.contains(id) || produced_before(nodes, nodes.len() as int, id)
}

/// The order of `nodes` is an order of evaluation: every identifier that
/// a node reads is a declared input or is produced by an earlier node.
pub open spec fn well_ordered(nodes: Seq<Node>, declared: Set<Id>) -> bool {
    forall|i: int, k: int|
        0 <= i < nodes.len() && 0 <= k < nodes[i].inputs.len() ==> declared.contains(
            #[trigger] nodes[i].inputs[k],
        ) || produced_before(nodes, i, nodes[i].inputs[k])
}

/// Appending a node that reads only what is ready keeps the order an
/// order of evaluation, makes the node's output ready and keeps ready
/// what was.
pub proof fn lemma_push_keeps_order(nodes: Seq<Node>, node: Node, declared: Set<Id>)
    requires
        well_ordered(nodes, declared),
        forall|k: int| 0 <= k < node.inputs.len() ==> ready(nodes, declared, #[trigger] node.inputs[k]),
    ensures
        well_ordered(nodes.push(node), declared),
        ready(nodes.push(node), declared, node.out),
        forall|id: Id| ready(nodes, declared, id) ==> #[trigger] ready(nodes.push(node), declared, id),
{
    let after = nodes.push(node);
    assert forall|i: int, k: int|
        0 <= i < after.len() && 0 <= k < after[i].inputs.len() implies declared.contains(
        #[trigger] after[i].inputs[k],
    ) || produced_before(after, i, after[i].inputs[k]) by {
        let id = after[i].inputs[k];
        if i < nodes.len() {
            assert(after[i] == nodes[i]);
            if !declared.contains(id) {
                assert(produced_before(nodes, i, nodes[i].inputs[k]));
                let j = choose|j: int| 0 <= j < i && j < nodes.len() && (#[trigger] nodes[j]).out == id;
                assert(after[j].out == id);
            }
        } else {
            assert(ready(nodes, declared, node.inputs[k]));
            if !declared.contains(id) {
                let j = choose|j: int|
                    0 <= j < nodes.len() && j < nodes.len() && (#[trigger] nodes[j]).out == id;
                assert(after[j].out == id);
            }
        }
    }
    assert(after[nodes.len() as int].out == node.out);
    assert forall|id: Id| ready(nodes, declared, id) implies #[trigger] ready(
        after,
        declared,
        id,
    ) by {
        if !declared.contains(id) {
            let j = choose|j: int|
                0 <= j < nodes.len() && j < nodes.len() && (#[trigger] nodes[j]).out == id;
            assert(after[j].out == id);
        }
    }
}

/// Recording an operation that reads only what is ready keeps the order
/// an order of evaluation, makes the result ready and keeps ready what
/// was: a function built through a session that is handed only declared
/// inputs and placeholders the session returned is in evaluation order.
pub proof fn lemma_record_keeps_order(
    g: GraphModel,
    kind: Kind,
    inputs: Seq<Id>,
    declared: Set<Id>,
)
    requires
        well_ordered(g.nodes, declared),
        forall|k: int| 0 <= k < inputs.len() ==> ready(g.nodes, declared, #[trigger] inputs[k]),
    ensures
        well_ordered(g.record(kind, inputs).nodes, declared),
        ready(g.record(kind, inputs).nodes, declared, g.pool.next()),
        forall|id: Id|
            ready(g.nodes, declared, id) ==> #[trigger] ready(
                g.record(kind, inputs).nodes,
                declared,
                id,
            ),
{
    lemma_push_keeps_order(g.nodes, Node { kind, inputs, out: g.pool.next() }, declared);
}

/// An ordered list of operation records with the allocator that names
/// their results. Nodes are only ever appended.
#[derive(Debug)]
pub struct Graph {
    nodes: Vec<Op>,
    generator: FreeList,
}

impl View for Graph {
    type V = GraphModel;

    closed spec fn view(&self) -> GraphModel {
        GraphModel { nodes: self.nodes@.map_values(|op: Op| op@), pool: self.generator@ }
    }
}

impl Graph {
    pub fn new() -> (g: Graph)
        ensures
            g@.nodes == Seq::<Node>::empty(),
            g@.pool == (IdPool { counter: 0, free: Seq::empty() }),
    {
        let g = Graph { nodes: Vec::new(), generator: FreeList::new() };
        assert(g.nodes@.map_values(|op: Op| op@) =~= Seq::<Node>::empty());
        g
    }

    /// Appends an operation record.
    pub fn push(&mut self, op: Op)
        ensures
            final(self)@.nodes == old(self)@.nodes.push(op@),
            final(self)@.pool == old(self)@.pool,
    {
        self.nodes.push(op);
        assert(self.nodes@.map_values(|op: Op| op@) =~= old(self).nodes@.map_values(|op: Op| op@).push(
            op@,
        ));
    }

    /// Issues an identifier for a value about to be produced.
    pub fn fresh(&mut self) -> (id: Id)
        requires
            old(self)@.pool.headroom() > 0,
        ensures
            id == old(self)@.pool.next(),
            final(self)@.pool == old(self)@.pool.advance(),
            final(self)@.nodes == old(self)@.nodes,
    {
        self.generator.fresh()
    }

    /// Whether `n` more identifiers can be issued.
    pub fn has_room(&self, n: usize) -> (enough: bool)
        ensures
            enough == (self@.pool.headroom() >= n),
    {
        self.generator.has_room(n)
    }

    /// Every node of a graph has as many inputs as its kind reads.
    pub proof fn lemma_nodes_well_formed(&self)
        ensures
            forall|i: int| 0 <= i < self@.nodes.len() ==> (#[trigger] self@.nodes[i]).well_formed(),
    {
        assert forall|i: int| 0 <= i < self@.nodes.len() implies (#[trigger] self@.nodes[i]).well_formed() by {
            self.nodes@[i].lemma_well_formed();
        }
    }

    /// Number of nodes.
    pub fn len(&self) -> (n: usize)
        ensures
            n == self@.nodes.len(),
    {
        self.nodes.len()
    }

    /// The `i`-th node in order of creation.
    pub fn node(&self, i: usize) -> (op: &Op)
        requires
            i < self@.nodes.len(),
        ensures
            op@ == self@.nodes[i as int],
    {
        &self.nodes[i]
    }
}

impl Default for Graph {
    fn default() -> (g: Graph)
        ensures
            g@.nodes == Seq::<Node>::empty(),
            g@.pool == (IdPool { counter: 0, free: Seq::empty() }),
    {
        Graph::new()
    }
}

impl Clone for Graph {
    fn clone(&self) -> (copy: Graph)
        ensures
            copy@ == self@,
    {
        let mut nodes: Vec<Op> = Vec::new();
        let n: usize = self.nodes.len();
        let mut i: usize = 0;
        while i < n
            invariant
                n == self.nodes@.len(),
                0 <= i <= n,
                nodes@.len() == i,
                forall|k: int| 0 <= k < i ==> (#[trigger] nodes@[k])@ == self.nodes@[k]@,
            decreases n - i,
        {
            nodes.push(self.nodes[i].clone());
            i += 1;
        }
        let copy = Graph { nodes, generator: self.generator.duplicate() };
        assert(copy.nodes@.map_values(|op: Op| op@) =~= self.nodes@.map_values(|op: Op| op@));
        copy
    }
}

} // verus!
