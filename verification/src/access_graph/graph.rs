//! The graph store: nodes with stable indices, a name-to-index lookup,
//! and typed directed edges. Its well-formedness keeps exactly one node
//! per name; its symmetry keeps an inverse for every edge.

use vstd::prelude::*;
use crate::access_graph::{lemma_rev_involutive, EdgeType, JettyNode, NodeKey, NodeName};
use crate::errors::{BuildError, MergeConflict};

verus! {

/// An edge to be inserted, named by its endpoints.
#[derive(Clone, Debug)]
pub struct JettyEdge {
    /// The source node.
    pub from: NodeName,
    /// The destination node.
    pub to: NodeName,
    /// The kind of the edge.
    pub edge_type: EdgeType,
}

/// The main graph wrapper: nodes in insertion order and directed typed
/// edges over node indices. Indices are stable: nodes are never removed.
#[derive(Clone, Debug)]
pub struct Graph {
    /// The nodes, in insertion order.
    pub nodes: Vec<JettyNode>,
    /// The edges, as (from index, to index, kind).
    pub edges: Vec<(usize, usize, EdgeType)>,
}

impl Graph {
    /// Every node is well formed, node names are unique, and every edge
    /// endpoint is a valid index.
    pub open spec fn wf(self) -> bool {
        &&& forall|i: int| 0 <= i < self.nodes@.len() ==> (#[trigger] self.nodes@[i]).wf()
        &&& forall|i: int, j: int|
            0 <= i < j < self.nodes@.len() ==> (#[trigger] self.nodes@[i]).name_key() != (
            #[trigger] self.nodes@[j]).name_key()
        &&& forall|e: (usize, usize, EdgeType)|
            #[trigger] self.edges@.contains(e) ==> e.0 < self.nodes@.len() && e.1
                < self.nodes@.len()
    }

    /// Every edge has its symmetric inverse.
    pub open spec fn symmetric(self) -> bool {
        forall|e: (usize, usize, EdgeType)|
            #[trigger] self.edges@.contains(e) ==> self.edges@.contains(
                (e.1, e.0, e.2.rev()),
            )
    }

    /// Is some node named `k`?
    pub open spec fn has_key(self, k: NodeKey) -> bool {
        exists|i: int| 0 <= i < self.nodes@.len() && (#[trigger] self.nodes@[i]).name_key() == k
    }

    /// Both endpoints are nodes of the graph, and the edge between them,
    /// of kind `kind`, is in the graph.
    pub open spec fn has_edge(self, kf: NodeKey, kt: NodeKey, kind: EdgeType) -> bool {
        &&& self.has_key(kf)
        &&& self.has_key(kt)
        &&& self.edges@.contains(
            (self.index_of_key(kf) as usize, self.index_of_key(kt) as usize, kind),
        )
    }

    /// An empty graph.
    pub fn new() -> (r: Graph)
        ensures
            r.wf(),
            r.symmetric(),
            r.nodes@.len() == 0,
            r.edges@.len() == 0,
    {
        Graph { nodes: Vec::new(), edges: Vec::new() }
    }

    /// Check whether a given node already exists in the graph; on a hit,
    /// return its stable index.
    pub fn get_node(&self, node: &NodeName) -> (r: Option<usize>)
        ensures
            match r {
                Some(i) => i < self.nodes@.len() && self.nodes@[i as int].name_key()
                    == node.key(),
                None => !self.has_key(node.key()),
            },
    {
        for i in 0..self.nodes.len()
            invariant
                forall|j: int|
                    0 <= j < i ==> (#[trigger] self.nodes@[j]).name_key() != node.key(),
        {
            let candidate = self.nodes[i].get_name();
            if candidate == *node {
                return Some(i);
            }
        }
        None
    }

    /// Merge a node's attributes into the node at `idx`; the updated node
    /// is returned. Refuses to merge when the nodes disagree on a value
    /// that merging may not overwrite.
    pub fn merge_nodes(&mut self, idx: usize, new: &JettyNode) -> (r: Result<
        JettyNode,
        MergeConflict,
    >)
        requires
            old(self).wf(),
            idx < old(self).nodes@.len(),
            new.wf(),
        ensures
            final(self).wf(),
            final(self).edges@ == old(self).edges@,
            match r {
                Ok(m) => {
                    &&& old(self).nodes@[idx as int].merge_ok(*new)
                    &&& old(self).nodes@[idx as int].is_merge(*new, m)
                    &&& old(self).nodes@[idx as int].is_merge(*new, final(self).nodes@[idx as int])
                    &&& final(self).nodes@ == old(self).nodes@.update(idx as int, final(self).nodes@[idx as int])
                },
                Err(_) => {
                    &&& !old(self).nodes@[idx as int].merge_ok(*new)
                    &&& final(self).nodes@ == old(self).nodes@
                },
            },
    {
        let returned = match self.nodes[idx].merge_nodes(new) {
            Ok(m) => m,
            Err(e) => {
                return Err(e);
            },
        };
        let stored = match self.nodes[idx].merge_nodes(new) {
            Ok(m) => m,
            Err(e) => {
                return Err(e);
            },
        };
        self.nodes.set(idx, stored);
        proof {
            assert(self.nodes@ =~= old(self).nodes@.update(
                idx as int,
                self.nodes@[idx as int],
            ));
        }
        Ok(returned)
    }

    /// The index of the node named `k`, where one exists.
    pub open spec fn index_of_key(self, k: NodeKey) -> int {
        choose|i: int| 0 <= i < self.nodes@.len() && (#[trigger] self.nodes@[i]).name_key() == k
    }

    /// Add a node to the graph: upsert by name, merging on a hit.
    pub fn add_node(&mut self, node: JettyNode) -> (r: Result<(), MergeConflict>)
        requires
            old(self).wf(),
            node.wf(),
        ensures
            final(self).wf(),
            final(self).edges@ == old(self).edges@,
            match r {
                Ok(_) => {
                    &&& final(self).has_key(node.name_key())
                    &&& forall|k: NodeKey|
                        final(self).has_key(k) <==> (old(self).has_key(k) || k
                            == node.name_key())
                    &&& !old(self).has_key(node.name_key()) ==> final(self).nodes@ == old(self).nodes@.push(node)
                    &&& old(self).has_key(node.name_key()) ==> {
                        let j = old(self).index_of_key(node.name_key());
                        &&& final(self).nodes@ == old(self).nodes@.update(j, final(self).nodes@[j])
                        &&& old(self).nodes@[j].is_merge(node, final(self).nodes@[j])
                    }
                },
                Err(_) => {
                    &&& final(self).nodes@ == old(self).nodes@
                    &&& old(self).has_key(node.name_key())
                    &&& !old(self).nodes@[old(self).index_of_key(node.name_key())].merge_ok(node)
                },
            },
    {
        let node_name = node.get_name();
        if let Some(idx) = self.get_node(&node_name) {
            proof {
                assert(old(self).has_key(node.name_key()));
                assert(old(self).index_of_key(node.name_key()) == idx as int) by {
                    let j = old(self).index_of_key(node.name_key());
                    assert(old(self).nodes@[idx as int].name_key() == node.name_key());
                    if j != idx as int {
                        assert(old(self).nodes@[j].name_key() == node.name_key());
                    }
                }
            }
            match self.merge_nodes(idx, &node) {
                Ok(_) => {
                    proof {
                        assert(self.nodes@[idx as int].name_key() == node.name_key());
                        assert forall|k: NodeKey|
                            self.has_key(k) <==> (old(self).has_key(k) || k
                                == node.name_key()) by {
                            if self.has_key(k) {
                                let i = choose|i: int|
                                    0 <= i < self.nodes@.len() && (
                                    #[trigger] self.nodes@[i]).name_key() == k;
                                if i != idx as int {
                                    assert(old(self).nodes@[i].name_key() == k);
                                }
                            }
                            if old(self).has_key(k) {
                                let i = choose|i: int|
                                    0 <= i < old(self).nodes@.len() && (#[trigger] old(
                                        self,
                                    ).nodes@[i]).name_key() == k;
                                if i != idx as int {
                                    assert(self.nodes@[i].name_key() == k);
                                } else {
                                    assert(self.nodes@[idx as int].name_key() == k);
                                }
                            }
                        }
                    }
                    Ok(())
                },
                Err(e) => Err(e),
            }
        } else {
            proof {
                assert(!old(self).has_key(node.name_key()));
            }
            let ghost pre = self.nodes@;
            self.nodes.push(node);
            proof {
                assert(self.nodes@ =~= pre.push(node));
                assert(self.nodes@[pre.len() as int] == node);
                assert forall|k: NodeKey|
                    self.has_key(k) <==> (old(self).has_key(k) || k == node.name_key()) by {
                    if self.has_key(k) {
                        let i = choose|i: int|
                            0 <= i < self.nodes@.len() && (#[trigger] self.nodes@[i]).name_key()
                                == k;
                        if i < pre.len() {
                            assert(old(self).nodes@[i].name_key() == k);
                        }
                    }
                    if old(self).has_key(k) {
                        let i = choose|i: int|
                            0 <= i < pre.len() && (#[trigger] pre[i]).name_key() == k;
                        assert(self.nodes@[i].name_key() == k);
                    }
                }
            }
            Ok(())
        }
    }

    /// Add a single directed edge, idempotently: an edge structurally
    /// equal to one already present is not added again. Returns an error
    /// when either endpoint is absent from the graph.
    pub fn add_edge(&mut self, edge: JettyEdge) -> (r: Result<(), BuildError>)
        requires
            old(self).wf(),
        ensures
            final(self).wf(),
            final(self).nodes@ == old(self).nodes@,
            match r {
                Ok(_) => {
                    &&& old(self).has_key(edge.from.key())
                    &&& old(self).has_key(edge.to.key())
                    &&& final(self).edges@ == push_distinct(
                        old(self).edges@,
                        (old(self).index_of_key(edge.from.key()) as usize,
                        old(self).index_of_key(edge.to.key()) as usize,
                        edge.edge_type),
                    )
                    &&& final(self).has_edge(edge.from.key(), edge.to.key(), edge.edge_type)
                    &&& forall|y: (usize, usize, EdgeType)|
                        #[trigger] old(self).edges@.contains(y) ==> final(self).edges@.contains(
                            y,
                        )
                },
                Err(_) => {
                    &&& final(self).edges@ == old(self).edges@
                    &&& !(old(self).has_key(edge.from.key()) && old(self).has_key(edge.to.key()))
                },
            },
    {
        let to = match self.get_node(&edge.to) {
            Some(i) => i,
            None => {
                return Err(BuildError::MissingNode(edge.to.display_text()));
            },
        };
        let from = match self.get_node(&edge.from) {
            Some(i) => i,
            None => {
                return Err(BuildError::MissingNode(edge.from.display_text()));
            },
        };
        proof {
            assert(old(self).index_of_key(edge.from.key()) == from as int) by {
                let j = old(self).index_of_key(edge.from.key());
                assert(old(self).nodes@[from as int].name_key() == edge.from.key());
                if j != from as int {
                    assert(old(self).nodes@[j].name_key() == edge.from.key());
                }
            }
            assert(old(self).index_of_key(edge.to.key()) == to as int) by {
                let j = old(self).index_of_key(edge.to.key());
                assert(old(self).nodes@[to as int].name_key() == edge.to.key());
                if j != to as int {
                    assert(old(self).nodes@[j].name_key() == edge.to.key());
                }
            }
        }
        let ghost pre = self.edges@;
        let e1 = (from, to, edge.edge_type);
        if !contains_edge(&self.edges, from, to, edge.edge_type) {
            self.edges.push(e1);
        }
        proof {
            assert(self.edges@ =~= push_distinct(pre, e1));
            lemma_push_distinct_contains(pre, e1);
            assert forall|e: (usize, usize, EdgeType)| self.edges@.contains(e) implies e.0
                < self.nodes@.len() && e.1 < self.nodes@.len() by {
                if pre.contains(e) {
                } else {
                    assert(e == e1);
                }
            }
        }
        Ok(())
    }

    /// Add an edge and its symmetric inverse, atomically and idempotently:
    /// on any error neither direction is added, and a direction already
    /// present is not added again. Keeps the graph symmetric.
    pub fn add_edge_symmetric(&mut self, edge: JettyEdge) -> (r: Result<(), BuildError>)
        requires
            old(self).wf(),
            old(self).symmetric(),
        ensures
            final(self).wf(),
            final(self).symmetric(),
            final(self).nodes@ == old(self).nodes@,
            match r {
                Ok(_) => {
                    &&& old(self).has_key(edge.from.key())
                    &&& old(self).has_key(edge.to.key())
                    &&& final(self).edges@ == push_distinct(
                        push_distinct(
                            old(self).edges@,
                            (old(self).index_of_key(edge.from.key()) as usize,
                            old(self).index_of_key(edge.to.key()) as usize,
                            edge.edge_type),
                        ),
                        (old(self).index_of_key(edge.to.key()) as usize,
                        old(self).index_of_key(edge.from.key()) as usize,
                        edge.edge_type.rev()),
                    )
                    &&& final(self).has_edge(edge.from.key(), edge.to.key(), edge.edge_type)
                    &&& final(self).has_edge(
                        edge.to.key(),
                        edge.from.key(),
                        edge.edge_type.rev(),
                    )
                    &&& forall|y: (usize, usize, EdgeType)|
                        #[trigger] old(self).edges@.contains(y) ==> final(self).edges@.contains(
                            y,
                        )
                },
                Err(_) => {
                    &&& final(self).edges@ == old(self).edges@
                    &&& !(old(self).has_key(edge.from.key()) && old(self).has_key(edge.to.key()))
                },
            },
    {
        let to = match self.get_node(&edge.to) {
            Some(i) => i,
            None => {
                return Err(BuildError::MissingNode(edge.to.display_text()));
            },
        };
        let from = match self.get_node(&edge.from) {
            Some(i) => i,
            None => {
                return Err(BuildError::MissingNode(edge.from.display_text()));
            },
        };
        proof {
            assert(old(self).index_of_key(edge.from.key()) == from as int) by {
                let j = old(self).index_of_key(edge.from.key());
                assert(old(self).nodes@[from as int].name_key() == edge.from.key());
                if j != from as int {
                    assert(old(self).nodes@[j].name_key() == edge.from.key());
                }
            }
            assert(old(self).index_of_key(edge.to.key()) == to as int) by {
                let j = old(self).index_of_key(edge.to.key());
                assert(old(self).nodes@[to as int].name_key() == edge.to.key());
                if j != to as int {
                    assert(old(self).nodes@[j].name_key() == edge.to.key());
                }
            }
        }
        let kind = edge.edge_type;
        let rkind = edge.edge_type.reverse();
        let ghost pre = self.edges@;
        let e1 = (from, to, kind);
        let e2 = (to, from, rkind);
        if !contains_edge(&self.edges, from, to, kind) {
            self.edges.push(e1);
        }
        let ghost mid = self.edges@;
        proof {
            assert(mid =~= push_distinct(pre, e1));
        }
        if !contains_edge(&self.edges, to, from, rkind) {
            self.edges.push(e2);
        }
        proof {
            let cur = self.edges@;
            assert(cur =~= push_distinct(mid, e2));
            lemma_push_distinct_contains(pre, e1);
            lemma_push_distinct_contains(mid, e2);
            lemma_rev_involutive(kind);
            assert forall|e: (usize, usize, EdgeType)| cur.contains(e) implies e.0
                < self.nodes@.len() && e.1 < self.nodes@.len() by {
                if pre.contains(e) {
                } else {
                    assert(e == e1 || e == e2);
                }
            }
            assert forall|e: (usize, usize, EdgeType)| cur.contains(e) implies cur.contains(
                (e.1, e.0, e.2.rev()),
            ) by {
                if pre.contains(e) {
                    assert(pre.contains((e.1, e.0, e.2.rev())));
                } else if e == e1 {
                    assert((e.1, e.0, e.2.rev()) == e2);
                } else {
                    assert(e == e2);
                    assert((e.1, e.0, e.2.rev()) == e1);
                    assert(mid.contains(e1));
                }
            }
        }
        Ok(())
    }
}

/// The edge list after inserting `e`: unchanged when a structurally equal
/// edge is already present, extended by `e` otherwise. Edges merge by
/// structural equality, so insertion is idempotent.
pub open spec fn push_distinct(
    s: Seq<(usize, usize, EdgeType)>,
    e: (usize, usize, EdgeType),
) -> Seq<(usize, usize, EdgeType)> {
    if s.contains(e) {
        s
    } else {
        s.push(e)
    }
}

/// What idempotent insertion does to edge containment: afterwards the list
/// holds exactly the old edges and the inserted one.
pub proof fn lemma_push_distinct_contains(
    s: Seq<(usize, usize, EdgeType)>,
    e: (usize, usize, EdgeType),
)
    ensures
        forall|y: (usize, usize, EdgeType)|
            #[trigger] push_distinct(s, e).contains(y) <==> (s.contains(y) || y == e),
{
    assert forall|y: (usize, usize, EdgeType)|
        #[trigger] push_distinct(s, e).contains(y) <==> (s.contains(y) || y == e) by {
        if s.contains(e) {
        } else {
            if push_distinct(s, e).contains(y) {
                let i = choose|i: int| 0 <= i < s.push(e).len() && s.push(e)[i] == y;
                if i < s.len() {
                    assert(s[i] == y);
                }
            }
            if s.contains(y) {
                let i = choose|i: int| 0 <= i < s.len() && s[i] == y;
                assert(s.push(e)[i] == y);
            }
            if y == e {
                assert(s.push(e)[s.len() as int] == e);
            }
        }
    }
}

/// Growing the edge list of a well-formed graph never removes an edge:
/// every edge of the smaller graph, by its endpoint names, is an edge of
/// the larger one.
pub proof fn lemma_has_edge_mono(g1: Graph, g2: Graph)
    requires
        g1.wf(),
        g2.wf(),
        g2.nodes@ == g1.nodes@,
        forall|y: (usize, usize, EdgeType)|
            #[trigger] g1.edges@.contains(y) ==> g2.edges@.contains(y),
    ensures
        forall|kf: NodeKey, kt: NodeKey, kind: EdgeType|
            #[trigger] g1.has_edge(kf, kt, kind) ==> g2.has_edge(kf, kt, kind),
{
    assert forall|kf: NodeKey, kt: NodeKey, kind: EdgeType|
        #[trigger] g1.has_edge(kf, kt, kind) implies g2.has_edge(kf, kt, kind) by {
        assert(g2.has_key(kf)) by {
            let i = choose|i: int|
                0 <= i < g1.nodes@.len() && (#[trigger] g1.nodes@[i]).name_key() == kf;
            assert(g2.nodes@[i].name_key() == kf);
        }
        assert(g2.has_key(kt)) by {
            let i = choose|i: int|
                0 <= i < g1.nodes@.len() && (#[trigger] g1.nodes@[i]).name_key() == kt;
            assert(g2.nodes@[i].name_key() == kt);
        }
        assert(g2.index_of_key(kf) == g1.index_of_key(kf)) by {
            let i1 = g1.index_of_key(kf);
            let i2 = g2.index_of_key(kf);
            assert(g1.nodes@[i1].name_key() == kf);
            assert(g2.nodes@[i2].name_key() == kf);
            if i1 != i2 {
                assert(g2.nodes@[i1].name_key() == kf);
            }
        }
        assert(g2.index_of_key(kt) == g1.index_of_key(kt)) by {
            let i1 = g1.index_of_key(kt);
            let i2 = g2.index_of_key(kt);
            assert(g1.nodes@[i1].name_key() == kt);
            assert(g2.nodes@[i2].name_key() == kt);
            if i1 != i2 {
                assert(g2.nodes@[i1].name_key() == kt);
            }
        }
    }
}

/// Is the edge, by content, one of the list?
fn contains_edge(
    edges: &Vec<(usize, usize, EdgeType)>,
    from: usize,
    to: usize,
    kind: EdgeType,
) -> (r: bool)
    ensures
        r == edges@.contains((from, to, kind)),
{
    for i in 0..edges.len()
        invariant
            forall|j: int| 0 <= j < i ==> edges@[j] != (from, to, kind),
    {
        let e = edges[i];
        if e.0 == from && e.1 == to && e.2 == kind {
            proof {
                assert(edges@[i as int] == (from, to, kind));
            }
            return true;
        }
    }
    false
}

} // verus!
