//! A directed acyclic graph of dependencies.
//!
//! Nodes carry an element each (a check name, say); an edge from a parent
//! to a child records that the parent depends on the child. The structure
//! keeps, beside the adjacency lists, the sets of roots (nodes nobody
//! depends on) and leaves (nodes that depend on nobody), and offers a
//! transitive reduction and a cycle search over the whole graph.
//!
//! An earlier generation of the engine scheduled checks through such a
//! graph; the scheduler now runs a declared linear pipeline, and this
//! structure stands alone.

use vstd::prelude::*;

verus! {

/// Unique identifier for each node in a DAG: its index in the nodes
/// vector.
pub type NodeId = usize;

/// Node in a DAG.
#[derive(Debug)]
pub struct Node<Elem> {
    /// Element the node carries
    pub elem: Elem,
    /// Nodes this node depends on
    pub children: Vec<NodeId>,
    /// Nodes that depend on this node
    pub parents: Vec<NodeId>,
}

/// Directed acyclic graph: nodes with adjacency lists, plus the derived
/// root and leaf sets.
#[derive(Debug)]
pub struct Dag<Elem> {
    /// All nodes of the graph; a [`NodeId`] is an index into this vector
    pub nodes: Vec<Node<Elem>>,
    /// The nodes that have no parents
    pub roots: Vec<NodeId>,
    /// The nodes that have no children
    pub leaves: Vec<NodeId>,
}

/// A list of node identifiers below `n`, free of duplicates.
pub open spec fn spec_id_list_ok(l: Seq<NodeId>, n: int) -> bool {
    &&& forall|i: int| 0 <= i < l.len() ==> (#[trigger] l[i]) < n
    &&& l.no_duplicates()
}

impl<Elem> Dag<Elem> {
    /// There is an edge from `u` to `v`.
    pub open spec fn spec_edge(self, u: NodeId, v: NodeId) -> bool {
        &&& (u as int) < self.nodes@.len()
        &&& (v as int) < self.nodes@.len()
        &&& self.nodes@[u as int].children@.contains(v)
    }

    /// Structural invariant: adjacency lists hold valid, duplicate-free
    /// ids; an edge is recorded on both of its endpoints; `roots` holds
    /// exactly the nodes without parents and `leaves` exactly the nodes
    /// without children, each once.
    pub open spec fn wf(self) -> bool {
        let n = self.nodes@.len() as int;
        &&& forall|u: int|
            0 <= u < n ==> spec_id_list_ok((#[trigger] self.nodes@[u]).children@, n)
                && spec_id_list_ok(self.nodes@[u].parents@, n)
        &&& forall|u: NodeId, v: NodeId|
            (u as int) < n && (v as int) < n ==> ((#[trigger] self.nodes@[u as int].children@.contains(
                v,
            )) <==> (#[trigger] self.nodes@[v as int].parents@.contains(u)))
        &&& spec_id_list_ok(self.roots@, n)
        &&& forall|u: NodeId|
            (u as int) < n ==> (self.roots@.contains(u) <==> (
            #[trigger] self.nodes@[u as int]).parents@.len() == 0)
        &&& spec_id_list_ok(self.leaves@, n)
        &&& forall|u: NodeId|
            (u as int) < n ==> (self.leaves@.contains(u) <==> (
            #[trigger] self.nodes@[u as int]).children@.len() == 0)
    }

    /// Create a new, empty DAG.
    pub fn new() -> (r: Self)
        ensures
            r.wf(),
            r.nodes@.len() == 0,
            r.roots@.len() == 0,
            r.leaves@.len() == 0,
    {
        Dag { nodes: Vec::new(), roots: Vec::new(), leaves: Vec::new() }
    }
}

impl<Elem> Default for Dag<Elem> {
    fn default() -> (r: Self)
        ensures
            r.wf(),
            r.nodes@.len() == 0,
            r.roots@.len() == 0,
            r.leaves@.len() == 0,
    {
        Dag::new()
    }
}

/// A pushed element is in the list, and nothing else changes membership.
proof fn lemma_push_contains(s: Seq<NodeId>, x: NodeId, y: NodeId)
    ensures
        s.push(x).contains(y) <==> (s.contains(y) || y == x),
{
    if s.contains(y) {
        let j = choose|j: int| 0 <= j < s.len() && s[j] == y;
        assert(s.push(x)[j] == y);
    }
    if y == x {
        assert(s.push(x)[s.len() as int] == y);
    }
    if s.push(x).contains(y) {
        let j = choose|j: int| 0 <= j < s.push(x).len() && s.push(x)[j] == y;
        if j < s.len() {
            assert(s[j] == y);
        }
    }
}

/// Pushing a fresh element keeps a list duplicate-free.
proof fn lemma_push_distinct(s: Seq<NodeId>, x: NodeId)
    requires
        s.no_duplicates(),
        !s.contains(x),
    ensures
        s.push(x).no_duplicates(),
{
    assert forall|p: int, q: int|
        0 <= p < s.push(x).len() && 0 <= q < s.push(x).len() && p != q implies s.push(x)[p]
        != s.push(x)[q] by {
        if p < s.len() && q < s.len() {
            assert(s[p] != s[q]);
        } else if p < s.len() {
            assert(s[p] != x) by {
                if s[p] == x {
                    assert(s.contains(x));
                }
            }
        } else if q < s.len() {
            assert(s[q] != x) by {
                if s[q] == x {
                    assert(s.contains(x));
                }
            }
        }
    }
}

impl<Elem> Dag<Elem> {
    /// Add a free-standing node to the DAG; it starts as both a root and a
    /// leaf.
    pub fn add_node(&mut self, elem: Elem) -> (r: NodeId)
        requires
            old(self).wf(),
        ensures
            final(self).wf(),
            r == old(self).nodes@.len(),
            final(self).nodes@.len() == old(self).nodes@.len() + 1,
            forall|i: int|
                0 <= i < r ==> (#[trigger] final(self).nodes@[i]) == old(self).nodes@[i],
            final(self).nodes@[r as int].elem == elem,
            final(self).nodes@[r as int].children@ == Seq::<NodeId>::empty(),
            final(self).nodes@[r as int].parents@ == Seq::<NodeId>::empty(),
            final(self).roots@ == old(self).roots@.push(r),
            final(self).leaves@ == old(self).leaves@.push(r),
            forall|a: NodeId, b: NodeId|
                final(self).spec_edge(a, b) <==> old(self).spec_edge(a, b),
    {
        let index = self.nodes.len();
        self.nodes.push(Node { elem, children: Vec::new(), parents: Vec::new() });
        self.roots.push(index);
        self.leaves.push(index);
        proof {
            let n = old(self).nodes@.len() as int;
            assert forall|u: int| 0 <= u < n + 1 implies spec_id_list_ok(
                (#[trigger] self.nodes@[u]).children@,
                n + 1,
            ) && spec_id_list_ok(self.nodes@[u].parents@, n + 1) by {
                if u < n {
                    assert(self.nodes@[u] == old(self).nodes@[u]);
                }
            }
            assert(!old(self).roots@.contains(index)) by {
                if old(self).roots@.contains(index) {
                    let j = choose|j: int|
                        0 <= j < old(self).roots@.len() && old(self).roots@[j] == index;
                    assert(old(self).roots@[j] < n);
                }
            }
            assert(!old(self).leaves@.contains(index)) by {
                if old(self).leaves@.contains(index) {
                    let j = choose|j: int|
                        0 <= j < old(self).leaves@.len() && old(self).leaves@[j] == index;
                    assert(old(self).leaves@[j] < n);
                }
            }
            lemma_push_distinct(old(self).roots@, index);
            lemma_push_distinct(old(self).leaves@, index);
            assert forall|u: NodeId| (u as int) < n + 1 implies (self.roots@.contains(u)
                <==> (#[trigger] self.nodes@[u as int]).parents@.len() == 0) by {
                lemma_push_contains(old(self).roots@, index, u);
                if (u as int) < n {
                    assert(self.nodes@[u as int] == old(self).nodes@[u as int]);
                }
            }
            assert forall|u: NodeId| (u as int) < n + 1 implies (self.leaves@.contains(u)
                <==> (#[trigger] self.nodes@[u as int]).children@.len() == 0) by {
                lemma_push_contains(old(self).leaves@, index, u);
                if (u as int) < n {
                    assert(self.nodes@[u as int] == old(self).nodes@[u as int]);
                }
            }
            assert forall|u: NodeId, v: NodeId| (u as int) < n + 1 && (v as int) < n + 1 implies ((
            #[trigger] self.nodes@[u as int].children@.contains(v)) <==> (
            #[trigger] self.nodes@[v as int].parents@.contains(u))) by {
                if (u as int) < n {
                    assert(self.nodes@[u as int] == old(self).nodes@[u as int]);
                }
                if (v as int) < n {
                    assert(self.nodes@[v as int] == old(self).nodes@[v as int]);
                }
                if (u as int) < n && (v as int) < n {
                    if self.nodes@[u as int].children@.contains(v) && (v as int) == n {
                        assert(old(self).nodes@[u as int].children@[choose|j: int|
                            0 <= j < old(self).nodes@[u as int].children@.len() && old(
                                self,
                            ).nodes@[u as int].children@[j] == v] < n);
                    }
                }
            }
            assert forall|a: NodeId, b: NodeId| true implies (self.spec_edge(a, b) <==> old(
                self,
            ).spec_edge(a, b)) by {
                if (a as int) < n {
                    assert(self.nodes@[a as int] == old(self).nodes@[a as int]);
                    if self.nodes@[a as int].children@.contains(b) {
                        let j = choose|j: int|
                            0 <= j < self.nodes@[a as int].children@.len()
                                && self.nodes@[a as int].children@[j] == b;
                        assert(self.nodes@[a as int].children@[j] < n);
                    }
                }
            }
        }
        index
    }
}

impl<Elem> Dag<Elem> {
    /// Add an edge to the DAG, recording that `parent` depends on
    /// `child`. Adding an edge that is already present changes nothing.
    pub fn add_edge(&mut self, parent: NodeId, child: NodeId)
        requires
            old(self).wf(),
            parent < old(self).nodes@.len(),
            child < old(self).nodes@.len(),
        ensures
            final(self).wf(),
            final(self).nodes@.len() == old(self).nodes@.len(),
            forall|i: int|
                0 <= i < old(self).nodes@.len() ==> (#[trigger] final(self).nodes@[i]).elem == old(
                    self,
                ).nodes@[i].elem,
            forall|a: NodeId, b: NodeId|
                final(self).spec_edge(a, b) <==> (old(self).spec_edge(a, b) || (a == parent && b
                    == child)),
    {
        let ghost n = old(self).nodes@.len() as int;

        // record the edge on the parent's side
        let mut node = self.nodes.remove(parent);
        let ghost old_children = node.children@;
        let had = contains_id(&node.children, child);
        if !had {
            proof {
                lemma_push_distinct(old_children, child);
            }
            node.children.push(child);
        }
        proof {
            assert(old_children == old(self).nodes@[parent as int].children@);
            assert forall|y: NodeId| node.children@.contains(y) implies (old_children.contains(y)
                || y == child) by {
                if !had {
                    lemma_push_contains(old_children, child, y);
                }
            }
            assert forall|y: NodeId| (old_children.contains(y) || y == child) implies node
                .children@.contains(y) by {
                if !had {
                    lemma_push_contains(old_children, child, y);
                }
            }
        }
        self.nodes.insert(parent, node);
        let ghost mid = self.nodes@;
        proof {
            assert(mid.len() == n);
            assert(forall|i: int| 0 <= i < n && i != parent ==> (#[trigger] mid[i]) == old(
                self,
            ).nodes@[i]);
            assert(mid[parent as int].elem == old(self).nodes@[parent as int].elem);
            assert(mid[parent as int].parents@ == old(self).nodes@[parent as int].parents@);
            assert(mid[parent as int].children@.no_duplicates());
            assert(forall|y: NodeId|
                mid[parent as int].children@.contains(y) <==> (old_children.contains(y) || y
                    == child));
        }

        // record the edge on the child's side
        let mut node2 = self.nodes.remove(child);
        let ghost old_parents = node2.parents@;
        let had2 = contains_id(&node2.parents, parent);
        if !had2 {
            proof {
                assert(old_parents == mid[child as int].parents@);
                assert(old_parents.no_duplicates()) by {
                    if child != parent {
                        assert(mid[child as int] == old(self).nodes@[child as int]);
                    }
                }
                lemma_push_distinct(old_parents, parent);
            }
            node2.parents.push(parent);
        }
        proof {
            assert(old_parents == mid[child as int].parents@);
            assert(old_parents == old(self).nodes@[child as int].parents@) by {
                if child != parent {
                    assert(mid[child as int] == old(self).nodes@[child as int]);
                }
            }
            assert forall|y: NodeId| node2.parents@.contains(y) implies (old_parents.contains(y)
                || y == parent) by {
                if !had2 {
                    lemma_push_contains(old_parents, parent, y);
                }
            }
            assert forall|y: NodeId| (old_parents.contains(y) || y == parent) implies node2
                .parents@.contains(y) by {
                if !had2 {
                    lemma_push_contains(old_parents, parent, y);
                }
            }
        }
        self.nodes.insert(child, node2);
        let ghost fin = self.nodes@;
        proof {
            assert(fin.len() == n);
            assert(forall|i: int| 0 <= i < n && i != child ==> (#[trigger] fin[i]) == mid[i]);
            assert(fin[child as int].elem == mid[child as int].elem);
            assert(fin[child as int].children@ == mid[child as int].children@);
            assert(fin[child as int].parents@.no_duplicates());
            assert(forall|y: NodeId|
                fin[child as int].parents@.contains(y) <==> (old_parents.contains(y) || y
                    == parent));
            // summary: children changed only at parent, parents only at child
            assert forall|u: int| 0 <= u < n implies (#[trigger] fin[u]).elem == old(
                self,
            ).nodes@[u].elem by {
                if u != child {
                    assert(fin[u] == mid[u]);
                }
                if u != parent {
                    assert(mid[u] == old(self).nodes@[u]);
                }
            }
            assert forall|u: int| 0 <= u < n && u != parent implies (#[trigger] fin[u]).children@
                == old(self).nodes@[u].children@ by {
                if u != child {
                    assert(fin[u] == mid[u]);
                }
            }
            assert forall|u: int| 0 <= u < n && u != child implies (#[trigger] fin[u]).parents@
                == old(self).nodes@[u].parents@ by {
                if u != child {
                    assert(fin[u] == mid[u]);
                }
            }
            assert(forall|y: NodeId|
                fin[parent as int].children@.contains(y) <==> (old(
                    self,
                ).nodes@[parent as int].children@.contains(y) || y == child)) by {
                if parent != child {
                    assert(fin[parent as int] == mid[parent as int]);
                }
            }
            assert(fin[parent as int].children@.no_duplicates()) by {
                if parent != child {
                    assert(fin[parent as int] == mid[parent as int]);
                }
            }
        }

        // the child gained a parent and the parent gained a child, so
        // neither is a root or leaf any longer
        remove_id(&mut self.roots, child);
        remove_id(&mut self.leaves, parent);

        proof {
            let dag = *self;
            assert(dag.nodes@ == fin);
            // adjacency lists stay valid and duplicate-free
            assert forall|u: int| 0 <= u < n implies spec_id_list_ok(
                (#[trigger] dag.nodes@[u]).children@,
                n,
            ) && spec_id_list_ok(dag.nodes@[u].parents@, n) by {
                assert forall|i: int|
                    0 <= i < dag.nodes@[u].children@.len() implies (
                #[trigger] dag.nodes@[u].children@[i]) < n by {
                    assert(dag.nodes@[u].children@.contains(dag.nodes@[u].children@[i]));
                    if u == parent {
                        assert(old(self).nodes@[u].children@.contains(dag.nodes@[u].children@[i])
                            || dag.nodes@[u].children@[i] == child);
                    }
                }
                assert forall|i: int|
                    0 <= i < dag.nodes@[u].parents@.len() implies (
                #[trigger] dag.nodes@[u].parents@[i]) < n by {
                    assert(dag.nodes@[u].parents@.contains(dag.nodes@[u].parents@[i]));
                    if u == child {
                        assert(old(self).nodes@[u].parents@.contains(dag.nodes@[u].parents@[i])
                            || dag.nodes@[u].parents@[i] == parent);
                    }
                }
                assert(dag.nodes@[u].children@.no_duplicates() && dag.nodes@[
                    u
                ].parents@.no_duplicates()) by {
                    if u != parent && u != child {
                        assert(dag.nodes@[u] == old(self).nodes@[u]);
                    }
                }
            }
            // each edge is recorded on both endpoints
            assert forall|u: NodeId, v: NodeId| (u as int) < n && (v as int) < n implies ((
            #[trigger] dag.nodes@[u as int].children@.contains(v)) <==> (
            #[trigger] dag.nodes@[v as int].parents@.contains(u))) by {
                assert(old(self).nodes@[u as int].children@.contains(v) <==> old(
                    self,
                ).nodes@[v as int].parents@.contains(u));
                if u == parent && v == child {
                } else if u == parent {
                    assert(dag.nodes@[v as int].parents@ == old(self).nodes@[v as int].parents@);
                } else if v == child {
                    assert(dag.nodes@[u as int].children@ == old(self).nodes@[u as int].children@);
                } else {
                    assert(dag.nodes@[u as int].children@ == old(self).nodes@[u as int].children@);
                    assert(dag.nodes@[v as int].parents@ == old(self).nodes@[v as int].parents@);
                }
            }
            // roots and leaves still characterise the parentless and
            // childless nodes
            assert(dag.nodes@[child as int].parents@.contains(parent));
            assert(dag.nodes@[parent as int].children@.contains(child));
            assert forall|u: NodeId| (u as int) < n implies (dag.roots@.contains(u) <==> (
            #[trigger] dag.nodes@[u as int]).parents@.len() == 0) by {
                assert(old(self).roots@.contains(u) <==> old(
                    self,
                ).nodes@[u as int].parents@.len() == 0);
                if u == child {
                    assert(dag.nodes@[u as int].parents@.len() > 0);
                } else {
                    assert(dag.nodes@[u as int].parents@ == old(self).nodes@[u as int].parents@);
                }
            }
            assert forall|u: NodeId| (u as int) < n implies (dag.leaves@.contains(u) <==> (
            #[trigger] dag.nodes@[u as int]).children@.len() == 0) by {
                assert(old(self).leaves@.contains(u) <==> old(
                    self,
                ).nodes@[u as int].children@.len() == 0);
                if u == parent {
                    assert(dag.nodes@[u as int].children@.len() > 0);
                } else {
                    assert(dag.nodes@[u as int].children@ == old(self).nodes@[u as int].children@);
                }
            }
            // the edge set grew by exactly the one edge
            assert forall|a: NodeId, b: NodeId| true implies (dag.spec_edge(a, b) <==> (old(
                self,
            ).spec_edge(a, b) || (a == parent && b == child))) by {
                if (a as int) < n && (b as int) < n {
                    if a == parent {
                    } else {
                        assert(dag.nodes@[a as int].children@ == old(
                            self,
                        ).nodes@[a as int].children@);
                    }
                }
            }
        }
    }
}

impl<Elem> Dag<Elem> {
    /// Some root reaches `u`.
    pub open spec fn spec_root_reachable(self, u: NodeId) -> bool {
        exists|i: int|
            0 <= i < self.roots@.len() && self.spec_reachable(#[trigger] self.roots@[i], u)
    }

    /// Number of edges leaving root-reachable nodes among the first `k`.
    pub open spec fn spec_reachable_edges_from(self, k: int) -> int
        decreases k,
    {
        if k <= 0 {
            0
        } else {
            self.spec_reachable_edges_from(k - 1) + if self.spec_root_reachable(
                (k - 1) as NodeId,
            ) {
                self.nodes@[k - 1].children@.len() as int
            } else {
                0
            }
        }
    }

    /// Number of edges that hang from the roots: every edge whose source
    /// some root reaches.
    pub open spec fn spec_counted_edges(self) -> int {
        self.spec_reachable_edges_from(self.nodes@.len() as int)
    }
}

/// Prefix sums of the reachable-edge count grow with the prefix.
proof fn lemma_reachable_edges_mono<Elem>(d: Dag<Elem>, i: int, j: int)
    requires
        0 <= i <= j,
    ensures
        d.spec_reachable_edges_from(i) <= d.spec_reachable_edges_from(j),
    decreases j - i,
{
    if i < j {
        lemma_reachable_edges_mono(d, i, j - 1);
    }
}

impl<Elem> Dag<Elem> {
    /// Add a node to the DAG, along with edges recording its dependencies
    /// (children).
    pub fn add_node_with_children(&mut self, elem: Elem, children: Vec<NodeId>) -> (r: NodeId)
        requires
            old(self).wf(),
            forall|i: int|
                0 <= i < children@.len() ==> (#[trigger] children@[i]) < old(self).nodes@.len(),
        ensures
            final(self).wf(),
            r == old(self).nodes@.len(),
            final(self).nodes@.len() == old(self).nodes@.len() + 1,
            forall|i: int|
                0 <= i < r ==> (#[trigger] final(self).nodes@[i]).elem == old(self).nodes@[i].elem,
            final(self).nodes@[r as int].elem == elem,
            forall|a: NodeId, b: NodeId|
                final(self).spec_edge(a, b) <==> (old(self).spec_edge(a, b) || (a == r
                    && children@.contains(b))),
    {
        let ghost pre = *old(self);
        let new_node = self.add_node(elem);
        let mut i: usize = 0;
        while i < children.len()
            invariant
                0 <= i <= children@.len(),
                self.wf(),
                new_node == pre.nodes@.len(),
                self.nodes@.len() == pre.nodes@.len() + 1,
                forall|k: int|
                    0 <= k < new_node ==> (#[trigger] self.nodes@[k]).elem == pre.nodes@[k].elem,
                (#[trigger] self.nodes@[new_node as int]).elem == elem,
                forall|k: int|
                    0 <= k < children@.len() ==> (#[trigger] children@[k]) < pre.nodes@.len(),
                forall|a: NodeId, b: NodeId|
                    self.spec_edge(a, b) <==> (pre.spec_edge(a, b) || (a == new_node
                        && children@.take(i as int).contains(b))),
            decreases children@.len() - i,
        {
            let child = children[i];
            let ghost before = *self;
            self.add_edge(new_node, child);
            proof {
                assert(child == children@[i as int]);
                assert(forall|a: NodeId, b: NodeId|
                    self.spec_edge(a, b) <==> (before.spec_edge(a, b) || (a == new_node && b
                        == child)));
                assert(forall|a: NodeId, b: NodeId|
                    before.spec_edge(a, b) <==> (pre.spec_edge(a, b) || (a == new_node
                        && children@.take(i as int).contains(b))));
                assert forall|a: NodeId, b: NodeId| self.spec_edge(a, b) implies (pre.spec_edge(
                    a,
                    b,
                ) || (a == new_node && children@.take(i + 1).contains(b))) by {
                    if a == new_node && b == child {
                        assert(children@.take(i + 1)[i as int] == child);
                    } else if a == new_node && children@.take(i as int).contains(b) {
                        let j = choose|j: int|
                            0 <= j < i && #[trigger] children@.take(i as int)[j] == b;
                        assert(children@.take(i + 1)[j] == b);
                    }
                }
                assert forall|a: NodeId, b: NodeId| (pre.spec_edge(a, b) || (a == new_node
                    && children@.take(i + 1).contains(b))) implies self.spec_edge(a, b) by {
                    if a == new_node && children@.take(i + 1).contains(b) {
                        let j = choose|j: int|
                            0 <= j < i + 1 && #[trigger] children@.take(i + 1)[j] == b;
                        if j < i {
                            assert(children@.take(i as int)[j] == b);
                        } else {
                            assert(b == child);
                        }
                    }
                }
            }
            i += 1;
        }
        proof {
            assert(children@.take(children@.len() as int) =~= children@);
        }
        new_node
    }

    /// Count the edges that hang from the roots: every edge whose source
    /// some root reaches. Edges in parts of the graph that no root reaches
    /// are not counted.
    pub fn count_edges(&self) -> (r: u32)
        requires
            self.wf(),
            self.spec_counted_edges() <= u32::MAX,
        ensures
            r == self.spec_counted_edges(),
    {
        let n = self.nodes.len();
        let mut count: u32 = 0;
        let mut u: usize = 0;
        while u < n
            invariant
                self.wf(),
                0 <= u <= n,
                n == self.nodes@.len(),
                self.spec_counted_edges() <= u32::MAX,
                count == self.spec_reachable_edges_from(u as int),
            decreases n - u,
        {
            let mut reachable = false;
            let mut k: usize = 0;
            while k < self.roots.len() && !reachable
                invariant
                    self.wf(),
                    n == self.nodes@.len(),
                    (u as int) < n,
                    0 <= k <= self.roots@.len(),
                    !reachable ==> forall|j: int|
                        0 <= j < k ==> !self.spec_reachable(#[trigger] self.roots@[j], u),
                    reachable ==> self.spec_root_reachable(u),
                decreases self.roots@.len() - k + (if reachable {
                    0int
                } else {
                    1int
                }),
            {
                let root = self.roots[k];
                proof {
                    assert(self.roots@[k as int] < self.nodes@.len());
                }
                if self.reaches(root, u) {
                    reachable = true;
                } else {
                    k += 1;
                }
            }
            proof {
                if !reachable && self.spec_root_reachable(u) {
                    let i = choose|i: int|
                        0 <= i < self.roots@.len() && self.spec_reachable(
                            #[trigger] self.roots@[i],
                            u,
                        );
                    assert(!self.spec_reachable(self.roots@[i], u));
                }
                lemma_reachable_edges_mono(*self, u + 1, n as int);
            }
            if reachable {
                let c = self.nodes[u].children.len();
                count = count + (c as u32);
            }
            u += 1;
        }
        count
    }
}

/// A duplicate-free list of ids below `n` has at most `n` entries.
proof fn lemma_distinct_bounded(s: Seq<NodeId>, n: int)
    requires
        spec_id_list_ok(s, n),
        n >= 0,
    ensures
        s.len() <= n,
{
    broadcast use vstd::set::group_set_axioms;

    let f = |x: NodeId| x as int;
    assert(vstd::relations::injective(f)) by {
        assert forall|x: NodeId, y: NodeId| #[trigger] f(x) == #[trigger] f(y) implies x == y by {}
    }
    s.lemma_no_duplicates_injective(f);
    let t = s.map_values(f);
    t.unique_seq_to_set();
    vstd::set_lib::lemma_int_range(0, n);
    assert(t.to_set().subset_of(vstd::set_lib::set_int_range(0, n))) by {
        assert forall|x: int| t.to_set().contains(x) implies vstd::set_lib::set_int_range(
            0,
            n,
        ).contains(x) by {
            let j = choose|j: int| 0 <= j < t.len() && t[j] == x;
            assert(t[j] == f(s[j]));
            assert(s[j] < n);
        }
    }
    vstd::set_lib::lemma_len_subset(t.to_set(), vstd::set_lib::set_int_range(0, n));
}

impl<Elem> Dag<Elem> {
    /// `p` walks the graph: at least one node, every consecutive pair an
    /// edge.
    pub open spec fn spec_is_path(self, p: Seq<NodeId>) -> bool {
        &&& p.len() >= 1
        &&& (p[0] as int) < self.nodes@.len()
        &&& forall|k: int| 0 <= k < p.len() - 1 ==> #[trigger] self.spec_edge(p[k], p[k + 1])
    }

    /// Some walk returns to its starting node.
    pub open spec fn spec_has_cycle(self) -> bool {
        exists|p: Seq<NodeId>|
            self.spec_is_path(p) && p.len() >= 2 && p[0] == p[p.len() - 1]
    }

    /// Some walk from `a` leads to a node that a cycle passes through.
    pub open spec fn spec_cycle_reachable_from(self, a: NodeId) -> bool {
        exists|q: Seq<NodeId>|
            self.spec_is_path(q) && q.len() >= 2 && q[0] == q[q.len() - 1] && self.spec_reachable(
                a,
                q[0],
            )
    }
}

/// Any contiguous, non-empty piece of a walk is itself a walk.
proof fn lemma_subpath<Elem>(d: Dag<Elem>, p: Seq<NodeId>, a: int, b: int)
    requires
        d.spec_is_path(p),
        0 <= a < b <= p.len(),
    ensures
        d.spec_is_path(p.subrange(a, b)),
{
    let q = p.subrange(a, b);
    if a >= 1 {
        let k = a - 1;
        assert(d.spec_edge(p[k], p[k + 1]));
        assert(p[k + 1] == p[a]);
    }
    assert(q[0] == p[a]);
    assert forall|k: int| 0 <= k < q.len() - 1 implies #[trigger] d.spec_edge(q[k], q[k + 1]) by {
        assert(q[k] == p[a + k]);
        assert(q[k + 1] == p[a + k + 1]);
        assert(d.spec_edge(p[a + k], p[a + k + 1]));
    }
}

impl<Elem> Dag<Elem> {
    /// Depth-first search below `curr` for a node already on the walk from
    /// the root; `ancestors` is that walk, and is handed back unchanged.
    fn cycle_check_iter(&self, curr: NodeId, ancestors: &mut Vec<NodeId>) -> (r: bool)
        requires
            self.wf(),
            (curr as int) < self.nodes@.len(),
            old(ancestors)@.no_duplicates(),
            forall|k: int|
                0 <= k < old(ancestors)@.len() ==> ((#[trigger] old(ancestors)@[k]) as int)
                    < self.nodes@.len(),
            self.spec_is_path(old(ancestors)@.push(curr)),
        ensures
            final(ancestors)@ == old(ancestors)@,
            r ==> self.spec_has_cycle(),
            r ==> self.spec_cycle_reachable_from(
                if old(ancestors)@.len() > 0 {
                    old(ancestors)@[0]
                } else {
                    curr
                },
            ),
            old(ancestors)@.contains(curr) ==> r,
            !r ==> forall|p: Seq<NodeId>|
                ((#[trigger] self.spec_is_path(p)) && p.len() >= 2 && p[0] == curr) ==> (!old(
                    ancestors,
                )@.contains(p[p.len() - 1]) && p[p.len() - 1] != curr),
            !r ==> !self.spec_cycle_reachable_from(curr),
        decreases self.nodes@.len() - old(ancestors)@.len(),
    {
        let ghost n = self.nodes@.len() as int;
        if contains_id(ancestors, curr) {
            proof {
                let full = ancestors@.push(curr);
                let k = choose|k: int| 0 <= k < ancestors@.len() && ancestors@[k] == curr;
                lemma_subpath(*self, full, k, full.len() as int);
                let cycle = full.subrange(k, full.len() as int);
                assert(cycle[0] == curr);
                assert(cycle[cycle.len() - 1] == full[full.len() - 1]);
                assert(self.spec_is_path(cycle) && cycle.len() >= 2 && cycle[0] == cycle[cycle.len()
                    - 1]);
                // the walk's start reaches the cycle through its prefix
                lemma_subpath(*self, full, 0, k + 1);
                let prefix = full.subrange(0, k + 1);
                assert(prefix[0] == ancestors@[0]);
                assert(prefix[prefix.len() - 1] == cycle[0]);
                assert(self.spec_reachable(ancestors@[0], cycle[0]));
                assert(self.spec_cycle_reachable_from(ancestors@[0]));
            }
            return true;
        }
        proof {
            assert(!ancestors@.contains(curr));
            lemma_push_distinct(ancestors@, curr);
        }
        ancestors.push(curr);
        proof {
            lemma_distinct_bounded(ancestors@, n);
        }
        let ghost walk = ancestors@;
        let mut idx: usize = 0;
        while idx < self.nodes[curr].children.len()
            invariant
                self.wf(),
                (curr as int) < self.nodes@.len(),
                n == self.nodes@.len(),
                ancestors@ == walk,
                walk == old(ancestors)@.push(curr),
                walk.no_duplicates(),
                forall|k: int| 0 <= k < walk.len() ==> ((#[trigger] walk[k]) as int) < n,
                self.spec_is_path(walk),
                walk.len() <= n,
                0 <= idx <= self.nodes@[curr as int].children@.len(),
                forall|j: int|
                    0 <= j < idx ==> !walk.contains(
                        #[trigger] self.nodes@[curr as int].children@[j],
                    ),
                forall|j: int, p: Seq<NodeId>|
                    #![trigger self.spec_is_path(p), self.nodes@[curr as int].children@[j]]
                    (0 <= j < idx && self.spec_is_path(p) && p.len() >= 2 && p[0]
                        == self.nodes@[curr as int].children@[j]) ==> (!walk.contains(
                        p[p.len() - 1],
                    ) && p[p.len() - 1] != self.nodes@[curr as int].children@[j]),
                forall|j: int|
                    0 <= j < idx ==> !self.spec_cycle_reachable_from(
                        #[trigger] self.nodes@[curr as int].children@[j],
                    ),
            decreases self.nodes@[curr as int].children@.len() - idx,
        {
            let child = self.nodes[curr].children[idx];
            proof {
                assert(self.nodes@[curr as int].children@.contains(child));
                assert(self.spec_edge(curr, child));
                assert forall|k: int| 0 <= k < walk.push(child).len() - 1 implies (
                #[trigger] self.spec_edge(walk.push(child)[k], walk.push(child)[k + 1])) by {
                    if k < walk.len() - 1 {
                        assert(walk.push(child)[k] == walk[k]);
                        assert(walk.push(child)[k + 1] == walk[k + 1]);
                        assert(self.spec_edge(walk[k], walk[k + 1]));
                    } else {
                        assert(walk.push(child)[k] == curr);
                        assert(walk.push(child)[k + 1] == child);
                    }
                }
            }
            if self.cycle_check_iter(child, ancestors) {
                let _ = ancestors.pop();
                proof {
                    assert(ancestors@ =~= old(ancestors)@);
                    // the recursive walk starts where this one does
                    if old(ancestors)@.len() > 0 {
                        assert(walk[0] == old(ancestors)@[0]);
                    } else {
                        assert(walk[0] == curr);
                    }
                }
                return true;
            }
            idx += 1;
        }
        let _ = ancestors.pop();
        proof {
            assert(ancestors@ =~= old(ancestors)@);
            let children = self.nodes@[curr as int].children@;
            // every walk out of curr ends clear of the ancestors and of curr
            assert forall|p: Seq<NodeId>|
                ((#[trigger] self.spec_is_path(p)) && p.len() >= 2 && p[0] == curr) implies (!old(
                ancestors,
            )@.contains(p[p.len() - 1]) && p[p.len() - 1] != curr) by {
                assert(self.spec_edge(p[0int], p[0int + 1]));
                let c = p[1];
                assert(children.contains(c));
                let j = choose|j: int| 0 <= j < children.len() && children[j] == c;
                assert(children[j] == c);
                if p.len() == 2 {
                    assert(!walk.contains(c));
                    lemma_push_contains(old(ancestors)@, curr, c);
                } else {
                    lemma_subpath(*self, p, 1, p.len() as int);
                    let q = p.subrange(1, p.len() as int);
                    assert(q[0] == c);
                    assert(q[q.len() - 1] == p[p.len() - 1]);
                    assert(self.spec_is_path(q));
                    assert(!walk.contains(q[q.len() - 1]) && q[q.len() - 1] != c);
                    lemma_push_contains(old(ancestors)@, curr, p[p.len() - 1]);
                }
            }
            // and no walk out of curr meets a cycle
            assert(!self.spec_cycle_reachable_from(curr)) by {
                if self.spec_cycle_reachable_from(curr) {
                    let q = choose|q: Seq<NodeId>|
                        self.spec_is_path(q) && q.len() >= 2 && q[0] == q[q.len() - 1]
                            && self.spec_reachable(curr, q[0]);
                    let w = choose|w: Seq<NodeId>|
                        self.spec_is_path(w) && w[0] == curr && w[w.len() - 1] == q[0];
                    if w.len() == 1 {
                        assert(q[0] == curr);
                        assert(q[q.len() - 1] != curr);
                    } else {
                        assert(self.spec_edge(w[0int], w[0int + 1]));
                        let c = w[1];
                        assert(children.contains(c));
                        let j = choose|j: int| 0 <= j < children.len() && children[j] == c;
                        assert(children[j] == c);
                        lemma_subpath(*self, w, 1, w.len() as int);
                        let w2 = w.subrange(1, w.len() as int);
                        assert(w2[0] == c && w2[w2.len() - 1] == q[0]);
                        assert(self.spec_reachable(c, q[0]));
                        assert(self.spec_cycle_reachable_from(c));
                    }
                }
            }
        }
        false
    }

    /// Search for a cycle along the walks that start at the DAG's roots.
    ///
    /// `true` means some walk from a root meets a cycle; `false` means
    /// none does (a cycle cut off from every root is not searched beyond
    /// them, and does not make this return `true`).
    pub fn cycle_check(&self) -> (r: bool)
        requires
            self.wf(),
        ensures
            r ==> self.spec_has_cycle(),
            r ==> exists|k: int|
                0 <= k < self.roots@.len() && self.spec_cycle_reachable_from(
                    #[trigger] self.roots@[k],
                ),
            !r ==> forall|k: int|
                0 <= k < self.roots@.len() ==> !self.spec_cycle_reachable_from(
                    #[trigger] self.roots@[k],
                ),
    {
        let mut ancestors: Vec<NodeId> = Vec::new();
        let mut i: usize = 0;
        while i < self.roots.len()
            invariant
                self.wf(),
                ancestors@ == Seq::<NodeId>::empty(),
                0 <= i <= self.roots@.len(),
                forall|k: int|
                    0 <= k < i ==> !self.spec_cycle_reachable_from(#[trigger] self.roots@[k]),
            decreases self.roots@.len() - i,
        {
            let root = self.roots[i];
            proof {
                assert(self.roots@[i as int] < self.nodes@.len());
                assert(Seq::<NodeId>::empty().push(root)[0] == root);
            }
            if self.cycle_check_iter(root, &mut ancestors) {
                return true;
            }
            i += 1;
        }
        false
    }
}

impl<Elem> Dag<Elem> {
    /// Some walk leads from `a` to `b` (in zero or more steps).
    pub open spec fn spec_reachable(self, a: NodeId, b: NodeId) -> bool {
        exists|p: Seq<NodeId>|
            self.spec_is_path(p) && p[0] == a && p[p.len() - 1] == b
    }

    /// The edge from `u` to `v` is redundant: `v` can also be reached
    /// through another child of `u`, so the dependency is implied.
    pub open spec fn spec_redundant(self, u: NodeId, v: NodeId) -> bool {
        exists|c: NodeId| self.spec_edge(u, c) && c != v && self.spec_reachable(c, v)
    }
}

/// Every node reaches itself.
proof fn lemma_reach_self<Elem>(d: Dag<Elem>, a: NodeId)
    requires
        (a as int) < d.nodes@.len(),
    ensures
        d.spec_reachable(a, a),
{
    let p = seq![a];
    assert(d.spec_is_path(p));
    assert(p[0] == a && p[p.len() - 1] == a);
}

/// Reachability extends along an edge.
proof fn lemma_reach_step<Elem>(d: Dag<Elem>, a: NodeId, b: NodeId, c: NodeId)
    requires
        d.spec_reachable(a, b),
        d.spec_edge(b, c),
    ensures
        d.spec_reachable(a, c),
{
    let p = choose|p: Seq<NodeId>|
        d.spec_is_path(p) && p[0] == a && p[p.len() - 1] == b;
    let q = p.push(c);
    assert forall|k: int| 0 <= k < q.len() - 1 implies #[trigger] d.spec_edge(q[k], q[k + 1]) by {
        if k < p.len() - 1 {
            assert(q[k] == p[k]);
            assert(q[k + 1] == p[k + 1]);
            assert(d.spec_edge(p[k], p[k + 1]));
        } else {
            assert(q[k] == b);
            assert(q[k + 1] == c);
        }
    }
    assert(q[0] == a && q[q.len() - 1] == c);
}

/// Number of `false` entries in a sequence of markers.
spec fn spec_count_false(s: Seq<bool>) -> int
    decreases s.len(),
{
    if s.len() == 0 {
        0
    } else {
        spec_count_false(s.drop_last()) + if s.last() {
            0int
        } else {
            1int
        }
    }
}

/// The count of unmarked entries is never negative.
proof fn lemma_count_false_nonneg(s: Seq<bool>)
    ensures
        spec_count_false(s) >= 0,
    decreases s.len(),
{
    if s.len() > 0 {
        lemma_count_false_nonneg(s.drop_last());
    }
}

/// Marking an unmarked entry lowers the count by one.
proof fn lemma_count_false_update(s: Seq<bool>, i: int)
    requires
        0 <= i < s.len(),
        !s[i],
    ensures
        spec_count_false(s.update(i, true)) == spec_count_false(s) - 1,
    decreases s.len(),
{
    let t = s.update(i, true);
    if i == s.len() - 1 {
        assert(t.drop_last() =~= s.drop_last());
    } else {
        assert(t.drop_last() =~= s.drop_last().update(i, true));
        lemma_count_false_update(s.drop_last(), i);
        assert(t.last() == s.last());
    }
}

/// If the marked set contains the walk's start and is closed under edges,
/// it contains the walk's end.
proof fn lemma_closed_set_catches_path<Elem>(d: Dag<Elem>, vis: Seq<bool>, p: Seq<NodeId>)
    requires
        vis.len() == d.nodes@.len(),
        d.spec_is_path(p),
        vis[p[0] as int],
        forall|u: NodeId, c: NodeId|
            (u as int) < vis.len() && vis[u as int] && #[trigger] d.spec_edge(u, c) ==> vis[c as int],
    ensures
        vis[p[p.len() - 1] as int],
    decreases p.len(),
{
    if p.len() > 1 {
        lemma_subpath(d, p, 0, p.len() - 1);
        let q = p.subrange(0, p.len() - 1);
        assert(q[0] == p[0]);
        lemma_closed_set_catches_path(d, vis, q);
        assert(q[q.len() - 1] == p[p.len() - 2]);
        let k = p.len() - 2;
        assert(d.spec_edge(p[k], p[k + 1]));
    }
}

impl<Elem> Dag<Elem> {
    /// Whether a walk leads from `from` to `target`, by marking everything
    /// reachable from `from`.
    fn reaches(&self, from: NodeId, target: NodeId) -> (r: bool)
        requires
            self.wf(),
            (from as int) < self.nodes@.len(),
            (target as int) < self.nodes@.len(),
        ensures
            r == self.spec_reachable(from, target),
    {
        let ghost n = self.nodes@.len() as int;
        let node_count = self.nodes.len();
        let mut visited: Vec<bool> = vec![false; node_count];
        visited.set(from, true);
        proof {
            lemma_reach_self(*self, from);
        }
        let mut stack: Vec<NodeId> = Vec::new();
        stack.push(from);
        proof {
            assert(stack@[0] == from);
            assert(stack@.contains(from));
        }
        while stack.len() > 0
            invariant
                self.wf(),
                n == self.nodes@.len(),
                (from as int) < n,
                (target as int) < n,
                visited@.len() == n,
                visited@[from as int],
                stack@.no_duplicates(),
                forall|k: int|
                    0 <= k < stack@.len() ==> ((#[trigger] stack@[k]) as int) < n
                        && visited@[stack@[k] as int],
                forall|u: NodeId|
                    (u as int) < n && visited@[u as int] ==> self.spec_reachable(from, u),
                forall|u: NodeId, c: NodeId|
                    (u as int) < n && visited@[u as int] && !stack@.contains(u)
                        && #[trigger] self.spec_edge(u, c) ==> visited@[c as int],
            decreases 2 * spec_count_false(visited@) + stack@.len(),
        {
            proof {
                lemma_count_false_nonneg(visited@);
            }
            let ghost entry_measure = 2 * spec_count_false(visited@) + stack@.len();
            let ghost pre_stack = stack@;
            let u = match stack.pop() {
                Some(u) => u,
                None => {
                    return false;
                },
            };
            proof {
                assert(!stack@.contains(u)) by {
                    if stack@.contains(u) {
                        let k = choose|k: int| 0 <= k < stack@.len() && stack@[k] == u;
                        assert(pre_stack[k] == u);
                        assert(pre_stack[pre_stack.len() - 1] == u);
                    }
                }
                assert forall|w: NodeId, c: NodeId| (w as int) < n && visited@[w as int]
                    && !stack@.contains(w) && w != u && #[trigger] self.spec_edge(w, c) implies
                    visited@[c as int] by {
                    assert(!pre_stack.contains(w)) by {
                        if pre_stack.contains(w) {
                            let k = choose|k: int|
                                0 <= k < pre_stack.len() && pre_stack[k] == w;
                            if k < pre_stack.len() - 1 {
                                assert(stack@[k] == w);
                            }
                        }
                    }
                }
            }
            let mut idx: usize = 0;
            while idx < self.nodes[u].children.len()
                invariant
                    self.wf(),
                    n == self.nodes@.len(),
                    (from as int) < n,
                    (target as int) < n,
                    (u as int) < n,
                    0 <= idx <= self.nodes@[u as int].children@.len(),
                    visited@.len() == n,
                    visited@[from as int],
                    visited@[u as int],
                    stack@.no_duplicates(),
                    !stack@.contains(u),
                    forall|k: int|
                        0 <= k < stack@.len() ==> ((#[trigger] stack@[k]) as int) < n
                            && visited@[stack@[k] as int],
                    forall|w: NodeId|
                        (w as int) < n && visited@[w as int] ==> self.spec_reachable(from, w),
                    forall|w: NodeId, c: NodeId|
                        (w as int) < n && visited@[w as int] && !stack@.contains(w) && w != u
                            && #[trigger] self.spec_edge(w, c) ==> visited@[c as int],
                    forall|j: int|
                        0 <= j < idx ==> visited@[(#[trigger] self.nodes@[u as int].children@[j]) as int],
                    2 * spec_count_false(visited@) + stack@.len() <= entry_measure - 1,
                decreases self.nodes@[u as int].children@.len() - idx,
            {
                let c = self.nodes[u].children[idx];
                proof {
                    assert(self.nodes@[u as int].children@.contains(c));
                    assert((c as int) < n);
                }
                if !visited[c] {
                    proof {
                        lemma_count_false_update(visited@, c as int);
                        lemma_reach_step(*self, from, u, c);
                        assert(self.spec_edge(u, c));
                    }
                    let ghost pre_vis = visited@;
                    let ghost pre_stk = stack@;
                    proof {
                        assert(!pre_stk.contains(c)) by {
                            if pre_stk.contains(c) {
                                let k = choose|k: int|
                                    0 <= k < pre_stk.len() && pre_stk[k] == c;
                                assert(visited@[pre_stk[k] as int]);
                            }
                        }
                        lemma_push_distinct(pre_stk, c);
                    }
                    visited.set(c, true);
                    stack.push(c);
                    proof {
                        assert forall|w: NodeId, cc: NodeId| (w as int) < n
                            && visited@[w as int] && !stack@.contains(w) && w != u
                            && #[trigger] self.spec_edge(w, cc) implies visited@[cc as int] by {
                            lemma_push_contains(pre_stk, c, w);
                            assert(!pre_stk.contains(w));
                            assert(w != c);
                            assert(pre_vis[w as int]);
                            assert(pre_vis[cc as int]);
                        }
                    }
                }
                idx += 1;
            }
            proof {
                lemma_count_false_nonneg(visited@);
            }
        }
        proof {
            if self.spec_reachable(from, target) {
                let p = choose|p: Seq<NodeId>|
                    self.spec_is_path(p) && p[0] == from && p[p.len() - 1] == target;
                lemma_closed_set_catches_path(*self, visited@, p);
            }
        }
        visited[target]
    }

    /// Whether the edge from `u` to `v` is implied by another child of `u`.
    fn is_redundant(&self, u: NodeId, v: NodeId) -> (r: bool)
        requires
            self.wf(),
            (u as int) < self.nodes@.len(),
            (v as int) < self.nodes@.len(),
        ensures
            r == self.spec_redundant(u, v),
    {
        let ghost n = self.nodes@.len() as int;
        let mut j: usize = 0;
        while j < self.nodes[u].children.len()
            invariant
                self.wf(),
                n == self.nodes@.len(),
                (u as int) < n,
                (v as int) < n,
                0 <= j <= self.nodes@[u as int].children@.len(),
                forall|k: int|
                    0 <= k < j ==> {
                        let c = (#[trigger] self.nodes@[u as int].children@[k]);
                        !(c != v && self.spec_reachable(c, v))
                    },
            decreases self.nodes@[u as int].children@.len() - j,
        {
            let c = self.nodes[u].children[j];
            proof {
                assert(self.nodes@[u as int].children@.contains(c));
            }
            if c != v {
                if self.reaches(c, v) {
                    proof {
                        assert(self.spec_edge(u, c));
                    }
                    return true;
                }
            }
            j += 1;
        }
        proof {
            if self.spec_redundant(u, v) {
                let c = choose|c: NodeId|
                    self.spec_edge(u, c) && c != v && self.spec_reachable(c, v);
                let k = choose|k: int|
                    0 <= k < self.nodes@[u as int].children@.len()
                        && self.nodes@[u as int].children@[k] == c;
                assert(self.nodes@[u as int].children@[k] == c);
            }
        }
        false
    }
}

impl<Elem> Dag<Elem> {
    /// Perform a transitive reduction: drop every edge whose target is
    /// also reachable through another child of its source, so only the
    /// direct dependencies remain. Nodes, their elements and all other
    /// edges stay untouched; redundancy is judged against the graph as it
    /// stood before the reduction.
    pub fn transitive_reduce(&mut self)
        requires
            old(self).wf(),
        ensures
            final(self).wf(),
            final(self).nodes@.len() == old(self).nodes@.len(),
            forall|i: int|
                0 <= i < old(self).nodes@.len() ==> (#[trigger] final(self).nodes@[i]).elem == old(
                    self,
                ).nodes@[i].elem,
            forall|a: NodeId, b: NodeId|
                final(self).spec_edge(a, b) <==> (old(self).spec_edge(a, b) && !old(
                    self,
                ).spec_redundant(a, b)),
    {
        let ghost pre = *old(self);
        let n = self.nodes.len();

        // which children each node keeps
        let mut retained: Vec<Vec<NodeId>> = Vec::new();
        let mut u: usize = 0;
        while u < n
            invariant
                *self == pre,
                pre.wf(),
                n == pre.nodes@.len(),
                retained@.len() == u,
                0 <= u <= n,
                forall|k: int| 0 <= k < u ==> (#[trigger] retained@[k]@).no_duplicates(),
                forall|k: int, x: NodeId|
                    0 <= k < u ==> ((#[trigger] retained@[k]@.contains(x)) <==> (
                    pre.spec_edge(k as NodeId, x) && !pre.spec_redundant(k as NodeId, x))),
            decreases n - u,
        {
            let mut keep: Vec<NodeId> = Vec::new();
            let mut j: usize = 0;
            while j < self.nodes[u].children.len()
                invariant
                    *self == pre,
                    pre.wf(),
                    n == pre.nodes@.len(),
                    (u as int) < n,
                    0 <= j <= pre.nodes@[u as int].children@.len(),
                    keep@.no_duplicates(),
                    forall|x: NodeId|
                        (#[trigger] keep@.contains(x)) ==> (exists|jj: int|
                            0 <= jj < j && pre.nodes@[u as int].children@[jj] == x)
                            && !pre.spec_redundant(u as NodeId, x),
                    forall|jj: int|
                        0 <= jj < j && !pre.spec_redundant(
                            u as NodeId,
                            #[trigger] pre.nodes@[u as int].children@[jj],
                        ) ==> keep@.contains(pre.nodes@[u as int].children@[jj]),
                decreases pre.nodes@[u as int].children@.len() - j,
            {
                let v = self.nodes[u].children[j];
                proof {
                    assert(pre.nodes@[u as int].children@.contains(v));
                    assert((v as int) < n);
                }
                if !self.is_redundant(u, v) {
                    proof {
                        assert(!keep@.contains(v)) by {
                            if keep@.contains(v) {
                                let jj = choose|jj: int|
                                    0 <= jj < j && pre.nodes@[u as int].children@[jj] == v;
                                assert(pre.nodes@[u as int].children@[jj] == pre.nodes@[u as int].children@[j as int]);
                            }
                        }
                        lemma_push_distinct(keep@, v);
                    }
                    let ghost pre_keep = keep@;
                    keep.push(v);
                    proof {
                        assert forall|x: NodeId| #[trigger] keep@.contains(x) implies (exists|
                            jj: int,
                        |
                            0 <= jj < j + 1 && pre.nodes@[u as int].children@[jj] == x)
                            && !pre.spec_redundant(u as NodeId, x) by {
                            lemma_push_contains(pre_keep, v, x);
                            if x == v {
                                assert(pre.nodes@[u as int].children@[j as int] == x);
                            }
                        }
                        assert forall|jj: int|
                            0 <= jj < j + 1 && !pre.spec_redundant(
                                u as NodeId,
                                #[trigger] pre.nodes@[u as int].children@[jj],
                            ) implies keep@.contains(pre.nodes@[u as int].children@[jj]) by {
                            lemma_push_contains(
                                pre_keep,
                                v,
                                pre.nodes@[u as int].children@[jj],
                            );
                        }
                    }
                } else {
                    proof {
                        assert forall|jj: int|
                            0 <= jj < j + 1 && !pre.spec_redundant(
                                u as NodeId,
                                #[trigger] pre.nodes@[u as int].children@[jj],
                            ) implies keep@.contains(pre.nodes@[u as int].children@[jj]) by {}
                    }
                }
                j += 1;
            }
            proof {
                assert forall|x: NodeId| true implies ((#[trigger] keep@.contains(x)) <==> (
                pre.spec_edge(u as NodeId, x) && !pre.spec_redundant(u as NodeId, x))) by {
                    if keep@.contains(x) {
                        let jj = choose|jj: int|
                            0 <= jj < pre.nodes@[u as int].children@.len()
                                && pre.nodes@[u as int].children@[jj] == x;
                        assert(pre.nodes@[u as int].children@.contains(x));
                    }
                    if pre.spec_edge(u as NodeId, x) && !pre.spec_redundant(u as NodeId, x) {
                        let jj = choose|jj: int|
                            0 <= jj < pre.nodes@[u as int].children@.len()
                                && pre.nodes@[u as int].children@[jj] == x;
                        assert(!pre.spec_redundant(
                            u as NodeId,
                            pre.nodes@[u as int].children@[jj],
                        ));
                    }
                }
            }
            retained.push(keep);
            u += 1;
        }

        // the parents each node ends up with: everyone that keeps it as a
        // child
        let mut new_parents: Vec<Vec<NodeId>> = Vec::new();
        let mut v: usize = 0;
        while v < n
            invariant
                n == retained@.len(),
                new_parents@.len() == v,
                0 <= v <= n,
                forall|k: int| 0 <= k < v ==> (#[trigger] new_parents@[k]@).no_duplicates(),
                forall|k: int, x: NodeId|
                    0 <= k < v ==> ((#[trigger] new_parents@[k]@.contains(x)) <==> ((x as int) < n
                        && retained@[x as int]@.contains(k as NodeId))),
            decreases n - v,
        {
            let mut row: Vec<NodeId> = Vec::new();
            let mut w: usize = 0;
            while w < n
                invariant
                    n == retained@.len(),
                    (v as int) < n,
                    0 <= w <= n,
                    forall|x: NodeId| (#[trigger] row@.contains(x)) ==> (x as int) < w,
                    row@.no_duplicates(),
                    forall|x: NodeId|
                        (#[trigger] row@.contains(x)) <==> ((x as int) < w
                            && retained@[x as int]@.contains(v as NodeId)),
                decreases n - w,
            {
                if contains_id(&retained[w], v) {
                    proof {
                        assert(!row@.contains(w));
                        lemma_push_distinct(row@, w);
                    }
                    let ghost pre_row = row@;
                    row.push(w);
                    proof {
                        assert(forall|x: NodeId|
                            #[trigger] row@.contains(x) <==> (pre_row.contains(x) || x == w)) by {
                            assert forall|x: NodeId| true implies (#[trigger] row@.contains(x)
                                <==> (pre_row.contains(x) || x == w)) by {
                                lemma_push_contains(pre_row, w, x);
                            }
                        }
                    }
                }
                w += 1;
            }
            new_parents.push(row);
            v += 1;
        }

        // the new root and leaf sets
        let mut new_roots: Vec<NodeId> = Vec::new();
        let mut i: usize = 0;
        while i < n
            invariant
                n == new_parents@.len(),
                0 <= i <= n,
                forall|x: NodeId| (#[trigger] new_roots@.contains(x)) ==> (x as int) < i,
                new_roots@.no_duplicates(),
                forall|x: NodeId|
                    (#[trigger] new_roots@.contains(x)) <==> ((x as int) < i
                        && new_parents@[x as int]@.len() == 0),
            decreases n - i,
        {
            if new_parents[i].len() == 0 {
                proof {
                    assert(!new_roots@.contains(i));
                    lemma_push_distinct(new_roots@, i);
                }
                let ghost pre_roots = new_roots@;
                new_roots.push(i);
                proof {
                    assert forall|x: NodeId| true implies (#[trigger] new_roots@.contains(x)
                        <==> (pre_roots.contains(x) || x == i)) by {
                        lemma_push_contains(pre_roots, i, x);
                    }
                }
            }
            i += 1;
        }
        let mut new_leaves: Vec<NodeId> = Vec::new();
        let mut i2: usize = 0;
        while i2 < n
            invariant
                n == retained@.len(),
                0 <= i2 <= n,
                forall|x: NodeId| (#[trigger] new_leaves@.contains(x)) ==> (x as int) < i2,
                new_leaves@.no_duplicates(),
                forall|x: NodeId|
                    (#[trigger] new_leaves@.contains(x)) <==> ((x as int) < i2
                        && retained@[x as int]@.len() == 0),
            decreases n - i2,
        {
            if retained[i2].len() == 0 {
                proof {
                    assert(!new_leaves@.contains(i2));
                    lemma_push_distinct(new_leaves@, i2);
                }
                let ghost pre_leaves = new_leaves@;
                new_leaves.push(i2);
                proof {
                    assert forall|x: NodeId| true implies (#[trigger] new_leaves@.contains(x)
                        <==> (pre_leaves.contains(x) || x == i2)) by {
                        lemma_push_contains(pre_leaves, i2, x);
                    }
                }
            }
            i2 += 1;
        }

        // install the new adjacency lists
        let ghost retained_full = retained@;
        let ghost parents_full = new_parents@;
        let mut k: usize = 0;
        while k < n
            invariant
                0 <= k <= n,
                n == pre.nodes@.len(),
                self.nodes@.len() == n,
                retained_full.len() == n,
                parents_full.len() == n,
                retained@ =~= retained_full.subrange(k as int, n as int),
                new_parents@ =~= parents_full.subrange(k as int, n as int),
                forall|m: int|
                    0 <= m < k ==> (#[trigger] self.nodes@[m]).children@ == retained_full[m]@
                        && self.nodes@[m].parents@ == parents_full[m]@ && self.nodes@[m].elem
                        == pre.nodes@[m].elem,
                forall|m: int| k <= m < n ==> (#[trigger] self.nodes@[m]) == pre.nodes@[m],
            decreases n - k,
        {
            let row_children = retained.remove(0);
            let row_parents = new_parents.remove(0);
            proof {
                assert(row_children == retained_full[k as int]);
                assert(row_parents == parents_full[k as int]);
                assert(retained@ =~= retained_full.subrange(k + 1, n as int));
                assert(new_parents@ =~= parents_full.subrange(k + 1, n as int));
            }
            let mut node = self.nodes.remove(k);
            node.children = row_children;
            node.parents = row_parents;
            self.nodes.insert(k, node);
            k += 1;
        }
        self.roots = new_roots;
        self.leaves = new_leaves;

        proof {
            let dag = *self;
            let nn = n as int;
            // edges now are exactly the retained ones
            assert forall|a: NodeId, b: NodeId| true implies (dag.spec_edge(a, b) <==> (
            pre.spec_edge(a, b) && !pre.spec_redundant(a, b))) by {
                if (a as int) < nn {
                    assert(dag.nodes@[a as int].children@ == retained_full[a as int]@);
                    assert(retained_full[a as int]@.contains(b) <==> (pre.spec_edge(a, b)
                        && !pre.spec_redundant(a, b)));
                    if pre.spec_edge(a, b) {
                        assert((b as int) < nn);
                    }
                }
            }
            // adjacency lists are valid and duplicate-free
            assert forall|q: int| 0 <= q < nn implies spec_id_list_ok(
                (#[trigger] dag.nodes@[q]).children@,
                nn,
            ) && spec_id_list_ok(dag.nodes@[q].parents@, nn) by {
                assert(dag.nodes@[q].children@ == retained_full[q]@);
                assert(dag.nodes@[q].parents@ == parents_full[q]@);
                assert forall|t: int|
                    0 <= t < retained_full[q]@.len() implies (#[trigger] retained_full[q]@[t])
                    < nn by {
                    let x = retained_full[q]@[t];
                    assert(retained_full[q]@.contains(x));
                    assert(pre.spec_edge(q as NodeId, x));
                }
                assert forall|t: int|
                    0 <= t < parents_full[q]@.len() implies (#[trigger] parents_full[q]@[t])
                    < nn by {
                    let x = parents_full[q]@[t];
                    assert(parents_full[q]@.contains(x));
                }
            }
            // each kept edge is still recorded on both endpoints
            assert forall|a: NodeId, b: NodeId| (a as int) < nn && (b as int) < nn implies ((
            #[trigger] dag.nodes@[a as int].children@.contains(b)) <==> (
            #[trigger] dag.nodes@[b as int].parents@.contains(a))) by {
                assert(dag.nodes@[a as int].children@ == retained_full[a as int]@);
                assert(dag.nodes@[b as int].parents@ == parents_full[b as int]@);
                assert(parents_full[b as int]@.contains(a) <==> ((a as int) < nn
                    && retained_full[a as int]@.contains(b)));
            }
            // roots and leaves hold valid ids and characterise the new graph
            assert forall|t: int| 0 <= t < dag.roots@.len() implies (#[trigger] dag.roots@[t])
                < nn by {
                assert(dag.roots@.contains(dag.roots@[t]));
            }
            assert forall|t: int| 0 <= t < dag.leaves@.len() implies (#[trigger] dag.leaves@[t])
                < nn by {
                assert(dag.leaves@.contains(dag.leaves@[t]));
            }
            assert forall|q: NodeId| (q as int) < nn implies (dag.roots@.contains(q) <==> (
            #[trigger] dag.nodes@[q as int]).parents@.len() == 0) by {
                assert(dag.nodes@[q as int].parents@ == parents_full[q as int]@);
            }
            assert forall|q: NodeId| (q as int) < nn implies (dag.leaves@.contains(q) <==> (
            #[trigger] dag.nodes@[q as int]).children@.len() == 0) by {
                assert(dag.nodes@[q as int].children@ == retained_full[q as int]@);
            }
        }
    }
}

/// True when the list holds `x`.
fn contains_id(list: &Vec<NodeId>, x: NodeId) -> (r: bool)
    ensures
        r == list@.contains(x),
{
    let mut i: usize = 0;
    while i < list.len()
        invariant
            0 <= i <= list@.len(),
            forall|j: int| 0 <= j < i ==> (#[trigger] list@[j]) != x,
        decreases list@.len() - i,
    {
        if list[i] == x {
            return true;
        }
        i += 1;
    }
    false
}

/// Remove `x` from a duplicate-free list, if present.
fn remove_id(list: &mut Vec<NodeId>, x: NodeId)
    requires
        old(list)@.no_duplicates(),
    ensures
        final(list)@.no_duplicates(),
        forall|y: NodeId| final(list)@.contains(y) <==> (old(list)@.contains(y) && y != x),
        forall|i: int|
            0 <= i < final(list)@.len() ==> old(list)@.contains(#[trigger] final(list)@[i]),
{
    let ghost orig = list@;
    let mut i: usize = 0;
    while i < list.len()
        invariant
            0 <= i <= list@.len(),
            list@ == orig,
            orig == old(list)@,
            orig.no_duplicates(),
            forall|j: int| 0 <= j < i ==> (#[trigger] list@[j]) != x,
        decreases list@.len() - i,
    {
        if list[i] == x {
            proof {
                assert(orig[i as int] == x);
            }
            list.remove(i);
            proof {
                assert forall|y: NodeId| list@.contains(y) implies (orig.contains(y) && y
                    != x) by {
                    let j = choose|j: int| 0 <= j < list@.len() && list@[j] == y;
                    let j0: int = if j < i {
                        j
                    } else {
                        j + 1
                    };
                    assert(orig[j0] == y);
                    assert(orig[j0] != orig[i as int]);
                }
                assert forall|y: NodeId| (orig.contains(y) && y != x) implies list@.contains(
                    y,
                ) by {
                    let j = choose|j: int| 0 <= j < orig.len() && orig[j] == y;
                    if j < i {
                        assert(list@[j] == y);
                    } else if j > i {
                        assert(list@[j - 1] == y);
                    }
                }
                assert(list@.no_duplicates()) by {
                    assert forall|p: int, q: int|
                        0 <= p < list@.len() && 0 <= q < list@.len() && p != q implies list@[p]
                        != list@[q] by {
                        let p0: int = if p < i {
                            p
                        } else {
                            p + 1
                        };
                        let q0: int = if q < i {
                            q
                        } else {
                            q + 1
                        };
                        assert(list@[p] == orig[p0]);
                        assert(list@[q] == orig[q0]);
                        assert(orig[p0] != orig[q0]);
                    }
                }
            }
            return ;
        }
        i += 1;
    }
}

} // verus!
