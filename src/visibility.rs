use vstd::prelude::*;
use crate::edge::Edge;
use crate::tree::Tree;
use crate::tree_index::TreeIndex;
use crate::vec::Vec2;

verus! {

/// An obstacle edge hides `b` from `a` when it crosses the segment `a -> b`
/// and touches neither position (positions compared exactly).
pub open spec fn blocks(a: Vec2, b: Vec2, e: Edge) -> bool {
    e.0 != a && e.1 != a && e.0 != b && e.1 != b && Edge(a, b).intersects_spec(e)
}

/// No edge of `edges` hides `b` from `a`.
pub open spec fn sees(a: Vec2, b: Vec2, edges: Seq<Edge>) -> bool {
    forall|j: int| 0 <= j < edges.len() ==> !#[trigger] blocks(a, b, edges[j])
}

impl Tree {
    /// `i` is another index than `from`, and `from` sees it past `edges`.
    pub open spec fn visible_pred(self, from: TreeIndex, edges: Seq<Edge>) -> spec_fn(
        TreeIndex,
    ) -> bool {
        |i: TreeIndex| i != from && sees(self.pos_of(from), self.pos_of(i), edges)
    }

    /// The indices, in enumeration order, that `from` sees past `edges`.
    pub open spec fn visible(self, from: TreeIndex, edges: Seq<Edge>) -> Seq<TreeIndex> {
        self.indices().filter(self.visible_pred(from, edges))
    }

    /// `i` sees exactly three indices past the structural edges.
    pub open spec fn special_pred(self) -> spec_fn(TreeIndex) -> bool {
        |i: TreeIndex| self.visible(i, self.all_edges()).len() == 3
    }

    /// A visibility set never holds the index it is taken from, whatever the
    /// obstacles. (It need not be symmetric: `a` may see `b` where `b` does not
    /// see `a`, since the intersection test projects only one start point.)
    pub proof fn lemma_visible_excludes_source(self, from: TreeIndex, edges: Seq<Edge>)
        ensures
            !self.visible(from, edges).contains(from),
    {
        let pred = self.visible_pred(from, edges);
        let v = self.visible(from, edges);
        if v.contains(from) {
            let k = choose|k: int| 0 <= k < v.len() && v[k] == from;
            self.indices().lemma_filter_pred(pred, k);
        }
    }

    /// Every index of a visibility set resolves to a point.
    pub(crate) proof fn lemma_visible_have(self, from: TreeIndex, edges: Seq<Edge>)
        ensures
            forall|k: int|
                0 <= k < self.visible(from, edges).len() ==> self.has(
                    #[trigger] self.visible(from, edges)[k],
                ),
    {
        self.lemma_indices_have();
        let v = self.visible(from, edges);
        assert forall|k: int| 0 <= k < v.len() implies self.has(#[trigger] v[k]) by {
            self.indices().lemma_filter_contains_rev(self.visible_pred(from, edges), v[k]);
            let i = choose|i: int| 0 <= i < self.indices().len() && self.indices()[i] == v[k];
        }
    }

    /// Every enumerated index other than `node_index` whose segment from
    /// `node_index` no edge of `edges` crosses. An edge that touches either
    /// end's position is not an obstacle.
    pub fn check_node_vis_from_edge(&self, node_index: TreeIndex, edges: Vec<Edge>) -> (r: Vec<
        TreeIndex,
    >)
        requires
            self.has(node_index),
        ensures
            r@ == self.visible(node_index, edges@),
            !r@.contains(node_index),
    {
        let ids = self.iter();
        let ghost pred = self.visible_pred(node_index, edges@);
        let from = self.node(node_index).pos;
        let mut output: Vec<TreeIndex> = vec![];
        proof {
            self.lemma_indices_have();
        }
        let mut i: usize = 0;
        while i < ids.len()
            invariant
                ids@ == self.indices(),
                from == self.pos_of(node_index),
                pred == self.visible_pred(node_index, edges@),
                i <= ids.len(),
                forall|k: int| 0 <= k < ids@.len() ==> self.has(#[trigger] ids@[k]),
                output@ == ids@.take(i as int).filter(pred),
            decreases ids.len() - i,
        {
            let index = ids[i];
            let to = self.node(index).pos;
            let mut seen = index != node_index;
            if seen {
                let new_edge = Edge(from, to);
                let mut j: usize = 0;
                while j < edges.len() && seen
                    invariant
                        i < ids.len(),
                        index == ids@[i as int],
                        new_edge == Edge(from, to),
                        to == self.pos_of(index),
                        from == self.pos_of(node_index),
                        j <= edges.len(),
                        seen ==> forall|jj: int| 0 <= jj < j ==> !#[trigger] blocks(from, to, edges@[jj]),
                        !seen ==> !sees(from, to, edges@),
                    decreases edges.len() - j,
                {
                    let edge = edges[j];
                    if !(edge.0 == from || edge.1 == from || edge.0 == to || edge.1 == to) {
                        if new_edge.intersects(edge) {
                            assert(blocks(from, to, edges@[j as int]));
                            seen = false;
                        }
                    }
                    j += 1;
                }
            }
            assert(seen == pred(index));
            assert(ids@.take(i + 1) =~= ids@.take(i as int).push(index));
            proof {
                ids@.take(i as int).lemma_filter_push(index, pred);
            }
            if seen {
                output.push(index);
            }
            i += 1;
        }
        assert(ids@.take(ids@.len() as int) =~= ids@);
        proof {
            self.lemma_visible_excludes_source(node_index, edges@);
        }
        output
    }

    /// Structural visibility: the obstacles are the structural edges.
    pub fn check_node_vis(&self, node_index: TreeIndex) -> (r: Vec<TreeIndex>)
        requires
            self.well_formed(),
            self.has(node_index),
        ensures
            r@ == self.visible(node_index, self.all_edges()),
    {
        let all_edges = self.get_all_edges();
        self.check_node_vis_from_edge(node_index, all_edges)
    }

    /// Visibility past the polygon edges of `cycle` alone.
    pub fn check_node_vis_cycle(&self, node_index: TreeIndex, cycle: &[TreeIndex]) -> (r: Vec<
        TreeIndex,
    >)
        requires
            self.has(node_index),
            forall|k: int| 0 <= k < cycle@.len() ==> self.has(#[trigger] cycle@[k]),
        ensures
            r@ == self.visible(node_index, self.cycle_edges(cycle@)),
    {
        let edges = self.get_cycle_edges(cycle);
        self.check_node_vis_from_edge(node_index, edges)
    }

    /// Visibility past the polygon edges of `cycle` and the structural edges.
    pub fn check_node_vis_cycle_org(&self, node_index: TreeIndex, cycle: &[TreeIndex]) -> (r: Vec<
        TreeIndex,
    >)
        requires
            self.well_formed(),
            self.has(node_index),
            forall|k: int| 0 <= k < cycle@.len() ==> self.has(#[trigger] cycle@[k]),
        ensures
            r@ == self.visible(node_index, self.cycle_edges(cycle@) + self.all_edges()),
    {
        let mut edges = self.get_cycle_edges(cycle);
        let mut all_edges = self.get_all_edges();
        edges.append(&mut all_edges);
        self.check_node_vis_from_edge(node_index, edges)
    }

    /// The indices, in enumeration order, that see exactly three others past
    /// the structural edges.
    pub fn find_special_nodes(&self) -> (r: Vec<TreeIndex>)
        requires
            self.well_formed(),
        ensures
            r@ == self.indices().filter(self.special_pred()),
    {
        let ids = self.iter();
        let ghost pred = self.special_pred();
        let mut output: Vec<TreeIndex> = vec![];
        proof {
            self.lemma_indices_have();
        }
        let mut i: usize = 0;
        while i < ids.len()
            invariant
                self.well_formed(),
                ids@ == self.indices(),
                pred == self.special_pred(),
                i <= ids.len(),
                forall|k: int| 0 <= k < ids@.len() ==> self.has(#[trigger] ids@[k]),
                output@ == ids@.take(i as int).filter(pred),
            decreases ids.len() - i,
        {
            let node = ids[i];
            let special = self.check_node_vis(node).len() == 3;
            assert(special == pred(node));
            assert(ids@.take(i + 1) =~= ids@.take(i as int).push(node));
            proof {
                ids@.take(i as int).lemma_filter_push(node, pred);
            }
            if special {
                output.push(node);
            }
            i += 1;
        }
        assert(ids@.take(ids@.len() as int) =~= ids@);
        output
    }
}

} // verus!
