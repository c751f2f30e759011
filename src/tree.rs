use vstd::prelude::*;
use crate::edge::Edge;
use crate::node::Node;
use crate::tree_enum::TreesEnum;
use crate::tree_index::TreeIndex;
use crate::vec::{Vec2, dist_sq};
use vstd::arithmetic::div_mod::{lemma_mod_self_0, lemma_small_mod};

verus! {

/// Legality of a triangle made of an index and an edge between two others.
#[derive(Clone, Copy, PartialEq, Eq, Structural, Debug)]
pub enum Triangle {
    AllSame,
    OneOdd,
    Illegal,
}

/// A center point and three ordered branches of points. Each branch is a path
/// whose first point is joined to the center.
pub struct Tree {
    pub center: Node,
    pub tree1: Vec<Node>,
    pub tree2: Vec<Node>,
    pub tree3: Vec<Node>,
}

/// The first element of `s` at or after position `j` that satisfies `pred`.
pub open spec fn first_match(s: Seq<TreeIndex>, pred: spec_fn(TreeIndex) -> bool, j: int) -> Option<
    TreeIndex,
>
    decreases s.len() - j,
{
    if 0 <= j < s.len() {
        if pred(s[j]) {
            Some(s[j])
        } else {
            first_match(s, pred, j + 1)
        }
    } else {
        None
    }
}

impl Tree {
    /// The sequence that a slot names; the center slot falls back to the first
    /// branch.
    pub open spec fn branch(self, b: TreesEnum) -> Seq<Node> {
        match b {
            TreesEnum::Second => self.tree2@,
            TreesEnum::Third => self.tree3@,
            _ => self.tree1@,
        }
    }

    /// Every branch holds at least one point.
    pub open spec fn well_formed(self) -> bool {
        self.tree1.len() > 0 && self.tree2.len() > 0 && self.tree3.len() > 0
    }

    /// `i` resolves to a point.
    pub open spec fn has(self, i: TreeIndex) -> bool {
        i.0 == TreesEnum::Center || i.1 < self.branch(i.0).len()
    }

    /// The node that `i` resolves to; the offset is ignored for the center.
    pub open spec fn node_of(self, i: TreeIndex) -> Node {
        if i.0 == TreesEnum::Center {
            self.center
        } else {
            self.branch(i.0)[i.1 as int]
        }
    }

    /// The position that `i` resolves to.
    pub open spec fn pos_of(self, i: TreeIndex) -> Vec2 {
        self.node_of(i).pos
    }

    /// The indices of one slot's sequence, by increasing offset.
    pub open spec fn branch_indices(self, b: TreesEnum) -> Seq<TreeIndex> {
        Seq::new(self.branch(b).len(), |k: int| TreeIndex(b, k as usize))
    }

    /// All indices: the center, then each branch in offset order.
    pub open spec fn indices(self) -> Seq<TreeIndex> {
        seq![TreeIndex(TreesEnum::Center, 0)] + self.branch_indices(TreesEnum::First)
            + self.branch_indices(TreesEnum::Second) + self.branch_indices(TreesEnum::Third)
    }

    /// `i` lies strictly closer than `radius` to `pos`.
    pub open spec fn near(self, pos: Vec2, radius: u32) -> spec_fn(TreeIndex) -> bool {
        |i: TreeIndex| dist_sq(self.pos_of(i), pos) < radius * radius
    }

    /// The polyline of a branch, then the edge from its first point to the center.
    pub open spec fn tree_edges(self, b: TreesEnum) -> Seq<Edge> {
        let br = self.branch(b);
        Seq::new((br.len() - 1) as nat, |k: int| Edge(br[k].pos, br[k + 1].pos)).push(
            Edge(br[0].pos, self.center.pos),
        )
    }

    /// The structural edges: those of the first, second and third branch.
    pub open spec fn all_edges(self) -> Seq<Edge> {
        self.tree_edges(TreesEnum::First) + self.tree_edges(TreesEnum::Second) + self.tree_edges(
            TreesEnum::Third,
        )
    }

    /// The closed polygon through the positions of `cycle`.
    pub open spec fn cycle_edges(self, cycle: Seq<TreeIndex>) -> Seq<Edge> {
        Seq::new(
            cycle.len(),
            |k: int| Edge(self.pos_of(cycle[k]), self.pos_of(cycle[(k + 1) % (cycle.len() as int)])),
        )
    }

    /// Every enumerated index resolves to a point.
    pub proof fn lemma_indices_have(self)
        ensures
            forall|k: int| 0 <= k < self.indices().len() ==> self.has(#[trigger] self.indices()[k]),
    {
        let ids = self.indices();
        let n1 = self.tree1.len() as int;
        let n2 = self.tree2.len() as int;
        assert forall|k: int| 0 <= k < ids.len() implies self.has(#[trigger] ids[k]) by {
            if k == 0 {
            } else if k < 1 + n1 {
                assert(ids[k] == self.branch_indices(TreesEnum::First)[k - 1]);
            } else if k < 1 + n1 + n2 {
                assert(ids[k] == self.branch_indices(TreesEnum::Second)[k - 1 - n1]);
            } else {
                assert(ids[k] == self.branch_indices(TreesEnum::Third)[k - 1 - n1 - n2]);
            }
        }
    }

    /// With every branch empty, only the center can be found, so a position
    /// at least `radius` away from the center finds nothing.
    pub proof fn lemma_empty_finds_nothing(self, pos: Vec2, radius: u32)
        requires
            self.tree1.len() == 0,
            self.tree2.len() == 0,
            self.tree3.len() == 0,
            dist_sq(self.center.pos, pos) >= radius * radius,
        ensures
            first_match(self.indices(), self.near(pos, radius), 0) is None,
    {
        let ids = self.indices();
        assert(ids =~= seq![TreeIndex(TreesEnum::Center, 0)]);
        assert(!self.near(pos, radius)(ids[0]));
        assert(first_match(ids, self.near(pos, radius), 1) is None);
    }

    fn branch_vec(&self, b: TreesEnum) -> (r: &Vec<Node>)
        ensures
            r@ == self.branch(b),
    {
        match b {
            TreesEnum::Second => &self.tree2,
            TreesEnum::Third => &self.tree3,
            _ => &self.tree1,
        }
    }

    fn push_branch_indices(&self, output: &mut Vec<TreeIndex>, b: TreesEnum)
        ensures
            final(output)@ == old(output)@ + self.branch_indices(b),
    {
        let n = self.branch_vec(b).len();
        let mut i: usize = 0;
        while i < n
            invariant
                n == self.branch(b).len(),
                i <= n,
                output@ == old(output)@ + Seq::new(i as nat, |k: int| TreeIndex(b, k as usize)),
            decreases n - i,
        {
            output.push(TreeIndex(b, i));
            i += 1;
            assert(Seq::new(i as nat, |k: int| TreeIndex(b, k as usize)) =~= Seq::new(
                (i - 1) as nat,
                |k: int| TreeIndex(b, k as usize),
            ).push(TreeIndex(b, (i - 1) as usize)));
        }
        assert(Seq::new(n as nat, |k: int| TreeIndex(b, k as usize)) =~= self.branch_indices(b));
    }

    /// All indices in enumeration order: the center, then every index of the
    /// first, second and third branch by increasing offset.
    pub fn iter(&self) -> (r: Vec<TreeIndex>)
        ensures
            r@ == self.indices(),
            r@.len() == 1 + self.tree1.len() + self.tree2.len() + self.tree3.len(),
            r@[0] == TreeIndex(TreesEnum::Center, 0),
    {
        let mut output = vec![TreeIndex(TreesEnum::Center, 0)];
        self.push_branch_indices(&mut output, TreesEnum::First);
        self.push_branch_indices(&mut output, TreesEnum::Second);
        self.push_branch_indices(&mut output, TreesEnum::Third);
        output
    }

    /// The node that `index` resolves to.
    pub fn node(&self, index: TreeIndex) -> (r: Node)
        requires
            self.has(index),
        ensures
            r == self.node_of(index),
    {
        if let TreesEnum::Center = index.0 {
            return self.center;
        }
        self.branch_vec(index.0)[index.1]
    }

    /// Moves the point that `index` resolves to.
    pub fn move_node(&mut self, index: TreeIndex, pos: Vec2)
        requires
            old(self).has(index),
        ensures
            final(self).center == (if index.0 == TreesEnum::Center {
                Node { pos }
            } else {
                old(self).center
            }),
            forall|b: TreesEnum|
                b != TreesEnum::Center ==> #[trigger] final(self).branch(b) == (if b == index.0 {
                    old(self).branch(b).update(index.1 as int, Node { pos })
                } else {
                    old(self).branch(b)
                }),
    {
        match index.0 {
            TreesEnum::Center => {
                self.center = Node { pos };
            },
            TreesEnum::First => {
                self.tree1.set(index.1, Node { pos });
            },
            TreesEnum::Second => {
                self.tree2.set(index.1, Node { pos });
            },
            TreesEnum::Third => {
                self.tree3.set(index.1, Node { pos });
            },
        }
    }

    /// A center at the origin and three empty branches.
    pub fn empty() -> (r: Tree)
        ensures
            r.center.pos == (Vec2 { x: 0, y: 0 }),
            r.tree1@.len() == 0,
            r.tree2@.len() == 0,
            r.tree3@.len() == 0,
    {
        Tree { center: Node::default(), tree1: vec![], tree2: vec![], tree3: vec![] }
    }

    /// The first index, in enumeration order, whose point lies strictly closer
    /// than `radius` to `pos`.
    pub fn find_node_at_pos(&self, pos: Vec2, radius: u32) -> (r: Option<TreeIndex>)
        ensures
            r == first_match(self.indices(), self.near(pos, radius), 0),
    {
        let ids = self.iter();
        let target = Node { pos };
        proof {
            self.lemma_indices_have();
            assert(radius * radius <= 0xFFFF_FFFF * 0xFFFF_FFFF) by (nonlinear_arith)
                requires
                    radius <= 0xFFFF_FFFF,
            ;
        }
        let limit: u128 = radius as u128 * radius as u128;
        let mut j: usize = 0;
        while j < ids.len()
            invariant
                ids@ == self.indices(),
                limit == radius * radius,
                target.pos == pos,
                j <= ids.len(),
                forall|k: int| 0 <= k < ids@.len() ==> self.has(#[trigger] ids@[k]),
                first_match(ids@, self.near(pos, radius), 0) == first_match(
                    ids@,
                    self.near(pos, radius),
                    j as int,
                ),
            decreases ids.len() - j,
        {
            let index = ids[j];
            let node = self.node(index);
            let close = node.dist_squared(&target) < limit;
            assert(close == self.near(pos, radius)(index));
            if close {
                return Some(index);
            }
            j += 1;
        }
        None
    }

    /// Appends `node` to the branch that `tree` names (the first branch for
    /// the center slot).
    pub fn add_node(&mut self, tree: TreesEnum, node: Node)
        ensures
            final(self).center == old(self).center,
            forall|b: TreesEnum|
                b != TreesEnum::Center ==> #[trigger] final(self).branch(b) == (if b == tree || (b
                    == TreesEnum::First && tree == TreesEnum::Center) {
                    old(self).branch(b).push(node)
                } else {
                    old(self).branch(b)
                }),
    {
        match tree {
            TreesEnum::Second => self.tree2.push(node),
            TreesEnum::Third => self.tree3.push(node),
            _ => self.tree1.push(node),
        }
    }
    /// The edges of one branch: its polyline, then its first point to the center.
    pub fn get_tree_edges(&self, branch: TreesEnum) -> (r: Vec<Edge>)
        requires
            self.branch(branch).len() > 0,
        ensures
            r@ == self.tree_edges(branch),
    {
        let br = self.branch_vec(branch);
        let ghost s = self.branch(branch);
        let mut output: Vec<Edge> = vec![];
        let mut i: usize = 0;
        while i < br.len() - 1
            invariant
                br@ == s,
                s.len() > 0,
                i <= s.len() - 1,
                output@ =~= Seq::new(i as nat, |k: int| Edge(s[k].pos, s[k + 1].pos)),
            decreases br.len() - 1 - i,
        {
            output.push(Edge(br[i].pos, br[i + 1].pos));
            i += 1;
        }
        output.push(Edge(br[0].pos, self.center.pos));
        output
    }

    /// The structural edges: those of the first, second and third branch.
    pub fn get_all_edges(&self) -> (r: Vec<Edge>)
        requires
            self.well_formed(),
        ensures
            r@ == self.all_edges(),
    {
        let mut output: Vec<Edge> = vec![];
        let mut e1 = self.get_tree_edges(TreesEnum::First);
        let mut e2 = self.get_tree_edges(TreesEnum::Second);
        let mut e3 = self.get_tree_edges(TreesEnum::Third);
        output.append(&mut e1);
        output.append(&mut e2);
        output.append(&mut e3);
        assert(output@ =~= self.all_edges());
        output
    }

    /// The edges of the closed polygon through `cycle`, the last back to the first.
    pub fn get_cycle_edges(&self, cycle: &[TreeIndex]) -> (r: Vec<Edge>)
        requires
            forall|k: int| 0 <= k < cycle@.len() ==> self.has(#[trigger] cycle@[k]),
        ensures
            r@ == self.cycle_edges(cycle@),
    {
        let mut edges: Vec<Edge> = vec![];
        let n = cycle.len();
        let mut prev: usize = 0;
        while prev < n
            invariant
                n == cycle@.len(),
                prev <= n,
                forall|k: int| 0 <= k < cycle@.len() ==> self.has(#[trigger] cycle@[k]),
                edges@ =~= Seq::new(
                    prev as nat,
                    |k: int| Edge(self.pos_of(cycle@[k]), self.pos_of(cycle@[(k + 1) % (n as int)])),
                ),
            decreases n - prev,
        {
            let next: usize = if prev + 1 == n {
                0
            } else {
                prev + 1
            };
            proof {
                if prev + 1 == n {
                    lemma_mod_self_0(n as int);
                } else {
                    lemma_small_mod((prev + 1) as nat, n as nat);
                }
            }
            let a = self.node(cycle[prev]);
            let b = self.node(cycle[next]);
            edges.push(Edge(a.pos, b.pos));
            prev += 1;
        }
        edges
    }

}

} // verus!
