use vstd::prelude::*;
use crate::edge::{Edge, orient, lemma_orient_perm, lemma_orient_four, lemma_crossing_signs};
use crate::tree::Tree;
use crate::tree_enum::TreesEnum;
use crate::tree_index::TreeIndex;
use crate::vec::dist_sq;

verus! {

/// A position held as `usize`, as an `int`.
pub open spec fn widen(o: Option<usize>) -> Option<int> {
    match o {
        Some(p) => Some(p as int),
        None => None,
    }
}

impl Tree {
    /// No pair of opposite sides of the quadrilateral `c[0..4]` intersects.
    pub open spec fn simple_quad(self, c: Seq<TreeIndex>) -> bool {
        let p0 = self.pos_of(c[0]);
        let p1 = self.pos_of(c[1]);
        let p2 = self.pos_of(c[2]);
        let p3 = self.pos_of(c[3]);
        !(Edge(p0, p1).intersects_spec(Edge(p2, p3)) || Edge(p1, p2).intersects_spec(Edge(p3, p0)))
    }

    /// The seed polygon: the center and the first point of each branch, in the
    /// first of three arrangements that is simple (the third is not tested).
    pub open spec fn seed(self) -> Seq<TreeIndex> {
        let c = TreeIndex(TreesEnum::Center, 0);
        let a = TreeIndex(TreesEnum::First, 0);
        let b = TreeIndex(TreesEnum::Second, 0);
        let d = TreeIndex(TreesEnum::Third, 0);
        if self.simple_quad(seq![c, a, b, d]) {
            seq![c, a, b, d]
        } else if self.simple_quad(seq![a, c, b, d]) {
            seq![a, c, b, d]
        } else {
            seq![a, b, c, d]
        }
    }

    /// Squared distance of the point of `i` from the center.
    pub open spec fn center_dist(self, i: TreeIndex) -> int {
        dist_sq(self.pos_of(i), self.center.pos)
    }

    /// Position in `vis` of the entry of branch `b` nearest the center among
    /// `vis[0..k]`; the earliest one on ties.
    pub open spec fn nearest_of(self, vis: Seq<TreeIndex>, b: TreesEnum, k: int) -> Option<int>
        decreases k,
    {
        if k <= 0 {
            None
        } else {
            let e = vis[k - 1];
            match self.nearest_of(vis, b, k - 1) {
                None => if e.0 == b {
                    Some(k - 1)
                } else {
                    None
                },
                Some(p) => if e.0 == b && self.center_dist(e) < self.center_dist(vis[p]) {
                    Some(k - 1)
                } else {
                    Some(p)
                },
            }
        }
    }

    /// `vis[p]` comes before `vis[q]` when sorted by distance from the center,
    /// ties kept in order.
    pub open spec fn before(self, vis: Seq<TreeIndex>, p: int, q: int) -> bool {
        self.center_dist(vis[p]) < self.center_dist(vis[q]) || (self.center_dist(vis[p])
            == self.center_dist(vis[q]) && p < q)
    }

    /// Three positions of `vis` in sorted order.
    pub open spec fn order3(self, vis: Seq<TreeIndex>, a: int, b: int, c: int) -> (int, int, int) {
        if self.before(vis, a, b) {
            if self.before(vis, b, c) {
                (a, b, c)
            } else if self.before(vis, a, c) {
                (a, c, b)
            } else {
                (c, a, b)
            }
        } else {
            if self.before(vis, a, c) {
                (b, a, c)
            } else if self.before(vis, b, c) {
                (b, c, a)
            } else {
                (c, b, a)
            }
        }
    }

    /// The center and, of each branch, the point nearest the center among
    /// those the center sees, in order of distance; the first two swapped
    /// when that quadrilateral is simple. Empty when a branch has no point
    /// that the center sees.
    pub open spec fn smallest_triangle(self) -> Seq<TreeIndex> {
        let c = TreeIndex(TreesEnum::Center, 0);
        let vis = self.visible(c, self.all_edges());
        let n = vis.len() as int;
        match (
            self.nearest_of(vis, TreesEnum::First, n),
            self.nearest_of(vis, TreesEnum::Second, n),
            self.nearest_of(vis, TreesEnum::Third, n),
        ) {
            (Some(p1), Some(p2), Some(p3)) => {
                let (x, y, z) = self.order3(vis, p1, p2, p3);
                let t = seq![c, vis[x], vis[y], vis[z]];
                if self.simple_quad(t) {
                    seq![vis[x], c, vis[y], vis[z]]
                } else {
                    t
                }
            },
            _ => Seq::empty(),
        }
    }

    /// With one point or more on each branch, and no three of the center and
    /// the branches' first points collinear, the seed is a simple
    /// quadrilateral on exactly those four indices.
    pub proof fn lemma_seed_simple(self)
        requires
            self.well_formed(),
            orient(self.center.pos, self.tree1@[0].pos, self.tree2@[0].pos) != 0,
            orient(self.center.pos, self.tree1@[0].pos, self.tree3@[0].pos) != 0,
            orient(self.center.pos, self.tree2@[0].pos, self.tree3@[0].pos) != 0,
            orient(self.tree1@[0].pos, self.tree2@[0].pos, self.tree3@[0].pos) != 0,
        ensures
            self.seed().len() == 4,
            self.simple_quad(self.seed()),
            self.seed().contains(TreeIndex(TreesEnum::Center, 0)),
            self.seed().contains(TreeIndex(TreesEnum::First, 0)),
            self.seed().contains(TreeIndex(TreesEnum::Second, 0)),
            self.seed().contains(TreeIndex(TreesEnum::Third, 0)),
    {
        let ci = TreeIndex(TreesEnum::Center, 0);
        let ai = TreeIndex(TreesEnum::First, 0);
        let bi = TreeIndex(TreesEnum::Second, 0);
        let di = TreeIndex(TreesEnum::Third, 0);
        let (p0, p1, p2, p3) = (self.center.pos, self.tree1@[0].pos, self.tree2@[0].pos, self.tree3@[0].pos);
        assert(self.pos_of(ci) == p0 && self.pos_of(ai) == p1 && self.pos_of(bi) == p2 && self.pos_of(di) == p3);
        let a = orient(p0, p1, p2);
        let b = orient(p0, p1, p3);
        let c = orient(p0, p2, p3);
        let d = orient(p1, p2, p3);
        lemma_orient_four(p0, p1, p2, p3);
        // every triple met below, as one of a, b, c, d up to sign
        lemma_orient_perm(p0, p1, p2);
        lemma_orient_perm(p0, p1, p3);
        lemma_orient_perm(p0, p2, p3);
        lemma_orient_perm(p1, p2, p3);
        lemma_orient_perm(p1, p0, p2);
        lemma_orient_perm(p1, p0, p3);
        lemma_orient_perm(p2, p0, p3);
        lemma_orient_perm(p2, p1, p3);
        lemma_orient_perm(p0, p3, p1);
        lemma_orient_perm(p0, p3, p2);
        lemma_orient_perm(p1, p3, p2);
        lemma_orient_perm(p0, p2, p1);
        lemma_orient_perm(p2, p3, p0);
        lemma_orient_perm(p2, p3, p1);
        lemma_orient_perm(p3, p0, p1);
        lemma_orient_perm(p3, p0, p2);
        lemma_orient_perm(p3, p1, p0);
        lemma_orient_perm(p3, p1, p2);
        lemma_orient_perm(p1, p2, p0);
        lemma_orient_perm(p2, p0, p1);
        // the three ways to pair the four points into two segments
        let pair_a = (a > 0) != (b > 0) && (c > 0) != (d > 0);
        let pair_b = (a > 0) == (c > 0) && (b > 0) == (d > 0);
        let pair_c = (a > 0) != (d > 0) && (b > 0) != (c > 0);
        if Edge(p0, p1).intersects_spec(Edge(p2, p3)) {
            lemma_crossing_signs(p0, p1, p2, p3);
            assert(pair_a);
        }
        if Edge(p1, p2).intersects_spec(Edge(p3, p0)) {
            lemma_crossing_signs(p1, p2, p3, p0);
            assert(pair_c);
        }
        if Edge(p1, p0).intersects_spec(Edge(p2, p3)) {
            lemma_crossing_signs(p1, p0, p2, p3);
            assert(pair_a);
        }
        if Edge(p0, p2).intersects_spec(Edge(p3, p1)) {
            lemma_crossing_signs(p0, p2, p3, p1);
            assert(pair_b);
        }
        if Edge(p1, p2).intersects_spec(Edge(p0, p3)) {
            lemma_crossing_signs(p1, p2, p0, p3);
            assert(pair_c);
        }
        if Edge(p2, p0).intersects_spec(Edge(p3, p1)) {
            lemma_crossing_signs(p2, p0, p3, p1);
            assert(pair_b);
        }
        // at most one pairing crosses, since a + c == b + d
        assert(!(pair_a && pair_b) && !(pair_a && pair_c) && !(pair_b && pair_c));
        let s0 = seq![ci, ai, bi, di];
        let s1 = seq![ai, ci, bi, di];
        let s2 = seq![ai, bi, ci, di];
        assert(s0[0] == ci && s0[1] == ai && s0[2] == bi && s0[3] == di);
        assert(s1[0] == ai && s1[1] == ci && s1[2] == bi && s1[3] == di);
        assert(s2[0] == ai && s2[1] == bi && s2[2] == ci && s2[3] == di);
        let sd = self.seed();
        assert(sd[0] == ci || sd[1] == ci || sd[2] == ci);
        assert(sd[0] == ai || sd[1] == ai);
        assert(sd[1] == bi || sd[2] == bi);
        assert(sd[3] == di);
    }

    /// The center followed by the last point of each branch.
    pub fn start_cycle(&self) -> (r: Vec<TreeIndex>)
        requires
            self.well_formed(),
        ensures
            r@ == seq![
                TreeIndex(TreesEnum::Center, 0),
                TreeIndex(TreesEnum::First, (self.tree1.len() - 1) as usize),
                TreeIndex(TreesEnum::Second, (self.tree2.len() - 1) as usize),
                TreeIndex(TreesEnum::Third, (self.tree3.len() - 1) as usize),
            ],
    {
        let c = TreeIndex(TreesEnum::Center, 0);
        let p1 = TreeIndex(TreesEnum::First, self.tree1.len() - 1);
        let p2 = TreeIndex(TreesEnum::Second, self.tree2.len() - 1);
        let p3 = TreeIndex(TreesEnum::Third, self.tree3.len() - 1);
        let r = vec![c, p1, p2, p3];
        assert(r@ =~= seq![c, p1, p2, p3]);
        r
    }

    /// Whether the quadrilateral through the first four entries of `cycle` is
    /// simple: neither pair of opposite sides intersects.
    pub fn verify_valid_4th(&self, cycle: &[TreeIndex]) -> (r: bool)
        requires
            cycle@.len() >= 4,
            forall|k: int| 0 <= k < 4 ==> self.has(#[trigger] cycle@[k]),
        ensures
            r == self.simple_quad(cycle@),
    {
        let p0 = self.node(cycle[0]).pos;
        let p1 = self.node(cycle[1]).pos;
        let p2 = self.node(cycle[2]).pos;
        let p3 = self.node(cycle[3]).pos;
        let e0 = Edge(p0, p1);
        let e1 = Edge(p1, p2);
        let e2 = Edge(p2, p3);
        let e3 = Edge(p3, p0);
        !(e0.intersects(e2) || e1.intersects(e3))
    }

    /// The seed polygon: the center and the first point of each branch,
    /// rearranged (swapping positions 0 and 1, then 1 and 2) until simple.
    pub fn center_triangle(&self) -> (r: Vec<TreeIndex>)
        requires
            self.well_formed(),
        ensures
            r@ == self.seed(),
    {
        let c = TreeIndex(TreesEnum::Center, 0);
        let a = TreeIndex(TreesEnum::First, 0);
        let b = TreeIndex(TreesEnum::Second, 0);
        let d = TreeIndex(TreesEnum::Third, 0);
        let first = vec![c, a, b, d];
        assert(first@ =~= seq![c, a, b, d]);
        if self.verify_valid_4th(first.as_slice()) {
            return first;
        }
        let second = vec![a, c, b, d];
        assert(second@ =~= seq![a, c, b, d]);
        if self.verify_valid_4th(second.as_slice()) {
            return second;
        }
        let third = vec![a, b, c, d];
        assert(third@ =~= seq![a, b, c, d]);
        third
    }

    /// `nearest_of` for `vis[0..k + 1]`, from its value `best` for `vis[0..k]`.
    fn nearer(&self, vis: &Vec<TreeIndex>, b: TreesEnum, best: Option<usize>, k: usize) -> (r:
        Option<usize>)
        requires
            k < vis@.len(),
            forall|i: int| 0 <= i < vis@.len() ==> self.has(#[trigger] vis@[i]),
            best matches Some(p) ==> p < k,
            widen(best) == self.nearest_of(vis@, b, k as int),
        ensures
            r matches Some(p) ==> p <= k,
            widen(r) == self.nearest_of(vis@, b, k + 1),
    {
        let e = vis[k];
        if e.0 != b {
            return best;
        }
        match best {
            None => Some(k),
            Some(p) => {
                let here = self.node(e).dist_squared(&self.center);
                let there = self.node(vis[p]).dist_squared(&self.center);
                if here < there {
                    Some(k)
                } else {
                    Some(p)
                }
            },
        }
    }

    fn before_exec(&self, vis: &Vec<TreeIndex>, p: usize, q: usize) -> (r: bool)
        requires
            p < vis@.len(),
            q < vis@.len(),
            forall|i: int| 0 <= i < vis@.len() ==> self.has(#[trigger] vis@[i]),
        ensures
            r == self.before(vis@, p as int, q as int),
    {
        let dp = self.node(vis[p]).dist_squared(&self.center);
        let dq = self.node(vis[q]).dist_squared(&self.center);
        dp < dq || (dp == dq && p < q)
    }

    /// The center and the nearest visible point of each branch, ordered by
    /// distance from the center (see `smallest_triangle`).
    pub fn find_smallest_triangle(&self) -> (r: Vec<TreeIndex>)
        requires
            self.well_formed(),
        ensures
            r@ == self.smallest_triangle(),
    {
        let c = TreeIndex(TreesEnum::Center, 0);
        let all = self.check_node_vis(c);
        proof {
            self.lemma_visible_have(c, self.all_edges());
        }
        let mut f: Option<usize> = None;
        let mut s: Option<usize> = None;
        let mut t: Option<usize> = None;
        let mut k: usize = 0;
        while k < all.len()
            invariant
                all@ == self.visible(c, self.all_edges()),
                forall|i: int| 0 <= i < all@.len() ==> self.has(#[trigger] all@[i]),
                k <= all@.len(),
                f matches Some(p) ==> p < k,
                s matches Some(p) ==> p < k,
                t matches Some(p) ==> p < k,
                widen(f) == self.nearest_of(all@, TreesEnum::First, k as int),
                widen(s) == self.nearest_of(all@, TreesEnum::Second, k as int),
                widen(t) == self.nearest_of(all@, TreesEnum::Third, k as int),
            decreases all.len() - k,
        {
            f = self.nearer(&all, TreesEnum::First, f, k);
            s = self.nearer(&all, TreesEnum::Second, s, k);
            t = self.nearer(&all, TreesEnum::Third, t, k);
            k += 1;
        }
        match (f, s, t) {
            (Some(p1), Some(p2), Some(p3)) => {
                let ab = self.before_exec(&all, p1, p2);
                let bc = self.before_exec(&all, p2, p3);
                let ac = self.before_exec(&all, p1, p3);
                let (x, y, z) = if ab {
                    if bc {
                        (p1, p2, p3)
                    } else if ac {
                        (p1, p3, p2)
                    } else {
                        (p3, p1, p2)
                    }
                } else {
                    if ac {
                        (p2, p1, p3)
                    } else if bc {
                        (p2, p3, p1)
                    } else {
                        (p3, p2, p1)
                    }
                };
                let output = vec![c, all[x], all[y], all[z]];
                assert(output@ =~= seq![c, all@[x as int], all@[y as int], all@[z as int]]);
                if self.verify_valid_4th(output.as_slice()) {
                    let swapped = vec![all[x], c, all[y], all[z]];
                    assert(swapped@ =~= seq![all@[x as int], c, all@[y as int], all@[z as int]]);
                    swapped
                } else {
                    output
                }
            },
            _ => {
                let none: Vec<TreeIndex> = Vec::new();
                assert(none@ =~= Seq::<TreeIndex>::empty());
                none
            },
        }
    }
}

} // verus!
