use vstd::prelude::*;
use crate::tree::{Tree, Triangle, first_match};
use crate::tree_enum::TreesEnum;
use crate::tree_index::TreeIndex;
use vstd::arithmetic::div_mod::{lemma_mod_self_0, lemma_small_mod};
use vstd::set_lib::lemma_len_subset;

verus! {

/// The eligibility regimes of cycle growth, in escalation order.
#[derive(Clone, Copy, PartialEq, Eq, Structural, Debug)]
pub enum Pass {
    /// Only special nodes; any legal triangle; no colour match of the side.
    Special,
    /// The side must join two nodes of one colour; the triangle must be `AllSame`.
    Strict,
    /// Any side; any legal triangle.
    Relaxed,
}

/// Passes still ahead: the measure by which growth ends.
pub open spec fn pass_rank(p: Pass) -> nat {
    match p {
        Pass::Special => 2,
        Pass::Strict => 1,
        Pass::Relaxed => 0,
    }
}

/// Whether the side `prev -> next` may take a new vertex in `pass`.
pub open spec fn pair_allowed(pass: Pass, prev: TreeIndex, next: TreeIndex) -> bool {
    pass == Pass::Strict ==> prev.spec_same_color(next)
}

/// Whether `cand` passes the colour gate of `pass` against the side `prev -> next`.
pub open spec fn candidate_allowed(
    pass: Pass,
    cand: TreeIndex,
    prev: TreeIndex,
    next: TreeIndex,
    special: Seq<TreeIndex>,
) -> bool {
    let t = cand.spec_makes_triangle((next, prev));
    match pass {
        Pass::Special => special.contains(cand) && t != Triangle::Illegal,
        Pass::Strict => t == Triangle::AllSame,
        Pass::Relaxed => t != Triangle::Illegal,
    }
}

fn contains_index(v: &[TreeIndex], x: TreeIndex) -> (r: bool)
    ensures
        r == v@.contains(x),
{
    let mut i: usize = 0;
    while i < v.len()
        invariant
            i <= v@.len(),
            forall|k: int| 0 <= k < i ==> v@[k] != x,
        decreases v.len() - i,
    {
        if v[i] == x {
            return true;
        }
        i += 1;
    }
    false
}

fn candidate_fits(
    pass: Pass,
    cand: TreeIndex,
    prev: TreeIndex,
    next: TreeIndex,
    special: &Vec<TreeIndex>,
) -> (r: bool)
    ensures
        r == candidate_allowed(pass, cand, prev, next, special@),
{
    let t = cand.makes_triangle((next, prev));
    match pass {
        Pass::Special => t != Triangle::Illegal && contains_index(special.as_slice(), cand),
        Pass::Strict => t == Triangle::AllSame,
        Pass::Relaxed => t != Triangle::Illegal,
    }
}

impl Tree {
    /// Visibility during growth: the obstacles are the sides of `cycle` and
    /// the structural edges, in every pass.
    pub open spec fn context_visible(self, from: TreeIndex, cycle: Seq<TreeIndex>) -> Seq<
        TreeIndex,
    > {
        self.visible(from, self.cycle_edges(cycle) + self.all_edges())
    }

    /// A candidate for the side from `cycle[k]` to the vertex after it.
    pub open spec fn fits(
        self,
        cycle: Seq<TreeIndex>,
        pass: Pass,
        special: Seq<TreeIndex>,
        k: int,
    ) -> spec_fn(TreeIndex) -> bool {
        let prev = cycle[k];
        let next = cycle[(k + 1) % (cycle.len() as int)];
        |c: TreeIndex|
            candidate_allowed(pass, c, prev, next, special) && !cycle.contains(c)
                && self.context_visible(next, cycle).contains(c)
    }

    /// The first side, from the side at `cycle[k]` on, that takes a vertex in
    /// `pass`, with that vertex: the first fitting one that `cycle[k]` sees.
    pub open spec fn insertion_from(
        self,
        cycle: Seq<TreeIndex>,
        pass: Pass,
        special: Seq<TreeIndex>,
        k: int,
    ) -> Option<(int, TreeIndex)>
        decreases cycle.len() - k,
    {
        if 0 <= k < cycle.len() {
            let prev = cycle[k];
            let next = cycle[(k + 1) % (cycle.len() as int)];
            let found = if pair_allowed(pass, prev, next) {
                first_match(self.context_visible(prev, cycle), self.fits(cycle, pass, special, k), 0)
            } else {
                None
            };
            match found {
                Some(c) => Some((k, c)),
                None => self.insertion_from(cycle, pass, special, k + 1),
            }
        } else {
            None
        }
    }

    /// The cycle that growth reaches from `cycle` in `pass`, or `None` when
    /// no pass can grow it to `length`. An empty cycle has no side to grow
    /// at, and one that holds as many vertices as there are indices has no
    /// vertex left to take.
    pub open spec fn grown(
        self,
        cycle: Seq<TreeIndex>,
        pass: Pass,
        special: Seq<TreeIndex>,
        length: nat,
    ) -> Option<Seq<TreeIndex>>
        decreases self.indices().len() - cycle.len(), pass_rank(pass),
    {
        if cycle.len() == length {
            Some(cycle)
        } else if cycle.len() == 0 || cycle.len() >= self.indices().len() {
            None
        } else {
            match self.insertion_from(cycle, pass, special, 0) {
                Some((k, c)) => self.grown(
                    cycle.insert((k + 1) % (cycle.len() as int), c),
                    pass,
                    special,
                    length,
                ),
                None => match pass {
                    Pass::Special => self.grown(cycle, Pass::Strict, special, length),
                    Pass::Strict => self.grown(cycle, Pass::Relaxed, special, length),
                    Pass::Relaxed => None,
                },
            }
        }
    }

    /// The result of growing the seed to `length`, starting in the special pass.
    pub open spec fn cycle_of(self, length: nat) -> Option<Seq<TreeIndex>> {
        self.grown(self.seed(), Pass::Special, self.indices().filter(self.special_pred()), length)
    }

    /// One insertion in `pass`: over the sides in cyclic order, the first
    /// side that takes a vertex gets it, placed just before the side's end.
    fn insert_one(&self, cycle: &mut Vec<TreeIndex>, pass: Pass, special: &Vec<TreeIndex>) -> (r:
        bool)
        requires
            self.well_formed(),
            old(cycle)@.len() > 0,
            forall|k: int| 0 <= k < old(cycle)@.len() ==> self.has(#[trigger] old(cycle)@[k]),
        ensures
            match self.insertion_from(old(cycle)@, pass, special@, 0) {
                Some((k, c)) => r && final(cycle)@ == old(cycle)@.insert(
                    (k + 1) % (old(cycle)@.len() as int),
                    c,
                ),
                None => !r && final(cycle)@ == old(cycle)@,
            },
    {
        let n = cycle.len();
        let mut prev: usize = 0;
        while prev < n
            invariant
                self.well_formed(),
                n == cycle@.len(),
                cycle@ == old(cycle)@,
                prev <= n,
                forall|k: int| 0 <= k < cycle@.len() ==> self.has(#[trigger] cycle@[k]),
                self.insertion_from(cycle@, pass, special@, 0) == self.insertion_from(
                    cycle@,
                    pass,
                    special@,
                    prev as int,
                ),
            decreases n - prev,
        {
            let next: usize = if prev + 1 == n {
                0
            } else {
                prev + 1
            };
            proof {
                if prev + 1 == n {
                    lemma_mod_self_0(n as int);
                } else {
                    lemma_small_mod((prev + 1) as nat, n as nat);
                }
            }
            let p = cycle[prev];
            let q = cycle[next];
            if pass != Pass::Strict || p.same_color(q) {
                let visible = self.check_node_vis_cycle_org(p, cycle.as_slice());
                let other_vis = self.check_node_vis_cycle_org(q, cycle.as_slice());
                let ghost pred = self.fits(cycle@, pass, special@, prev as int);
                let mut j: usize = 0;
                while j < visible.len()
                    invariant
                        self.well_formed(),
                        n == cycle@.len(),
                        cycle@ == old(cycle)@,
                        prev < n,
                        next == (prev + 1) % (n as int),
                        p == cycle@[prev as int],
                        q == cycle@[next as int],
                        pair_allowed(pass, p, q),
                        visible@ == self.context_visible(p, cycle@),
                        other_vis@ == self.context_visible(q, cycle@),
                        pred == self.fits(cycle@, pass, special@, prev as int),
                        j <= visible.len(),
                        self.insertion_from(cycle@, pass, special@, 0) == self.insertion_from(
                            cycle@,
                            pass,
                            special@,
                            prev as int,
                        ),
                        first_match(visible@, pred, 0) == first_match(visible@, pred, j as int),
                    decreases visible.len() - j,
                {
                    let cand = visible[j];
                    let ok = candidate_fits(pass, cand, p, q, special) && !contains_index(
                        cycle.as_slice(),
                        cand,
                    ) && contains_index(other_vis.as_slice(), cand);
                    assert(ok == pred(cand));
                    if ok {
                        cycle.insert(next, cand);
                        return true;
                    }
                    j += 1;
                }
            }
            prev += 1;
        }
        false
    }

    /// Grows the seed polygon to `length` vertices. Each round makes one
    /// insertion in the current pass; a pass that inserts nothing escalates
    /// (special, then strict, then relaxed), and a relaxed pass that inserts
    /// nothing fails. A target below the seed's four vertices is never reached.
    pub fn find_cycle(&self, length: usize) -> (r: Result<Vec<TreeIndex>, ()>)
        requires
            self.well_formed(),
        ensures
            match self.cycle_of(length as nat) {
                Some(c) => r is Ok && r->Ok_0@ == c,
                None => r is Err,
            },
            length < 4 ==> r is Err,
            length == 4 ==> r is Ok && r->Ok_0@ == self.seed(),
            r is Ok ==> r->Ok_0@.len() == length && r->Ok_0@.no_duplicates(),
    {
        let special = self.find_special_nodes();
        let mut cycle = self.center_triangle();
        let ghost ids = self.indices();
        let ghost start = self.seed();
        proof {
            self.lemma_seed();
            self.lemma_indices_have();
        }
        if length < 4 {
            proof {
                self.lemma_grown_below(start, Pass::Special, special@, length as nat);
            }
            return Err(());
        }
        let mut pass = Pass::Special;
        loop
            invariant
                self.well_formed(),
                ids == self.indices(),
                start == self.seed(),
                special@ == ids.filter(self.special_pred()),
                cycle@.len() >= 4,
                cycle@.no_duplicates(),
                forall|k: int| 0 <= k < cycle@.len() ==> ids.contains(#[trigger] cycle@[k]),
                forall|k: int| 0 <= k < ids.len() ==> self.has(#[trigger] ids[k]),
                cycle@.len() <= ids.len(),
                self.grown(cycle@, pass, special@, length as nat) == self.grown(
                    start,
                    Pass::Special,
                    special@,
                    length as nat,
                ),
            decreases (ids.len() - cycle@.len()) * 3 + pass_rank(pass),
        {
            if cycle.len() == length {
                return Ok(cycle);
            }
            let ghost before = cycle@;
            proof {
                assert forall|k: int| 0 <= k < before.len() implies self.has(#[trigger] before[k]) by {
                    let i = choose|i: int| 0 <= i < ids.len() && ids[i] == before[k];
                }
            }
            let inserted = self.insert_one(&mut cycle, pass, &special);
            if inserted {
                proof {
                    self.lemma_insertion_from(before, pass, special@, 0);
                    let (k, c) = self.insertion_from(before, pass, special@, 0)->Some_0;
                    let pos = (k + 1) % (before.len() as int);
                    before.insert_ensures(pos, c);
                    lemma_insert_fresh(before, pos, c);
                    assert forall|i: int| 0 <= i < cycle@.len() implies ids.contains(
                        #[trigger] cycle@[i],
                    ) by {
                        assert(cycle@.contains(cycle@[i]));
                        if cycle@[i] != c {
                            let m = choose|m: int| 0 <= m < before.len() && before[m] == cycle@[i];
                        }
                    }
                    lemma_len_bound(cycle@, ids);
                }
            } else {
                match pass {
                    Pass::Special => {
                        pass = Pass::Strict;
                    },
                    Pass::Strict => {
                        pass = Pass::Relaxed;
                    },
                    Pass::Relaxed => {
                        return Err(());
                    },
                }
            }
        }
    }

    proof fn lemma_insertion_from(
        self,
        cycle: Seq<TreeIndex>,
        pass: Pass,
        special: Seq<TreeIndex>,
        k: int,
    )
        ensures
            self.insertion_from(cycle, pass, special, k) matches Some((kk, c)) ==> 0 <= kk
                < cycle.len() && !cycle.contains(c) && self.indices().contains(c),
        decreases cycle.len() - k,
    {
        if 0 <= k < cycle.len() {
            let next = cycle[(k + 1) % (cycle.len() as int)];
            let pred = self.fits(cycle, pass, special, k);
            let vis = self.context_visible(cycle[k], cycle);
            lemma_first_match(vis, pred, 0);
            if let Some(c) = first_match(vis, pred, 0) {
                let other = self.visible_pred(next, self.cycle_edges(cycle) + self.all_edges());
                self.indices().lemma_filter_contains_rev(other, c);
            }
            self.lemma_insertion_from(cycle, pass, special, k + 1);
        }
    }

    /// Every enumerated index of the seed is in the enumeration, once.
    proof fn lemma_seed(self)
        requires
            self.well_formed(),
        ensures
            self.seed().len() == 4,
            self.seed().no_duplicates(),
            forall|k: int| 0 <= k < 4 ==> self.indices().contains(#[trigger] self.seed()[k]),
    {
        let ids = self.indices();
        let n1 = self.tree1.len() as int;
        let n2 = self.tree2.len() as int;
        assert(ids[0] == TreeIndex(TreesEnum::Center, 0));
        assert(ids[1] == TreeIndex(TreesEnum::First, 0));
        assert(ids[1 + n1] == TreeIndex(TreesEnum::Second, 0));
        assert(ids[1 + n1 + n2] == TreeIndex(TreesEnum::Third, 0));
    }

    /// Growth never shrinks a cycle: a target below the current length is
    /// never reached.
    pub proof fn lemma_grown_below(
        self,
        cycle: Seq<TreeIndex>,
        pass: Pass,
        special: Seq<TreeIndex>,
        length: nat,
    )
        requires
            cycle.len() > length,
        ensures
            self.grown(cycle, pass, special, length) is None,
        decreases self.indices().len() - cycle.len(), pass_rank(pass),
    {
        if cycle.len() == 0 || cycle.len() >= self.indices().len() {
        } else {
            match self.insertion_from(cycle, pass, special, 0) {
                Some((k, c)) => {
                    self.lemma_insertion_from(cycle, pass, special, 0);
                    let pos = (k + 1) % (cycle.len() as int);
                    cycle.insert_ensures(pos, c);
                    self.lemma_grown_below(cycle.insert(pos, c), pass, special, length);
                },
                None => match pass {
                    Pass::Special => self.lemma_grown_below(cycle, Pass::Strict, special, length),
                    Pass::Strict => self.lemma_grown_below(cycle, Pass::Relaxed, special, length),
                    Pass::Relaxed => {},
                },
            }
        }
    }
}

proof fn lemma_first_match(s: Seq<TreeIndex>, pred: spec_fn(TreeIndex) -> bool, j: int)
    ensures
        first_match(s, pred, j) matches Some(c) ==> pred(c) && s.contains(c),
    decreases s.len() - j,
{
    if 0 <= j < s.len() {
        lemma_first_match(s, pred, j + 1);
    }
}

/// Inserting an element that is not there keeps a sequence free of duplicates.
proof fn lemma_insert_fresh(s: Seq<TreeIndex>, pos: int, c: TreeIndex)
    requires
        s.no_duplicates(),
        !s.contains(c),
        0 <= pos <= s.len(),
    ensures
        s.insert(pos, c).no_duplicates(),
        forall|x: TreeIndex| #[trigger] s.insert(pos, c).contains(x) ==> s.contains(x) || x == c,
{
    s.insert_ensures(pos, c);
    let t = s.insert(pos, c);
    // position in `s` of the entry at `i` of `t`, other than `pos`
    let back = |i: int| if i < pos { i } else { i - 1 };
    assert forall|i: int, j: int| 0 <= i < t.len() && 0 <= j < t.len() && i != j implies t[i]
        != t[j] by {
        if i != pos {
            assert(t[i] == s[back(i)]);
        }
        if j != pos {
            assert(t[j] == s[back(j)]);
        }
    }
    assert forall|x: TreeIndex| #[trigger] t.contains(x) implies s.contains(x) || x == c by {
        let i = choose|i: int| 0 <= i < t.len() && t[i] == x;
        if i != pos {
            assert(t[i] == s[back(i)]);
        }
    }
}

/// A sequence without duplicates, drawn from `ids`, is no longer than `ids`.
proof fn lemma_len_bound(cycle: Seq<TreeIndex>, ids: Seq<TreeIndex>)
    requires
        cycle.no_duplicates(),
        forall|k: int| 0 <= k < cycle.len() ==> ids.contains(#[trigger] cycle[k]),
    ensures
        cycle.len() <= ids.len(),
{
    cycle.unique_seq_to_set();
    ids.lemma_cardinality_of_set();
    assert(cycle.to_set().subset_of(ids.to_set())) by {
        assert forall|x: TreeIndex| cycle.to_set().contains(x) implies ids.to_set().contains(x) by {
            let k = choose|k: int| 0 <= k < cycle.len() && cycle[k] == x;
        }
    }
    vstd::seq_lib::seq_to_set_is_finite(ids);
    lemma_len_subset(cycle.to_set(), ids.to_set());
}

} // verus!
