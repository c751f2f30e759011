use vstd::prelude::*;
use crate::tree_enum::TreesEnum;
use crate::tree::Triangle;

verus! {

/// An address in the structure: a slot and an offset in it. The offset is
/// ignored for the center.
#[derive(Clone, Copy, PartialEq, Eq, Structural, Debug)]
pub struct TreeIndex(pub TreesEnum, pub usize);

impl TreeIndex {
    /// Same colour: the same slot, or either one is the colour-neutral center.
    pub open spec fn spec_same_color(self, other: TreeIndex) -> bool {
        self.0 == other.0 || self.0 == TreesEnum::Center || other.0 == TreesEnum::Center
    }

    /// `AllSame` when the three are pairwise of one colour, `OneOdd` when at
    /// least one pair is, `Illegal` when none is.
    pub open spec fn spec_makes_triangle(self, edge: (TreeIndex, TreeIndex)) -> Triangle {
        if self.spec_same_color(edge.0) && self.spec_same_color(edge.1) && edge.0.spec_same_color(
            edge.1,
        ) {
            Triangle::AllSame
        } else if self.spec_same_color(edge.0) || self.spec_same_color(edge.1)
            || edge.0.spec_same_color(edge.1) {
            Triangle::OneOdd
        } else {
            Triangle::Illegal
        }
    }

    /// Whether the two indices have the same colour (see `spec_same_color`).
    pub fn same_color(&self, other: Self) -> (r: bool)
        ensures
            r == self.spec_same_color(other),
    {
        self.0 == other.0 || self.0 == TreesEnum::Center || other.0 == TreesEnum::Center
    }

    /// Legality of `self` against the edge between `edge.0` and `edge.1`.
    pub fn makes_triangle(&self, edge: (Self, Self)) -> (r: Triangle)
        ensures
            r == self.spec_makes_triangle(edge),
    {
        if self.same_color(edge.0) && self.same_color(edge.1) && edge.0.same_color(edge.1) {
            Triangle::AllSame
        } else if self.same_color(edge.0) || self.same_color(edge.1) || edge.0.same_color(edge.1) {
            Triangle::OneOdd
        } else {
            Triangle::Illegal
        }
    }
}

} // verus!
