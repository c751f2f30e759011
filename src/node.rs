use vstd::prelude::*;
use crate::vec::{Vec2, dist_sq};

verus! {

/// A point of the structure; its position may be moved in place.
#[derive(Clone, Copy, PartialEq, Eq, Structural, Debug)]
pub struct Node {
    pub pos: Vec2,
}

impl Node {
    pub fn default() -> (r: Node)
        ensures
            r.pos == (Vec2 { x: 0, y: 0 }),
    {
        Node { pos: Vec2 { x: 0, y: 0 } }
    }

    /// A node at `(x, y)`.
    pub fn from_pos(x: i32, y: i32) -> (r: Node)
        ensures
            r.pos == (Vec2 { x, y }),
    {
        Node { pos: Vec2 { x, y } }
    }

    /// Squared Euclidean distance between the two positions (exact, unlike
    /// the distance itself).
    pub fn dist_squared(&self, other: &Node) -> (r: u128)
        ensures
            r == dist_sq(self.pos, other.pos),
    {
        let dx: i64 = self.pos.x as i64 - other.pos.x as i64;
        let dy: i64 = self.pos.y as i64 - other.pos.y as i64;
        proof {
            lemma_square_bound(dx as int);
            lemma_square_bound(dy as int);
        }
        let sx: u128 = (dx as i128 * dx as i128) as u128;
        let sy: u128 = (dy as i128 * dy as i128) as u128;
        sx + sy
    }
}

proof fn lemma_square_bound(d: int)
    requires
        -0x1_0000_0000 <= d <= 0x1_0000_0000,
    ensures
        0 <= d * d <= 0x1_0000_0000_0000_0000,
{
    assert(0 <= d * d <= 0x1_0000_0000_0000_0000) by (nonlinear_arith)
        requires
            -0x1_0000_0000 <= d <= 0x1_0000_0000,
    ;
}

} // verus!
