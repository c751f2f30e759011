use vstd::prelude::*;

verus! {

/// Names a slot of the structure: the center, or one of its three branches.
#[derive(Clone, Copy, PartialEq, Eq, Structural, Debug)]
pub enum TreesEnum {
    Center,
    First,
    Second,
    Third,
}

impl TreesEnum {
    /// The three branches, in enumeration order.
    pub fn iterator() -> (r: Vec<TreesEnum>)
        ensures
            r@ == seq![TreesEnum::First, TreesEnum::Second, TreesEnum::Third],
    {
        vec![TreesEnum::First, TreesEnum::Second, TreesEnum::Third]
    }
}

} // verus!
