//! A point structure of three branches around a center, with exact
//! segment intersection, visibility between its points, and the growth of
//! simple polygons through them.

pub mod vec;
pub mod edge;
pub mod node;
pub mod tree_enum;
pub mod tree_index;
pub mod tree;
pub mod visibility;
pub mod seed;
pub mod cycle;
