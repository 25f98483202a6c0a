//! A square-matrix algebra library over exact rational scalars, together
//! with two small record types: a named item with a deduplicated dependency
//! list, and a tree node holding a value and links to child nodes.

pub mod item;
pub mod node;
pub mod scalar;
pub mod square_matrix;

pub use item::Item;
pub use node::Node;
pub use scalar::{Frac, Scalar};
pub use square_matrix::{MatrixError, SquareMatrix};
