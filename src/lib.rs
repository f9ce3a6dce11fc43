//! Scalar reverse-mode automatic differentiation over an arena of nodes.
//!
//! Nodes live in a [`Graph`] and are named by [`Value`] handles. Arithmetic on
//! operands records the operation that produced each new node; `backward`
//! walks the recorded operations from an output node and accumulates the chain
//! rule's contributions into every tracked ancestor.

pub mod differentiable;
pub mod laws;
pub mod operations;
pub mod value;

pub use crate::differentiable::{Differentiable, Float};
pub use crate::operations::{Operand, Operation};
pub use crate::value::{Graph, Node, Value};
