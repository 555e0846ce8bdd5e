//! Classic data-structure exercises, each carried out with full functional
//! contracts: a singly linked list with an ordered, stable two-list merge,
//! a binary search tree, a bracket-matching scanner over a stack, a stack
//! emulated by two queues, and a small string-command transformer.

pub mod brackets;
pub mod bst;
pub mod keyed;
pub mod linked_list;
pub mod queue_stack;
pub mod text;
pub mod transform;
