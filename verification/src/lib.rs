//! Verified in-memory data structures.
//!
//! The centre is [`heap::Heap`], a binary heap whose ordering is chosen at
//! construction ([`order`]); [`sift`] describes its array layout as
//! mathematics, and [`history`] proves what holds over whole runs of
//! operations. Around it stand a queue and a stack ([`queue`]), a binary
//! search tree ([`bst`]), breadth-first traversal of a graph ([`graph`]),
//! and two conversions from plainer values ([`color`], [`person`]).

pub mod bst;
pub mod color;
pub mod graph;
pub mod heap;
pub mod history;
pub mod order;
pub mod person;
pub mod queue;
pub mod sift;
