//! Basic blocks of an SSA control-flow graph: construction in sealed and
//! unsealed mode, relinking of successor edges, the dominator tree's child
//! lists, and bounded breadth-first traversal of a region.

pub mod block;
pub mod construction;
pub mod context;
pub mod dominator;
pub mod store;
pub mod traversal;
pub mod value_map;
