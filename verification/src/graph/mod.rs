pub mod edge;
pub mod map;
pub mod node;
pub mod graph;
pub mod builder;
