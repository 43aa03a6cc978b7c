//! Scaffolding of descriptor files for the agents and tools that a tree of
//! manifests refers to.

pub mod effect;
pub mod entity;
pub mod laws;
pub mod manifest;
pub mod model;
pub mod paths;
pub mod sync;
pub mod template;
pub mod text;
pub mod tree;
