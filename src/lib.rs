//! Resolution core of a build tool: manifest discovery, workspace member
//! expansion, dependency resolution and compilation ordering.

pub mod ctx;
pub mod facts;
pub mod loader;
pub mod manifest;
pub mod members;
pub mod order;
pub mod paths;
