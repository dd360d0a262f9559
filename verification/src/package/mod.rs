//! Packages: their manifests, the index they are listed in, and how their
//! dependencies are resolved.

pub mod cycles;
pub mod graph;
pub mod index;
pub mod installer;
pub mod manifest;
pub mod resolver;
