//! Remote services the package manager talks to.

pub mod github;
