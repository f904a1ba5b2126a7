//! Resolution of layered chart descriptors: a base document tree, optionally
//! overridden by a local one, is merged and decoded into a typed chart whose
//! version follows a `major.minor.bugfix[-slug]` grammar.

pub mod descriptor;
pub mod mute;
pub mod secrets;
mod text;
pub mod tree;
pub mod version;
