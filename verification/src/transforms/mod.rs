//! Rewrites of a parsed module.

pub mod lowering_laws;
pub mod runtime_imports;
