//! Hierarchy resolution and conditional trait synthesis for a binding generator.

pub mod text;
pub mod gobjects;
pub mod library;
pub mod imports;
pub mod env;
pub mod supertypes;
pub mod special_functions;
pub mod sink;
pub mod trait_impls;
