//! Detection of disposable build and dependency artifacts across several
//! software ecosystems: a catalog of ecosystem descriptors with declarative
//! detection rules, a directory-tree scanner that applies those rules while
//! refusing nested double-counts, and parsers for the listing output of the
//! ecosystems' package managers.

pub mod cpp;
pub mod java;
pub mod languages;
pub mod node;
pub mod python;
pub mod rust_lang;
pub mod scanner;
pub mod text;
pub mod utils;
