//! A typed document-tree builder that serializes structured element nodes
//! into markup text.
//!
//! An element node owns a fixed set of optional attributes, a handful of
//! composable attribute groups, and an optional ordered list of children.
//! Serialization walks the tree depth first and emits tag text with
//! deterministic attribute order and context-correct escaping, either into
//! the library's own append-only [`sink::Sink`] or into a `quick_xml` writer.

pub mod attr;
pub mod convert;
pub mod element;
pub mod error;
pub mod escape;
pub mod laws;
pub mod sink;
pub mod xml;
