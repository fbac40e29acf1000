//! An in-memory tree of markup nodes, and an engine that renders such a tree
//! back to HTML text. The tree holds documents, fragments, elements with
//! ordered attributes, text, comments, doctypes and processing instructions;
//! rendering walks it in document order and drives html5ever's serializer,
//! whose writes are pinned down, event by event, by trusted contracts.

pub mod html;
pub mod laws;
pub mod tree;
