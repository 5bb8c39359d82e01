//! The classified form of an input: typed line records with nesting and
//! grouping metadata, and the renderer that aligns and re-emits them.

pub mod format;
pub mod line;
