//! A verified engine for aggregating the contents of files selected by
//! shell-style glob patterns from a directory tree, with subtrees excluded by
//! ignore rules pruned rather than filtered after the fact.

pub mod glob;
pub mod ignores;
pub mod pipeline;
pub mod render;
pub mod walk;
pub mod util;
