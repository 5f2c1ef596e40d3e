//! A depth-scoped hierarchical content navigator and renderer.
//!
//! The library models a tree of extracted document content, projects a
//! "current view" (the nodes visible at a given depth under a given ancestor
//! chain), estimates a sensible starting depth, tracks navigation state with
//! an ancestor breadcrumb stack, keeps a cyclic selection cursor over the
//! current view, and turns a node subtree into styled, wrapped, truncated
//! display lines.

pub mod app;
pub mod error;
pub mod estimator;
pub mod history;
pub mod input;
pub mod project;
pub mod render;
pub mod selection;
pub mod session;
pub mod sortval;
pub mod style;
pub mod wrap;
