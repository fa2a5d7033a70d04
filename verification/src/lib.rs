//! Composition and inflation of declarative widget trees.
//!
//! A widget description is assembled from four kinds of nodes, optionally
//! with the help of [`multi_child::MultiPair`], and then inflated by
//! [`application::Application`] into a node tree held by a `slab_tree::Tree`.
pub mod widget;
pub mod store;
pub mod application;
pub mod multi_child;
pub mod pointers;
pub mod theorems;
