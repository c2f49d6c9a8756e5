//! A retained-mode GUI toolkit core: a node tree with attributes, event
//! routing through a chain of listener tables, colours and version
//! numbers, and the pure decisions of the renderer.
pub mod text;
pub mod color;
pub mod version;
pub mod attribute;
pub mod node;
pub mod event;
pub mod dispatch;
pub mod render;
pub mod history;
pub mod listener;
