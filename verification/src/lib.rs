//! Core of a retained-mode user interface: a generational node pool, a
//! two-pass measure/arrange layout over the node tree, and a batched,
//! strictly ordered draw-command pipeline.
//!
//! * [`pool`] holds the nodes. Handles into it are checked on every use, so
//!   a handle to a removed node resolves to nothing, never to another node.
//! * [`gui`] holds the widgets, the layout passes and the drawing of a frame.
//!   What each traversal computes is written down in [`gui::layout`] as a
//!   function on the nodes; the executable code is proved against it.
//! * [`math`] is integer geometry with saturating arithmetic.
//! * [`texture`] is the shared texture that nodes and draw commands refer to.
//!
//! Lengths are whole surface units and time is whole milliseconds.

pub mod gui;
pub mod math;
pub mod pool;
pub mod texture;
