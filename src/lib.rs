//! Incremental layout engine of a retained-mode UI toolkit: box clamps, the
//! per-node layout cache, the layout dispatcher, the flex algorithm and the
//! coordinate mapping between widget, parent and global space.
//!
//! Lengths are whole logical pixels. A size component of `UNBOUNDED`
//! (`u32::MAX`) stands for an infinite extent; positions are signed.

pub mod box_clamp;
pub mod context;
pub mod flex;
pub mod focus;
pub mod geom;
pub mod layout;
pub mod layout_info;
pub mod pass;
pub mod provider;
pub mod scrollable;
pub mod tree;
pub mod widgets;
