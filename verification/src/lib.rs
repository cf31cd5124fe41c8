//! Core engine of an immediate-mode UI: a persistent widget tree that is
//! reconciled against the calls an application issues every frame, a
//! constraint-propagation layout pass over that tree, and the response
//! values handed back to the caller.

pub mod arena;
pub mod dom;
pub mod geometry;
pub mod layout;
pub mod texture;
pub mod widget;
