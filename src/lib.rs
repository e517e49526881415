//! Window-management core of a minimal tiling compositor: surface root
//! resolution, the first-configure handshake, commit dispatch, the window
//! registry and the column tiling layout.
//!
//! Surfaces are named by plain `u64` identities; every decision is returned
//! to the caller as a list of [`wm::Action`]s, which the protocol layer
//! carries out.

pub mod geometry;
pub mod tree;
pub mod window;
pub mod wm;
pub mod laws;

pub use geometry::{tile_layout, Rect};
pub use tree::SurfaceTree;
pub use window::{ensure_first_configure, Handshake, Popup, Window};
pub use wm::{commit_spec, handle_commit, retile_spec, Action, JoyWM, WmError, WmView};
