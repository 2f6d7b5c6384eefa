//! Verified window-management core of the zos-wm compositor.
use vstd::prelude::*;

pub mod animation;
pub mod assoc;
pub mod binds;
pub mod decoration;
pub mod extension;
pub mod gamma;
pub mod header_bar;
pub mod input;
pub mod ipc;
pub mod keysyms;
pub mod output_config;
pub mod output_state;
pub mod screencopy;
pub mod tearing;
pub mod text;
pub mod tiling;
pub mod workspace;

verus! {

} // verus!
