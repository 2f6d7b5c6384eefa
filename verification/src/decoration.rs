//! Server-side decoration state of a window.
use vstd::prelude::*;

use crate::header_bar::HeaderBar;

verus! {

/// Whether the compositor draws a window's title bar, and that bar.
#[derive(Debug, Clone, Copy, PartialEq, Eq, Structural)]
pub struct WindowState {
    pub is_ssd: bool,
    pub header_bar: HeaderBar,
}

impl WindowState {
    /// Client-side decorations and a bar not yet drawn.
    pub fn new() -> (s: Self)
        ensures
            !s.is_ssd,
            s.header_bar == HeaderBar::new_spec(),
    {
        WindowState { is_ssd: false, header_bar: HeaderBar::new() }
    }

    /// Switches server-side decorations on or off.
    pub fn set_ssd(&mut self, ssd: bool)
        ensures
            *final(self) == (WindowState { is_ssd: ssd, ..*old(self) }),
    {
        self.is_ssd = ssd;
    }
}

/// Who draws a toplevel's decorations.
#[derive(Debug, Clone, Copy, PartialEq, Eq, Hash, Structural)]
pub enum DecorationMode {
    ClientSide,
    ServerSide,
}

/// The decoration mode a toplevel is configured with: server-side when the
/// client asks for it, client-side otherwise (including a new decoration
/// object and a client that unsets its request, `None`).
pub fn decoration_mode_for(requested: Option<DecorationMode>) -> (m: DecorationMode)
    ensures
        m == (if requested == Some(DecorationMode::ServerSide) {
            DecorationMode::ServerSide
        } else {
            DecorationMode::ClientSide
        }),
{
    match requested {
        Some(DecorationMode::ServerSide) => DecorationMode::ServerSide,
        _ => DecorationMode::ClientSide,
    }
}

} // verus!
