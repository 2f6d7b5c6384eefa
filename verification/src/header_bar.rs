//! The title bar the compositor draws for server-side decorated windows:
//! which button the pointer is over, what a click there does, and which
//! buttons need repainting.
//!
//! The three buttons sit at the right end of the bar, each
//! `BUTTON_WIDTH` pixels wide: minimize, maximize, close (rightmost).
use vstd::prelude::*;

verus! {

/// Height of the title bar in logical pixels.
pub const HEADER_BAR_HEIGHT: i32 = 32;

/// Width of each button in logical pixels.
pub const BUTTON_WIDTH: u32 = 32;

/// Where the pointer is across the bar.
#[derive(Debug, Clone, Copy, PartialEq, Eq, Structural)]
pub enum PointerColumn {
    /// The pixel column the pointer is in: its x coordinate rounded down.
    At(i64),
    /// The pointer's x coordinate is not a number (it lies in no zone).
    NotANumber,
}

/// A part of the title bar.
#[derive(Debug, Clone, Copy, PartialEq, Eq, Structural)]
pub enum HeaderZone {
    Close,
    Maximize,
    Minimize,
    /// Anywhere else: dragging there moves the window.
    Title,
}

/// Which buttons need repainting after a redraw.
#[derive(Debug, Clone, Copy, PartialEq, Eq, Structural)]
pub struct ButtonRepaints {
    pub close: bool,
    pub maximize: bool,
    pub minimize: bool,
}

/// The state of one title bar.
#[derive(Debug, Clone, Copy, PartialEq, Eq, Structural)]
pub struct HeaderBar {
    /// Where the pointer is, while it is over the bar.
    pub pointer: Option<PointerColumn>,
    /// Width of the bar in logical pixels (zero until first drawn).
    pub width: u32,
    pub minimize_button_hover: bool,
    pub maximize_button_hover: bool,
    pub close_button_hover: bool,
}

/// The pointer is over the close button of a bar `width` wide.
pub open spec fn in_close(width: u32, p: PointerColumn) -> bool {
    p matches PointerColumn::At(x) && x >= width - BUTTON_WIDTH
}

/// The pointer is over the maximize button.
pub open spec fn in_maximize(width: u32, p: PointerColumn) -> bool {
    p matches PointerColumn::At(x) && x >= width - 2 * BUTTON_WIDTH && x < width - BUTTON_WIDTH
}

/// The pointer is over the minimize button.
pub open spec fn in_minimize(width: u32, p: PointerColumn) -> bool {
    p matches PointerColumn::At(x) && x >= width - 3 * BUTTON_WIDTH && x < width - 2 * BUTTON_WIDTH
}

/// The zone the pointer is in, the buttons tested from the right.
pub open spec fn zone_of(width: u32, p: PointerColumn) -> HeaderZone {
    if in_close(width, p) {
        HeaderZone::Close
    } else if in_maximize(width, p) {
        HeaderZone::Maximize
    } else if in_minimize(width, p) {
        HeaderZone::Minimize
    } else {
        HeaderZone::Title
    }
}

/// Testing the zones from the right stays within the bar: each button
/// tested fits in the width (the button offsets are unsigned).
pub open spec fn zones_testable(width: u32, p: PointerColumn) -> bool {
    &&& width >= BUTTON_WIDTH
    &&& in_close(width, p) || width >= 2 * BUTTON_WIDTH
    &&& in_close(width, p) || in_maximize(width, p) || width >= 3 * BUTTON_WIDTH
}

/// Whether column `p` is at or right of `edge` (and, with `upper`, left of
/// `upper`).
fn column_between(p: PointerColumn, edge: u32, upper: Option<u32>) -> (b: bool)
    ensures
        b == (p matches PointerColumn::At(x) && x >= edge && (upper matches Some(u) ==> x < u)),
{
    match p {
        PointerColumn::At(x) => x >= edge as i64 && match upper {
            Some(u) => x < u as i64,
            None => true,
        },
        PointerColumn::NotANumber => false,
    }
}

impl HeaderBar {
    /// A bar not yet drawn, with the pointer elsewhere.
    pub open spec fn new_spec() -> HeaderBar {
        HeaderBar {
            pointer: None,
            width: 0,
            minimize_button_hover: false,
            maximize_button_hover: false,
            close_button_hover: false,
        }
    }

    /// A bar not yet drawn, with the pointer elsewhere.
    pub fn new() -> (b: Self)
        ensures
            b == HeaderBar::new_spec(),
    {
        HeaderBar {
            pointer: None,
            width: 0,
            minimize_button_hover: false,
            maximize_button_hover: false,
            close_button_hover: false,
        }
    }

    /// The pointer moved over the bar, to column `p`.
    pub fn pointer_enter(&mut self, p: PointerColumn)
        ensures
            *final(self) == (HeaderBar { pointer: Some(p), ..*old(self) }),
    {
        self.pointer = Some(p);
    }

    /// The pointer left the bar.
    pub fn pointer_leave(&mut self)
        ensures
            *final(self) == (HeaderBar { pointer: None, ..*old(self) }),
    {
        self.pointer = None;
    }

    /// The zone under the pointer (`None` without a pointer), which decides
    /// what a click does: close, maximize, minimize, or move the window
    /// from the title.
    pub fn zone(&self) -> (z: Option<HeaderZone>)
        requires
            self.pointer matches Some(p) ==> zones_testable(self.width, p),
        ensures
            z == (match self.pointer {
                Some(p) => Some(zone_of(self.width, p)),
                None => None,
            }),
    {
        match self.pointer {
            None => None,
            Some(p) => {
                let w = self.width;
                if column_between(p, w - BUTTON_WIDTH, None) {
                    Some(HeaderZone::Close)
                } else if column_between(p, w - 2 * BUTTON_WIDTH, Some(w - BUTTON_WIDTH)) {
                    Some(HeaderZone::Maximize)
                } else if column_between(p, w - 3 * BUTTON_WIDTH, Some(w - 2 * BUTTON_WIDTH)) {
                    Some(HeaderZone::Minimize)
                } else {
                    Some(HeaderZone::Title)
                }
            },
        }
    }

    /// Lays the bar out at `width`: a zero width only records it; otherwise
    /// each button's hover flag follows the pointer, and a button is
    /// repainted when the width changed or its hover state did.
    pub fn redraw(&mut self, width: u32) -> (r: ButtonRepaints)
        requires
            width != 0 && old(self).pointer is Some ==> width >= 3 * BUTTON_WIDTH,
        ensures
            final(self).pointer == old(self).pointer,
            final(self).width == width,
            width == 0 ==> {
                &&& final(self).close_button_hover == old(self).close_button_hover
                &&& final(self).maximize_button_hover == old(self).maximize_button_hover
                &&& final(self).minimize_button_hover == old(self).minimize_button_hover
                &&& r == (ButtonRepaints { close: false, maximize: false, minimize: false })
            },
            width != 0 ==> {
                let resized = width != old(self).width;
                let hc = old(self).pointer matches Some(p) && in_close(width, p);
                let hx = old(self).pointer matches Some(p) && in_maximize(width, p);
                let hn = old(self).pointer matches Some(p) && in_minimize(width, p);
                &&& final(self).close_button_hover == hc
                &&& final(self).maximize_button_hover == hx
                &&& final(self).minimize_button_hover == hn
                &&& r == (ButtonRepaints {
                    close: resized || hc != old(self).close_button_hover,
                    maximize: resized || hx != old(self).maximize_button_hover,
                    minimize: resized || hn != old(self).minimize_button_hover,
                })
            },
    {
        if width == 0 {
            self.width = 0;
            return ButtonRepaints { close: false, maximize: false, minimize: false };
        }
        let resized = width != self.width;
        self.width = width;
        let (hc, hx, hn) = match self.pointer {
            Some(p) => (
                column_between(p, width - BUTTON_WIDTH, None),
                column_between(p, width - 2 * BUTTON_WIDTH, Some(width - BUTTON_WIDTH)),
                column_between(p, width - 3 * BUTTON_WIDTH, Some(width - 2 * BUTTON_WIDTH)),
            ),
            None => (false, false, false),
        };
        let r = ButtonRepaints {
            close: resized || hc != self.close_button_hover,
            maximize: resized || hx != self.maximize_button_hover,
            minimize: resized || hn != self.minimize_button_hover,
        };
        self.close_button_hover = hc;
        self.maximize_button_hover = hx;
        self.minimize_button_hover = hn;
        r
    }
}

/// The pointer is over at most one button, so after a redraw at most one
/// button shows as hovered.
pub proof fn law_one_button_hovered(width: u32, p: PointerColumn)
    requires
        width >= 3 * BUTTON_WIDTH,
    ensures
        !(in_close(width, p) && in_maximize(width, p)),
        !(in_close(width, p) && in_minimize(width, p)),
        !(in_maximize(width, p) && in_minimize(width, p)),
{
}

} // verus!
