//! Tiling vocabulary shared by the layout algorithms: window keys,
//! directions, edges and integer rectangles.
use vstd::prelude::*;

pub mod dwindle;

verus! {

/// Hands out fresh identifiers, counting up from one. Each call of
/// `WindowKey::allocate` or `OutputId::allocate` takes the next value; the counter
/// wraps around past `u32::MAX` as an atomic `fetch_add` would.
pub struct IdCounter {
    next: u32,
}

impl IdCounter {
    /// The value the next allocation hands out.
    pub closed spec fn next_value(&self) -> u32 {
        self.next
    }

    /// A counter whose first allocation yields `1`.
    pub fn new() -> (c: IdCounter)
        ensures
            c.next_value() == 1,
    {
        IdCounter { next: 1 }
    }

    /// Takes the current value and advances the counter by one (wrapping).
    pub fn take_next(&mut self) -> (v: u32)
        ensures
            v == old(self).next_value(),
            final(self).next_value() == next_after(old(self).next_value()),
    {
        let v = self.next;
        self.next = if self.next == u32::MAX {
            0
        } else {
            self.next + 1
        };
        v
    }
}

/// The counter value after one allocation from value `v` (wrapping).
pub open spec fn next_after(v: u32) -> u32 {
    if v == u32::MAX {
        0
    } else {
        (v + 1) as u32
    }
}

/// The value a new counter hands out at its `n`-th allocation (the first
/// being the zeroth).
pub open spec fn value_after(n: nat) -> u32
    decreases n,
{
    if n == 0 {
        1
    } else {
        next_after(value_after((n - 1) as nat))
    }
}

/// A new counter hands out 1, 2, 3, and so on: while fewer than `u32::MAX`
/// allocations were made, the `n`-th yields `n + 1`, so ids allocated from
/// one counter are non-zero, pairwise distinct and increasing.
pub proof fn law_counter_counts_up(i: nat, j: nat)
    requires
        i < j < u32::MAX,
    ensures
        value_after(i) == i + 1,
        value_after(j) == j + 1,
        1 <= value_after(i) < value_after(j),
{
    lemma_value_after(j);
    lemma_value_after(i);
}

proof fn lemma_value_after(n: nat)
    requires
        n < u32::MAX,
    ensures
        value_after(n) == n + 1,
    decreases n,
{
    if n > 0 {
        lemma_value_after((n - 1) as nat);
    }
}

/// Opaque per-window key a tiling algorithm uses internally.
#[derive(Debug, Clone, Copy, PartialEq, Eq, Hash, PartialOrd, Ord, Structural)]
pub struct WindowKey(u32);

impl WindowKey {
    /// The number inside the key.
    pub closed spec fn raw_value(self) -> u32 {
        self.0
    }

    /// A fresh key: the counter's current value, after which the counter
    /// moves on.
    pub fn allocate(counter: &mut IdCounter) -> (k: WindowKey)
        ensures
            k.raw_value() == old(counter).next_value(),
            final(counter).next_value() == next_after(old(counter).next_value()),
    {
        WindowKey(counter.take_next())
    }

    /// The number inside the key.
    pub fn raw(self) -> (r: u32)
        ensures
            r == self.raw_value(),
    {
        self.0
    }
}

/// A spatial direction for focus movement inside a tiled layout.
#[derive(Debug, Clone, Copy, PartialEq, Eq, Hash, Structural)]
pub enum Direction {
    Left,
    Right,
    Up,
    Down,
}

/// An edge of a tiled window, dragged to resize it.
#[derive(Debug, Clone, Copy, PartialEq, Eq, Hash, Structural)]
pub enum Edge {
    Left,
    Right,
    Top,
    Bottom,
}

/// A point in logical pixels.
#[derive(Debug, Clone, Copy, PartialEq, Eq, Hash, Default, Structural)]
pub struct Point {
    pub x: i32,
    pub y: i32,
}

/// An axis-aligned rectangle in logical pixels: top-left corner `(x, y)`,
/// width `w`, height `h`.
#[derive(Debug, Clone, Copy, PartialEq, Eq, Hash, Structural)]
pub struct Rect {
    pub x: i32,
    pub y: i32,
    pub w: i32,
    pub h: i32,
}

impl Rect {
    /// A rectangle from its corner and size.
    pub fn new(x: i32, y: i32, w: i32, h: i32) -> (r: Rect)
        ensures
            r == (Rect { x, y, w, h }),
    {
        Rect { x, y, w, h }
    }

    /// The far corner of the rectangle stays inside the `i32` range, so every
    /// sub-rectangle a split produces can be stored.
    pub open spec fn fits(self) -> bool {
        &&& i32::MIN <= self.x + self.w <= i32::MAX
        &&& i32::MIN <= self.y + self.h <= i32::MAX
    }

    /// Right edge.
    pub open spec fn right(self) -> int {
        self.x + self.w
    }

    /// Bottom edge.
    pub open spec fn bottom(self) -> int {
        self.y + self.h
    }

    /// Area (may be negative for a rectangle of negative size).
    pub open spec fn area(self) -> int {
        self.w * self.h
    }

    /// `self` lies inside `outer`.
    pub open spec fn within(self, outer: Rect) -> bool {
        &&& outer.x <= self.x
        &&& outer.y <= self.y
        &&& self.right() <= outer.right()
        &&& self.bottom() <= outer.bottom()
    }
}

} // verus!
