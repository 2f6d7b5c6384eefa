//! Binary-split ("dwindle") tiling.
//!
//! Each leaf is a window; each internal node splits its rectangle in two,
//! side by side (`Horizontal`) or stacked (`Vertical`), giving the first
//! child `ratio / RATIO_SCALE` of the span. A new window splits the first
//! leaf in depth-first order along that leaf's longer axis; closing a window
//! collapses its parent split and promotes the surviving sibling.
//!
//! Split ratios are fixed-point fractions with `RATIO_SCALE` steps per unit,
//! and a child's length is the parent's length times the ratio, rounded to
//! the nearest pixel (halves away from zero). A drag of `delta` pixels across
//! a split spanning `span` pixels moves the ratio by `delta / span`, rounded
//! to the nearest step.
//!
//! All layout arithmetic is on integers and exact apart from those two
//! roundings. For example, on a work area 3 pixels wide holding two windows,
//! dragging the first window's right edge by one pixel moves the ratio from
//! 0.5 to 0.833333, and the first window becomes 2 pixels wide (2.499999
//! rounds down).
use vstd::prelude::*;

use super::{Direction, Edge, Rect, WindowKey};
use crate::assoc::{
    entries_map, lemma_map_with_concat, lemma_map_with_dom, lemma_seq_keys_concat, lemma_seq_keys_finite,
    lemma_seq_keys_index, lemma_unique_entries, lemma_unique_update, map_with, seq_keys, unique_keys,
};

verus! {

/// Fixed-point denominator of split ratios: a ratio of `RATIO_SCALE` is one.
pub const RATIO_SCALE: u32 = 1000000;

/// Smallest ratio a resize leaves behind (five percent).
pub const RATIO_MIN: u32 = 50000;

/// Largest ratio a resize leaves behind (ninety-five percent).
pub const RATIO_MAX: u32 = 950000;

/// Ratio given to new splits: one half.
pub const DEFAULT_RATIO: u32 = 500000;

#[derive(Debug, Clone, Copy, PartialEq, Eq, Structural)]
pub enum Orientation {
    Horizontal,
    Vertical,
}

#[derive(Debug)]
pub enum LayoutNode {
    /// Leaf: a single window.
    Tile(WindowKey),
    /// Internal node: split orientation, the share of `first` in units of
    /// `RATIO_SCALE`, and the two children.
    Split { orientation: Orientation, ratio: u32, first: Box<LayoutNode>, second: Box<LayoutNode> },
}

// ---------------------------------------------------------------------------
// Geometry
// ---------------------------------------------------------------------------

/// `n / d` rounded to the nearest integer, halves away from zero (`d > 0`).
pub open spec fn round_div(n: int, d: int) -> int {
    if n >= 0 {
        (n + d / 2) / d
    } else {
        -((-n + d / 2) / d)
    }
}

/// `len * ratio / RATIO_SCALE`, rounded to the nearest integer.
pub open spec fn scaled_len(len: int, ratio: int) -> int {
    round_div(len * ratio, RATIO_SCALE as int)
}

/// The two child rectangles of a split of `r`.
pub open spec fn split_rect_spec(r: Rect, o: Orientation, ratio: u32) -> (Rect, Rect) {
    match o {
        Orientation::Horizontal => {
            let lw = scaled_len(r.w as int, ratio as int);
            (
                Rect { x: r.x, y: r.y, w: lw as i32, h: r.h },
                Rect { x: (r.x + lw) as i32, y: r.y, w: (r.w - lw) as i32, h: r.h },
            )
        },
        Orientation::Vertical => {
            let th = scaled_len(r.h as int, ratio as int);
            (
                Rect { x: r.x, y: r.y, w: r.w, h: th as i32 },
                Rect { x: r.x, y: (r.y + th) as i32, w: r.w, h: (r.h - th) as i32 },
            )
        },
    }
}

proof fn lemma_round_div_bounds(n: int, len: int)
    requires
        len >= 0 ==> 0 <= n <= len * (RATIO_SCALE as int),
        len < 0 ==> len * (RATIO_SCALE as int) <= n <= 0,
    ensures
        len >= 0 ==> 0 <= round_div(n, RATIO_SCALE as int) <= len,
        len < 0 ==> len <= round_div(n, RATIO_SCALE as int) <= 0,
{
    let s = RATIO_SCALE as int;
    if len >= 0 {
        assert((n + s / 2) / s <= len) by (nonlinear_arith)
            requires
                0 <= n <= len * s,
                s == 1000000,
        ;
        assert(0 <= (n + s / 2) / s) by (nonlinear_arith)
            requires
                0 <= n,
                s == 1000000,
        ;
    } else {
        let m = -n;
        assert((m + s / 2) / s <= -len) by (nonlinear_arith)
            requires
                0 <= m <= (-len) * s,
                s == 1000000,
        ;
        assert(0 <= (m + s / 2) / s) by (nonlinear_arith)
            requires
                0 <= m,
                s == 1000000,
        ;
    }
}

/// A scaled length lies between zero and the full length.
pub proof fn lemma_scaled_bounds(len: int, ratio: int)
    requires
        0 <= ratio <= RATIO_SCALE,
    ensures
        len >= 0 ==> 0 <= scaled_len(len, ratio) <= len,
        len < 0 ==> len <= scaled_len(len, ratio) <= 0,
{
    let s = RATIO_SCALE as int;
    if len >= 0 {
        assert(0 <= len * ratio <= len * s) by (nonlinear_arith)
            requires
                len >= 0,
                0 <= ratio <= s,
        ;
    } else {
        assert(len * s <= len * ratio <= 0) by (nonlinear_arith)
            requires
                len < 0,
                0 <= ratio <= s,
        ;
    }
    lemma_round_div_bounds(len * ratio, len);
}

/// Splitting a rectangle that fits yields two rectangles that fit, whose
/// areas add up to the parent's; for a rectangle of non-negative size both
/// halves have non-negative size and lie inside it.
pub proof fn lemma_split_props(r: Rect, o: Orientation, ratio: u32)
    requires
        r.fits(),
        ratio <= RATIO_SCALE,
    ensures
        ({
            let (a, b) = split_rect_spec(r, o, ratio);
            &&& a.fits()
            &&& b.fits()
            &&& a.area() + b.area() == r.area()
            &&& (r.w >= 0 && r.h >= 0) ==> {
                &&& a.w >= 0 && a.h >= 0 && b.w >= 0 && b.h >= 0
                &&& a.within(r) && b.within(r)
            }
        }),
{
    let (a, b) = split_rect_spec(r, o, ratio);
    match o {
        Orientation::Horizontal => {
            let lw = scaled_len(r.w as int, ratio as int);
            lemma_scaled_bounds(r.w as int, ratio as int);
            assert(a.w == lw && b.x == r.x + lw && b.w == r.w - lw);
            assert(lw * r.h + (r.w - lw) * r.h == r.w * r.h) by (nonlinear_arith);
        },
        Orientation::Vertical => {
            let th = scaled_len(r.h as int, ratio as int);
            lemma_scaled_bounds(r.h as int, ratio as int);
            assert(a.h == th && b.y == r.y + th && b.h == r.h - th);
            assert(r.w * th + r.w * (r.h - th) == r.w * r.h) by (nonlinear_arith);
        },
    }
}

/// `n / RATIO_SCALE` rounded to nearest, halves away from zero.
fn round_div_scale(n: i64) -> (q: i64)
    requires
        -4000000000000000 <= n <= 4000000000000000,
    ensures
        q == round_div(n as int, RATIO_SCALE as int),
{
    if n >= 0 {
        (n + 500000) / 1000000
    } else {
        -((-n + 500000) / 1000000)
    }
}

/// The two child rectangles of a split.
fn split_rect(rect: Rect, orientation: Orientation, ratio: u32) -> (res: (Rect, Rect))
    requires
        rect.fits(),
        ratio <= RATIO_SCALE,
    ensures
        res == split_rect_spec(rect, orientation, ratio),
        res.0.fits(),
        res.1.fits(),
{
    proof {
        lemma_split_props(rect, orientation, ratio);
    }
    match orientation {
        Orientation::Horizontal => {
            assert(-4000000000000000 <= rect.w * ratio <= 4000000000000000) by (nonlinear_arith)
                requires
                    i32::MIN <= rect.w <= i32::MAX,
                    0 <= ratio <= 1000000,
            ;
            let n: i64 = rect.w as i64 * ratio as i64;
            let lw64 = round_div_scale(n);
            proof {
                lemma_scaled_bounds(rect.w as int, ratio as int);
            }
            let left_w = lw64 as i32;
            let right_w = rect.w - left_w;
            (
                Rect { x: rect.x, y: rect.y, w: left_w, h: rect.h },
                Rect { x: rect.x + left_w, y: rect.y, w: right_w, h: rect.h },
            )
        },
        Orientation::Vertical => {
            assert(-4000000000000000 <= rect.h * ratio <= 4000000000000000) by (nonlinear_arith)
                requires
                    i32::MIN <= rect.h <= i32::MAX,
                    0 <= ratio <= 1000000,
            ;
            let n: i64 = rect.h as i64 * ratio as i64;
            let th64 = round_div_scale(n);
            proof {
                lemma_scaled_bounds(rect.h as int, ratio as int);
            }
            let top_h = th64 as i32;
            let bot_h = rect.h - top_h;
            (
                Rect { x: rect.x, y: rect.y, w: rect.w, h: top_h },
                Rect { x: rect.x, y: rect.y + top_h, w: rect.w, h: bot_h },
            )
        },
    }
}


// ---------------------------------------------------------------------------
// The tree as a mathematical object
// ---------------------------------------------------------------------------

/// Every split ratio lies in `0..=RATIO_SCALE`.
pub open spec fn node_wf(n: LayoutNode) -> bool
    decreases n,
{
    match n {
        LayoutNode::Tile(_) => true,
        LayoutNode::Split { ratio, first, second, .. } => {
            &&& ratio <= RATIO_SCALE
            &&& node_wf(*first)
            &&& node_wf(*second)
        },
    }
}

/// The leaves of `n` laid out in `r`, in depth-first order (first child
/// before second), each with its rectangle.
pub open spec fn leaves(n: LayoutNode, r: Rect) -> Seq<(WindowKey, Rect)>
    decreases n,
{
    match n {
        LayoutNode::Tile(k) => seq![(k, r)],
        LayoutNode::Split { orientation, ratio, first, second } => {
            let (a, b) = split_rect_spec(r, orientation, ratio);
            leaves(*first, a) + leaves(*second, b)
        },
    }
}

/// The set of window keys held by the leaves of `n`.
pub open spec fn key_set(n: LayoutNode) -> Set<WindowKey>
    decreases n,
{
    match n {
        LayoutNode::Tile(k) => set![k],
        LayoutNode::Split { first, second, .. } => key_set(*first) + key_set(*second),
    }
}

/// The window keys of the leaves of `n`, depth-first (first child before
/// second).
pub open spec fn leaf_keys(n: LayoutNode) -> Seq<WindowKey>
    decreases n,
{
    match n {
        LayoutNode::Tile(k) => seq![k],
        LayoutNode::Split { first, second, .. } => leaf_keys(*first) + leaf_keys(*second),
    }
}

/// `p` followed by `k` unless `p` already holds it.
pub open spec fn push_new(p: Seq<WindowKey>, k: WindowKey) -> Seq<WindowKey> {
    if p.contains(k) {
        p
    } else {
        p.push(k)
    }
}

/// `p` followed by the keys of `s` that neither `p` nor an earlier key of
/// `s` holds, in the order of `s`.
pub open spec fn extend_new(p: Seq<WindowKey>, s: Seq<WindowKey>) -> Seq<WindowKey>
    decreases s.len(),
{
    if s.len() == 0 {
        p
    } else {
        push_new(extend_new(p, s.drop_last()), s.last())
    }
}

proof fn lemma_extend_new_concat(p: Seq<WindowKey>, s1: Seq<WindowKey>, s2: Seq<WindowKey>)
    ensures
        extend_new(p, s1 + s2) == extend_new(extend_new(p, s1), s2),
    decreases s2.len(),
{
    if s2.len() == 0 {
        assert(s1 + s2 =~= s1);
    } else {
        assert((s1 + s2).drop_last() =~= s1 + s2.drop_last());
        assert((s1 + s2).last() == s2.last());
        lemma_extend_new_concat(p, s1, s2.drop_last());
    }
}

proof fn lemma_extend_new_props(p: Seq<WindowKey>, s: Seq<WindowKey>)
    requires
        p.no_duplicates(),
    ensures
        extend_new(p, s).no_duplicates(),
        extend_new(p, s).to_set() == p.to_set() + s.to_set(),
    decreases s.len(),
{
    if s.len() == 0 {
        assert(s.to_set() =~= Set::<WindowKey>::empty());
        assert(p.to_set() + s.to_set() =~= p.to_set());
    } else {
        let q = extend_new(p, s.drop_last());
        lemma_extend_new_props(p, s.drop_last());
        let k = s.last();
        assert(s =~= s.drop_last().push(k));
        assert(s.to_set() =~= s.drop_last().to_set().insert(k)) by {
            assert forall|x: WindowKey| s.to_set().contains(x) <==> s.drop_last().to_set().insert(k).contains(x) by {
                if s.contains(x) && x != k {
                    let i = choose|i: int| 0 <= i < s.len() && s[i] == x;
                    assert(s.drop_last()[i] == x);
                }
                if s.drop_last().contains(x) {
                    let i = choose|i: int| 0 <= i < s.drop_last().len() && s.drop_last()[i] == x;
                    assert(s[i] == x);
                }
            }
        }
        if q.contains(k) {
            assert(q.to_set().contains(k));
            assert(extend_new(p, s).to_set() =~= p.to_set() + s.to_set());
        } else {
            assert(q.push(k).to_set() =~= q.to_set().insert(k)) by {
                assert forall|x: WindowKey| q.push(k).to_set().contains(x) <==> q.to_set().insert(k).contains(x) by {
                    if q.push(k).contains(x) && x != k {
                        let i = choose|i: int| 0 <= i < q.push(k).len() && q.push(k)[i] == x;
                        assert(q[i] == x);
                    }
                    if q.contains(x) {
                        let i = choose|i: int| 0 <= i < q.len() && q[i] == x;
                        assert(q.push(k)[i] == x);
                    }
                    if x == k {
                        assert(q.push(k)[q.len() as int] == k);
                    }
                }
            }
            assert(extend_new(p, s).to_set() =~= p.to_set() + s.to_set());
            assert forall|a: int, b: int| 0 <= a < b < q.push(k).len() implies q.push(k)[a] != q.push(k)[b] by {
                if b == q.len() {
                    assert(q.push(k)[a] == q[a]);
                    assert(q.contains(q[a]));
                }
            }
        }
    }
}

proof fn lemma_leaf_keys_set(n: LayoutNode)
    ensures
        leaf_keys(n).to_set() == key_set(n),
    decreases n,
{
    match n {
        LayoutNode::Tile(k) => {
            assert forall|x: WindowKey| seq![k].to_set().contains(x) <==> set![k].contains(x) by {
                if x == k {
                    assert(seq![k][0] == k);
                }
            }
            assert(seq![k].to_set() =~= set![k]);
        },
        LayoutNode::Split { first, second, .. } => {
            lemma_leaf_keys_set(*first);
            lemma_leaf_keys_set(*second);
            let a = leaf_keys(*first);
            let b = leaf_keys(*second);
            assert forall|x: WindowKey| (a + b).to_set().contains(x) <==> (a.to_set() + b.to_set()).contains(x) by {
                if (a + b).contains(x) {
                    let i = choose|i: int| 0 <= i < (a + b).len() && (a + b)[i] == x;
                    if i < a.len() {
                        assert(a[i] == x);
                    } else {
                        assert(b[i - a.len()] == x);
                    }
                }
                if a.contains(x) {
                    let i = choose|i: int| 0 <= i < a.len() && a[i] == x;
                    assert((a + b)[i] == x);
                }
                if b.contains(x) {
                    let i = choose|i: int| 0 <= i < b.len() && b[i] == x;
                    assert((a + b)[i + a.len()] == x);
                }
            }
            assert((a + b).to_set() =~= key_set(n));
        },
    }
}

/// Sum of the areas of the rectangles in `s`.
pub open spec fn area_sum(s: Seq<(WindowKey, Rect)>) -> int
    decreases s.len(),
{
    if s.len() == 0 {
        0
    } else {
        area_sum(s.drop_last()) + s.last().1.area()
    }
}

proof fn lemma_area_sum_concat(s1: Seq<(WindowKey, Rect)>, s2: Seq<(WindowKey, Rect)>)
    ensures
        area_sum(s1 + s2) == area_sum(s1) + area_sum(s2),
    decreases s2.len(),
{
    if s2.len() == 0 {
        assert(s1 + s2 =~= s1);
    } else {
        assert((s1 + s2).drop_last() =~= s1 + s2.drop_last());
        lemma_area_sum_concat(s1, s2.drop_last());
    }
}

/// The keys laid out by `leaves` are exactly the keys of the tree.
pub proof fn lemma_leaves_keys(n: LayoutNode, r: Rect)
    ensures
        seq_keys(leaves(n, r)) == key_set(n),
    decreases n,
{
    match n {
        LayoutNode::Tile(k) => {
            let s1 = seq![(k, r)];
            assert(s1.drop_last() =~= Seq::<(WindowKey, Rect)>::empty());
            assert(seq_keys(s1.drop_last()) == Set::<WindowKey>::empty());
            assert(seq_keys(s1) == seq_keys(s1.drop_last()).insert(k));
            assert(seq_keys(s1) =~= set![k]);
        },
        LayoutNode::Split { orientation, ratio, first, second } => {
            let (a, b) = split_rect_spec(r, orientation, ratio);
            lemma_leaves_keys(*first, a);
            lemma_leaves_keys(*second, b);
            lemma_seq_keys_concat(leaves(*first, a), leaves(*second, b));
        },
    }
}

/// The domain of the layout map is the key set of the tree.
pub proof fn lemma_layout_dom(n: LayoutNode, r: Rect)
    ensures
        entries_map(leaves(n, r)).dom() == key_set(n),
{
    lemma_map_with_dom(Map::empty(), leaves(n, r));
    lemma_leaves_keys(n, r);
    assert(entries_map(leaves(n, r)).dom() =~= key_set(n));
}

/// Every tile of a tree laid out in a rectangle that fits also fits; the
/// tiles' areas add up to the rectangle's area; and for a rectangle of
/// non-negative size every tile lies inside it with non-negative size.
pub proof fn lemma_leaves_geometry(n: LayoutNode, r: Rect)
    requires
        node_wf(n),
        r.fits(),
    ensures
        area_sum(leaves(n, r)) == r.area(),
        forall|i: int| 0 <= i < leaves(n, r).len() ==> (#[trigger] leaves(n, r)[i]).1.fits(),
        (r.w >= 0 && r.h >= 0) ==> forall|i: int|
            0 <= i < leaves(n, r).len() ==> {
                let t = (#[trigger] leaves(n, r)[i]).1;
                &&& t.within(r)
                &&& t.w >= 0
                &&& t.h >= 0
            },
    decreases n,
{
    match n {
        LayoutNode::Tile(k) => {
            let s = seq![(k, r)];
            assert(s.drop_last() =~= Seq::<(WindowKey, Rect)>::empty());
            assert(area_sum(s) == area_sum(s.drop_last()) + r.area());
        },
        LayoutNode::Split { orientation, ratio, first, second } => {
            let (a, b) = split_rect_spec(r, orientation, ratio);
            lemma_split_props(r, orientation, ratio);
            lemma_leaves_geometry(*first, a);
            lemma_leaves_geometry(*second, b);
            let la = leaves(*first, a);
            let lb = leaves(*second, b);
            lemma_area_sum_concat(la, lb);
            assert(leaves(n, r) == la + lb);
            assert forall|i: int| 0 <= i < leaves(n, r).len() implies (#[trigger] leaves(n, r)[i]).1.fits() by {
                if i < la.len() {
                    assert(leaves(n, r)[i] == la[i]);
                } else {
                    assert(leaves(n, r)[i] == lb[i - la.len()]);
                }
            }
            if r.w >= 0 && r.h >= 0 {
                assert forall|i: int| 0 <= i < leaves(n, r).len() implies {
                    let t = (#[trigger] leaves(n, r)[i]).1;
                    &&& t.within(r)
                    &&& t.w >= 0
                    &&& t.h >= 0
                } by {
                    if i < la.len() {
                        assert(leaves(n, r)[i] == la[i]);
                    } else {
                        assert(leaves(n, r)[i] == lb[i - la.len()]);
                    }
                }
            }
        },
    }
}

/// Two rectangles do not overlap (they may share an edge).
pub open spec fn apart(r1: Rect, r2: Rect) -> bool {
    ||| r1.right() <= r2.x
    ||| r2.right() <= r1.x
    ||| r1.bottom() <= r2.y
    ||| r2.bottom() <= r1.y
}

/// The two halves of a split meet at one boundary: the first ends where
/// the second begins.
proof fn lemma_split_boundary(r: Rect, o: Orientation, ratio: u32)
    requires
        r.fits(),
        ratio <= RATIO_SCALE,
        r.w >= 0,
        r.h >= 0,
    ensures
        ({
            let (a, b) = split_rect_spec(r, o, ratio);
            match o {
                Orientation::Horizontal => a.right() == b.x as int,
                Orientation::Vertical => a.bottom() == b.y as int,
            }
        }),
{
    match o {
        Orientation::Horizontal => {
            let lw = scaled_len(r.w as int, ratio as int);
            lemma_scaled_bounds(r.w as int, ratio as int);
        },
        Orientation::Vertical => {
            let th = scaled_len(r.h as int, ratio as int);
            lemma_scaled_bounds(r.h as int, ratio as int);
        },
    }
}

/// No two tiles of a tree laid out in a rectangle of non-negative size
/// overlap.
pub proof fn lemma_leaves_apart(n: LayoutNode, r: Rect)
    requires
        node_wf(n),
        r.fits(),
        r.w >= 0,
        r.h >= 0,
    ensures
        forall|i: int, j: int|
            0 <= i < j < leaves(n, r).len() ==> apart((#[trigger] leaves(n, r)[i]).1, (#[trigger] leaves(n, r)[j]).1),
    decreases n,
{
    match n {
        LayoutNode::Tile(_) => {},
        LayoutNode::Split { orientation, ratio, first, second } => {
            let (a, b) = split_rect_spec(r, orientation, ratio);
            lemma_split_props(r, orientation, ratio);
            lemma_split_boundary(r, orientation, ratio);
            lemma_leaves_geometry(*first, a);
            lemma_leaves_geometry(*second, b);
            lemma_leaves_apart(*first, a);
            lemma_leaves_apart(*second, b);
            let la = leaves(*first, a);
            let lb = leaves(*second, b);
            let l = leaves(n, r);
            assert(l == la + lb);
            assert forall|i: int, j: int| 0 <= i < j < l.len() implies apart((#[trigger] l[i]).1, (#[trigger] l[j]).1) by {
                if j < la.len() {
                    assert(l[i] == la[i] && l[j] == la[j]);
                } else if i >= la.len() {
                    assert(l[i] == lb[i - la.len()] && l[j] == lb[j - la.len()]);
                } else {
                    assert(l[i] == la[i] && l[j] == lb[j - la.len()]);
                    let t1 = la[i].1;
                    let t2 = lb[j - la.len()].1;
                    assert(t1.within(a));
                    assert(t2.within(b));
                }
            }
        },
    }
}

// ---------------------------------------------------------------------------
// Structural operations
// ---------------------------------------------------------------------------

/// Orientation of the split that replaces a leaf laid out in `r`: side by
/// side when the leaf is at least as wide as it is tall, stacked otherwise.
pub open spec fn leaf_split_orientation(r: Rect) -> Orientation {
    if r.w >= r.h {
        Orientation::Horizontal
    } else {
        Orientation::Vertical
    }
}

/// `n` with its first leaf (depth-first, first child first) replaced by a
/// split holding that leaf and then a new leaf for `w`.
pub open spec fn insert_first_leaf(n: LayoutNode, r: Rect, w: WindowKey, default_ratio: u32) -> LayoutNode
    decreases n,
{
    match n {
        LayoutNode::Tile(k) => LayoutNode::Split {
            orientation: leaf_split_orientation(r),
            ratio: default_ratio,
            first: Box::new(LayoutNode::Tile(k)),
            second: Box::new(LayoutNode::Tile(w)),
        },
        LayoutNode::Split { orientation, ratio, first, second } => {
            let (a, b) = split_rect_spec(r, orientation, ratio);
            LayoutNode::Split {
                orientation,
                ratio,
                first: Box::new(insert_first_leaf(*first, a, w, default_ratio)),
                second,
            }
        },
    }
}

/// `n` without its leaves for `t`: a split that loses one child is replaced
/// by the other child; `None` when every leaf held `t`.
pub open spec fn remove_key(n: LayoutNode, t: WindowKey) -> Option<LayoutNode>
    decreases n,
{
    match n {
        LayoutNode::Tile(k) => if k == t {
            None
        } else {
            Some(LayoutNode::Tile(k))
        },
        LayoutNode::Split { orientation, ratio, first, second } => {
            let c0 = remove_key(*first, t);
            let c1 = remove_key(*second, t);
            if c0 is None {
                c1
            } else if c1 is None {
                c0
            } else {
                Some(
                    LayoutNode::Split {
                        orientation,
                        ratio,
                        first: Box::new(c0.unwrap()),
                        second: Box::new(c1.unwrap()),
                    },
                )
            }
        },
    }
}

/// Inserting adds exactly the new key and keeps ratios in range.
pub proof fn lemma_insert_first_leaf(n: LayoutNode, r: Rect, w: WindowKey, default_ratio: u32)
    ensures
        (node_wf(n) && default_ratio <= RATIO_SCALE) ==> node_wf(insert_first_leaf(n, r, w, default_ratio)),
        key_set(insert_first_leaf(n, r, w, default_ratio)) == key_set(n).insert(w),
    decreases n,
{
    match n {
        LayoutNode::Tile(k) => {
            assert(node_wf(LayoutNode::Tile(k)));
            assert(node_wf(LayoutNode::Tile(w)));
            assert(key_set(LayoutNode::Tile(k)) == set![k]);
            assert(key_set(LayoutNode::Tile(w)) == set![w]);
            assert(key_set(insert_first_leaf(n, r, w, default_ratio)) =~= key_set(n).insert(w));
        },
        LayoutNode::Split { orientation, ratio, first, second } => {
            let (a, b) = split_rect_spec(r, orientation, ratio);
            lemma_insert_first_leaf(*first, a, w, default_ratio);
            assert(key_set(insert_first_leaf(n, r, w, default_ratio)) =~= key_set(n).insert(w));
        },
    }
}

/// Removing a key the tree does not hold gives the tree back unchanged.
pub proof fn lemma_remove_absent(n: LayoutNode, t: WindowKey)
    requires
        !key_set(n).contains(t),
    ensures
        remove_key(n, t) == Some(n),
    decreases n,
{
    match n {
        LayoutNode::Tile(k) => {},
        LayoutNode::Split { orientation, ratio, first, second } => {
            lemma_remove_absent(*first, t);
            lemma_remove_absent(*second, t);
        },
    }
}

/// Removing drops exactly the removed key; nothing is left only when every
/// leaf held it.
pub proof fn lemma_remove_key(n: LayoutNode, t: WindowKey)
    requires
        node_wf(n),
    ensures
        remove_key(n, t) is None ==> key_set(n) == set![t],
        remove_key(n, t) matches Some(m) ==> node_wf(m) && key_set(m) == key_set(n).remove(t),
    decreases n,
{
    match n {
        LayoutNode::Tile(k) => {
            if k == t {
                assert(key_set(n) =~= set![t]);
            } else {
                assert(key_set(n).remove(t) =~= key_set(n));
            }
        },
        LayoutNode::Split { orientation, ratio, first, second } => {
            lemma_remove_key(*first, t);
            lemma_remove_key(*second, t);
            let c0 = remove_key(*first, t);
            let c1 = remove_key(*second, t);
            if c0 is None && c1 is None {
                assert(key_set(n) =~= set![t]);
            } else if c0 is None {
                assert(key_set(c1.unwrap()) =~= key_set(n).remove(t));
            } else if c1 is None {
                assert(key_set(c0.unwrap()) =~= key_set(n).remove(t));
            } else {
                let m = remove_key(n, t).unwrap();
                assert(key_set(m) =~= key_set(n).remove(t));
            }
        },
    }
}

/// Removing a window right after inserting it gives back the tree it was
/// inserted into, split ratios and orientations included.
pub proof fn lemma_remove_undoes_insert(n: LayoutNode, r: Rect, w: WindowKey, default_ratio: u32)
    requires
        !key_set(n).contains(w),
    ensures
        remove_key(insert_first_leaf(n, r, w, default_ratio), w) == Some(n),
    decreases n,
{
    match n {
        LayoutNode::Tile(k) => {
            assert(remove_key(LayoutNode::Tile(w), w) is None);
            assert(remove_key(LayoutNode::Tile(k), w) == Some(n));
        },
        LayoutNode::Split { orientation, ratio, first, second } => {
            let (a, b) = split_rect_spec(r, orientation, ratio);
            lemma_remove_undoes_insert(*first, a, w, default_ratio);
            lemma_remove_absent(*second, w);
        },
    }
}

// ---------------------------------------------------------------------------
// Resizing
// ---------------------------------------------------------------------------

/// The split orientation an edge drag acts on.
pub open spec fn needed_orientation(edge: Edge) -> Orientation {
    match edge {
        Edge::Left | Edge::Right => Orientation::Horizontal,
        Edge::Top | Edge::Bottom => Orientation::Vertical,
    }
}

/// The edge is the split's interior boundary for the child at `idx`: the
/// right/bottom edge of the first child or the left/top edge of the second.
pub open spec fn boundary_moves(edge: Edge, idx: int) -> bool {
    ||| (edge == Edge::Right && idx == 0)
    ||| (edge == Edge::Left && idx == 1)
    ||| (edge == Edge::Bottom && idx == 0)
    ||| (edge == Edge::Top && idx == 1)
}

/// Length of `r` along the axis a split of orientation `o` divides.
pub open spec fn split_span(r: Rect, o: Orientation) -> int {
    match o {
        Orientation::Horizontal => r.w as int,
        Orientation::Vertical => r.h as int,
    }
}

/// `v` clamped to `RATIO_MIN..=RATIO_MAX`.
pub open spec fn clamp_ratio(v: int) -> int {
    if v < RATIO_MIN {
        RATIO_MIN as int
    } else if v > RATIO_MAX {
        RATIO_MAX as int
    } else {
        v
    }
}

/// The ratio after moving the boundary by `delta` pixels across a span of
/// `span` pixels (`span > 0`).
pub open spec fn resized_ratio(ratio: u32, span: int, delta: int) -> u32 {
    clamp_ratio(ratio + round_div(delta * RATIO_SCALE, span)) as u32
}

/// Resizing the edge `edge` of window `key` by `delta` pixels in `n` laid out
/// in `r`. The split adjusted is the deepest split of the matching
/// orientation on the path to the first leaf holding `key`; if the edge is
/// not that split's interior boundary, or its span is not positive, nothing
/// changes. Yields (a matching split was found, the ratio changed, new node).
pub open spec fn resize_node(n: LayoutNode, r: Rect, key: WindowKey, edge: Edge, delta: int) -> (bool, bool, LayoutNode)
    decreases n,
{
    match n {
        LayoutNode::Tile(_) => (false, false, n),
        LayoutNode::Split { orientation, ratio, first, second } => {
            let (ra, rb) = split_rect_spec(r, orientation, ratio);
            let span = split_span(r, orientation);
            let on_first = key_set(*first).contains(key);
            if on_first || key_set(*second).contains(key) {
                let idx: int = if on_first { 0 } else { 1 };
                let sub = if on_first {
                    resize_node(*first, ra, key, edge, delta)
                } else {
                    resize_node(*second, rb, key, edge, delta)
                };
                if sub.0 {
                    if on_first {
                        (true, sub.1, LayoutNode::Split { orientation, ratio, first: Box::new(sub.2), second })
                    } else {
                        (true, sub.1, LayoutNode::Split { orientation, ratio, first, second: Box::new(sub.2) })
                    }
                } else if orientation == needed_orientation(edge) {
                    if boundary_moves(edge, idx) && span > 0 {
                        (
                            true,
                            true,
                            LayoutNode::Split {
                                orientation,
                                ratio: resized_ratio(ratio, span, delta),
                                first,
                                second,
                            },
                        )
                    } else {
                        (true, false, n)
                    }
                } else {
                    (false, false, n)
                }
            } else {
                (false, false, n)
            }
        },
    }
}

proof fn lemma_resize_node(n: LayoutNode, r: Rect, key: WindowKey, edge: Edge, delta: int)
    requires
        node_wf(n),
    ensures
        node_wf(resize_node(n, r, key, edge, delta).2),
        key_set(resize_node(n, r, key, edge, delta).2) == key_set(n),
        !resize_node(n, r, key, edge, delta).1 ==> resize_node(n, r, key, edge, delta).2 == n,
    decreases n,
{
    match n {
        LayoutNode::Tile(_) => {},
        LayoutNode::Split { orientation, ratio, first, second } => {
            let (ra, rb) = split_rect_spec(r, orientation, ratio);
            lemma_resize_node(*first, ra, key, edge, delta);
            lemma_resize_node(*second, rb, key, edge, delta);
        },
    }
}

// ---------------------------------------------------------------------------
// Directional focus
// ---------------------------------------------------------------------------

/// Length of the overlap of `lo1..hi1` and `lo2..hi2` (negative when apart).
pub open spec fn overlap_len(lo1: int, hi1: int, lo2: int, hi2: int) -> int {
    let hi = if hi1 < hi2 { hi1 } else { hi2 };
    let lo = if lo1 > lo2 { lo1 } else { lo2 };
    hi - lo
}

/// For a candidate `r` seen from `from` in direction `dir`: whether it lies
/// wholly on that side, its distance from `from`'s edge, and its overlap
/// with `from` on the perpendicular axis.
pub open spec fn direction_score(from: Rect, r: Rect, dir: Direction) -> (bool, int, int) {
    match dir {
        Direction::Left => (
            r.right() <= from.x,
            from.x - r.right(),
            overlap_len(from.y as int, from.bottom(), r.y as int, r.bottom()),
        ),
        Direction::Right => (
            r.x >= from.right(),
            r.x - from.right(),
            overlap_len(from.y as int, from.bottom(), r.y as int, r.bottom()),
        ),
        Direction::Up => (
            r.bottom() <= from.y,
            from.y - r.bottom(),
            overlap_len(from.x as int, from.right(), r.x as int, r.right()),
        ),
        Direction::Down => (
            r.y >= from.bottom(),
            r.y - from.bottom(),
            overlap_len(from.x as int, from.right(), r.x as int, r.right()),
        ),
    }
}

/// `k` is a window other than `from` lying in direction `dir` with positive
/// perpendicular overlap.
pub open spec fn is_focus_candidate(layout: Map<WindowKey, Rect>, from: WindowKey, k: WindowKey, dir: Direction) -> bool {
    &&& k != from
    &&& layout.contains_key(from)
    &&& layout.contains_key(k)
    &&& direction_score(layout[from], layout[k], dir).0
    &&& direction_score(layout[from], layout[k], dir).2 > 0
}

/// `a` is at least as good a target as `b`: nearer, or as near with at least
/// as much overlap.
pub open spec fn focus_at_least_as_good(layout: Map<WindowKey, Rect>, from: WindowKey, a: WindowKey, b: WindowKey, dir: Direction) -> bool {
    let sa = direction_score(layout[from], layout[a], dir);
    let sb = direction_score(layout[from], layout[b], dir);
    sa.1 < sb.1 || (sa.1 == sb.1 && sa.2 >= sb.2)
}


// ---------------------------------------------------------------------------
// The tree
// ---------------------------------------------------------------------------

/// The root after tiling `w` (see `DwindleTree::insert`).
pub open spec fn inserted_root(root: Option<LayoutNode>, work_area: Rect, w: WindowKey, default_ratio: u32) -> Option<LayoutNode> {
    match root {
        None => Some(LayoutNode::Tile(w)),
        Some(n) => Some(insert_first_leaf(n, work_area, w, default_ratio)),
    }
}

/// The root after untiling `w` (see `DwindleTree::remove`).
pub open spec fn removed_root(root: Option<LayoutNode>, w: WindowKey) -> Option<LayoutNode> {
    match root {
        None => None,
        Some(n) => if key_set(n).contains(w) {
            remove_key(n, w)
        } else {
            Some(n)
        },
    }
}

/// The root after dragging an edge of `w` (see `DwindleTree::resize_edge`).
pub open spec fn resized_root(root: Option<LayoutNode>, work_area: Rect, w: WindowKey, edge: Edge, delta: int) -> Option<LayoutNode> {
    match root {
        None => None,
        Some(n) => Some(resize_node(n, work_area, w, edge, delta).2),
    }
}

/// Rectangle of each tiled window, keyed by window.
#[derive(Debug)]
pub struct RectCache {
    entries: Vec<(WindowKey, Rect)>,
}

impl RectCache {
    /// The cached rectangles as a map.
    pub closed spec fn view(&self) -> Map<WindowKey, Rect> {
        entries_map(self.entries@)
    }

    /// No window appears twice.
    pub closed spec fn wf(&self) -> bool {
        unique_keys(self.entries@)
    }

    /// An empty cache.
    pub fn new() -> (c: Self)
        ensures
            c.wf(),
            c@ == Map::<WindowKey, Rect>::empty(),
    {
        let c = RectCache { entries: Vec::new() };
        assert(c.entries@ =~= Seq::<(WindowKey, Rect)>::empty());
        c
    }

    /// Records `rect` for `key`, replacing an earlier entry.
    pub fn insert(&mut self, key: WindowKey, rect: Rect)
        requires
            old(self).wf(),
        ensures
            final(self).wf(),
            final(self)@ == old(self)@.insert(key, rect),
    {
        let mut i: usize = 0;
        while i < self.entries.len()
            invariant
                i <= self.entries.len(),
                self.entries@ == old(self).entries@,
                unique_keys(self.entries@),
                forall|j: int| 0 <= j < i ==> self.entries@[j].0 != key,
            decreases self.entries.len() - i,
        {
            if self.entries[i].0 == key {
                proof {
                    lemma_unique_update(self.entries@, i as int, rect);
                }
                self.entries.set(i, (key, rect));
                return;
            }
            i = i + 1;
        }
        self.entries.push((key, rect));
        proof {
            assert(self.entries@.drop_last() =~= old(self).entries@);
        }
    }

    /// The rectangle cached for `key`.
    pub fn get(&self, key: WindowKey) -> (r: Option<Rect>)
        requires
            self.wf(),
        ensures
            r == (if self@.contains_key(key) {
                Some(self@[key])
            } else {
                None
            }),
    {
        proof {
            lemma_unique_entries(self.entries@);
            lemma_map_with_dom(Map::empty(), self.entries@);
            lemma_seq_keys_index(self.entries@);
        }
        let mut i: usize = 0;
        while i < self.entries.len()
            invariant
                i <= self.entries.len(),
                self.wf(),
                forall|j: int| 0 <= j < i ==> self.entries@[j].0 != key,
            decreases self.entries.len() - i,
        {
            if self.entries[i].0 == key {
                proof {
                    lemma_unique_entries(self.entries@);
                    assert(self.entries@[i as int].0 == key);
                }
                return Some(self.entries[i].1);
            }
            i = i + 1;
        }
        proof {
            lemma_map_with_dom(Map::empty(), self.entries@);
            lemma_seq_keys_index(self.entries@);
        }
        None
    }

    /// Number of cached windows.
    pub fn len(&self) -> (n: usize)
        requires
            self.wf(),
        ensures
            n == self@.len(),
    {
        proof {
            lemma_unique_entries(self.entries@);
        }
        self.entries.len()
    }

    /// The cached windows, each once.
    pub fn keys(&self) -> (v: Vec<WindowKey>)
        requires
            self.wf(),
        ensures
            v@.no_duplicates(),
            v@.to_set() == self@.dom(),
    {
        proof {
            lemma_unique_entries(self.entries@);
            lemma_map_with_dom(Map::empty(), self.entries@);
            lemma_seq_keys_index(self.entries@);
        }
        let mut v: Vec<WindowKey> = Vec::new();
        let mut i: usize = 0;
        while i < self.entries.len()
            invariant
                i <= self.entries.len(),
                v@.len() == i,
                forall|j: int| 0 <= j < i ==> v@[j] == self.entries@[j].0,
            decreases self.entries.len() - i,
        {
            v.push(self.entries[i].0);
            i = i + 1;
        }
        proof {
            assert(v@.no_duplicates());
            assert forall|k: WindowKey| v@.to_set().contains(k) <==> self@.dom().contains(k) by {
                if v@.to_set().contains(k) {
                    let j = choose|j: int| 0 <= j < v@.len() && v@[j] == k;
                    assert(self.entries@[j].0 == k);
                }
                if self@.dom().contains(k) {
                    let j = choose|j: int| 0 <= j < self.entries@.len() && #[trigger] self.entries@[j].0 == k;
                    assert(v@[j] == k);
                }
            }
            assert(v@.to_set() =~= self@.dom());
        }
        v
    }

    /// The cached window other than `from` that best lies in direction `dir`
    /// of `from_rect`: among windows wholly on that side with positive
    /// perpendicular overlap, the nearest, and among those the one with the
    /// most overlap.
    pub fn best_in_direction(&self, from: WindowKey, from_rect: Rect, dir: Direction) -> (r: Option<WindowKey>)
        requires
            self.wf(),
            self@.contains_key(from),
            self@[from] == from_rect,
        ensures
            r is None ==> forall|k: WindowKey| !is_focus_candidate(self@, from, k, dir),
            r matches Some(b) ==> {
                &&& is_focus_candidate(self@, from, b, dir)
                &&& forall|k: WindowKey| #[trigger] is_focus_candidate(self@, from, k, dir)
                    ==> focus_at_least_as_good(self@, from, b, k, dir)
                &&& forall|k: WindowKey| #[trigger] is_focus_candidate(self@, from, k, dir) ==> {
                    let sb = direction_score(self@[from], self@[b], dir);
                    let sk = direction_score(self@[from], self@[k], dir);
                    &&& sb.1 <= sk.1
                    &&& sk.1 == sb.1 ==> sk.2 <= sb.2
                }
            },
    {
        proof {
            lemma_unique_entries(self.entries@);
            lemma_map_with_dom(Map::empty(), self.entries@);
            lemma_seq_keys_index(self.entries@);
        }
        let from_left: i64 = from_rect.x as i64;
        let from_top: i64 = from_rect.y as i64;
        let from_right: i64 = from_rect.x as i64 + from_rect.w as i64;
        let from_bottom: i64 = from_rect.y as i64 + from_rect.h as i64;
        let mut best: Option<(WindowKey, i64, i64)> = None;
        let mut i: usize = 0;
        while i < self.entries.len()
            invariant
                i <= self.entries.len(),
                self.wf(),
                self@.contains_key(from),
                self@[from] == from_rect,
                from_left == from_rect.x,
                from_top == from_rect.y,
                from_right == from_rect.x + from_rect.w,
                from_bottom == from_rect.y + from_rect.h,
                forall|j: int| 0 <= j < self.entries@.len() ==> self@.contains_key(#[trigger] self.entries@[j].0)
                    && self@[self.entries@[j].0] == self.entries@[j].1,
                best is None ==> forall|j: int| 0 <= j < i ==> !is_focus_candidate(self@, from, #[trigger] self.entries@[j].0, dir),
                best matches Some(bb) ==> {
                    &&& is_focus_candidate(self@, from, bb.0, dir)
                    &&& bb.1 == direction_score(from_rect, self@[bb.0], dir).1
                    &&& bb.2 == direction_score(from_rect, self@[bb.0], dir).2
                    &&& forall|j: int| 0 <= j < i && is_focus_candidate(self@, from, #[trigger] self.entries@[j].0, dir)
                        ==> focus_at_least_as_good(self@, from, bb.0, self.entries@[j].0, dir)
                },
            decreases self.entries.len() - i,
        {
            let (key, rect) = self.entries[i];
            if key != from {
                let r_left: i64 = rect.x as i64;
                let r_top: i64 = rect.y as i64;
                let r_right: i64 = rect.x as i64 + rect.w as i64;
                let r_bottom: i64 = rect.y as i64 + rect.h as i64;
                let vertical_overlap: i64 = (if from_bottom < r_bottom { from_bottom } else { r_bottom })
                    - (if from_top > r_top { from_top } else { r_top });
                let horizontal_overlap: i64 = (if from_right < r_right { from_right } else { r_right })
                    - (if from_left > r_left { from_left } else { r_left });
                let (in_dir, distance, overlap) = match dir {
                    Direction::Left => (r_right <= from_left, from_left - r_right, vertical_overlap),
                    Direction::Right => (r_left >= from_right, r_left - from_right, vertical_overlap),
                    Direction::Up => (r_bottom <= from_top, from_top - r_bottom, horizontal_overlap),
                    Direction::Down => (r_top >= from_bottom, r_top - from_bottom, horizontal_overlap),
                };
                if in_dir && overlap > 0 {
                    let better = match best {
                        None => true,
                        Some((_, bd, bo)) => distance < bd || (distance == bd && overlap > bo),
                    };
                    if better {
                        best = Some((key, distance, overlap));
                    }
                }
            }
            i = i + 1;
        }
        proof {
            assert forall|k: WindowKey| #[trigger] is_focus_candidate(self@, from, k, dir) implies exists|j: int|
                0 <= j < self.entries@.len() && self.entries@[j].0 == k by {
                assert(seq_keys(self.entries@).contains(k));
            }
        }
        match best {
            None => None,
            Some((k, _, _)) => Some(k),
        }
    }
}

#[derive(Debug)]
pub struct DwindleTree {
    pub root: Option<LayoutNode>,
    pub work_area: Rect,
    /// Ratio given to new splits, in units of `RATIO_SCALE`.
    pub default_ratio: u32,
    /// Rectangle of each window, refreshed by `recalc`.
    pub cache: RectCache,
}

impl DwindleTree {
    /// The tiles of the tree laid out in the work area, depth-first.
    pub open spec fn tiles(&self) -> Seq<(WindowKey, Rect)> {
        match self.root {
            None => Seq::empty(),
            Some(n) => leaves(n, self.work_area),
        }
    }

    /// Rectangle of each tiled window (for a key held by several leaves,
    /// the last of them in depth-first order).
    pub open spec fn layout(&self) -> Map<WindowKey, Rect> {
        entries_map(self.tiles())
    }

    /// The windows held by the tree.
    pub open spec fn window_set(&self) -> Set<WindowKey> {
        match self.root {
            None => Set::empty(),
            Some(n) => key_set(n),
        }
    }

    /// The shape is valid: the work area fits and every ratio is in range.
    pub open spec fn shape_wf(&self) -> bool {
        &&& self.work_area.fits()
        &&& self.default_ratio <= RATIO_SCALE
        &&& (self.root matches Some(n) ==> node_wf(n))
    }

    /// The shape is valid and the cached rectangles match the layout.
    pub open spec fn wf(&self) -> bool {
        &&& self.shape_wf()
        &&& self.cache.wf()
        &&& self.cache@ == self.layout()
    }

    /// The layout has exactly one entry per window of the tree.
    pub proof fn lemma_layout_keys(&self)
        ensures
            self.layout().dom() == self.window_set(),
            self.layout().dom().finite(),
    {
        match self.root {
            None => {
                assert(self.layout() =~= Map::<WindowKey, Rect>::empty());
            },
            Some(n) => {
                lemma_layout_dom(n, self.work_area);
                lemma_map_with_dom(Map::empty(), leaves(n, self.work_area));
                lemma_seq_keys_finite(leaves(n, self.work_area));
            },
        }
    }

    /// An empty tree over `work_area`.
    pub fn new(work_area: Rect) -> (t: Self)
        requires
            work_area.fits(),
        ensures
            t.wf(),
            t.root is None,
            t.work_area == work_area,
            t.default_ratio == DEFAULT_RATIO,
            t.layout() == Map::<WindowKey, Rect>::empty(),
    {
        DwindleTree { root: None, work_area, default_ratio: DEFAULT_RATIO, cache: RectCache::new() }
    }

    /// Appends the layout of `node` in `rect` to `cache`.
    fn recalc_node(node: &LayoutNode, rect: Rect, cache: &mut RectCache)
        requires
            node_wf(*node),
            rect.fits(),
            old(cache).wf(),
        ensures
            final(cache).wf(),
            final(cache)@ == map_with(old(cache)@, leaves(*node, rect)),
        decreases node,
    {
        match node {
            LayoutNode::Tile(key) => {
                let ghost m0 = cache@;
                cache.insert(*key, rect);
                proof {
                    let s = seq![(*key, rect)];
                    assert(s.drop_last() =~= Seq::<(WindowKey, Rect)>::empty());
                    assert(map_with(m0, s.drop_last()) == m0);
                    assert(map_with(m0, s) == m0.insert(*key, rect));
                }
            },
            LayoutNode::Split { orientation, ratio, first, second } => {
                let (a, b) = split_rect(rect, *orientation, *ratio);
                let ghost m0 = cache@;
                Self::recalc_node(first, a, cache);
                Self::recalc_node(second, b, cache);
                proof {
                    lemma_map_with_concat(m0, leaves(**first, a), leaves(**second, b));
                }
            },
        }
    }

    /// Recomputes the rectangle of every window from the tree.
    pub fn recalc(&mut self)
        requires
            old(self).shape_wf(),
        ensures
            final(self).wf(),
            final(self).root == old(self).root,
            final(self).work_area == old(self).work_area,
            final(self).default_ratio == old(self).default_ratio,
    {
        let mut cache = RectCache::new();
        match &self.root {
            Some(root) => {
                Self::recalc_node(root, self.work_area, &mut cache);
            },
            None => {},
        }
        self.cache = cache;
    }

    /// Replaces the first leaf (depth-first) with a split of that leaf and a
    /// new leaf for `new_window`, choosing the orientation from the leaf's
    /// rectangle. Reports whether the replacement happened (always, since
    /// every subtree has a leaf).
    fn insert_at_first_leaf(node: LayoutNode, rect: Rect, new_window: WindowKey, default_ratio: u32) -> (res: (LayoutNode, bool))
        requires
            node_wf(node),
            rect.fits(),
        ensures
            res.0 == insert_first_leaf(node, rect, new_window, default_ratio),
            res.1,
        decreases node,
    {
        match node {
            LayoutNode::Tile(k) => {
                let orientation = if rect.w >= rect.h {
                    Orientation::Horizontal
                } else {
                    Orientation::Vertical
                };
                (
                    LayoutNode::Split {
                        orientation,
                        ratio: default_ratio,
                        first: Box::new(LayoutNode::Tile(k)),
                        second: Box::new(LayoutNode::Tile(new_window)),
                    },
                    true,
                )
            },
            LayoutNode::Split { orientation, ratio, first, second } => {
                let (a, b) = split_rect(rect, orientation, ratio);
                let (new_first, done) = Self::insert_at_first_leaf(*first, a, new_window, default_ratio);
                if done {
                    return (LayoutNode::Split { orientation, ratio, first: Box::new(new_first), second }, true);
                }
                let (new_second, done2) = Self::insert_at_first_leaf(*second, b, new_window, default_ratio);
                (
                    LayoutNode::Split {
                        orientation,
                        ratio,
                        first: Box::new(new_first),
                        second: Box::new(new_second),
                    },
                    done2,
                )
            },
        }
    }

    /// Removes every leaf holding `target`, collapsing splits left with one
    /// child; sets `found` once a leaf was removed.
    fn remove_walk(node: LayoutNode, target: WindowKey, found: &mut bool) -> (res: Option<LayoutNode>)
        ensures
            res == remove_key(node, target),
            *final(found) == (*old(found) || key_set(node).contains(target)),
        decreases node,
    {
        match node {
            LayoutNode::Tile(key) => {
                if key == target {
                    *found = true;
                    None
                } else {
                    Some(LayoutNode::Tile(key))
                }
            },
            LayoutNode::Split { orientation, ratio, first, second } => {
                let new_c0 = Self::remove_walk(*first, target, found);
                let new_c1 = Self::remove_walk(*second, target, found);
                match (new_c0, new_c1) {
                    (None, Some(sib)) => Some(sib),
                    (Some(sib), None) => Some(sib),
                    (Some(a), Some(b)) => Some(
                        LayoutNode::Split { orientation, ratio, first: Box::new(a), second: Box::new(b) },
                    ),
                    (None, None) => None,
                }
            },
        }
    }

    /// Whether some leaf of `node` holds `key`.
    fn holds_key(node: &LayoutNode, key: WindowKey) -> (r: bool)
        ensures
            r == key_set(*node).contains(key),
        decreases node,
    {
        match node {
            LayoutNode::Tile(k) => *k == key,
            LayoutNode::Split { first, second, .. } => Self::holds_key(first, key) || Self::holds_key(second, key),
        }
    }

    /// Tiles `window`: an empty tree gets it as its only leaf; otherwise the
    /// first leaf is split to make room. Rectangles are then recomputed.
    pub fn insert(&mut self, window: WindowKey)
        requires
            old(self).wf(),
        ensures
            final(self).wf(),
            final(self).work_area == old(self).work_area,
            final(self).default_ratio == old(self).default_ratio,
            final(self).root == inserted_root(old(self).root, old(self).work_area, window, old(self).default_ratio),
            final(self).window_set() == old(self).window_set().insert(window),
    {
        let root = self.root.take();
        match root {
            None => {
                self.root = Some(LayoutNode::Tile(window));
                proof {
                    assert(self.window_set() =~= old(self).window_set().insert(window));
                }
            },
            Some(n) => {
                proof {
                    lemma_insert_first_leaf(n, self.work_area, window, self.default_ratio);
                }
                let (new_root, _done) = Self::insert_at_first_leaf(n, self.work_area, window, self.default_ratio);
                self.root = Some(new_root);
            },
        }
        self.recalc();
    }

    /// Untiles every leaf holding `window`, promoting siblings. A window the
    /// tree does not hold leaves it untouched.
    pub fn remove(&mut self, window: WindowKey)
        requires
            old(self).wf(),
        ensures
            final(self).wf(),
            final(self).work_area == old(self).work_area,
            final(self).default_ratio == old(self).default_ratio,
            final(self).root == removed_root(old(self).root, window),
            final(self).window_set() == old(self).window_set().remove(window),
    {
        let root = self.root.take();
        match root {
            None => {
                proof {
                    assert(old(self).window_set().remove(window) =~= Set::<WindowKey>::empty());
                }
            },
            Some(n) => {
                proof {
                    lemma_remove_key(n, window);
                    if !key_set(n).contains(window) {
                        lemma_remove_absent(n, window);
                    }
                }
                let mut found = false;
                let new_root = Self::remove_walk(n, window, &mut found);
                if !found {
                    self.root = new_root;
                    proof {
                        assert(old(self).window_set().remove(window) =~= old(self).window_set());
                    }
                    return;
                }
                self.root = new_root;
                proof {
                    if new_root is None {
                        assert(old(self).window_set().remove(window) =~= Set::<WindowKey>::empty());
                    }
                }
                self.recalc();
            },
        }
    }

    /// Walks toward the first leaf holding `key` and adjusts the deepest
    /// split of the orientation `edge` acts on (see `resize_node`).
    fn resize_walk(node: LayoutNode, rect: Rect, key: WindowKey, edge: Edge, delta: i32) -> (res: (bool, bool, LayoutNode))
        requires
            node_wf(node),
            rect.fits(),
        ensures
            res == resize_node(node, rect, key, edge, delta as int),
        decreases node,
    {
        match node {
            LayoutNode::Tile(k) => (false, false, LayoutNode::Tile(k)),
            LayoutNode::Split { orientation, ratio, first, second } => {
                let (ra, rb) = split_rect(rect, orientation, ratio);
                let span: i32 = match orientation {
                    Orientation::Horizontal => rect.w,
                    Orientation::Vertical => rect.h,
                };
                let on_first = Self::holds_key(&first, key);
                let on_second = if on_first {
                    false
                } else {
                    Self::holds_key(&second, key)
                };
                if !on_first && !on_second {
                    return (false, false, LayoutNode::Split { orientation, ratio, first, second });
                }
                let ghost orig = LayoutNode::Split { orientation, ratio, first, second };
                let ghost f0 = *first;
                let ghost s0 = *second;
                let idx: usize = if on_first { 0 } else { 1 };
                let (hit, applied, first, second) = if on_first {
                    let (h, a, c) = Self::resize_walk(*first, ra, key, edge, delta);
                    (h, a, Box::new(c), second)
                } else {
                    let (h, a, c) = Self::resize_walk(*second, rb, key, edge, delta);
                    (h, a, first, Box::new(c))
                };
                if hit {
                    return (true, applied, LayoutNode::Split { orientation, ratio, first, second });
                }
                proof {
                    lemma_resize_node(f0, ra, key, edge, delta as int);
                    lemma_resize_node(s0, rb, key, edge, delta as int);
                }
                let needed = match edge {
                    Edge::Left | Edge::Right => Orientation::Horizontal,
                    Edge::Top | Edge::Bottom => Orientation::Vertical,
                };
                if orientation != needed {
                    return (false, false, LayoutNode::Split { orientation, ratio, first, second });
                }
                let moves = match (edge, idx) {
                    (Edge::Right, 0) | (Edge::Left, 1) => true,
                    (Edge::Bottom, 0) | (Edge::Top, 1) => true,
                    _ => false,
                };
                if !moves || span <= 0 {
                    return (true, false, LayoutNode::Split { orientation, ratio, first, second });
                }
                let n: i64 = delta as i64 * 1000000;
                let s64 = span as i64;
                let num: i64 = if n >= 0 {
                    n + s64 / 2
                } else {
                    -n + s64 / 2
                };
                proof {
                    let ni = num as int;
                    let si = s64 as int;
                    assert(0 <= ni / si <= ni) by (nonlinear_arith)
                        requires
                            ni >= 0,
                            si >= 1,
                    ;
                }
                let q: i64 = if n >= 0 {
                    num / s64
                } else {
                    -(num / s64)
                };
                let v: i64 = ratio as i64 + q;
                let clamped: i64 = if v < 50000 {
                    50000
                } else if v > 950000 {
                    950000
                } else {
                    v
                };
                (
                    true,
                    true,
                    LayoutNode::Split { orientation, ratio: clamped as u32, first, second },
                )
            },
        }
    }

    /// Drags the edge `edge` of `window` by `delta` pixels: the deepest split
    /// of the matching orientation on the way to the window moves its
    /// interior boundary by `delta` (the ratio changes by `delta / span`,
    /// then is clamped to `RATIO_MIN..=RATIO_MAX`), and rectangles are
    /// recomputed. Nothing changes when the window is not tiled, no such
    /// split exists, the edge is on that split's outer side, or its span is
    /// not positive.
    pub fn resize_edge(&mut self, window: WindowKey, edge: Edge, delta: i32)
        requires
            old(self).wf(),
        ensures
            final(self).wf(),
            final(self).work_area == old(self).work_area,
            final(self).default_ratio == old(self).default_ratio,
            final(self).root == resized_root(old(self).root, old(self).work_area, window, edge, delta as int),
            final(self).window_set() == old(self).window_set(),
    {
        let root = self.root.take();
        match root {
            None => {},
            Some(n) => {
                proof {
                    lemma_resize_node(n, self.work_area, window, edge, delta as int);
                }
                let (_hit, applied, new_root) = Self::resize_walk(n, self.work_area, window, edge, delta);
                self.root = Some(new_root);
                if applied {
                    self.recalc();
                }
            },
        }
    }

    /// The window other than `from` that directional focus moves to: among
    /// the windows wholly on the `dir` side of `from` whose extent overlaps
    /// `from`'s on the perpendicular axis, the nearest one, and among equally
    /// near ones the one with the most overlap. `None` when `from` is not
    /// tiled or no window qualifies.
    pub fn focus_in_direction(&self, from: WindowKey, dir: Direction) -> (r: Option<WindowKey>)
        requires
            self.wf(),
        ensures
            r is None ==> forall|k: WindowKey| !is_focus_candidate(self.layout(), from, k, dir),
            r matches Some(b) ==> {
                &&& is_focus_candidate(self.layout(), from, b, dir)
                &&& forall|k: WindowKey| #[trigger] is_focus_candidate(self.layout(), from, k, dir)
                    ==> focus_at_least_as_good(self.layout(), from, b, k, dir)
                &&& forall|k: WindowKey| #[trigger] is_focus_candidate(self.layout(), from, k, dir) ==> {
                    let sb = direction_score(self.layout()[from], self.layout()[b], dir);
                    let sk = direction_score(self.layout()[from], self.layout()[k], dir);
                    &&& sb.1 <= sk.1
                    &&& sk.1 == sb.1 ==> sk.2 <= sb.2
                }
            },
    {
        match self.cache.get(from) {
            None => None,
            Some(from_rect) => self.cache.best_in_direction(from, from_rect, dir),
        }
    }

    /// The current rectangle of `window`; `None` when it is not tiled.
    pub fn rect_for(&self, window: WindowKey) -> (r: Option<Rect>)
        requires
            self.wf(),
        ensures
            r == (if self.layout().contains_key(window) {
                Some(self.layout()[window])
            } else {
                None
            }),
    {
        self.cache.get(window)
    }

    /// Moves the layout to a new work area and recomputes every rectangle.
    pub fn set_work_area(&mut self, area: Rect)
        requires
            old(self).wf(),
            area.fits(),
        ensures
            final(self).wf(),
            final(self).work_area == area,
            final(self).root == old(self).root,
            final(self).default_ratio == old(self).default_ratio,
    {
        self.work_area = area;
        self.recalc();
    }

    /// The keys of the tree, in first-seen depth-first order (first child
    /// before second).
    pub open spec fn window_order(&self) -> Seq<WindowKey> {
        match self.root {
            None => Seq::empty(),
            Some(n) => extend_new(Seq::empty(), leaf_keys(n)),
        }
    }

    /// Appends to `v` the keys of `node` that `v` does not hold yet,
    /// depth-first.
    fn collect_keys(node: &LayoutNode, v: &mut Vec<WindowKey>)
        ensures
            final(v)@ == extend_new(old(v)@, leaf_keys(*node)),
        decreases node,
    {
        match node {
            LayoutNode::Tile(key) => {
                let mut i: usize = 0;
                while i < v.len()
                    invariant
                        i <= v@.len(),
                        v@ == old(v)@,
                        *node == LayoutNode::Tile(*key),
                        forall|j: int| 0 <= j < i ==> v@[j] != *key,
                    decreases v@.len() - i,
                {
                    if v[i] == *key {
                        proof {
                            let s = seq![*key];
                            assert(s.drop_last() =~= Seq::<WindowKey>::empty());
                            assert(leaf_keys(*node) == s);
                            assert(extend_new(v@, s.drop_last()) == v@);
                            assert(v@[i as int] == *key);
                            assert(v@.contains(*key));
                        }
                        return;
                    }
                    i = i + 1;
                }
                proof {
                    let s = seq![*key];
                    assert(s.drop_last() =~= Seq::<WindowKey>::empty());
                    assert(leaf_keys(*node) == s);
                    assert(extend_new(v@, s.drop_last()) == v@);
                    assert(!v@.contains(*key));
                }
                v.push(*key);
            },
            LayoutNode::Split { first, second, .. } => {
                let ghost v0 = v@;
                Self::collect_keys(first, v);
                Self::collect_keys(second, v);
                proof {
                    lemma_extend_new_concat(v0, leaf_keys(**first), leaf_keys(**second));
                }
            },
        }
    }

    /// The tiled windows, each once, in depth-first order of the tree (the
    /// first child of a split before the second): two trees of the same
    /// shape list their windows alike.
    pub fn windows(&self) -> (v: Vec<WindowKey>)
        ensures
            v@ == self.window_order(),
            v@.no_duplicates(),
            v@.to_set() == self.window_set(),
    {
        let mut v: Vec<WindowKey> = Vec::new();
        match &self.root {
            Some(root) => {
                Self::collect_keys(root, &mut v);
                proof {
                    lemma_extend_new_props(Seq::empty(), leaf_keys(*root));
                    lemma_leaf_keys_set(*root);
                    assert(Seq::<WindowKey>::empty().to_set() + leaf_keys(*root).to_set() =~= key_set(*root));
                }
            },
            None => {
                proof {
                    assert(v@.to_set() =~= Set::<WindowKey>::empty());
                }
            },
        }
        v
    }

    /// Number of tiled windows.
    pub fn len(&self) -> (n: usize)
        requires
            self.wf(),
        ensures
            n == self.window_set().len(),
    {
        proof {
            self.lemma_layout_keys();
        }
        self.cache.len()
    }

    /// Whether no window is tiled.
    pub fn is_empty(&self) -> (b: bool)
        requires
            self.wf(),
        ensures
            b == (self.window_set().len() == 0),
    {
        self.len() == 0
    }
}

/// Untiling a window right after tiling it restores the tree exactly, for a
/// window the tree did not already hold.
pub proof fn law_remove_undoes_insert(root: Option<LayoutNode>, work_area: Rect, w: WindowKey, default_ratio: u32)
    requires
        root matches Some(n) ==> !key_set(n).contains(w),
    ensures
        removed_root(inserted_root(root, work_area, w, default_ratio), w) == root,
{
    match root {
        None => {
            assert(key_set(LayoutNode::Tile(w)) == set![w]);
            assert(remove_key(LayoutNode::Tile(w), w) is None);
        },
        Some(n) => {
            lemma_remove_undoes_insert(n, work_area, w, default_ratio);
            lemma_insert_first_leaf(n, work_area, w, default_ratio);
        },
    }
}

/// The tiles exactly cover the work area: their areas add up to its area,
/// and for a work area of non-negative size each tile lies inside it with
/// non-negative size and no two tiles overlap.
pub proof fn law_tiles_cover_work_area(t: &DwindleTree)
    requires
        t.shape_wf(),
        t.root is Some,
    ensures
        area_sum(t.tiles()) == t.work_area.area(),
        (t.work_area.w >= 0 && t.work_area.h >= 0) ==> forall|i: int|
            0 <= i < t.tiles().len() ==> {
                let r = (#[trigger] t.tiles()[i]).1;
                &&& r.within(t.work_area)
                &&& r.w >= 0
                &&& r.h >= 0
            },
        (t.work_area.w >= 0 && t.work_area.h >= 0) ==> forall|i: int, j: int|
            0 <= i < j < t.tiles().len() ==> apart((#[trigger] t.tiles()[i]).1, (#[trigger] t.tiles()[j]).1),
{
    lemma_leaves_geometry(t.root.unwrap(), t.work_area);
    if t.work_area.w >= 0 && t.work_area.h >= 0 {
        lemma_leaves_apart(t.root.unwrap(), t.work_area);
    }
}

/// A lone window fills the whole work area.
pub proof fn law_lone_window_fills_work_area(work_area: Rect, w: WindowKey, default_ratio: u32)
    ensures
        inserted_root(None, work_area, w, default_ratio) == Some(LayoutNode::Tile(w)),
        entries_map(leaves(LayoutNode::Tile(w), work_area)) == Map::<WindowKey, Rect>::empty().insert(w, work_area),
{
    let s = leaves(LayoutNode::Tile(w), work_area);
    assert(s == seq![(w, work_area)]);
    assert(s.drop_last() =~= Seq::<(WindowKey, Rect)>::empty());
    assert(entries_map(s.drop_last()) == Map::<WindowKey, Rect>::empty());
}

/// Every tiled window has a rectangle and nothing else does; there are as
/// many rectangles as windows.
pub proof fn law_layout_matches_windows(t: &DwindleTree)
    ensures
        t.layout().dom() == t.window_set(),
        t.layout().len() == t.window_set().len(),
{
    t.lemma_layout_keys();
}

/// Dragging an edge never changes which windows are tiled, and keeps every
/// split ratio in range.
pub proof fn law_resize_keeps_windows(root: Option<LayoutNode>, work_area: Rect, w: WindowKey, edge: Edge, delta: int)
    requires
        root matches Some(n) ==> node_wf(n),
    ensures
        match resized_root(root, work_area, w, edge, delta) {
            None => root is None,
            Some(m) => root matches Some(n) && key_set(m) == key_set(n) && node_wf(m),
        },
{
    if let Some(n) = root {
        lemma_resize_node(n, work_area, w, edge, delta);
    }
}

/// Tiling a window into a non-empty tree splits its first tile (depth-first)
/// in two, side by side when that tile is at least as wide as it is tall and
/// stacked otherwise: the old window keeps the first part (left or top), the
/// new one takes the second, and every other tile stays exactly where it
/// was.
pub proof fn law_insert_splits_first_tile(n: LayoutNode, r: Rect, w: WindowKey, default_ratio: u32)
    ensures
        leaves(n, r).len() >= 1,
        ({
            let (k, rk) = leaves(n, r)[0];
            let (a, b) = split_rect_spec(rk, leaf_split_orientation(rk), default_ratio);
            leaves(insert_first_leaf(n, r, w, default_ratio), r) == seq![(k, a), (w, b)] + leaves(n, r).drop_first()
        }),
    decreases n,
{
    match n {
        LayoutNode::Tile(k) => {
            let (a, b) = split_rect_spec(r, leaf_split_orientation(r), default_ratio);
            assert(leaves(LayoutNode::Tile(k), a) == seq![(k, a)]);
            assert(leaves(LayoutNode::Tile(w), b) == seq![(w, b)]);
            assert(leaves(n, r).drop_first() =~= Seq::<(WindowKey, Rect)>::empty());
            assert(leaves(insert_first_leaf(n, r, w, default_ratio), r) =~= seq![(k, a), (w, b)] + leaves(
                n,
                r,
            ).drop_first());
        },
        LayoutNode::Split { orientation, ratio, first, second } => {
            let (ra, rb) = split_rect_spec(r, orientation, ratio);
            law_insert_splits_first_tile(*first, ra, w, default_ratio);
            let lf = leaves(*first, ra);
            let ls = leaves(*second, rb);
            assert(leaves(n, r) == lf + ls);
            assert(leaves(n, r)[0] == lf[0]);
            assert(leaves(n, r).drop_first() =~= lf.drop_first() + ls);
            let (k, rk) = lf[0];
            let (a, b) = split_rect_spec(rk, leaf_split_orientation(rk), default_ratio);
            assert(leaves(insert_first_leaf(n, r, w, default_ratio), r) == leaves(
                insert_first_leaf(*first, ra, w, default_ratio),
                ra,
            ) + ls);
            assert(leaves(insert_first_leaf(n, r, w, default_ratio), r) =~= seq![(k, a), (w, b)] + leaves(
                n,
                r,
            ).drop_first());
        },
    }
}

/// The window directional focus prefers is the nearer one and, between
/// equally near ones, the one overlapping the focused window more: `a` is
/// at least as good as `b` exactly when `b` is farther, or as near with no
/// more overlap.
pub proof fn law_focus_prefers_nearest_then_most_overlap(
    layout: Map<WindowKey, Rect>,
    from: WindowKey,
    a: WindowKey,
    b: WindowKey,
    dir: Direction,
)
    ensures
        ({
            let sa = direction_score(layout[from], layout[a], dir);
            let sb = direction_score(layout[from], layout[b], dir);
            &&& focus_at_least_as_good(layout, from, a, b, dir) ==> sa.1 <= sb.1
            &&& focus_at_least_as_good(layout, from, a, b, dir) && sa.1 == sb.1 ==> sb.2 <= sa.2
            &&& sa.1 < sb.1 ==> focus_at_least_as_good(layout, from, a, b, dir)
            &&& sa.1 == sb.1 && sb.2 <= sa.2 ==> focus_at_least_as_good(layout, from, a, b, dir)
        }),
{
}

/// The split orientation a drag of `edge` acts on, spelled out per edge.
pub open spec fn edge_axis(edge: Edge) -> Orientation {
    match edge {
        Edge::Left => Orientation::Horizontal,
        Edge::Right => Orientation::Horizontal,
        Edge::Top => Orientation::Vertical,
        Edge::Bottom => Orientation::Vertical,
    }
}

/// The ratio after dragging a split's boundary by `delta` pixels across
/// `span` pixels: moved by `delta / span` rounded to the nearest step
/// (halves away from zero), then kept between five and ninety-five percent.
pub open spec fn dragged_ratio(ratio: int, span: int, delta: int) -> int {
    let step = if delta >= 0 {
        (delta * 1000000 + span / 2) / span
    } else {
        -((-delta * 1000000 + span / 2) / span)
    };
    let v = ratio + step;
    if v < 50000 {
        50000
    } else if v > 950000 {
        950000
    } else {
        v
    }
}

/// Dragging an edge of a window acts on the deepest split on the window's
/// path that divides along the edge's axis. Here that split is `n` itself
/// (no deeper split of that axis holds the window): when the window lies in
/// the first child, its Right (side by side) or Bottom (stacked) edge is the
/// split's boundary and moves the ratio, while its Left or Top edge is an
/// outer edge and changes nothing; in the second child it is the other way
/// round. A split of the other axis, or one whose span is not positive, is
/// left alone at this level.
pub proof fn law_drag_moves_only_the_inner_boundary(
    orientation: Orientation,
    ratio: u32,
    first: Box<LayoutNode>,
    second: Box<LayoutNode>,
    r: Rect,
    key: WindowKey,
    edge: Edge,
    delta: int,
)
    requires
        orientation == edge_axis(edge),
        key_set(*first).contains(key) ==> deepest_axis_side(*first, key, orientation) is None,
        !key_set(*first).contains(key) && key_set(*second).contains(key) ==> deepest_axis_side(*second, key, orientation) is None,
    ensures
        ({
            let n = LayoutNode::Split { orientation, ratio, first, second };
            let span: int = match orientation {
                Orientation::Horizontal => r.w as int,
                Orientation::Vertical => r.h as int,
            };
            let moved = LayoutNode::Split {
                orientation,
                ratio: dragged_ratio(ratio as int, span, delta) as u32,
                first,
                second,
            };
            let in_first = key_set(*first).contains(key);
            let in_second = !in_first && key_set(*second).contains(key);
            &&& in_first && (edge == Edge::Right || edge == Edge::Bottom) && span > 0 ==> resize_node(n, r, key, edge, delta).2 == moved
            &&& in_first && (edge == Edge::Left || edge == Edge::Top) ==> resize_node(n, r, key, edge, delta).2 == n
            &&& in_second && (edge == Edge::Left || edge == Edge::Top) && span > 0 ==> resize_node(n, r, key, edge, delta).2 == moved
            &&& in_second && (edge == Edge::Right || edge == Edge::Bottom) ==> resize_node(n, r, key, edge, delta).2 == n
            &&& span <= 0 ==> resize_node(n, r, key, edge, delta).2 == n
        }),
{
    let (ra, rb) = split_rect_spec(r, orientation, ratio);
    lemma_resize_found(*first, ra, key, edge, delta);
    lemma_resize_found(*second, rb, key, edge, delta);
    assert(needed_orientation(edge) == edge_axis(edge));
}

/// Dragging an edge of a window whose path meets a deeper split of the
/// edge's axis leaves this split's ratio alone and passes the drag down to
/// the child holding the window.
pub proof fn law_drag_goes_to_the_deepest_split(
    orientation: Orientation,
    ratio: u32,
    first: Box<LayoutNode>,
    second: Box<LayoutNode>,
    r: Rect,
    key: WindowKey,
    edge: Edge,
    delta: int,
)
    ensures
        ({
            let n = LayoutNode::Split { orientation, ratio, first, second };
            let (ra, rb) = split_rect_spec(r, orientation, ratio);
            &&& key_set(*first).contains(key) && deepest_axis_side(*first, key, edge_axis(edge)) is Some
                ==> resize_node(n, r, key, edge, delta).2 == LayoutNode::Split {
                    orientation,
                    ratio,
                    first: Box::new(resize_node(*first, ra, key, edge, delta).2),
                    second,
                }
            &&& !key_set(*first).contains(key) && key_set(*second).contains(key)
                && deepest_axis_side(*second, key, edge_axis(edge)) is Some ==> resize_node(n, r, key, edge, delta).2
                == LayoutNode::Split { orientation, ratio, first, second: Box::new(resize_node(*second, rb, key, edge, delta).2) }
        }),
{
    let (ra, rb) = split_rect_spec(r, orientation, ratio);
    lemma_resize_found(*first, ra, key, edge, delta);
    lemma_resize_found(*second, rb, key, edge, delta);
    assert(needed_orientation(edge) == edge_axis(edge));
}

/// The side (0 for the first child, 1 for the second) under which `key`
/// sits at the deepest split of orientation `o` on the path to `key` (the
/// path goes into the first child holding `key`); `None` when no split of
/// that orientation lies on the path or the tree does not hold `key`.
pub open spec fn deepest_axis_side(n: LayoutNode, key: WindowKey, o: Orientation) -> Option<int>
    decreases n,
{
    match n {
        LayoutNode::Tile(_) => None,
        LayoutNode::Split { orientation, first, second, .. } => {
            let on_first = key_set(*first).contains(key);
            if on_first || key_set(*second).contains(key) {
                let sub = if on_first {
                    deepest_axis_side(*first, key, o)
                } else {
                    deepest_axis_side(*second, key, o)
                };
                if sub is Some {
                    sub
                } else if orientation == o {
                    Some(if on_first { 0int } else { 1int })
                } else {
                    None
                }
            } else {
                None
            }
        },
    }
}

proof fn lemma_resize_found(n: LayoutNode, r: Rect, key: WindowKey, edge: Edge, delta: int)
    ensures
        resize_node(n, r, key, edge, delta).0 <==> deepest_axis_side(n, key, needed_orientation(edge)) is Some,
        deepest_axis_side(n, key, needed_orientation(edge)) matches Some(idx) && !boundary_moves(edge, idx)
            ==> !resize_node(n, r, key, edge, delta).1,
    decreases n,
{
    match n {
        LayoutNode::Tile(_) => {},
        LayoutNode::Split { orientation, ratio, first, second } => {
            let (ra, rb) = split_rect_spec(r, orientation, ratio);
            lemma_resize_found(*first, ra, key, edge, delta);
            lemma_resize_found(*second, rb, key, edge, delta);
        },
    }
}

/// Tiling a window moves no other tile: every window other than the one
/// whose tile was split and the new one keeps its rectangle (and a window
/// that had none still has none).
pub proof fn law_insert_keeps_other_rects(n: LayoutNode, r: Rect, w: WindowKey, default_ratio: u32, k: WindowKey)
    requires
        k != w,
        k != leaves(n, r)[0].0,
    ensures
        ({
            let before = entries_map(leaves(n, r));
            let after = entries_map(leaves(insert_first_leaf(n, r, w, default_ratio), r));
            &&& after.contains_key(k) == before.contains_key(k)
            &&& before.contains_key(k) ==> after[k] == before[k]
        }),
{
    law_insert_splits_first_tile(n, r, w, default_ratio);
    let old_t = leaves(n, r);
    let (l, rl) = old_t[0];
    let (a, b) = split_rect_spec(rl, leaf_split_orientation(rl), default_ratio);
    let tail = old_t.drop_first();
    let p1 = seq![(l, rl)];
    let p2 = seq![(l, a), (w, b)];
    assert(old_t =~= p1 + tail);
    let e = Map::<WindowKey, Rect>::empty();
    let none = Seq::<(WindowKey, Rect)>::empty();
    assert(map_with(e, none) == e);
    assert(map_with(e, p1) == e.insert(l, rl)) by {
        assert(p1.drop_last() =~= none);
        assert(p1.last() == (l, rl));
    }
    let q = seq![(l, a)];
    assert(map_with(e, q) == e.insert(l, a)) by {
        assert(q.drop_last() =~= none);
        assert(q.last() == (l, a));
    }
    assert(map_with(e, p2) == e.insert(l, a).insert(w, b)) by {
        assert(p2.drop_last() =~= q);
        assert(p2.last() == (w, b));
    }
    lemma_map_with_concat(e, p1, tail);
    lemma_map_with_concat(e, p2, tail);
    crate::assoc::lemma_map_with_agree(map_with(e, p1), map_with(e, p2), tail, k);
}

/// Dragging an edge changes nothing when the tree does not hold the
/// window, when the window is the only tile, when no split on the window's
/// path divides along the edge's axis (Left/Right: side by side, Top/Bottom:
/// stacked), or when the deepest such split has the edge on its outer side
/// (the left or top edge of its first child, the right or bottom edge of
/// its second); and whenever no split ratio changes, the tree is left
/// exactly as it was.
pub proof fn law_resize_no_op(n: LayoutNode, r: Rect, key: WindowKey, edge: Edge, delta: int)
    requires
        node_wf(n),
    ensures
        !key_set(n).contains(key) ==> resize_node(n, r, key, edge, delta) == (false, false, n),
        n is Tile ==> resize_node(n, r, key, edge, delta) == (false, false, n),
        deepest_axis_side(n, key, needed_orientation(edge)) is None ==> resize_node(n, r, key, edge, delta) == (
            false,
            false,
            n,
        ),
        deepest_axis_side(n, key, needed_orientation(edge)) matches Some(idx) && !boundary_moves(edge, idx)
            ==> resize_node(n, r, key, edge, delta).2 == n,
        !resize_node(n, r, key, edge, delta).1 ==> resize_node(n, r, key, edge, delta).2 == n,
{
    lemma_resize_node(n, r, key, edge, delta);
    lemma_resize_found(n, r, key, edge, delta);
    if let LayoutNode::Split { first, second, .. } = n {
        if !key_set(n).contains(key) {
            assert(!key_set(*first).contains(key));
            assert(!key_set(*second).contains(key));
        }
    }
}

/// A call that changes a tree's windows or split ratios.
pub enum TreeCall {
    Insert(WindowKey),
    Remove(WindowKey),
    ResizeEdge(WindowKey, Edge, i32),
}

/// The root of a tree over `work_area` with new-split ratio `default_ratio`
/// after `calls`, in order, starting from `root` (see `DwindleTree::insert`,
/// `remove` and `resize_edge`).
pub open spec fn root_after(root: Option<LayoutNode>, work_area: Rect, default_ratio: u32, calls: Seq<TreeCall>) -> Option<LayoutNode>
    decreases calls.len(),
{
    if calls.len() == 0 {
        root
    } else {
        let prev = root_after(root, work_area, default_ratio, calls.drop_last());
        match calls.last() {
            TreeCall::Insert(w) => inserted_root(prev, work_area, w, default_ratio),
            TreeCall::Remove(w) => removed_root(prev, w),
            TreeCall::ResizeEdge(w, e, d) => resized_root(prev, work_area, w, e, d as int),
        }
    }
}

/// The window listing depends on the shape of the tree alone: two trees
/// with the same root list their windows in the same order, so two trees
/// built by the same calls from the same empty tree list their windows
/// alike.
pub proof fn law_windows_follow_shape(t1: &DwindleTree, t2: &DwindleTree)
    requires
        t1.root == t2.root,
    ensures
        t1.window_order() == t2.window_order(),
{
}

/// Two trees built by the same calls over the same work area from an empty
/// tree end with the same root, hence list their windows alike.
pub proof fn law_same_calls_same_listing(
    t1: &DwindleTree,
    t2: &DwindleTree,
    work_area: Rect,
    default_ratio: u32,
    calls: Seq<TreeCall>,
)
    requires
        t1.root == root_after(None, work_area, default_ratio, calls),
        t2.root == root_after(None, work_area, default_ratio, calls),
    ensures
        t1.window_order() == t2.window_order(),
{
}

} // verus!
