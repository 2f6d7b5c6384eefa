//! Per-output workspaces: a stack of windows split into z-bands, the active
//! window and a most-recently-used focus history.
//!
//! Z-order runs `Below` < `Normal` < `AlwaysOnTop` < `Fullscreen`; within a
//! band, later windows in `windows` stack higher.
use vstd::prelude::*;

use crate::output_state::OutputId;
use crate::tiling::dwindle::DwindleTree;
use crate::tiling::Point;

verus! {

/// Identity of a window.
#[derive(Debug, Clone, Copy, PartialEq, Eq, Hash, Structural)]
pub struct WindowId(pub u32);

impl WindowId {
    /// The number inside the id.
    pub fn raw(self) -> (r: u32)
        ensures
            r == self.0,
    {
        self.0
    }
}

/// Identity of a workspace (1-based, as users number them).
#[derive(Debug, Clone, Copy, PartialEq, Eq, Hash, Structural)]
pub struct WorkspaceId(pub u32);

/// Stacking band of a window.
#[derive(Debug, Clone, Copy, PartialEq, Eq, Hash, Structural)]
pub enum ZBand {
    Below,
    Normal,
    AlwaysOnTop,
    Fullscreen,
}

/// Position of a band in the stacking order, bottom first.
pub open spec fn band_rank(b: ZBand) -> int {
    match b {
        ZBand::Below => 0,
        ZBand::Normal => 1,
        ZBand::AlwaysOnTop => 2,
        ZBand::Fullscreen => 3,
    }
}

/// Position of a band in the stacking order, bottom first.
pub fn band_order(b: ZBand) -> (r: u8)
    ensures
        r == band_rank(b),
{
    match b {
        ZBand::Below => 0,
        ZBand::Normal => 1,
        ZBand::AlwaysOnTop => 2,
        ZBand::Fullscreen => 3,
    }
}

/// A window as a workspace tracks it; `element` is the compositor's handle
/// on the surface.
#[derive(Debug, Clone)]
pub struct WindowEntry<E> {
    pub id: WindowId,
    pub element: E,
    pub band: ZBand,
    pub activated: bool,
    pub parent_id: Option<WindowId>,
    pub workspace_id: WorkspaceId,
    pub location: Point,
}

/// A workspace's layout mode.
#[derive(Debug)]
pub enum WorkspaceMode {
    /// Windows float freely (the default).
    Floating,
    /// Windows are tiled by a binary-split layout.
    Tiled(DwindleTree),
}

#[derive(Debug)]
pub struct Workspace<E> {
    pub id: WorkspaceId,
    pub output_id: OutputId,
    /// Bottom-to-top stacking order across all bands.
    pub windows: Vec<WindowEntry<E>>,
    pub active: Option<WindowId>,
    /// Most-recently-focused last; no window twice.
    pub focus_history: Vec<WindowId>,
    pub mode: WorkspaceMode,
}

// ---------------------------------------------------------------------------
// Sequence helpers
// ---------------------------------------------------------------------------

/// Index of the first element satisfying `f`, or the length when none does.
#[verifier::opaque]
pub open spec fn first_match<A>(s: Seq<A>, f: spec_fn(A) -> bool) -> int {
    if exists|i: int| 0 <= i < s.len() && f(s[i]) {
        choose|i: int| 0 <= i < s.len() && f(s[i]) && forall|j: int| 0 <= j < i ==> !f(s[j])
    } else {
        s.len() as int
    }
}

/// An index whose element is the first satisfying `f` is `first_match`.
pub proof fn lemma_first_match<A>(s: Seq<A>, f: spec_fn(A) -> bool, i: int)
    requires
        0 <= i <= s.len(),
        i < s.len() ==> f(s[i]),
        forall|j: int| 0 <= j < i ==> !f(s[j]),
    ensures
        first_match(s, f) == i,
{
    reveal(first_match);
    if i < s.len() {
        let k = choose|k: int| 0 <= k < s.len() && f(s[k]) && forall|j: int| 0 <= j < k ==> !f(s[j]);
        assert(0 <= k < s.len() && f(s[k]) && forall|j: int| 0 <= j < k ==> !f(s[j]));
        if k < i {
            assert(!f(s[k]));
        }
        if k > i {
            assert(!f(s[i]));
        }
    }
}

/// Entries holding window `id`.
pub open spec fn has_id<E>(id: WindowId) -> spec_fn(WindowEntry<E>) -> bool {
    |e: WindowEntry<E>| e.id == id
}

/// Entries in a band stacking above `b`.
pub open spec fn above_band<E>(b: ZBand) -> spec_fn(WindowEntry<E>) -> bool {
    |e: WindowEntry<E>| band_rank(e.band) > band_rank(b)
}

/// Entries in band `b` or above.
pub open spec fn at_or_above_band<E>(b: ZBand) -> spec_fn(WindowEntry<E>) -> bool {
    |e: WindowEntry<E>| band_rank(e.band) >= band_rank(b)
}

/// The ids of a list of entries.
pub open spec fn ids_of<E>(s: Seq<WindowEntry<E>>) -> Seq<WindowId> {
    s.map_values(|e: WindowEntry<E>| e.id)
}

/// `h` without `id`, order kept.
pub open spec fn without(h: Seq<WindowId>, id: WindowId) -> Seq<WindowId>
    decreases h.len(),
{
    if h.len() == 0 {
        h
    } else {
        let prev = without(h.drop_last(), id);
        if h.last() == id {
            prev
        } else {
            prev.push(h.last())
        }
    }
}

/// `without` drops exactly `id`, keeps the order of the rest and keeps a
/// list without duplicates free of them.
pub proof fn lemma_without(h: Seq<WindowId>, id: WindowId)
    ensures
        !without(h, id).contains(id),
        forall|x: WindowId| x != id ==> (#[trigger] without(h, id).contains(x) <==> h.contains(x)),
        h.no_duplicates() ==> without(h, id).no_duplicates(),
        !h.contains(id) ==> without(h, id) == h,
        without(h, id).len() <= h.len(),
    decreases h.len(),
{
    if h.len() > 0 {
        let p = h.drop_last();
        lemma_without(p, id);
        let wp = without(p, id);
        let l = h.last();
        assert(h =~= p.push(l));
        assert forall|x: WindowId| x != id implies (#[trigger] without(h, id).contains(x) <==> h.contains(x)) by {
            assert(p.push(l).contains(x) <==> (p.contains(x) || x == l)) by {
                if p.push(l).contains(x) {
                    let k = choose|k: int| 0 <= k < p.push(l).len() && p.push(l)[k] == x;
                    if k < p.len() {
                        assert(p[k] == x);
                    }
                }
                if p.contains(x) {
                    let k = choose|k: int| 0 <= k < p.len() && p[k] == x;
                    assert(p.push(l)[k] == x);
                }
                if x == l {
                    assert(p.push(l)[p.len() as int] == x);
                }
            }
            if l != id {
                assert(wp.push(l).contains(x) <==> (wp.contains(x) || x == l)) by {
                    if wp.push(l).contains(x) {
                        let k = choose|k: int| 0 <= k < wp.push(l).len() && wp.push(l)[k] == x;
                        if k < wp.len() {
                            assert(wp[k] == x);
                        }
                    }
                    if wp.contains(x) {
                        let k = choose|k: int| 0 <= k < wp.len() && wp[k] == x;
                        assert(wp.push(l)[k] == x);
                    }
                    if x == l {
                        assert(wp.push(l)[wp.len() as int] == x);
                    }
                }
            }
        }
        if h.no_duplicates() {
            assert(p.no_duplicates());
            if h.last() != id {
                assert(!p.contains(h.last()));
                assert(!without(p, id).contains(h.last()));
            }
        }
        if !h.contains(id) {
            assert(!p.contains(id)) by {
                if p.contains(id) {
                    let k = choose|k: int| 0 <= k < p.len() && p[k] == id;
                    assert(h[k] == id);
                }
            }
            assert(h.last() != id) by {
                assert(h[h.len() - 1] == id ==> h.contains(id));
            }
            assert(h =~= p.push(h.last()));
        }
    }
}

/// The windows after moving the first entry for `id` to the top of its band
/// (just below the first window of a higher band); unchanged when absent.
pub open spec fn raised<E>(w: Seq<WindowEntry<E>>, id: WindowId) -> Seq<WindowEntry<E>> {
    let p = first_match(w, has_id::<E>(id));
    if p < w.len() {
        let e = w[p];
        let rest = w.remove(p);
        rest.insert(first_match(rest, above_band::<E>(e.band)), e)
    } else {
        w
    }
}

/// The windows after moving the first entry for `id` to the bottom of its
/// band (just below the first window of its band or higher); unchanged when
/// absent.
pub open spec fn lowered<E>(w: Seq<WindowEntry<E>>, id: WindowId) -> Seq<WindowEntry<E>> {
    let p = first_match(w, has_id::<E>(id));
    if p < w.len() {
        let e = w[p];
        let rest = w.remove(p);
        rest.insert(first_match(rest, at_or_above_band::<E>(e.band)), e)
    } else {
        w
    }
}


/// The windows with only `id`'s entries marked activated.
pub open spec fn with_activated<E>(w: Seq<WindowEntry<E>>, id: WindowId) -> Seq<WindowEntry<E>> {
    w.map_values(|e: WindowEntry<E>| WindowEntry { activated: e.id == id, ..e })
}

/// Indices of the windows in band `b`, bottom to top.
pub open spec fn band_indices<E>(w: Seq<WindowEntry<E>>, b: ZBand) -> Seq<usize>
    decreases w.len(),
{
    if w.len() == 0 {
        Seq::empty()
    } else {
        let prev = band_indices(w.drop_last(), b);
        if w.last().band == b {
            prev.push((w.len() - 1) as usize)
        } else {
            prev
        }
    }
}

/// Indices of all windows in stacking order: band by band, bottom to top.
pub open spec fn z_order<E>(w: Seq<WindowEntry<E>>) -> Seq<usize> {
    band_indices(w, ZBand::Below) + band_indices(w, ZBand::Normal) + band_indices(w, ZBand::AlwaysOnTop)
        + band_indices(w, ZBand::Fullscreen)
}


/// Scanning the first `j` windows for children of `parent`: each child not
/// yet found is appended to both the frontier and the found list.
pub open spec fn scan_children<E>(
    w: Seq<WindowEntry<E>>,
    parent: WindowId,
    frontier: Seq<WindowId>,
    found: Seq<WindowId>,
    j: int,
) -> (Seq<WindowId>, Seq<WindowId>)
    decreases j,
{
    if j <= 0 {
        (frontier, found)
    } else {
        let st = scan_children(w, parent, frontier, found, j - 1);
        let e = w[j - 1];
        if e.parent_id == Some(parent) && !st.1.contains(e.id) {
            (st.0.push(e.id), st.1.push(e.id))
        } else {
            st
        }
    }
}

/// One step of the descendant search: take the most recently queued parent
/// and scan all windows for its children.
pub open spec fn descendant_step<E>(w: Seq<WindowEntry<E>>, st: (Seq<WindowId>, Seq<WindowId>)) -> (Seq<WindowId>, Seq<WindowId>) {
    if st.0.len() == 0 {
        st
    } else {
        scan_children(w, st.0.last(), st.0.drop_last(), st.1, w.len() as int)
    }
}

/// The descendant search of `id` after `n` steps: (frontier, found).
pub open spec fn descendant_walk<E>(w: Seq<WindowEntry<E>>, id: WindowId, n: nat) -> (Seq<WindowId>, Seq<WindowId>)
    decreases n,
{
    if n == 0 {
        (seq![id], Seq::empty())
    } else {
        descendant_step(w, descendant_walk(w, id, (n - 1) as nat))
    }
}

/// The transitive children of `id`, in the order the search finds them
/// (the search ends within `w.len() + 1` steps).
pub open spec fn descendants_in_order<E>(w: Seq<WindowEntry<E>>, id: WindowId) -> Seq<WindowId> {
    descendant_walk(w, id, (w.len() + 1) as nat).1
}

/// The windows after raising each of `ds` in turn.
pub open spec fn raise_all<E>(w: Seq<WindowEntry<E>>, ds: Seq<WindowId>) -> Seq<WindowEntry<E>>
    decreases ds.len(),
{
    if ds.len() == 0 {
        w
    } else {
        raised(raise_all(w, ds.drop_last()), ds.last())
    }
}

proof fn lemma_walk_stable<E>(w: Seq<WindowEntry<E>>, id: WindowId, k: nat, n: nat)
    requires
        k <= n,
        descendant_walk(w, id, k).0.len() == 0,
    ensures
        descendant_walk(w, id, n) == descendant_walk(w, id, k),
    decreases n,
{
    if n > k {
        lemma_walk_stable(w, id, k, (n - 1) as nat);
    }
}

/// A list without duplicates drawn from the ids of `w` is no longer than `w`.
proof fn lemma_found_bounded<E>(w: Seq<WindowEntry<E>>, found: Seq<WindowId>)
    requires
        found.no_duplicates(),
        forall|x: WindowId| #[trigger] found.contains(x) ==> ids_of(w).contains(x),
    ensures
        found.len() <= w.len(),
{
    found.unique_seq_to_set();
    ids_of(w).lemma_cardinality_of_set();
    assert(found.to_set().subset_of(ids_of(w).to_set())) by {
        assert forall|x: WindowId| found.to_set().contains(x) implies ids_of(w).to_set().contains(x) by {
            assert(found.contains(x));
        }
    }
    vstd::set_lib::lemma_len_subset(found.to_set(), ids_of(w).to_set());
}

/// Whether `list` holds `x`.
fn list_contains(list: &Vec<WindowId>, x: WindowId) -> (r: bool)
    ensures
        r == list@.contains(x),
{
    let mut i: usize = 0;
    while i < list.len()
        invariant
            i <= list@.len(),
            forall|j: int| 0 <= j < i ==> list@[j] != x,
        decreases list@.len() - i,
    {
        if list[i] == x {
            return true;
        }
        i = i + 1;
    }
    false
}


/// Whether some entry holds `id`.
pub open spec fn holds_window<E>(w: Seq<WindowEntry<E>>, id: WindowId) -> bool {
    first_match(w, has_id::<E>(id)) < w.len()
}

/// The windows after focusing `id` (see `Workspace::focus`).
pub open spec fn focused_windows<E>(w: Seq<WindowEntry<E>>, id: WindowId, raise: bool) -> Seq<WindowEntry<E>> {
    if holds_window(w, id) {
        if raise {
            raised(with_activated(w, id), id)
        } else {
            with_activated(w, id)
        }
    } else {
        w
    }
}

/// The active window after focusing `id`.
pub open spec fn focused_active<E>(w: Seq<WindowEntry<E>>, active: Option<WindowId>, id: WindowId) -> Option<WindowId> {
    if holds_window(w, id) {
        Some(id)
    } else {
        active
    }
}

/// The focus history after focusing `id`.
pub open spec fn focused_history<E>(w: Seq<WindowEntry<E>>, h: Seq<WindowId>, id: WindowId) -> Seq<WindowId> {
    if holds_window(w, id) {
        without(h, id).push(id)
    } else {
        h
    }
}

/// The windows after removing `id` (see `Workspace::remove`).
pub open spec fn windows_after_removal<E>(w: Seq<WindowEntry<E>>, id: WindowId) -> Seq<WindowEntry<E>> {
    if holds_window(w, id) {
        w.remove(first_match(w, has_id::<E>(id)))
    } else {
        w
    }
}

/// The focus history after removing `id`.
pub open spec fn history_after_removal<E>(w: Seq<WindowEntry<E>>, h: Seq<WindowId>, id: WindowId) -> Seq<WindowId> {
    if holds_window(w, id) {
        without(h, id)
    } else {
        h
    }
}

/// The active window after removing `id`.
pub open spec fn active_after_window_removal<E>(w: Seq<WindowEntry<E>>, h: Seq<WindowId>, active: Option<WindowId>, id: WindowId) -> Option<WindowId> {
    if holds_window(w, id) {
        active_after_removal(active, id, without(h, id))
    } else {
        active
    }
}

/// The focus history is free of duplicates.
pub open spec fn history_wf(h: Seq<WindowId>) -> bool {
    h.no_duplicates()
}

/// Index of the first entry holding `id` (the length when none does).
fn position_of<E>(windows: &Vec<WindowEntry<E>>, id: WindowId) -> (r: usize)
    ensures
        r == first_match(windows@, has_id::<E>(id)),
        r <= windows@.len(),
{
    let mut i: usize = 0;
    while i < windows.len()
        invariant
            i <= windows@.len(),
            forall|j: int| 0 <= j < i ==> !has_id::<E>(id)(windows@[j]),
        decreases windows@.len() - i,
    {
        if windows[i].id == id {
            proof {
                lemma_first_match(windows@, has_id::<E>(id), i as int);
            }
            return i;
        }
        i = i + 1;
    }
    proof {
        lemma_first_match(windows@, has_id::<E>(id), i as int);
    }
    i
}

/// Index of the first entry whose band stacks above `band` (strictly when
/// `strict`, else at or above), the length when none does.
fn position_of_band<E>(windows: &Vec<WindowEntry<E>>, band: ZBand, strict: bool) -> (r: usize)
    ensures
        strict ==> r == first_match(windows@, above_band::<E>(band)),
        !strict ==> r == first_match(windows@, at_or_above_band::<E>(band)),
        r <= windows@.len(),
{
    let rank = band_order(band);
    let mut i: usize = 0;
    while i < windows.len()
        invariant
            i <= windows@.len(),
            rank == band_rank(band),
            strict ==> forall|j: int| 0 <= j < i ==> !above_band::<E>(band)(windows@[j]),
            !strict ==> forall|j: int| 0 <= j < i ==> !at_or_above_band::<E>(band)(windows@[j]),
        decreases windows@.len() - i,
    {
        let r = band_order(windows[i].band);
        if (strict && r > rank) || (!strict && r >= rank) {
            proof {
                if strict {
                    lemma_first_match(windows@, above_band::<E>(band), i as int);
                } else {
                    lemma_first_match(windows@, at_or_above_band::<E>(band), i as int);
                }
            }
            return i;
        }
        i = i + 1;
    }
    proof {
        if strict {
            lemma_first_match(windows@, above_band::<E>(band), i as int);
        } else {
            lemma_first_match(windows@, at_or_above_band::<E>(band), i as int);
        }
    }
    i
}

/// `history` without `id`, order kept.
fn history_without(history: &Vec<WindowId>, id: WindowId) -> (r: Vec<WindowId>)
    ensures
        r@ == without(history@, id),
{
    let mut r: Vec<WindowId> = Vec::new();
    let mut i: usize = 0;
    while i < history.len()
        invariant
            i <= history@.len(),
            r@ == without(history@.take(i as int), id),
        decreases history@.len() - i,
    {
        let h = history[i];
        if h != id {
            r.push(h);
        }
        proof {
            let t = history@.take(i + 1);
            assert(t.drop_last() =~= history@.take(i as int));
            assert(t.last() == h);
        }
        i = i + 1;
    }
    assert(history@.take(history@.len() as int) =~= history@);
    r
}

/// The active window after the history lost `id`: the most recently focused
/// remaining one when `id` was active.
pub open spec fn active_after_removal(active: Option<WindowId>, id: WindowId, history: Seq<WindowId>) -> Option<WindowId> {
    if active == Some(id) {
        if history.len() > 0 {
            Some(history.last())
        } else {
            None
        }
    } else {
        active
    }
}

impl<E> Workspace<E> {
    /// Focus history without duplicates.
    pub open spec fn wf(&self) -> bool {
        history_wf(self.focus_history@)
    }

    /// An empty floating workspace.
    pub fn new(id: WorkspaceId, output_id: OutputId) -> (w: Self)
        ensures
            w.wf(),
            w.id == id,
            w.output_id == output_id,
            w.windows@.len() == 0,
            w.active is None,
            w.focus_history@.len() == 0,
            w.mode is Floating,
    {
        Workspace {
            id,
            output_id,
            windows: Vec::new(),
            active: None,
            focus_history: Vec::new(),
            mode: WorkspaceMode::Floating,
        }
    }

    /// Adds a window on top of the stack.
    pub fn add(&mut self, entry: WindowEntry<E>)
        ensures
            final(self).windows@ == old(self).windows@.push(entry),
            final(self).active == old(self).active,
            final(self).focus_history@ == old(self).focus_history@,
            final(self).id == old(self).id,
            final(self).output_id == old(self).output_id,
            final(self).mode == old(self).mode,
    {
        self.windows.push(entry);
    }

    /// Takes the first entry for `id` out of the workspace and drops `id`
    /// from the focus history; if it was active, the most recently focused
    /// remaining window becomes active. `None`, with nothing changed, when
    /// no entry holds `id`.
    pub fn remove(&mut self, id: WindowId) -> (r: Option<WindowEntry<E>>)
        ensures
            r == (if holds_window(old(self).windows@, id) {
                Some(old(self).windows@[first_match(old(self).windows@, has_id::<E>(id))])
            } else {
                None
            }),
            !holds_window(old(self).windows@, id) ==> *final(self) == *old(self),
            final(self).windows@ == windows_after_removal(old(self).windows@, id),
            final(self).focus_history@ == history_after_removal(old(self).windows@, old(self).focus_history@, id),
            final(self).active == active_after_window_removal(
                old(self).windows@,
                old(self).focus_history@,
                old(self).active,
                id,
            ),
            final(self).id == old(self).id,
            final(self).output_id == old(self).output_id,
            final(self).mode == old(self).mode,
            old(self).wf() ==> final(self).wf(),
            holds_window(old(self).windows@, id) && old(self).active == Some(id) ==> final(self).active == (if final(self).focus_history@.len() > 0 {
                Some(final(self).focus_history@[final(self).focus_history@.len() - 1])
            } else {
                None
            }),
            old(self).active != Some(id) ==> final(self).active == old(self).active,
    {
        let idx = position_of(&self.windows, id);
        if idx >= self.windows.len() {
            return None;
        }
        let entry = self.windows.remove(idx);
        let history = history_without(&self.focus_history, id);
        proof {
            lemma_without(self.focus_history@, id);
        }
        self.focus_history = history;
        if self.active == Some(id) {
            self.active = match self.focus_history.last() {
                Some(h) => Some(*h),
                None => None,
            };
        }
        Some(entry)
    }

    /// Moves the first entry for `id` to the top of its band.
    pub fn raise(&mut self, id: WindowId)
        ensures
            final(self).windows@ == raised(old(self).windows@, id),
            final(self).active == old(self).active,
            final(self).focus_history@ == old(self).focus_history@,
            final(self).id == old(self).id,
            final(self).output_id == old(self).output_id,
            final(self).mode == old(self).mode,
    {
        let ghost w0 = self.windows@;
        let idx = position_of(&self.windows, id);
        if idx >= self.windows.len() {
            return;
        }
        let entry = self.windows.remove(idx);
        let insert_at = position_of_band(&self.windows, entry.band, true);
        self.windows.insert(insert_at, entry);
        assert(self.windows@ == w0.remove(idx as int).insert(insert_at as int, w0[idx as int]));
    }

    /// Moves the first entry for `id` to the bottom of its band.
    pub fn lower(&mut self, id: WindowId)
        ensures
            final(self).windows@ == lowered(old(self).windows@, id),
            final(self).active == old(self).active,
            final(self).focus_history@ == old(self).focus_history@,
            final(self).id == old(self).id,
            final(self).output_id == old(self).output_id,
            final(self).mode == old(self).mode,
    {
        let ghost w0 = self.windows@;
        let idx = position_of(&self.windows, id);
        if idx >= self.windows.len() {
            return;
        }
        let entry = self.windows.remove(idx);
        let insert_at = position_of_band(&self.windows, entry.band, false);
        self.windows.insert(insert_at, entry);
        assert(self.windows@ == w0.remove(idx as int).insert(insert_at as int, w0[idx as int]));
    }

    /// The window to activate after the active one is destroyed: the most
    /// recently focused one.
    pub fn next_after_destroy(&self) -> (r: Option<WindowId>)
        ensures
            r == (if self.focus_history@.len() > 0 {
                Some(self.focus_history@.last())
            } else {
                None
            }),
    {
        match self.focus_history.last() {
            Some(h) => Some(*h),
            None => None,
        }
    }

    /// The first entry for `id`.
    pub fn find(&self, id: WindowId) -> (r: Option<&WindowEntry<E>>)
        ensures
            ({
                let p = first_match(self.windows@, has_id::<E>(id));
                if p < self.windows@.len() {
                    r == Some(&self.windows@[p])
                } else {
                    r is None
                }
            }),
    {
        let idx = position_of(&self.windows, id);
        if idx >= self.windows.len() {
            None
        } else {
            Some(&self.windows[idx])
        }
    }

    /// The first entry for window `id`, to change in place.
    pub fn find_mut(&mut self, id: WindowId) -> (r: Option<&mut WindowEntry<E>>)
        ensures
            ({
                let p = first_match(old(self).windows@, has_id::<E>(id));
                &&& final(self).id == old(self).id
                &&& final(self).output_id == old(self).output_id
                &&& final(self).active == old(self).active
                &&& final(self).focus_history@ == old(self).focus_history@
                &&& final(self).mode == old(self).mode
                &&& if p < old(self).windows@.len() {
                    &&& r is Some
                    &&& *r.unwrap() == old(self).windows@[p]
                    &&& final(self).windows@ == old(self).windows@.update(p, *final(r.unwrap()))
                } else {
                    &&& r is None
                    &&& final(self).windows@ == old(self).windows@
                }
            }),
    {
        let idx = position_of(&self.windows, id);
        if idx < self.windows.len() {
            Some(&mut self.windows[idx])
        } else {
            None
        }
    }

    /// Index of the first entry for `id` (for callers that update it).
    pub fn find_index(&self, id: WindowId) -> (r: Option<usize>)
        ensures
            ({
                let p = first_match(self.windows@, has_id::<E>(id));
                if p < self.windows@.len() {
                    r == Some(p as usize)
                } else {
                    r is None
                }
            }),
    {
        let idx = position_of(&self.windows, id);
        if idx >= self.windows.len() {
            None
        } else {
            Some(idx)
        }
    }

    /// Focuses `id`: only its entries are marked activated, it becomes the
    /// active window and the most recent in the history, and with `raise`
    /// it moves to the top of its band. Nothing changes when no entry holds
    /// `id`.
    pub fn focus(&mut self, id: WindowId, raise: bool)
        ensures
            final(self).windows@ == focused_windows(old(self).windows@, id, raise),
            final(self).active == focused_active(old(self).windows@, old(self).active, id),
            final(self).focus_history@ == focused_history(old(self).windows@, old(self).focus_history@, id),
            final(self).id == old(self).id,
            final(self).output_id == old(self).output_id,
            final(self).mode == old(self).mode,
            old(self).wf() ==> final(self).wf(),
    {
        let idx = position_of(&self.windows, id);
        if idx >= self.windows.len() {
            return;
        }
        let ghost w0 = self.windows@;
        let mut i: usize = 0;
        while i < self.windows.len()
            invariant
                i <= self.windows@.len(),
                self.windows@.len() == w0.len(),
                w0 == old(self).windows@,
                self.id == old(self).id,
                self.output_id == old(self).output_id,
                self.mode == old(self).mode,
                self.active == old(self).active,
                self.focus_history@ == old(self).focus_history@,
                forall|j: int| 0 <= j < i ==> #[trigger] self.windows@[j] == with_activated(w0, id)[j],
                forall|j: int| i <= j < w0.len() ==> #[trigger] self.windows@[j] == w0[j],
            decreases self.windows@.len() - i,
        {
            let is_target = self.windows[i].id == id;
            self.windows[i].activated = is_target;
            i = i + 1;
        }
        assert(self.windows@ =~= with_activated(w0, id));
        self.active = Some(id);
        let mut history = history_without(&self.focus_history, id);
        proof {
            lemma_without(self.focus_history@, id);
        }
        history.push(id);
        self.focus_history = history;
        if raise {
            proof {
                assert(first_match(self.windows@, has_id::<E>(id)) == first_match(self.windows@, has_id::<E>(id)));
            }
            self.raise(id);
        }
    }

    /// Indices of the windows in `band`, bottom to top.
    pub fn iter_band(&self, band: ZBand) -> (v: Vec<usize>)
        ensures
            v@ == band_indices(self.windows@, band),
    {
        let mut v: Vec<usize> = Vec::new();
        let mut i: usize = 0;
        while i < self.windows.len()
            invariant
                i <= self.windows@.len(),
                v@ == band_indices(self.windows@.take(i as int), band),
            decreases self.windows@.len() - i,
        {
            if self.windows[i].band == band {
                v.push(i);
            }
            proof {
                let t = self.windows@.take(i + 1);
                assert(t.drop_last() =~= self.windows@.take(i as int));
                assert(t.last() == self.windows@[i as int]);
            }
            i = i + 1;
        }
        assert(self.windows@.take(self.windows@.len() as int) =~= self.windows@);
        v
    }

    /// Indices of all windows in stacking order: `Below`, `Normal`,
    /// `AlwaysOnTop`, then `Fullscreen`, each bottom to top.
    pub fn iter_z_order(&self) -> (v: Vec<usize>)
        ensures
            v@ == z_order(self.windows@),
    {
        let mut v = self.iter_band(ZBand::Below);
        let mut normal = self.iter_band(ZBand::Normal);
        let mut on_top = self.iter_band(ZBand::AlwaysOnTop);
        let mut fullscreen = self.iter_band(ZBand::Fullscreen);
        v.append(&mut normal);
        v.append(&mut on_top);
        v.append(&mut fullscreen);
        v
    }

    /// Raises every transitive child of `id` (windows whose parent chain
    /// leads to `id`), in the order a depth-first search finds them, so they
    /// stack above `id` after it was raised.
    pub fn bring_descendants_above(&mut self, id: WindowId)
        ensures
            final(self).windows@ == raise_all(old(self).windows@, descendants_in_order(old(self).windows@, id)),
            final(self).active == old(self).active,
            final(self).focus_history@ == old(self).focus_history@,
            final(self).id == old(self).id,
            final(self).output_id == old(self).output_id,
            final(self).mode == old(self).mode,
    {
        let ghost w0 = self.windows@;
        let mut frontier: Vec<WindowId> = Vec::new();
        frontier.push(id);
        let mut found: Vec<WindowId> = Vec::new();
        let ghost mut k: nat = 0;
        proof {
            assert(frontier@ =~= seq![id]);
            assert(found@ =~= Seq::<WindowId>::empty());
        }
        loop
            invariant
                w0 == self.windows@,
                (frontier@, found@) == descendant_walk(w0, id, k),
                frontier@.len() + k == 1 + found@.len(),
                found@.no_duplicates(),
                forall|x: WindowId| #[trigger] found@.contains(x) ==> ids_of(w0).contains(x),
                found@.len() <= w0.len(),
            ensures
                w0 == self.windows@,
                frontier@.len() == 0,
                (frontier@, found@) == descendant_walk(w0, id, k),
                frontier@.len() + k == 1 + found@.len(),
                found@.len() <= w0.len(),
            decreases w0.len() - found@.len(), frontier@.len(),
        {
            let ghost st0 = (frontier@, found@);
            let parent = match frontier.pop() {
                None => {
                    break;
                },
                Some(p) => p,
            };
            let ghost fr0 = frontier@;
            let ghost fd0 = found@;
            proof {
                assert(st0.0.last() == parent);
                assert(st0.0.drop_last() == fr0);
            }
            let mut j: usize = 0;
            while j < self.windows.len()
                invariant
                    w0 == self.windows@,
                    j <= w0.len(),
                    (frontier@, found@) == scan_children(w0, parent, fr0, fd0, j as int),
                    frontier@.len() + fd0.len() == fr0.len() + found@.len(),
                    fd0.len() <= found@.len(),
                    found@.no_duplicates(),
                    forall|x: WindowId| #[trigger] found@.contains(x) ==> ids_of(w0).contains(x),
                decreases w0.len() - j,
            {
                let child = self.windows[j].id;
                let is_child = match self.windows[j].parent_id {
                    Some(p) => p == parent,
                    None => false,
                };
                if is_child && !list_contains(&found, child) {
                    proof {
                        assert(ids_of(w0)[j as int] == child);
                        assert(ids_of(w0).contains(child));
                        assert(found@.push(child).no_duplicates());
                        assert forall|x: WindowId| #[trigger] found@.push(child).contains(x) implies ids_of(
                            w0,
                        ).contains(x) by {
                            if x != child {
                                let i = choose|i: int| 0 <= i < found@.push(child).len() && found@.push(child)[i] == x;
                                assert(found@[i] == x);
                                assert(found@.contains(x));
                            }
                        }
                    }
                    frontier.push(child);
                    found.push(child);
                }
                j = j + 1;
            }
            proof {
                k = k + 1;
                lemma_found_bounded(w0, found@);
            }
        }
        proof {
            lemma_walk_stable(w0, id, k, (w0.len() + 1) as nat);
        }
        let mut i: usize = 0;
        while i < found.len()
            invariant
                i <= found@.len(),
                found@ == descendants_in_order(w0, id),
                self.windows@ == raise_all(w0, found@.take(i as int)),
                self.active == old(self).active,
                self.focus_history@ == old(self).focus_history@,
                self.id == old(self).id,
                self.output_id == old(self).output_id,
                self.mode == old(self).mode,
            decreases found@.len() - i,
        {
            let d = found[i];
            self.raise(d);
            proof {
                let t = found@.take(i + 1);
                assert(t.drop_last() =~= found@.take(i as int));
                assert(t.last() == d);
            }
            i = i + 1;
        }
        assert(found@.take(found@.len() as int) =~= found@);
    }

    /// Number of windows.
    pub fn len(&self) -> (n: usize)
        ensures
            n == self.windows@.len(),
    {
        self.windows.len()
    }

    /// Whether the workspace holds no window.
    pub fn is_empty(&self) -> (b: bool)
        ensures
            b == (self.windows@.len() == 0),
    {
        self.windows.len() == 0
    }

    /// Switches to tiled mode with `algorithm` laying windows out.
    pub fn switch_to_tiled(&mut self, algorithm: DwindleTree)
        ensures
            final(self).mode == WorkspaceMode::Tiled(algorithm),
            final(self).windows@ == old(self).windows@,
            final(self).active == old(self).active,
            final(self).focus_history@ == old(self).focus_history@,
            final(self).id == old(self).id,
            final(self).output_id == old(self).output_id,
    {
        self.mode = WorkspaceMode::Tiled(algorithm);
    }

    /// Switches back to floating mode.
    pub fn switch_to_floating(&mut self)
        ensures
            final(self).mode is Floating,
            final(self).windows@ == old(self).windows@,
            final(self).active == old(self).active,
            final(self).focus_history@ == old(self).focus_history@,
            final(self).id == old(self).id,
            final(self).output_id == old(self).output_id,
    {
        self.mode = WorkspaceMode::Floating;
    }

    /// Whether the workspace tiles its windows.
    pub fn is_tiled(&self) -> (b: bool)
        ensures
            b == (self.mode is Tiled),
    {
        match self.mode {
            WorkspaceMode::Tiled(_) => true,
            WorkspaceMode::Floating => false,
        }
    }
}

// ---------------------------------------------------------------------------
// Laws
// ---------------------------------------------------------------------------

/// Removing a window just added gives the workspace back: the same windows,
/// history and active window, for a window id the workspace does not use
/// and that is neither in the history nor active.
pub proof fn law_remove_undoes_add<E>(
    w: Seq<WindowEntry<E>>,
    history: Seq<WindowId>,
    active: Option<WindowId>,
    e: WindowEntry<E>,
)
    requires
        !ids_of(w).contains(e.id),
        !history.contains(e.id),
        active != Some(e.id),
    ensures
        first_match(w.push(e), has_id::<E>(e.id)) == w.len(),
        w.push(e)[w.len() as int] == e,
        w.push(e).remove(w.len() as int) == w,
        without(history, e.id) == history,
        active_after_removal(active, e.id, history) == active,
{
    let s = w.push(e);
    assert forall|j: int| 0 <= j < w.len() implies !has_id::<E>(e.id)(s[j]) by {
        assert(s[j] == w[j]);
        assert(ids_of(w)[j] == w[j].id);
        if w[j].id == e.id {
            assert(ids_of(w).contains(e.id));
        }
    }
    lemma_first_match(s, has_id::<E>(e.id), w.len() as int);
    assert(s.remove(w.len() as int) =~= w);
    lemma_without(history, e.id);
}

/// Raising a window twice is raising it once, when no two windows share an
/// id.
pub proof fn law_raise_idempotent<E>(w: Seq<WindowEntry<E>>, id: WindowId)
    requires
        ids_of(w).no_duplicates(),
    ensures
        raised(raised(w, id), id) == raised(w, id),
{
    let p = first_match(w, has_id::<E>(id));
    lemma_first_match_bounds(w, has_id::<E>(id));
    if p < w.len() {
        let e = w[p];
        let rest = w.remove(p);
        let q = first_match(rest, above_band::<E>(e.band));
        lemma_first_match_bounds(rest, above_band::<E>(e.band));
        let w1 = rest.insert(q, e);
        assert(has_id::<E>(id)(w[p]));
        assert forall|j: int| 0 <= j < rest.len() implies !has_id::<E>(id)(#[trigger] rest[j]) by {
            let k = if j < p { j } else { j + 1 };
            assert(rest[j] == w[k]);
            assert(ids_of(w)[k] == w[k].id);
            assert(ids_of(w)[p] == w[p].id);
        }
        assert forall|j: int| 0 <= j < q implies !has_id::<E>(id)(#[trigger] w1[j]) by {
            assert(w1[j] == rest[j]);
        }
        lemma_first_match(w1, has_id::<E>(id), q);
        assert(w1.remove(q) =~= rest);
        assert(w1[q] == e);
    }
}

/// The stack is ordered by band: no window sits below a window of a lower
/// band.
pub open spec fn band_sorted<E>(w: Seq<WindowEntry<E>>) -> bool {
    forall|i: int, j: int| 0 <= i < j < w.len() ==> band_rank((#[trigger] w[i]).band) <= band_rank((#[trigger] w[j]).band)
}

/// Raising a window takes it out of the stack and puts it back at one
/// place: every other window keeps its relative order. When the stack is
/// ordered by band, the raised window ends above every other window of its
/// band and below every window of a higher band, and the stack stays
/// ordered by band.
pub proof fn law_raise_tops_its_band<E>(w: Seq<WindowEntry<E>>, id: WindowId)
    requires
        holds_window(w, id),
    ensures
        ({
            let p = first_match(w, has_id::<E>(id));
            let e = w[p];
            let after = raised(w, id);
            let q = first_match(w.remove(p), above_band::<E>(e.band));
            &&& 0 <= q < after.len()
            &&& after[q] == e
            &&& after.remove(q) == w.remove(p)
            &&& band_sorted(w) ==> {
                &&& band_sorted(after)
                &&& forall|j: int| 0 <= j < after.len() && j != q && (#[trigger] after[j]).band == e.band ==> j < q
                &&& forall|j: int| q < j < after.len() ==> band_rank((#[trigger] after[j]).band) > band_rank(e.band)
            }
        }),
{
    let p = first_match(w, has_id::<E>(id));
    lemma_first_match_bounds(w, has_id::<E>(id));
    assert(p < w.len());
    let e = w[p];
    let rest = w.remove(p);
    let q = first_match(rest, above_band::<E>(e.band));
    lemma_first_match_bounds(rest, above_band::<E>(e.band));
    let after = rest.insert(q, e);
    assert(after.remove(q) =~= rest);
    if band_sorted(w) {
        assert forall|i: int, j: int| 0 <= i < j < rest.len() implies band_rank((#[trigger] rest[i]).band) <= band_rank(
            (#[trigger] rest[j]).band,
        ) by {
            let ii = if i < p { i } else { i + 1 };
            let jj = if j < p { j } else { j + 1 };
            assert(rest[i] == w[ii]);
            assert(rest[j] == w[jj]);
        }
        assert forall|j: int| q <= j < rest.len() implies band_rank((#[trigger] rest[j]).band) > band_rank(e.band) by {
            assert(above_band::<E>(e.band)(rest[q]));
            if j > q {
                assert(band_rank(rest[q].band) <= band_rank(rest[j].band));
            }
        }
        assert forall|j: int| 0 <= j < q implies band_rank((#[trigger] rest[j]).band) <= band_rank(e.band) by {
            assert(!above_band::<E>(e.band)(rest[j]));
        }
        assert forall|j: int| q < j < after.len() implies band_rank((#[trigger] after[j]).band) > band_rank(e.band) by {
            assert(after[j] == rest[j - 1]);
        }
        assert forall|i: int, j: int| 0 <= i < j < after.len() implies band_rank((#[trigger] after[i]).band) <= band_rank(
            (#[trigger] after[j]).band,
        ) by {
            if i < q {
                assert(after[i] == rest[i]);
            } else if i > q {
                assert(after[i] == rest[i - 1]);
            }
            if j < q {
                assert(after[j] == rest[j]);
            } else if j > q {
                assert(after[j] == rest[j - 1]);
            }
        }
        assert forall|j: int| 0 <= j < after.len() && j != q && (#[trigger] after[j]).band == e.band implies j < q by {
            if j > q {
                assert(after[j] == rest[j - 1]);
            }
        }
    }
}

/// Focusing (and raising) a window the workspace holds makes it the active
/// window and the most recent entry of the focus history (once, the history
/// staying free of duplicates), marks exactly the entries holding it as
/// activated, and keeps every window; when no two entries share an id, the
/// focused window is the only activated entry.
pub proof fn law_focus_activates_only_it<E>(w: Seq<WindowEntry<E>>, h: Seq<WindowId>, active: Option<WindowId>, id: WindowId)
    requires
        holds_window(w, id),
        history_wf(h),
    ensures
        ({
            let nw = focused_windows(w, id, true);
            let nh = focused_history(w, h, id);
            &&& focused_active(w, active, id) == Some(id)
            &&& nh.len() > 0 && nh.last() == id
            &&& history_wf(nh)
            &&& nw.len() == w.len()
            &&& holds_window(nw, id)
            &&& forall|j: int| 0 <= j < nw.len() ==> (#[trigger] nw[j]).activated == (nw[j].id == id)
            &&& ids_of(w).no_duplicates() ==> forall|j: int, k: int|
                0 <= j < nw.len() && 0 <= k < nw.len() && (#[trigger] nw[j]).id == id && (#[trigger] nw[k]).id == id ==> j == k
        }),
{
    let p = first_match(w, has_id::<E>(id));
    lemma_first_match_bounds(w, has_id::<E>(id));
    let wa = with_activated(w, id);
    assert(wa.len() == w.len());
    assert forall|j: int| 0 <= j < wa.len() implies (#[trigger] wa[j]).id == w[j].id && wa[j].activated == (w[j].id == id) by {}
    assert forall|j: int| 0 <= j < p implies !has_id::<E>(id)(#[trigger] wa[j]) by {
        assert(!has_id::<E>(id)(w[j]));
    }
    assert(has_id::<E>(id)(w[p]));
    lemma_first_match(wa, has_id::<E>(id), p);
    law_raise_tops_its_band(wa, id);
    let e = wa[p];
    let rest = wa.remove(p);
    let q = first_match(rest, above_band::<E>(e.band));
    let nw = raised(wa, id);
    assert(nw == focused_windows(w, id, true));
    assert(nw[q] == e);
    assert(nw.remove(q) == rest);
    // Every entry of `nw` is an entry of `wa`, at a known place.
    assert forall|j: int| 0 <= j < nw.len() && j != q implies {
        let k = if j < q { j } else { j - 1 };
        let m = if k < p { k } else { k + 1 };
        &&& 0 <= m < wa.len() && m != p
        &&& #[trigger] nw[j] == wa[m]
    } by {
        let k = if j < q { j } else { j - 1 };
        assert(nw.remove(q)[k] == nw[j]);
        assert(rest[k] == nw[j]);
    }
    assert forall|j: int| 0 <= j < nw.len() implies (#[trigger] nw[j]).activated == (nw[j].id == id) by {
        if j != q {
            let k = if j < q { j } else { j - 1 };
            let m = if k < p { k } else { k + 1 };
            assert(nw[j] == wa[m]);
        }
    }
    assert(holds_window(nw, id)) by {
        lemma_first_match_bounds(nw, has_id::<E>(id));
        reveal(first_match);
        assert(has_id::<E>(id)(nw[q]));
    }
    if ids_of(w).no_duplicates() {
        assert forall|j: int, k: int|
            0 <= j < nw.len() && 0 <= k < nw.len() && (#[trigger] nw[j]).id == id && (#[trigger] nw[k]).id == id implies j == k by {
            assert forall|t: int| 0 <= t < nw.len() && t != q implies (#[trigger] nw[t]).id != id by {
                let kk = if t < q { t } else { t - 1 };
                let m = if kk < p { kk } else { kk + 1 };
                assert(nw[t] == wa[m]);
                assert(ids_of(w)[m] == w[m].id);
                assert(ids_of(w)[p] == w[p].id);
            }
        }
    }
    lemma_without(h, id);
    let nh = without(h, id).push(id);
    assert forall|a: int, b: int| 0 <= a < b < nh.len() implies nh[a] != nh[b] by {
        if b == nh.len() - 1 {
            assert(without(h, id).contains(nh[a]));
        }
    }
}

/// Focusing and raising a window the stack holds only reorders the stack:
/// each entry afterwards is the entry from before at `src` of its position
/// (with the same id), and no two positions share a source.
#[verifier::spinoff_prover]
#[verifier::rlimit(50)]
pub proof fn lemma_focus_reorders<E>(w: Seq<WindowEntry<E>>, id: WindowId) -> (src: spec_fn(int) -> int)
    requires
        holds_window(w, id),
    ensures
        focused_windows(w, id, true).len() == w.len(),
        forall|j: int|
            0 <= j < w.len() ==> 0 <= #[trigger] src(j) < w.len() && focused_windows(w, id, true)[j].id == w[src(j)].id,
        forall|j: int, k: int| 0 <= j < w.len() && 0 <= k < w.len() && j != k ==> #[trigger] src(j) != #[trigger] src(k),
{
    let p = first_match(w, has_id::<E>(id));
    lemma_first_match_bounds(w, has_id::<E>(id));
    let wa = with_activated(w, id);
    assert forall|j: int| 0 <= j < p implies !has_id::<E>(id)(#[trigger] wa[j]) by {
        assert(!has_id::<E>(id)(w[j]));
    }
    assert(has_id::<E>(id)(w[p]));
    lemma_first_match(wa, has_id::<E>(id), p);
    law_raise_tops_its_band(wa, id);
    let rest = wa.remove(p);
    let q = first_match(rest, above_band::<E>(wa[p].band));
    let nw = raised(wa, id);
    assert(nw.remove(q) == rest);
    let src = |j: int| if j == q {
        p
    } else {
        let k = if j < q { j } else { j - 1 };
        if k < p { k } else { k + 1 }
    };
    assert forall|j: int| 0 <= j < w.len() implies 0 <= #[trigger] src(j) < w.len() && nw[j].id == w[src(j)].id by {
        if j != q {
            let k = if j < q { j } else { j - 1 };
            assert(nw.remove(q)[k] == nw[j]);
            assert(rest[k] == nw[j]);
        }
    }
    src
}

/// Removing the active window makes the most recently focused remaining
/// window active: the last entry of the focus history once the removed id is
/// dropped from it, or none when nothing remains; removing another window
/// leaves the active one alone.
pub proof fn law_removal_falls_back_to_most_recent<E>(w: Seq<WindowEntry<E>>, h: Seq<WindowId>, active: Option<WindowId>, id: WindowId)
    requires
        holds_window(w, id),
    ensures
        active == Some(id) ==> active_after_window_removal(w, h, active, id) == (if without(h, id).len() > 0 {
            Some(without(h, id)[without(h, id).len() - 1])
        } else {
            None
        }),
        active != Some(id) ==> active_after_window_removal(w, h, active, id) == active,
{
}

/// `first_match` is an index into the sequence or its length, and no
/// element before it matches.
pub proof fn lemma_first_match_bounds<A>(s: Seq<A>, f: spec_fn(A) -> bool)
    ensures
        0 <= first_match(s, f) <= s.len(),
        first_match(s, f) < s.len() ==> f(s[first_match(s, f)]),
        forall|j: int| 0 <= j < first_match(s, f) ==> !f(s[j]),
{
    reveal(first_match);
    if exists|i: int| 0 <= i < s.len() && f(s[i]) {
        let i = choose|i: int| 0 <= i < s.len() && f(s[i]);
        lemma_first_exists(s, f, i);
    }
}

/// Some element satisfies `f` at or before `i` first.
proof fn lemma_first_exists<A>(s: Seq<A>, f: spec_fn(A) -> bool, i: int)
    requires
        0 <= i < s.len(),
        f(s[i]),
    ensures
        exists|k: int| 0 <= k < s.len() && f(s[k]) && forall|j: int| 0 <= j < k ==> !f(s[j]),
    decreases i,
{
    if exists|j: int| 0 <= j < i && f(s[j]) {
        let j = choose|j: int| 0 <= j < i && f(s[j]);
        lemma_first_exists(s, f, j);
    } else {
        assert(0 <= i < s.len() && f(s[i]) && forall|j: int| 0 <= j < i ==> !f(s[j]));
    }
}

/// Raising or lowering a window reorders the stack without adding or
/// losing any entry.
pub proof fn law_restack_keeps_windows<E>(w: Seq<WindowEntry<E>>, id: WindowId)
    ensures
        raised(w, id).to_multiset() == w.to_multiset(),
        lowered(w, id).to_multiset() == w.to_multiset(),
        raised(w, id).len() == w.len(),
        lowered(w, id).len() == w.len(),
{
    let p = first_match(w, has_id::<E>(id));
    lemma_first_match_bounds(w, has_id::<E>(id));
    if p < w.len() {
        let e = w[p];
        let rest = w.remove(p);
        let q1 = first_match(rest, above_band::<E>(e.band));
        let q2 = first_match(rest, at_or_above_band::<E>(e.band));
        lemma_first_match_bounds(rest, above_band::<E>(e.band));
        lemma_first_match_bounds(rest, at_or_above_band::<E>(e.band));
        lemma_remove_insert_multiset(w, p, q1);
        lemma_remove_insert_multiset(w, p, q2);
    }
}

/// Moving one element of a sequence to another position keeps its
/// multiset and length.
proof fn lemma_remove_insert_multiset<A>(w: Seq<A>, p: int, q: int)
    requires
        0 <= p < w.len(),
        0 <= q < w.len(),
    ensures
        w.remove(p).insert(q, w[p]).to_multiset() == w.to_multiset(),
        w.remove(p).insert(q, w[p]).len() == w.len(),
{
    let e = w[p];
    let rest = w.remove(p);
    w.remove_ensures(p);
    let t = rest.insert(q, e);
    rest.insert_ensures(q, e);
    assert(t.remove(q) =~= rest);
    w.to_multiset_ensures();
    t.to_multiset_ensures();
    rest.to_multiset_ensures();
    assert(w.to_multiset().count(e) > 0) by {
        assert(w.contains(e));
    }
    assert(t.to_multiset().count(e) > 0) by {
        assert(t.contains(e));
    }
    assert(t[q] == e);
    assert(rest.to_multiset() =~= w.to_multiset().remove(e));
    assert(rest.to_multiset() =~= t.to_multiset().remove(e));
    assert forall|x: A| t.to_multiset().count(x) == w.to_multiset().count(x) by {
        if x == e {
            assert(rest.to_multiset().count(x) == w.to_multiset().count(x) - 1);
            assert(rest.to_multiset().count(x) == t.to_multiset().count(x) - 1);
        } else {
            assert(rest.to_multiset().count(x) == w.to_multiset().count(x));
            assert(rest.to_multiset().count(x) == t.to_multiset().count(x));
        }
    }
    assert(t.to_multiset() =~= w.to_multiset());
}

/// Focusing a window makes it the most recent entry of a history that stays
/// free of duplicates.
pub proof fn law_focus_most_recent(history: Seq<WindowId>, id: WindowId)
    requires
        history.no_duplicates(),
    ensures
        without(history, id).push(id).no_duplicates(),
        without(history, id).push(id).last() == id,
        forall|x: WindowId| #[trigger] history.contains(x) ==> without(history, id).push(id).contains(x),
{
    lemma_without(history, id);
    let h = without(history, id).push(id);
    assert forall|x: WindowId| #[trigger] history.contains(x) implies h.contains(x) by {
        if x == id {
            assert(h[h.len() - 1] == id);
        } else {
            assert(without(history, id).contains(x));
            let k = choose|k: int| 0 <= k < without(history, id).len() && without(history, id)[k] == x;
            assert(h[k] == x);
        }
    }
}

/// The indices of a band: in range, in that band, increasing, and every
/// window of the band is among them.
pub proof fn lemma_band_indices<E>(w: Seq<WindowEntry<E>>, b: ZBand)
    requires
        w.len() <= usize::MAX,
    ensures
        forall|k: int| 0 <= k < band_indices(w, b).len() ==> {
            &&& (#[trigger] band_indices(w, b)[k]) < w.len()
            &&& w[band_indices(w, b)[k] as int].band == b
        },
        forall|k1: int, k2: int|
            0 <= k1 < k2 < band_indices(w, b).len() ==> #[trigger] band_indices(w, b)[k1] < #[trigger] band_indices(
                w,
                b,
            )[k2],
        forall|j: usize| j < w.len() && w[j as int].band == b ==> #[trigger] band_indices(w, b).contains(j),
    decreases w.len(),
{
    if w.len() > 0 {
        let n = w.len();
        let p = w.drop_last();
        lemma_band_indices(p, b);
        let bp = band_indices(p, b);
        let bw = band_indices(w, b);
        let last = (n - 1) as usize;
        assert(w.last() == w[n - 1]);
        assert(bw == (if w[n - 1].band == b { bp.push(last) } else { bp }));
        assert forall|k: int| 0 <= k < bw.len() implies {
            &&& (#[trigger] bw[k]) < w.len()
            &&& w[bw[k] as int].band == b
        } by {
            if k < bp.len() {
                assert(bw[k] == bp[k]);
                assert(w[bp[k] as int] == p[bp[k] as int]);
            } else {
                assert(bw[k] == last);
            }
        }
        assert forall|k1: int, k2: int| 0 <= k1 < k2 < bw.len() implies #[trigger] bw[k1] < #[trigger] bw[k2] by {
            assert(bw[k1] == bp[k1]);
            if k2 < bp.len() {
                assert(bw[k2] == bp[k2]);
            } else {
                assert(bw[k2] == last);
            }
        }
        assert forall|j: usize| j < w.len() && w[j as int].band == b implies #[trigger] bw.contains(j) by {
            if j < n - 1 {
                assert(p[j as int] == w[j as int]);
                assert(bp.contains(j));
                let k = choose|k: int| 0 <= k < bp.len() && bp[k] == j;
                assert(bw[k] == j);
            } else {
                assert(bw[bp.len() as int] == j);
            }
        }
    }
}

/// The stacking order lists every window exactly once, band by band from
/// the bottom band up, and within a band in the order the windows are
/// stored (bottom to top).
pub proof fn law_z_order_is_stacking<E>(w: Seq<WindowEntry<E>>)
    requires
        w.len() <= usize::MAX,
    ensures
        z_order(w).no_duplicates(),
        z_order(w).len() == w.len(),
        forall|j: int| 0 <= j < w.len() ==> #[trigger] z_order(w).contains(j as usize),
        forall|a: int, c: int|
            0 <= a < c < z_order(w).len() ==> band_rank(w[#[trigger] z_order(w)[a] as int].band) <= band_rank(
                w[#[trigger] z_order(w)[c] as int].band,
            ),
        forall|a: int, c: int|
            0 <= a < c < z_order(w).len() && w[#[trigger] z_order(w)[a] as int].band == w[#[trigger] z_order(
                w,
            )[c] as int].band ==> z_order(w)[a] < z_order(w)[c],
{
    let b0 = band_indices(w, ZBand::Below);
    let b1 = band_indices(w, ZBand::Normal);
    let b2 = band_indices(w, ZBand::AlwaysOnTop);
    let b3 = band_indices(w, ZBand::Fullscreen);
    lemma_band_indices(w, ZBand::Below);
    lemma_band_indices(w, ZBand::Normal);
    lemma_band_indices(w, ZBand::AlwaysOnTop);
    lemma_band_indices(w, ZBand::Fullscreen);
    let z = z_order(w);
    let n0 = b0.len() as int;
    let n1 = n0 + b1.len();
    let n2 = n1 + b2.len();
    // Element at position `a` of `z`, with its band rank equal to its segment.
    assert forall|a: int| 0 <= a < z.len() implies {
        &&& (#[trigger] z[a]) < w.len()
        &&& band_rank(w[z[a] as int].band) == (if a < n0 { 0int } else if a < n1 { 1int } else if a < n2 { 2int } else { 3int })
    } by {
        if a < n0 {
            assert(z[a] == b0[a]);
        } else if a < n1 {
            assert(z[a] == b1[a - n0]);
        } else if a < n2 {
            assert(z[a] == b2[a - n1]);
        } else {
            assert(z[a] == b3[a - n2]);
        }
    }
    assert forall|a: int, c: int| 0 <= a < c < z.len() && band_rank(w[z[a] as int].band) == band_rank(w[z[c] as int].band) implies z[a] < z[c] by {
        {
            if c < n0 {
                assert(z[a] == b0[a] && z[c] == b0[c]);
            } else if c < n1 {
                assert(z[a] == b1[a - n0] && z[c] == b1[c - n0]);
            } else if c < n2 {
                assert(z[a] == b2[a - n1] && z[c] == b2[c - n1]);
            } else {
                assert(z[a] == b3[a - n2] && z[c] == b3[c - n2]);
            }
        }
    }
    assert forall|a: int, c: int| 0 <= a < c < z.len() implies z[a] != z[c] by {
        if band_rank(w[z[a] as int].band) == band_rank(w[z[c] as int].band) {
            assert(z[a] < z[c]);
        }
    }
    assert forall|a: int, c: int| 0 <= a < c < z.len() && w[#[trigger] z[a] as int].band == w[#[trigger] z[c] as int].band implies z[a] < z[c] by {
        assert(band_rank(w[z[a] as int].band) == band_rank(w[z[c] as int].band));
    }
    assert forall|j: int| 0 <= j < w.len() implies #[trigger] z.contains(j as usize) by {
        let u = j as usize;
        assert(w[u as int] == w[j]);
        match w[j].band {
            ZBand::Below => {
                assert(b0.contains(u));
                let k = choose|k: int| 0 <= k < b0.len() && b0[k] == u;
                assert(z[k] == u);
            },
            ZBand::Normal => {
                assert(b1.contains(u));
                let k = choose|k: int| 0 <= k < b1.len() && b1[k] == u;
                assert(z[n0 + k] == u);
            },
            ZBand::AlwaysOnTop => {
                assert(b2.contains(u));
                let k = choose|k: int| 0 <= k < b2.len() && b2[k] == u;
                assert(z[n1 + k] == u);
            },
            ZBand::Fullscreen => {
                assert(b3.contains(u));
                let k = choose|k: int| 0 <= k < b3.len() && b3[k] == u;
                assert(z[n2 + k] == u);
            },
        }
    }
    // Length: the indices are distinct and all below `w.len()`, and every
    // index occurs.
    let zs = z.to_set();
    let all = Set::new(|j: usize| 0 <= j < w.len());
    assert(zs =~= all) by {
        assert forall|j: usize| zs.contains(j) implies all.contains(j) by {
            let a = choose|a: int| 0 <= a < z.len() && z[a] == j;
        }
        assert forall|j: usize| all.contains(j) implies zs.contains(j) by {
            assert(z.contains(j as int as usize));
        }
    }
    z.unique_seq_to_set();
    lemma_index_set_len(w.len());
}

/// The set of indices below `n` has `n` elements.
proof fn lemma_index_set_len(n: nat)
    requires
        n <= usize::MAX + 1,
    ensures
        Set::new(|j: usize| 0 <= j < n).finite(),
        Set::new(|j: usize| 0 <= j < n).len() == n,
    decreases n,
{
    if n == 0 {
        assert(Set::new(|j: usize| 0 <= j < n) =~= Set::<usize>::empty());
    } else {
        lemma_index_set_len((n - 1) as nat);
        assert(Set::new(|j: usize| 0 <= j < n) =~= Set::new(|j: usize| 0 <= j < (n - 1) as nat).insert(
            (n - 1) as usize,
        ));
    }
}

/// The next per-window tiling override in the toggle-floating cycle: no
/// override, then forced floating (`Some(false)`), then forced tiled
/// (`Some(true)`), then no override again.
pub open spec fn toggled_override(o: Option<bool>) -> Option<bool> {
    match o {
        None => Some(false),
        Some(false) => Some(true),
        Some(true) => None,
    }
}

/// The next per-window tiling override in the toggle-floating cycle.
pub fn toggle_tiled_override(o: Option<bool>) -> (r: Option<bool>)
    ensures
        r == toggled_override(o),
{
    match o {
        None => Some(false),
        Some(false) => Some(true),
        Some(true) => None,
    }
}

/// Toggling floating three times restores a window's override, and each
/// toggle changes it.
pub proof fn law_toggle_floating_cycle(o: Option<bool>)
    ensures
        toggled_override(toggled_override(toggled_override(o))) == o,
        toggled_override(o) != o,
{
}

/// A window that has an entry is held.
pub proof fn lemma_holds_window_at<E>(w: Seq<WindowEntry<E>>, i: int)
    requires
        0 <= i < w.len(),
    ensures
        holds_window(w, w[i].id),
{
    lemma_first_match_bounds(w, has_id::<E>(w[i].id));
    if first_match(w, has_id::<E>(w[i].id)) >= w.len() {
        assert(!has_id::<E>(w[i].id)(w[i]));
    }
}

} // verus!
