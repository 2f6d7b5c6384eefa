//! Per-output state: the workspaces of a monitor and which one is shown,
//! and the workspace-level actions on it.
use vstd::prelude::*;

use crate::binds::Direction;
use crate::tiling::dwindle::DwindleTree;
use crate::tiling::{IdCounter, Point, Rect};
use crate::workspace::{
    active_after_window_removal, first_match, has_id, history_after_removal, holds_window, lemma_first_match,
    lemma_first_match_bounds, windows_after_removal, WindowEntry, WindowId, Workspace, WorkspaceId, WorkspaceMode,
};

verus! {

/// Identity of an output.
#[derive(Debug, Clone, Copy, PartialEq, Eq, Hash, Structural)]
pub struct OutputId(pub u32);

impl OutputId {
    /// A fresh id: the counter's current value, after which the counter
    /// moves on.
    pub fn allocate(counter: &mut IdCounter) -> (o: OutputId)
        ensures
            o.0 == old(counter).next_value(),
            final(counter).next_value() == crate::tiling::next_after(old(counter).next_value()),
    {
        OutputId(counter.take_next())
    }
}

/// Workspaces with id `id`.
pub open spec fn ws_has_id<E>(id: WorkspaceId) -> spec_fn(Workspace<E>) -> bool {
    |w: Workspace<E>| w.id == id
}

/// Index of the first workspace with id `id`, or the length when none.
pub open spec fn workspace_pos<E>(ws: Seq<Workspace<E>>, id: WorkspaceId) -> int {
    first_match(ws, ws_has_id::<E>(id))
}

/// No two workspaces share an id.
pub open spec fn workspace_ids_unique<E>(ws: Seq<Workspace<E>>) -> bool {
    forall|i: int, j: int| 0 <= i < j < ws.len() ==> ws[i].id != ws[j].id
}

/// A freshly created workspace `id` on output `output`.
pub open spec fn is_fresh_workspace<E>(w: Workspace<E>, id: WorkspaceId, output: OutputId) -> bool {
    &&& w.id == id
    &&& w.output_id == output
    &&& w.windows@.len() == 0
    &&& w.active is None
    &&& w.focus_history@.len() == 0
    &&& w.mode is Floating
    &&& w.wf()
}

/// `after` is `before` once workspace `target` is shown (see
/// `OutputState::switch_to`).
pub open spec fn switched_to<O, E>(before: OutputState<O, E>, after: OutputState<O, E>, target: WorkspaceId) -> bool {
    &&& after.wf()
    &&& after.id == before.id
    &&& after.output == before.output
    &&& after.last_seen_active == Some(target)
    &&& after.active_ws().id == target
    &&& {
        let p = workspace_pos(before.workspaces@, target);
        if p < before.workspaces@.len() {
            &&& after.workspaces@ == before.workspaces@
            &&& after.active_workspace == p
        } else {
            &&& after.workspaces@.len() == before.workspaces@.len() + 1
            &&& after.workspaces@.drop_last() == before.workspaces@
            &&& is_fresh_workspace(after.workspaces@.last(), target, before.id)
            &&& after.active_workspace == before.workspaces@.len()
        }
    }
}

/// The workspaces of one output; `output` is the compositor's handle on it.
#[derive(Debug)]
pub struct OutputState<O, E> {
    pub id: OutputId,
    pub output: O,
    pub workspaces: Vec<Workspace<E>>,
    pub active_workspace: usize,
    /// The workspace to restore on reconnect; `None` means the first.
    pub last_seen_active: Option<WorkspaceId>,
}

/// Result of moving the focused window to another workspace.
#[derive(Debug, Clone, Copy, PartialEq, Eq, Structural)]
pub enum MoveOutcome {
    /// The active workspace has no active window.
    NoFocusedWindow,
    /// The target is the active workspace; nothing changed.
    AlreadyOnTarget,
    /// The active window has no entry in the active workspace.
    RemoveFailed,
    /// The window moved.
    Moved,
}

impl<O, E> OutputState<O, E> {
    /// The active index is in range, workspace ids are distinct, and every
    /// focus history is free of duplicates.
    pub open spec fn wf(&self) -> bool {
        &&& self.active_workspace < self.workspaces@.len()
        &&& workspace_ids_unique(self.workspaces@)
        &&& forall|i: int| 0 <= i < self.workspaces@.len() ==> (#[trigger] self.workspaces@[i]).wf()
    }

    /// The shown workspace.
    pub open spec fn active_ws(&self) -> Workspace<E> {
        self.workspaces@[self.active_workspace as int]
    }

    /// State for a new output, holding workspace 1 (shown).
    pub fn new(output: O, counter: &mut IdCounter) -> (s: Self)
        ensures
            s.wf(),
            s.id.0 == old(counter).next_value(),
            final(counter).next_value() == crate::tiling::next_after(old(counter).next_value()),
            s.output == output,
            s.workspaces@.len() == 1,
            is_fresh_workspace(s.workspaces@[0], WorkspaceId(1), s.id),
            s.active_workspace == 0,
            s.last_seen_active is None,
    {
        let id = OutputId::allocate(counter);
        let initial_ws = Workspace::new(WorkspaceId(1), id);
        let mut workspaces: Vec<Workspace<E>> = Vec::new();
        workspaces.push(initial_ws);
        OutputState { id, output, workspaces, active_workspace: 0, last_seen_active: None }
    }

    /// The shown workspace.
    pub fn active(&self) -> (w: &Workspace<E>)
        requires
            self.wf(),
        ensures
            *w == self.active_ws(),
    {
        &self.workspaces[self.active_workspace]
    }

    /// The shown workspace, to change in place. The caller keeps the
    /// output well formed (distinct workspace ids, duplicate-free focus
    /// histories).
    pub fn active_mut(&mut self) -> (w: &mut Workspace<E>)
        requires
            old(self).wf(),
        ensures
            *w == old(self).active_ws(),
            final(self).workspaces@ == old(self).workspaces@.update(old(self).active_workspace as int, *final(w)),
            final(self).id == old(self).id,
            final(self).output == old(self).output,
            final(self).active_workspace == old(self).active_workspace,
            final(self).last_seen_active == old(self).last_seen_active,
    {
        let a = self.active_workspace;
        &mut self.workspaces[a]
    }

    /// Index of workspace `id`.
    fn position_of_workspace(&self, id: WorkspaceId) -> (r: usize)
        ensures
            r == workspace_pos(self.workspaces@, id),
            r <= self.workspaces@.len(),
    {
        let mut i: usize = 0;
        while i < self.workspaces.len()
            invariant
                i <= self.workspaces@.len(),
                forall|j: int| 0 <= j < i ==> !ws_has_id::<E>(id)(self.workspaces@[j]),
            decreases self.workspaces@.len() - i,
        {
            if self.workspaces[i].id == id {
                proof {
                    lemma_first_match(self.workspaces@, ws_has_id::<E>(id), i as int);
                }
                return i;
            }
            i = i + 1;
        }
        proof {
            lemma_first_match(self.workspaces@, ws_has_id::<E>(id), i as int);
        }
        i
    }

    /// Shows workspace `target`, creating it (empty, floating) after the
    /// existing ones when the output has none with that id; remembers it as
    /// the workspace to restore.
    pub fn switch_to(&mut self, target: WorkspaceId)
        requires
            old(self).wf(),
        ensures
            switched_to(*old(self), *final(self), target),
    {
        let idx = self.position_of_workspace(target);
        proof {
            lemma_first_match_bounds(self.workspaces@, ws_has_id::<E>(target));
        }
        if idx < self.workspaces.len() {
            self.active_workspace = idx;
        } else {
            let ghost before = self.workspaces@;
            let ws = Workspace::new(target, self.id);
            self.workspaces.push(ws);
            proof {
                assert(self.workspaces@.drop_last() =~= before);
                assert forall|i: int, j: int| 0 <= i < j < self.workspaces@.len() implies self.workspaces@[i].id
                    != self.workspaces@[j].id by {
                    if j == before.len() {
                        assert(!ws_has_id::<E>(target)(before[i]));
                    } else {
                        assert(self.workspaces@[i] == before[i]);
                        assert(self.workspaces@[j] == before[j]);
                    }
                }
                assert forall|i: int| 0 <= i < self.workspaces@.len() implies (#[trigger] self.workspaces@[i]).wf() by {
                    if i < before.len() {
                        assert(self.workspaces@[i] == before[i]);
                    }
                }
            }
            self.active_workspace = self.workspaces.len() - 1;
        }
        self.last_seen_active = Some(target);
    }

    /// Workspace `id`, if the output has it.
    pub fn workspace(&self, id: WorkspaceId) -> (r: Option<&Workspace<E>>)
        ensures
            ({
                let p = workspace_pos(self.workspaces@, id);
                if p < self.workspaces@.len() {
                    r == Some(&self.workspaces@[p])
                } else {
                    r is None
                }
            }),
    {
        let idx = self.position_of_workspace(id);
        if idx < self.workspaces.len() {
            Some(&self.workspaces[idx])
        } else {
            None
        }
    }

    /// Workspace `id`, if the output has it, to change in place. The caller
    /// keeps the output well formed.
    pub fn workspace_mut(&mut self, id: WorkspaceId) -> (r: Option<&mut Workspace<E>>)
        ensures
            ({
                let p = workspace_pos(old(self).workspaces@, id);
                &&& final(self).id == old(self).id
                &&& final(self).output == old(self).output
                &&& final(self).active_workspace == old(self).active_workspace
                &&& final(self).last_seen_active == old(self).last_seen_active
                &&& if p < old(self).workspaces@.len() {
                    &&& r is Some
                    &&& *r.unwrap() == old(self).workspaces@[p]
                    &&& final(self).workspaces@ == old(self).workspaces@.update(p, *final(r.unwrap()))
                } else {
                    &&& r is None
                    &&& final(self).workspaces@ == old(self).workspaces@
                }
            }),
    {
        let idx = self.position_of_workspace(id);
        if idx < self.workspaces.len() {
            Some(&mut self.workspaces[idx])
        } else {
            None
        }
    }

    /// Index of workspace `id`, if the output has it.
    pub fn workspace_index(&self, id: WorkspaceId) -> (r: Option<usize>)
        ensures
            ({
                let p = workspace_pos(self.workspaces@, id);
                if p < self.workspaces@.len() {
                    r == Some(p as usize)
                } else {
                    r is None
                }
            }),
    {
        let idx = self.position_of_workspace(id);
        if idx < self.workspaces.len() {
            Some(idx)
        } else {
            None
        }
    }
}

/// The entry moved to workspace `target`.
pub open spec fn retargeted<E>(e: WindowEntry<E>, target: WorkspaceId) -> WindowEntry<E> {
    WindowEntry { workspace_id: target, ..e }
}

/// `w` after losing window `id` as `Workspace::remove` does.
pub open spec fn workspace_without<E>(w: Workspace<E>, id: WindowId, after: Workspace<E>) -> bool {
    &&& after.id == w.id
    &&& after.output_id == w.output_id
    &&& after.mode == w.mode
    &&& after.windows@ == windows_after_removal(w.windows@, id)
    &&& after.focus_history@ == history_after_removal(w.windows@, w.focus_history@, id)
    &&& after.active == active_after_window_removal(w.windows@, w.focus_history@, w.active, id)
}

/// `w` after gaining `e` on top, as `Workspace::add` does.
pub open spec fn workspace_with<E>(w: Workspace<E>, e: WindowEntry<E>, after: Workspace<E>) -> bool {
    &&& after.id == w.id
    &&& after.output_id == w.output_id
    &&& after.mode == w.mode
    &&& after.windows@ == w.windows@.push(e)
    &&& after.focus_history@ == w.focus_history@
    &&& after.active == w.active
}

/// `after` is `before` once the focused window moved to `target` with
/// outcome `r` (see `OutputState::move_focused_window_to_workspace`).
pub open spec fn moved_focused_window<O, E>(before: OutputState<O, E>, after: OutputState<O, E>, target: WorkspaceId, r: MoveOutcome) -> bool {
    &&& after.wf()
    &&& after.id == before.id
    &&& after.output == before.output
    &&& (r != MoveOutcome::Moved ==> {
        &&& after.workspaces@ == before.workspaces@
        &&& after.active_workspace == before.active_workspace
        &&& after.last_seen_active == before.last_seen_active
    })
    &&& (r == MoveOutcome::Moved ==> {
        let a = before.active_workspace as int;
        let aw = before.active_ws();
        let f = aw.active.unwrap();
        let e = retargeted(aw.windows@[first_match(aw.windows@, has_id::<E>(f))], target);
        let q = workspace_pos(before.workspaces@, target);
        &&& after.active_workspace == before.active_workspace
        &&& workspace_without(aw, f, after.workspaces@[a])
        &&& if q < before.workspaces@.len() {
            &&& after.workspaces@.len() == before.workspaces@.len()
            &&& workspace_with(before.workspaces@[q], e, after.workspaces@[q])
            &&& forall|j: int| 0 <= j < before.workspaces@.len() && j != a && j != q
                ==> after.workspaces@[j] == before.workspaces@[j]
            &&& after.last_seen_active == before.last_seen_active
        } else {
            let n = before.workspaces@.len() as int;
            &&& after.workspaces@.len() == n + 1
            &&& forall|j: int| 0 <= j < n && j != a ==> after.workspaces@[j] == before.workspaces@[j]
            &&& after.workspaces@[n].id == target
            &&& after.workspaces@[n].output_id == before.id
            &&& after.workspaces@[n].windows@ == seq![e]
            &&& after.workspaces@[n].active is None
            &&& after.workspaces@[n].focus_history@.len() == 0
            &&& after.workspaces@[n].mode is Floating
            &&& after.last_seen_active == Some(aw.id)
        }
    })
}

impl<O, E> OutputState<O, E> {
    /// The outcome of moving the focused window to `target` (see
    /// `move_focused_window_to_workspace`).
    pub open spec fn move_outcome(&self, target: WorkspaceId) -> MoveOutcome {
        let aw = self.active_ws();
        match aw.active {
            None => MoveOutcome::NoFocusedWindow,
            Some(f) => if aw.id == target {
                MoveOutcome::AlreadyOnTarget
            } else if !holds_window(aw.windows@, f) {
                MoveOutcome::RemoveFailed
            } else {
                MoveOutcome::Moved
            },
        }
    }

    /// Moves the active window of the shown workspace to workspace `target`
    /// (on top of its stack, its entry retargeted). A missing target is
    /// created after the existing workspaces without being shown. Nothing
    /// changes unless the outcome is `Moved`.
    pub fn move_focused_window_to_workspace(&mut self, target: WorkspaceId) -> (r: MoveOutcome)
        requires
            old(self).wf(),
        ensures
            r == old(self).move_outcome(target),
            moved_focused_window(*old(self), *final(self), target, r),
    {
        let a = self.active_workspace;
        let focused_id = match self.workspaces[a].active {
            Some(f) => f,
            None => {
                return MoveOutcome::NoFocusedWindow;
            },
        };
        if self.workspaces[a].id == target {
            return MoveOutcome::AlreadyOnTarget;
        }
        let ghost old_ws = self.workspaces@;
        proof {
            lemma_first_match_bounds(old_ws[a as int].windows@, has_id::<E>(focused_id));
        }
        let removed = self.workspaces[a].remove(focused_id);
        let mut entry = match removed {
            Some(e) => e,
            None => {
                proof {
                    assert(self.workspaces@ =~= old_ws);
                }
                return MoveOutcome::RemoveFailed;
            },
        };
        entry.workspace_id = target;
        proof {
            lemma_without_keeps_wf(old_ws[a as int], self.workspaces@[a as int], focused_id);
            assert forall|i: int, j: int| 0 <= i < j < self.workspaces@.len() implies self.workspaces@[i].id
                != self.workspaces@[j].id by {
                assert(self.workspaces@[i].id == old_ws[i].id);
                assert(self.workspaces@[j].id == old_ws[j].id);
            }
            assert forall|i: int| 0 <= i < self.workspaces@.len() implies (#[trigger] self.workspaces@[i]).wf() by {
                if i != a {
                    assert(self.workspaces@[i] == old_ws[i]);
                }
            }
        }
        let q = self.position_of_workspace(target);
        proof {
            lemma_first_match_bounds(self.workspaces@, ws_has_id::<E>(target));
            assert forall|j: int| 0 <= j < self.workspaces@.len() implies ws_has_id::<E>(target)(self.workspaces@[j])
                == ws_has_id::<E>(target)(old_ws[j]) by {
                assert(self.workspaces@[j].id == old_ws[j].id);
            }
            if q < self.workspaces@.len() {
                lemma_first_match(old_ws, ws_has_id::<E>(target), q as int);
            } else {
                lemma_first_match(old_ws, ws_has_id::<E>(target), q as int);
            }
        }
        if q < self.workspaces.len() {
            let ghost mid = self.workspaces@;
            self.workspaces[q].add(entry);
            proof {
                assert forall|i: int, j: int| 0 <= i < j < self.workspaces@.len() implies self.workspaces@[i].id
                    != self.workspaces@[j].id by {
                    assert(self.workspaces@[i].id == mid[i].id);
                    assert(self.workspaces@[j].id == mid[j].id);
                }
                assert forall|i: int| 0 <= i < self.workspaces@.len() implies (#[trigger] self.workspaces@[i]).wf() by {
                    if i != q {
                        assert(self.workspaces@[i] == mid[i]);
                    }
                }
            }
        } else {
            let prev_active_id = self.workspaces[a].id;
            self.switch_to(target);
            let n = self.active_workspace;
            let ghost mid = self.workspaces@;
            let ghost moved_entry = entry;
            self.workspaces[n].add(entry);
            proof {
                assert(mid[n as int].windows@.len() == 0);
                assert(self.workspaces@[n as int].windows@ =~= seq![moved_entry]);
                assert forall|i: int, j: int| 0 <= i < j < self.workspaces@.len() implies self.workspaces@[i].id
                    != self.workspaces@[j].id by {
                    assert(self.workspaces@[i].id == mid[i].id);
                    assert(self.workspaces@[j].id == mid[j].id);
                }
                assert forall|i: int| 0 <= i < self.workspaces@.len() implies (#[trigger] self.workspaces@[i]).wf() by {
                    if i != n {
                        assert(self.workspaces@[i] == mid[i]);
                    }
                }
                lemma_first_match(self.workspaces@, ws_has_id::<E>(prev_active_id), a as int);
            }
            self.switch_to(prev_active_id);
        }
        MoveOutcome::Moved
    }
}

/// Removing a window keeps a workspace's focus history free of duplicates.
proof fn lemma_without_keeps_wf<E>(before: Workspace<E>, after: Workspace<E>, id: WindowId)
    requires
        before.wf(),
        after.focus_history@ == history_after_removal(before.windows@, before.focus_history@, id),
    ensures
        after.wf(),
{
    crate::workspace::lemma_without(before.focus_history@, id);
}

/// `after` is `before` once window `t` (if any) of the shown workspace was
/// focused and raised; nothing changes for `None`.
pub open spec fn focused_in_active<O, E>(before: OutputState<O, E>, after: OutputState<O, E>, t: Option<WindowId>) -> bool {
    &&& after.wf()
    &&& after.id == before.id
    &&& after.output == before.output
    &&& after.active_workspace == before.active_workspace
    &&& after.last_seen_active == before.last_seen_active
    &&& (t is None ==> after.workspaces@ == before.workspaces@)
    &&& (t matches Some(w) ==> {
        let a = before.active_workspace as int;
        let aw = before.active_ws();
        let nw = after.workspaces@[a];
        &&& after.workspaces@.len() == before.workspaces@.len()
        &&& forall|j: int| 0 <= j < before.workspaces@.len() && j != a ==> after.workspaces@[j] == before.workspaces@[j]
        &&& nw.id == aw.id
        &&& nw.output_id == aw.output_id
        &&& nw.mode == aw.mode
        &&& nw.windows@ == crate::workspace::focused_windows(aw.windows@, w, true)
        &&& nw.active == crate::workspace::focused_active(aw.windows@, aw.active, w)
        &&& nw.focus_history@ == crate::workspace::focused_history(aw.windows@, aw.focus_history@, w)
    })
}

impl<O, E> OutputState<O, E> {
    /// The window a focus-history step moves to: the one focused before the
    /// current one (FocusNext and FocusPrev both go there).
    pub open spec fn history_step_target(&self) -> Option<WindowId> {
        let h = self.active_ws().focus_history@;
        if h.len() >= 2 {
            Some(h[h.len() - 2])
        } else {
            None
        }
    }

    /// Steps back through the shown workspace's focus history: focuses and
    /// raises the previously focused window. Returns it, or `None` (nothing
    /// changed) when the history holds fewer than two windows.
    pub fn focus_history_step(&mut self, forward: bool) -> (r: Option<WindowId>)
        requires
            old(self).wf(),
        ensures
            r == old(self).history_step_target(),
            focused_in_active(*old(self), *final(self), r),
    {
        let a = self.active_workspace;
        let len = self.workspaces[a].focus_history.len();
        if len < 2 {
            return None;
        }
        let target = self.workspaces[a].focus_history[len - 2];
        self.focus_shown(target);
        Some(target)
    }

    /// Focuses and raises window `w` of the shown workspace (nothing changes
    /// when that workspace has no such window).
    pub fn focus_shown(&mut self, w: WindowId)
        requires
            old(self).wf(),
        ensures
            focused_in_active(*old(self), *final(self), Some(w)),
    {
        let a = self.active_workspace;
        let ghost before = self.workspaces@;
        self.workspaces[a].focus(w, true);
        proof {
            assert forall|i: int, j: int| 0 <= i < j < self.workspaces@.len() implies self.workspaces@[i].id
                != self.workspaces@[j].id by {
                assert(self.workspaces@[i].id == before[i].id);
                assert(self.workspaces@[j].id == before[j].id);
            }
            assert forall|i: int| 0 <= i < self.workspaces@.len() implies (#[trigger] self.workspaces@[i]).wf() by {
                if i != a {
                    assert(self.workspaces@[i] == before[i]);
                }
            }
        }
    }

    /// Shows workspace `target` in response to a switch binding. Returns
    /// `None`, changing nothing, when it is already shown; otherwise switches
    /// (creating it if needed) and returns whether the switch goes forward
    /// (to a higher workspace number), which decides the slide direction.
    pub fn switch_workspace_action(&mut self, target: WorkspaceId) -> (r: Option<bool>)
        requires
            old(self).wf(),
        ensures
            final(self).wf(),
            old(self).active_ws().id == target ==> r is None && *final(self) == *old(self),
            old(self).active_ws().id != target ==> {
                &&& r == Some(target.0 > old(self).active_ws().id.0)
                &&& switched_to(*old(self), *final(self), target)
            },
    {
        let prev_id = self.workspaces[self.active_workspace].id;
        if prev_id == target {
            return None;
        }
        let going_forward = target.0 > prev_id.0;
        self.switch_to(target);
        Some(going_forward)
    }
}

/// Switching to a workspace twice is switching once: the second switch
/// finds the workspace the first one showed (or created) and keeps it.
pub proof fn law_switch_idempotent<O, E>(
    s0: OutputState<O, E>,
    s1: OutputState<O, E>,
    s2: OutputState<O, E>,
    target: WorkspaceId,
)
    requires
        s0.wf(),
        switched_to(s0, s1, target),
        switched_to(s1, s2, target),
    ensures
        s2.workspaces@ == s1.workspaces@,
        s2.active_workspace == s1.active_workspace,
        s2.active_ws().id == target,
{
    let a = s1.active_workspace as int;
    assert forall|j: int| 0 <= j < a implies !ws_has_id::<E>(target)(s1.workspaces@[j]) by {
        assert(s1.workspaces@[j].id != s1.workspaces@[a].id);
    }
    lemma_first_match(s1.workspaces@, ws_has_id::<E>(target), a);
}

/// A window as the compositor's scene places it: its id and on-screen
/// rectangle.
#[derive(Debug, Clone, Copy, PartialEq, Eq, Structural)]
pub struct PlacedWindow {
    pub id: WindowId,
    pub rect: Rect,
}

/// Twice the horizontal centre of `r` (an integer, unlike the centre).
pub open spec fn centre2_x(r: Rect) -> int {
    2 * r.x + r.w
}

/// Twice the vertical centre of `r`.
pub open spec fn centre2_y(r: Rect) -> int {
    2 * r.y + r.h
}

/// Absolute value.
pub open spec fn abs_int(a: int) -> int {
    if a < 0 {
        -a
    } else {
        a
    }
}

/// A centre offset of (`dx`/2, `dy`/2) points in direction `dir`: more than
/// one pixel that way, and at least as far that way as across.
pub open spec fn lies_toward(dx: int, dy: int, dir: Direction) -> bool {
    match dir {
        Direction::Left => dx < -2 && abs_int(dx) >= abs_int(dy),
        Direction::Right => dx > 2 && abs_int(dx) >= abs_int(dy),
        Direction::Up => dy < -2 && abs_int(dy) >= abs_int(dx),
        Direction::Down => dy > 2 && abs_int(dy) >= abs_int(dx),
    }
}

/// The squared distance between the centres of `a` and `b`, rounded down.
pub open spec fn centre_distance(a: Rect, b: Rect) -> int {
    let dx = centre2_x(b) - centre2_x(a);
    let dy = centre2_y(b) - centre2_y(a);
    (dx * dx + dy * dy) / 4
}

/// Scene entries for window `id`.
pub open spec fn placed_has_id(id: WindowId) -> spec_fn(PlacedWindow) -> bool {
    |p: PlacedWindow| p.id == id
}

/// `p` may take the focus from window `focused` (at `from`) in direction
/// `dir`: another window of workspace `ws` whose centre lies that way.
pub open spec fn direction_candidate<E>(ws: Workspace<E>, focused: WindowId, from: Rect, p: PlacedWindow, dir: Direction) -> bool {
    &&& p.id != focused
    &&& holds_window(ws.windows@, p.id)
    &&& lies_toward(centre2_x(p.rect) - centre2_x(from), centre2_y(p.rect) - centre2_y(from), dir)
}

/// Among the first `n` scene entries, the index of the first candidate at
/// the smallest distance.
pub open spec fn best_toward<E>(
    ws: Workspace<E>,
    focused: WindowId,
    from: Rect,
    scene: Seq<PlacedWindow>,
    dir: Direction,
    n: int,
) -> Option<int>
    decreases n,
{
    if n <= 0 {
        None
    } else {
        let b = best_toward(ws, focused, from, scene, dir, n - 1);
        if direction_candidate(ws, focused, from, scene[n - 1], dir) && (b is None || centre_distance(
            from,
            scene[n - 1].rect,
        ) < centre_distance(from, scene[b.unwrap()].rect)) {
            Some(n - 1)
        } else {
            b
        }
    }
}

/// The window a directional focus move on workspace `ws` goes to, given the
/// scene: the nearest window of the workspace whose centre lies in `dir`
/// from the active window's centre (the first such in scene order on a
/// tie); `None` without an active window placed in the scene or without a
/// candidate.
pub open spec fn direction_target<E>(ws: Workspace<E>, scene: Seq<PlacedWindow>, dir: Direction) -> Option<WindowId> {
    match ws.active {
        None => None,
        Some(f) => {
            let i = first_match(scene, placed_has_id(f));
            if i >= scene.len() {
                None
            } else {
                match best_toward(ws, f, scene[i].rect, scene, dir, scene.len() as int) {
                    Some(k) => Some(scene[k].id),
                    None => None,
                }
            }
        },
    }
}

/// Index of window `id` in the scene, or its length.
fn scene_position(scene: &Vec<PlacedWindow>, id: WindowId) -> (r: usize)
    ensures
        r == first_match(scene@, placed_has_id(id)),
{
    let mut i: usize = 0;
    while i < scene.len()
        invariant
            i <= scene@.len(),
            forall|j: int| 0 <= j < i ==> !placed_has_id(id)(#[trigger] scene@[j]),
        decreases scene@.len() - i,
    {
        if scene[i].id == id {
            proof {
                lemma_first_match(scene@, placed_has_id(id), i as int);
            }
            return i;
        }
        i = i + 1;
    }
    proof {
        lemma_first_match(scene@, placed_has_id(id), i as int);
    }
    i
}

/// `centre_distance`, computed.
fn distance(a: Rect, b: Rect) -> (d: i128)
    ensures
        d == centre_distance(a, b),
{
    let dx: i128 = (2 * (b.x as i128) + b.w as i128) - (2 * (a.x as i128) + a.w as i128);
    let dy: i128 = (2 * (b.y as i128) + b.h as i128) - (2 * (a.y as i128) + a.h as i128);
    assert(dx * dx <= 0x1_0000_0000_0000_0000_0000 && dy * dy <= 0x1_0000_0000_0000_0000_0000) by (nonlinear_arith)
        requires
            -0x10_0000_0000 <= dx <= 0x10_0000_0000,
            -0x10_0000_0000 <= dy <= 0x10_0000_0000,
    ;
    assert(dx * dx >= 0 && dy * dy >= 0) by (nonlinear_arith);
    (dx * dx + dy * dy) / 4
}

/// `lies_toward`, computed on centre offsets.
fn toward(dx: i64, dy: i64, dir: Direction) -> (b: bool)
    requires
        -0x10_0000_0000 <= dx <= 0x10_0000_0000,
        -0x10_0000_0000 <= dy <= 0x10_0000_0000,
    ensures
        b == lies_toward(dx as int, dy as int, dir),
{
    let ax: i64 = if dx < 0 {
        -dx
    } else {
        dx
    };
    let ay: i64 = if dy < 0 {
        -dy
    } else {
        dy
    };
    match dir {
        Direction::Left => dx < -2 && ax >= ay,
        Direction::Right => dx > 2 && ax >= ay,
        Direction::Up => dy < -2 && ay >= ax,
        Direction::Down => dy > 2 && ay >= ax,
    }
}

impl<O, E> OutputState<O, E> {
    /// The window a directional focus move goes to (see `direction_target`),
    /// given the scene's windows in scene order.
    pub fn direction_target(&self, scene: &Vec<PlacedWindow>, dir: Direction) -> (r: Option<WindowId>)
        requires
            self.wf(),
        ensures
            r == direction_target(self.active_ws(), scene@, dir),
    {
        let ws = self.active();
        let f = match ws.active {
            Some(f) => f,
            None => {
                return None;
            },
        };
        let i = scene_position(scene, f);
        proof {
            lemma_first_match_bounds(scene@, placed_has_id(f));
        }
        if i >= scene.len() {
            return None;
        }
        let from = scene[i].rect;
        let mut best: Option<(i128, usize)> = None;
        let mut k: usize = 0;
        while k < scene.len()
            invariant
                k <= scene@.len(),
                *ws == self.active_ws(),
                match best {
                    None => best_toward(*ws, f, from, scene@, dir, k as int) is None,
                    Some((d, b)) => best_toward(*ws, f, from, scene@, dir, k as int) == Some(b as int) && b < k
                        && d == centre_distance(from, scene@[b as int].rect),
                },
            decreases scene@.len() - k,
        {
            let p = scene[k];
            if p.id != f && ws.find_index(p.id).is_some() {
                let dx: i64 = (2 * (p.rect.x as i64) + p.rect.w as i64) - (2 * (from.x as i64) + from.w as i64);
                let dy: i64 = (2 * (p.rect.y as i64) + p.rect.h as i64) - (2 * (from.y as i64) + from.h as i64);
                if toward(dx, dy, dir) {
                    let d = distance(from, p.rect);
                    let better = match best {
                        None => true,
                        Some((bd, _)) => d < bd,
                    };
                    if better {
                        best = Some((d, k));
                    }
                }
            }
            k = k + 1;
        }
        match best {
            Some((_, b)) => Some(scene[b].id),
            None => None,
        }
    }

    /// Moves the focus from the active window to the nearest window of the
    /// shown workspace in direction `dir` (see `direction_target`), raising
    /// it. Returns that window; nothing changes for `None`.
    pub fn focus_direction(&mut self, scene: &Vec<PlacedWindow>, dir: Direction) -> (r: Option<WindowId>)
        requires
            old(self).wf(),
        ensures
            r == direction_target(old(self).active_ws(), scene@, dir),
            focused_in_active(*old(self), *final(self), r),
    {
        let t = self.direction_target(scene, dir);
        match t {
            Some(w) => {
                self.focus_shown(w);
                Some(w)
            },
            None => None,
        }
    }
}

/// How far one move-window step shifts a window, in logical pixels.
pub const MOVE_STEP: i32 = 50;

/// The offset of one move-window step in direction `dir`.
pub open spec fn step_offset(dir: Direction) -> (int, int) {
    match dir {
        Direction::Left => (-MOVE_STEP as int, 0),
        Direction::Right => (MOVE_STEP as int, 0),
        Direction::Up => (0, -MOVE_STEP as int),
        Direction::Down => (0, MOVE_STEP as int),
    }
}

impl<O, E> OutputState<O, E> {
    /// Index of the active window's entry in the shown workspace, when it
    /// has one.
    pub open spec fn active_entry_pos(&self) -> Option<int> {
        let w = self.active_ws();
        match w.active {
            Some(f) => if holds_window(w.windows@, f) {
                Some(first_match(w.windows@, has_id::<E>(f)))
            } else {
                None
            },
            None => None,
        }
    }

    /// Shifts the active window of the shown workspace one step in
    /// direction `dir`; nothing changes without an active window entry.
    /// Returns whether a window moved.
    pub fn move_active_window(&mut self, dir: Direction) -> (moved: bool)
        requires
            old(self).wf(),
            old(self).active_entry_pos() matches Some(i) ==> {
                let loc = old(self).active_ws().windows@[i].location;
                &&& i32::MIN <= loc.x + step_offset(dir).0 <= i32::MAX
                &&& i32::MIN <= loc.y + step_offset(dir).1 <= i32::MAX
            },
        ensures
            final(self).wf(),
            moved == old(self).active_entry_pos() is Some,
            !moved ==> *final(self) == *old(self),
            old(self).active_entry_pos() matches Some(i) ==> {
                let a = old(self).active_workspace as int;
                let e = old(self).active_ws().windows@[i];
                let moved_entry = WindowEntry {
                    location: (Point {
                        x: (e.location.x + step_offset(dir).0) as i32,
                        y: (e.location.y + step_offset(dir).1) as i32,
                    }),
                    ..e
                };
                let nw = final(self).workspaces@[a];
                &&& final(self).id == old(self).id
                &&& final(self).output == old(self).output
                &&& final(self).active_workspace == old(self).active_workspace
                &&& final(self).last_seen_active == old(self).last_seen_active
                &&& final(self).workspaces@.len() == old(self).workspaces@.len()
                &&& forall|j: int| 0 <= j < old(self).workspaces@.len() && j != a ==> final(self).workspaces@[j] == old(self).workspaces@[j]
                &&& nw.id == old(self).active_ws().id
                &&& nw.output_id == old(self).active_ws().output_id
                &&& nw.mode == old(self).active_ws().mode
                &&& nw.active == old(self).active_ws().active
                &&& nw.focus_history@ == old(self).active_ws().focus_history@
                &&& nw.windows@ == old(self).active_ws().windows@.update(i, moved_entry)
            },
    {
        let a = self.active_workspace;
        let f = match self.workspaces[a].active {
            Some(f) => f,
            None => {
                return false;
            },
        };
        let i = match self.workspaces[a].find_index(f) {
            Some(i) => i,
            None => {
                return false;
            },
        };
        proof {
            lemma_first_match_bounds(self.workspaces@[a as int].windows@, has_id::<E>(f));
        }
        let (dx, dy): (i32, i32) = match dir {
            Direction::Left => (-MOVE_STEP, 0),
            Direction::Right => (MOVE_STEP, 0),
            Direction::Up => (0, -MOVE_STEP),
            Direction::Down => (0, MOVE_STEP),
        };
        let ghost before = self.workspaces@;
        let count = self.workspaces[a].windows.len();
        assert(i < count);
        let loc = self.workspaces[a].windows[i].location;
        self.workspaces[a].windows[i].location = Point { x: loc.x + dx, y: loc.y + dy };
        proof {
            assert forall|p: int, q: int| 0 <= p < q < self.workspaces@.len() implies self.workspaces@[p].id
                != self.workspaces@[q].id by {
                assert(self.workspaces@[p].id == before[p].id);
                assert(self.workspaces@[q].id == before[q].id);
            }
            assert forall|j: int| 0 <= j < self.workspaces@.len() implies (#[trigger] self.workspaces@[j]).wf() by {
                if j != a {
                    assert(self.workspaces@[j] == before[j]);
                }
            }
        }
        true
    }
}

/// The area a new tiling layout covers: the output's current mode at
/// scale one, from the origin; empty without a mode.
pub open spec fn tiling_area(mode_size: Option<(i32, i32)>) -> Rect {
    match mode_size {
        Some((w, h)) => Rect { x: 0, y: 0, w, h },
        None => Rect { x: 0, y: 0, w: 0, h: 0 },
    }
}

impl<O, E> OutputState<O, E> {
    /// Toggles the shown workspace between floating and tiled; a fresh
    /// dwindle layout covers the output's current mode (`mode_size`, width
    /// and height). Returns whether the workspace is now tiled.
    pub fn toggle_active_tiling(&mut self, mode_size: Option<(i32, i32)>) -> (tiled: bool)
        requires
            old(self).wf(),
        ensures
            final(self).wf(),
            tiled == !(old(self).active_ws().mode is Tiled),
            ({
                let a = old(self).active_workspace as int;
                let nw = final(self).workspaces@[a];
                &&& final(self).id == old(self).id
                &&& final(self).output == old(self).output
                &&& final(self).active_workspace == old(self).active_workspace
                &&& final(self).last_seen_active == old(self).last_seen_active
                &&& final(self).workspaces@.len() == old(self).workspaces@.len()
                &&& forall|j: int| 0 <= j < old(self).workspaces@.len() && j != a ==> final(self).workspaces@[j] == old(self).workspaces@[j]
                &&& nw.id == old(self).active_ws().id
                &&& nw.output_id == old(self).active_ws().output_id
                &&& nw.windows@ == old(self).active_ws().windows@
                &&& nw.active == old(self).active_ws().active
                &&& nw.focus_history@ == old(self).active_ws().focus_history@
                &&& !tiled ==> nw.mode is Floating
                &&& tiled ==> (nw.mode matches WorkspaceMode::Tiled(t) && t.wf() && t.root is None && t.work_area
                    == tiling_area(mode_size))
            }),
    {
        let a = self.active_workspace;
        let ghost before = self.workspaces@;
        let tiled = if self.workspaces[a].is_tiled() {
            self.workspaces[a].switch_to_floating();
            false
        } else {
            let area = match mode_size {
                Some((w, h)) => Rect { x: 0, y: 0, w, h },
                None => Rect { x: 0, y: 0, w: 0, h: 0 },
            };
            self.workspaces[a].switch_to_tiled(DwindleTree::new(area));
            true
        };
        proof {
            assert forall|p: int, q: int| 0 <= p < q < self.workspaces@.len() implies self.workspaces@[p].id
                != self.workspaces@[q].id by {
                assert(self.workspaces@[p].id == before[p].id);
                assert(self.workspaces@[q].id == before[q].id);
            }
            assert forall|j: int| 0 <= j < self.workspaces@.len() implies (#[trigger] self.workspaces@[j]).wf() by {
                if j != a {
                    assert(self.workspaces@[j] == before[j]);
                }
            }
        }
        tiled
    }
}

/// Index of the first mode a connector flags as preferred, or the first
/// mode when none is.
pub open spec fn preferred_mode(preferred: Seq<bool>) -> int {
    let i = first_match(preferred, |b: bool| b);
    if i < preferred.len() {
        i
    } else {
        0
    }
}

/// A DRM driver name or description that mentions NVIDIA, in any case.
pub open spec fn mentions_nvidia(s: Seq<char>) -> bool {
    crate::text::has_substring(crate::text::unicode_lowercase(s), "nvidia"@)
}

/// Whether a newly connected output must go without overlay planes: they
/// break on NVIDIA hardware, recognised by the driver's name or description
/// containing "nvidia" in any case.
pub fn disables_overlay_planes(driver: &str, desc: &str) -> (b: bool)
    ensures
        b == (mentions_nvidia(driver@) || mentions_nvidia(desc@)),
{
    let d = crate::text::to_lowercase(driver);
    if crate::text::contains_str(d.as_str(), "nvidia") {
        return true;
    }
    let e = crate::text::to_lowercase(desc);
    crate::text::contains_str(e.as_str(), "nvidia")
}

/// Picks the mode a newly connected output starts in: the first one its
/// connector flags as preferred (`preferred[i]` for mode `i`), else the
/// first.
pub fn preferred_mode_index(preferred: &Vec<bool>) -> (i: usize)
    ensures
        i == preferred_mode(preferred@),
{
    let mut i: usize = 0;
    while i < preferred.len()
        invariant
            i <= preferred@.len(),
            forall|j: int| 0 <= j < i ==> !preferred@[j],
        decreases preferred@.len() - i,
    {
        if preferred[i] {
            proof {
                lemma_first_match(preferred@, |b: bool| b, i as int);
            }
            return i;
        }
        i = i + 1;
    }
    proof {
        lemma_first_match(preferred@, |b: bool| b, i as int);
    }
    0
}

/// The sum of `widths`.
pub open spec fn width_sum(widths: Seq<i32>) -> int
    decreases widths.len(),
{
    if widths.len() == 0 {
        0
    } else {
        width_sum(widths.drop_last()) + widths.last()
    }
}

/// Where a newly connected output goes: to the right of the outputs already
/// laid out (`widths`, in layout order), at the sum of their widths.
pub fn next_output_x(widths: &Vec<i32>) -> (x: i32)
    requires
        forall|k: int| 0 <= k <= widths@.len() ==> i32::MIN <= #[trigger] width_sum(widths@.take(k)) <= i32::MAX,
    ensures
        x == width_sum(widths@),
{
    let mut x: i32 = 0;
    let mut i: usize = 0;
    while i < widths.len()
        invariant
            i <= widths@.len(),
            x == width_sum(widths@.take(i as int)),
            forall|k: int| 0 <= k <= widths@.len() ==> i32::MIN <= #[trigger] width_sum(widths@.take(k)) <= i32::MAX,
        decreases widths@.len() - i,
    {
        proof {
            assert(widths@.take(i + 1).drop_last() =~= widths@.take(i as int));
            assert(i32::MIN <= width_sum(widths@.take(i + 1)) <= i32::MAX);
        }
        x = x + widths[i];
        i = i + 1;
    }
    proof {
        assert(widths@.take(widths@.len() as int) =~= widths@);
    }
    x
}

/// The focused output once output `id` connected: the first output to
/// connect takes the focus.
pub open spec fn focus_after_connect(focused: Option<OutputId>, id: OutputId) -> Option<OutputId> {
    if focused is None {
        Some(id)
    } else {
        focused
    }
}

/// The focused output once output `gone` disconnected, leaving `rest`: a
/// focus on it moves to the first remaining output (none without one).
pub open spec fn focus_after_disconnect<O, E>(focused: Option<OutputId>, gone: OutputId, rest: Seq<OutputState<O, E>>) -> Option<OutputId> {
    if focused == Some(gone) {
        if rest.len() > 0 {
            Some(rest[0].id)
        } else {
            None
        }
    } else {
        focused
    }
}

/// Adds the state of a newly connected output; the first output to connect
/// takes the focus.
pub fn register_output<O, E>(outputs: &mut Vec<OutputState<O, E>>, focused: &mut Option<OutputId>, state: OutputState<O, E>)
    ensures
        final(outputs)@ == old(outputs)@.push(state),
        *final(focused) == focus_after_connect(*old(focused), state.id),
{
    let id = state.id;
    outputs.push(state);
    if focused.is_none() {
        *focused = Some(id);
    }
}

/// Forgets the state of output `i`, which was disconnected, and returns it.
/// When it had the focus, the focus moves to the first remaining output
/// (none when no output remains).
pub fn remove_output<O, E>(outputs: &mut Vec<OutputState<O, E>>, focused: &mut Option<OutputId>, i: usize) -> (removed: OutputState<O, E>)
    requires
        i < old(outputs)@.len(),
    ensures
        removed == old(outputs)@[i as int],
        final(outputs)@ == old(outputs)@.remove(i as int),
        *final(focused) == focus_after_disconnect(*old(focused), removed.id, final(outputs)@),
{
    let removed = outputs.remove(i);
    if *focused == Some(removed.id) {
        *focused = if outputs.len() > 0 {
            Some(outputs[0].id)
        } else {
            None
        };
    }
    removed
}

/// Unplugging an output right after plugging it in restores the outputs,
/// and the focus too when it was on another output or there was no output.
pub proof fn law_disconnect_undoes_connect<O, E>(outputs: Seq<OutputState<O, E>>, focused: Option<OutputId>, state: OutputState<O, E>)
    requires
        focused != Some(state.id),
        focused is Some || outputs.len() == 0,
    ensures
        outputs.push(state).remove(outputs.len() as int) == outputs,
        focus_after_disconnect(focus_after_connect(focused, state.id), state.id, outputs) == focused,
{
    assert(outputs.push(state).remove(outputs.len() as int) =~= outputs);
}

/// No window id occurs twice among the stacks of an output's workspaces.
pub open spec fn window_ids_unique<E>(ws: Seq<Workspace<E>>) -> bool {
    forall|i: int, j: int, k: int, l: int|
        0 <= i < ws.len() && 0 <= k < ws.len() && 0 <= j < ws[i].windows@.len() && 0 <= l < ws[k].windows@.len() && (
        i != k || j != l) ==> #[trigger] ws[i].windows@[j].id != #[trigger] ws[k].windows@[l].id
}

/// Some workspace's stack holds window `x`.
pub open spec fn holds_anywhere<E>(ws: Seq<Workspace<E>>, x: WindowId) -> bool {
    exists|i: int, j: int| 0 <= i < ws.len() && 0 <= j < ws[i].windows@.len() && #[trigger] ws[i].windows@[j].id == x
}

/// Where the entry at position (`i`, `j`) after a move came from: the shown
/// workspace `a` lost position `fp`, whose entry went on top of workspace
/// `q` (then holding `qlen` entries).
spec fn moved_from(i: int, j: int, a: int, fp: int, q: int, qlen: int) -> (int, int) {
    if i == a {
        (a, if j < fp { j } else { j + 1 })
    } else if i == q && j == qlen {
        (a, fp)
    } else {
        (i, j)
    }
}

/// Moving the focused window loses no window and duplicates none: when no
/// window id occurs twice on the output before, none does after, the same
/// windows are held, and the moved window is held only by the target
/// workspace.
pub proof fn law_move_keeps_every_window_once<O, E>(before: OutputState<O, E>, after: OutputState<O, E>, t: WorkspaceId)
    requires
        before.wf(),
        before.move_outcome(t) == MoveOutcome::Moved,
        moved_focused_window(before, after, t, MoveOutcome::Moved),
        window_ids_unique(before.workspaces@),
    ensures
        window_ids_unique(after.workspaces@),
        forall|x: WindowId| holds_anywhere(after.workspaces@, x) <==> holds_anywhere(before.workspaces@, x),
        forall|i: int, j: int|
            0 <= i < after.workspaces@.len() && 0 <= j < after.workspaces@[i].windows@.len()
                && #[trigger] after.workspaces@[i].windows@[j].id == before.active_ws().active.unwrap()
                ==> after.workspaces@[i].id == t,
{
    let b = before.workspaces@;
    let aa = after.workspaces@;
    let a = before.active_workspace as int;
    let aw = before.active_ws();
    let f = aw.active.unwrap();
    let fp = first_match(aw.windows@, has_id::<E>(f));
    lemma_first_match_bounds(aw.windows@, has_id::<E>(f));
    assert(fp < aw.windows@.len()) by {
        reveal(first_match);
    }
    let q = workspace_pos(b, t);
    lemma_first_match_bounds(b, ws_has_id::<E>(t));
    let n = b.len() as int;
    let qlen: int = if q < n { b[q].windows@.len() as int } else { 0 };
    assert(q != a) by {
        if q < n {
            assert(b[q].id == t);
        }
    }
    assert(aa[a].windows@ == aw.windows@.remove(fp));
    // Each entry after the move is an entry from before, at `moved_from`.
    assert forall|i: int, j: int| 0 <= i < aa.len() && 0 <= j < aa[i].windows@.len() implies {
        let (si, sj) = moved_from(i, j, a, fp, q, qlen);
        &&& 0 <= si < b.len() && 0 <= sj < b[si].windows@.len()
        &&& #[trigger] aa[i].windows@[j].id == b[si].windows@[sj].id
    } by {
        if i == a {
            let sj = if j < fp { j } else { j + 1 };
            assert(aa[a].windows@[j] == aw.windows@[sj]);
        } else if i == q {
            if q < n {
                assert(aa[q].windows@ == b[q].windows@.push(retargeted(aw.windows@[fp], t)));
            } else {
                assert(aa[n].windows@ == seq![retargeted(aw.windows@[fp], t)]);
            }
        } else {
            assert(aa[i] == b[i]);
        }
    }
    // Every entry from before lands somewhere.
    assert forall|si: int, sj: int| #![trigger b[si].windows@[sj]] 0 <= si < b.len() && 0 <= sj < b[si].windows@.len() implies exists|i: int, j: int|
        0 <= i < aa.len() && 0 <= j < aa[i].windows@.len() && #[trigger] moved_from(i, j, a, fp, q, qlen) == (si, sj) by {
        if si == a {
            if sj == fp {
                assert(moved_from(q, qlen, a, fp, q, qlen) == (si, sj));
                if q < n {
                    assert(aa[q].windows@ == b[q].windows@.push(retargeted(aw.windows@[fp], t)));
                } else {
                    assert(aa[n].windows@ == seq![retargeted(aw.windows@[fp], t)]);
                }
            } else {
                let j = if sj < fp { sj } else { sj - 1 };
                assert(moved_from(a, j, a, fp, q, qlen) == (si, sj));
            }
        } else {
            assert(moved_from(si, sj, a, fp, q, qlen) == (si, sj));
            if si == q {
                assert(aa[q].windows@ == b[q].windows@.push(retargeted(aw.windows@[fp], t)));
            } else {
                assert(aa[si] == b[si]);
            }
        }
    }
    // Distinct positions after come from distinct positions before.
    assert forall|i: int, j: int, k: int, l: int|
        0 <= i < aa.len() && 0 <= k < aa.len() && 0 <= j < aa[i].windows@.len() && 0 <= l < aa[k].windows@.len() && (
        i != k || j != l) implies #[trigger] aa[i].windows@[j].id != #[trigger] aa[k].windows@[l].id by {
        let (si, sj) = moved_from(i, j, a, fp, q, qlen);
        let (sk, sl) = moved_from(k, l, a, fp, q, qlen);
        assert(b[si].windows@[sj].id == aa[i].windows@[j].id);
        assert(b[sk].windows@[sl].id == aa[k].windows@[l].id);
        if i == q && k == q && q >= n {
            assert(aa[n].windows@ == seq![retargeted(aw.windows@[fp], t)]);
        }
        if i == q && j > qlen && q < n {
            assert(aa[q].windows@ == b[q].windows@.push(retargeted(aw.windows@[fp], t)));
        }
        if k == q && l > qlen && q < n {
            assert(aa[q].windows@ == b[q].windows@.push(retargeted(aw.windows@[fp], t)));
        }
        assert(si != sk || sj != sl);
    }
    assert forall|x: WindowId| holds_anywhere(aa, x) <==> holds_anywhere(b, x) by {
        if holds_anywhere(aa, x) {
            let (i, j) = choose|i: int, j: int| 0 <= i < aa.len() && 0 <= j < aa[i].windows@.len() && #[trigger] aa[i].windows@[j].id == x;
            let (si, sj) = moved_from(i, j, a, fp, q, qlen);
            assert(b[si].windows@[sj].id == x);
        }
        if holds_anywhere(b, x) {
            let (si, sj) = choose|i: int, j: int| 0 <= i < b.len() && 0 <= j < b[i].windows@.len() && #[trigger] b[i].windows@[j].id == x;
            let (i, j) = choose|i: int, j: int|
                0 <= i < aa.len() && 0 <= j < aa[i].windows@.len() && #[trigger] moved_from(i, j, a, fp, q, qlen) == (si, sj);
            assert(aa[i].windows@[j].id == x);
        }
    }
    assert forall|i: int, j: int|
        0 <= i < aa.len() && 0 <= j < aa[i].windows@.len() && #[trigger] aa[i].windows@[j].id == f implies aa[i].id == t by {
        let (si, sj) = moved_from(i, j, a, fp, q, qlen);
        assert(b[si].windows@[sj].id == f);
        assert(b[a].windows@[fp].id == f);
        assert(si == a && sj == fp);
        if q < n {
            assert(aa[q].id == t);
        } else {
            assert(aa[n].id == t);
        }
    }
}

/// Stacks whose every entry is an entry of `b` (at `src` of its position,
/// with the same id), no two at the same place, keep window ids unique.
proof fn lemma_reindexed_ids_unique<E>(b: Seq<Workspace<E>>, aa: Seq<Workspace<E>>, src: spec_fn(int, int) -> (int, int))
    requires
        window_ids_unique(b),
        forall|i: int, j: int|
            0 <= i < aa.len() && 0 <= j < aa[i].windows@.len() ==> {
                let (si, sj) = src(i, j);
                &&& 0 <= si < b.len() && 0 <= sj < b[si].windows@.len()
                &&& #[trigger] aa[i].windows@[j].id == b[si].windows@[sj].id
            },
        forall|i: int, j: int, k: int, l: int|
            0 <= i < aa.len() && 0 <= k < aa.len() && 0 <= j < aa[i].windows@.len() && 0 <= l < aa[k].windows@.len()
                && (i != k || j != l) ==> #[trigger] src(i, j) != #[trigger] src(k, l),
    ensures
        window_ids_unique(aa),
{
    assert forall|i: int, j: int, k: int, l: int|
        0 <= i < aa.len() && 0 <= k < aa.len() && 0 <= j < aa[i].windows@.len() && 0 <= l < aa[k].windows@.len() && (
        i != k || j != l) implies #[trigger] aa[i].windows@[j].id != #[trigger] aa[k].windows@[l].id by {
        let (si, sj) = src(i, j);
        let (sk, sl) = src(k, l);
        assert(src(i, j) != src(k, l));
    }
}

/// Showing another workspace keeps window ids unique across the output.
pub proof fn lemma_switch_keeps_ids_unique<O, E>(before: OutputState<O, E>, after: OutputState<O, E>, t: WorkspaceId)
    requires
        switched_to(before, after, t),
        window_ids_unique(before.workspaces@),
    ensures
        window_ids_unique(after.workspaces@),
{
    let b = before.workspaces@;
    let aa = after.workspaces@;
    if workspace_pos(b, t) >= b.len() {
        assert forall|i: int| 0 <= i < b.len() implies #[trigger] aa[i] == b[i] by {
            assert(aa.drop_last()[i] == aa[i]);
        }
        assert(aa[b.len() as int].windows@.len() == 0);
        lemma_reindexed_ids_unique(b, aa, |i: int, j: int| (i, j));
    }
}

/// Focusing a window keeps window ids unique across the output.
pub proof fn lemma_focus_keeps_ids_unique<O, E>(before: OutputState<O, E>, after: OutputState<O, E>, w: WindowId)
    requires
        before.wf(),
        focused_in_active(before, after, Some(w)),
        window_ids_unique(before.workspaces@),
    ensures
        window_ids_unique(after.workspaces@),
{
    let b = before.workspaces@;
    let aa = after.workspaces@;
    let a = before.active_workspace as int;
    let aw = before.active_ws();
    if !crate::workspace::holds_window(aw.windows@, w) {
        assert(aa[a].windows@ == aw.windows@);
        lemma_reindexed_ids_unique(b, aa, |i: int, j: int| (i, j));
    } else {
        let src = crate::workspace::lemma_focus_reorders(aw.windows@, w);
        lemma_reindexed_ids_unique(b, aa, |i: int, j: int| if i == a { (a, src(j)) } else { (i, j) });
    }
}

/// With window ids unique across an output, they are unique within each of
/// its workspaces.
pub proof fn lemma_unique_within_workspace<E>(ws: Seq<Workspace<E>>, i: int)
    requires
        window_ids_unique(ws),
        0 <= i < ws.len(),
    ensures
        crate::workspace::ids_of(ws[i].windows@).no_duplicates(),
{
    let w = ws[i].windows@;
    assert forall|a: int, b: int| 0 <= a < b < w.len() implies crate::workspace::ids_of(w)[a] != crate::workspace::ids_of(w)[b] by {
        assert(ws[i].windows@[a].id != ws[i].windows@[b].id);
    }
}

} // verus!
