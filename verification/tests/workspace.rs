use zos_wm::output_state::OutputId;
use zos_wm::tiling::Point;
use zos_wm::workspace::{toggle_tiled_override, WindowEntry, WindowId, Workspace, WorkspaceId, ZBand};

fn win(id: u32, band: ZBand, parent: Option<u32>) -> WindowEntry<u32> {
    WindowEntry {
        id: WindowId(id),
        element: id * 100,
        band,
        activated: false,
        parent_id: parent.map(WindowId),
        workspace_id: WorkspaceId(1),
        location: Point { x: 0, y: 0 },
    }
}

fn ids(w: &Workspace<u32>) -> Vec<u32> {
    w.windows.iter().map(|e| e.id.0).collect()
}

fn stacked() -> Workspace<u32> {
    let mut w = Workspace::new(WorkspaceId(1), OutputId(1));
    w.add(win(1, ZBand::Normal, None));
    w.add(win(2, ZBand::AlwaysOnTop, None));
    w.add(win(3, ZBand::Below, None));
    w.add(win(4, ZBand::Normal, None));
    w
}

#[test]
fn new_workspace_is_empty_and_floating() {
    let w: Workspace<u32> = Workspace::new(WorkspaceId(3), OutputId(9));
    assert!(w.is_empty());
    assert_eq!(w.len(), 0);
    assert_eq!(w.active, None);
    assert!(!w.is_tiled());
    assert_eq!(w.next_after_destroy(), None);
}

#[test]
fn add_pushes_on_top_and_z_order_groups_bands() {
    let w = stacked();
    assert_eq!(ids(&w), vec![1, 2, 3, 4]);
    assert_eq!(w.iter_band(ZBand::Normal), vec![0, 3]);
    assert_eq!(w.iter_band(ZBand::Fullscreen), Vec::<usize>::new());
    // Below, Normal, AlwaysOnTop, Fullscreen.
    assert_eq!(w.iter_z_order(), vec![2, 0, 3, 1]);
}

/// Bottom to top: 3 (below), 1 and 4 (normal), 2 (always on top).
fn sorted() -> Workspace<u32> {
    let mut w = Workspace::new(WorkspaceId(1), OutputId(1));
    w.add(win(3, ZBand::Below, None));
    w.add(win(1, ZBand::Normal, None));
    w.add(win(4, ZBand::Normal, None));
    w.add(win(2, ZBand::AlwaysOnTop, None));
    w
}

#[test]
fn raise_and_lower_stay_within_band() {
    let mut w = sorted();
    w.raise(WindowId(1));
    assert_eq!(ids(&w), vec![3, 4, 1, 2]);
    w.raise(WindowId(2));
    assert_eq!(ids(&w), vec![3, 4, 1, 2]);
    w.lower(WindowId(1));
    assert_eq!(ids(&w), vec![3, 1, 4, 2]);
    w.lower(WindowId(3));
    assert_eq!(ids(&w), vec![3, 1, 4, 2]);
    w.lower(WindowId(99));
    assert_eq!(ids(&w), vec![3, 1, 4, 2]);
}

#[test]
fn raise_inserts_before_first_higher_band_window() {
    // In an unsorted stack the first higher-band window from the bottom
    // decides where a raised window goes.
    let mut w = stacked();
    w.raise(WindowId(4));
    assert_eq!(ids(&w), vec![1, 4, 2, 3]);
}

#[test]
fn raise_twice_is_raise_once() {
    let mut once = stacked();
    once.raise(WindowId(3));
    let mut twice = stacked();
    twice.raise(WindowId(3));
    twice.raise(WindowId(3));
    assert_eq!(ids(&once), ids(&twice));
}

#[test]
fn focus_updates_activation_history_and_stacking() {
    let mut w = sorted();
    w.focus(WindowId(1), true);
    assert_eq!(ids(&w), vec![3, 4, 1, 2]);
    w.focus(WindowId(4), false);
    assert_eq!(ids(&w), vec![3, 4, 1, 2]);
    assert_eq!(w.active, Some(WindowId(4)));
    assert_eq!(w.focus_history, vec![WindowId(1), WindowId(4)]);
    let activated: Vec<bool> = w.windows.iter().map(|e| e.activated).collect();
    assert_eq!(activated, vec![false, true, false, false]);
    // Refocusing moves a window to the end of the history.
    w.focus(WindowId(1), false);
    assert_eq!(w.focus_history, vec![WindowId(4), WindowId(1)]);
    assert_eq!(w.next_after_destroy(), Some(WindowId(1)));
    // An unknown window changes nothing.
    w.focus(WindowId(77), true);
    assert_eq!(w.active, Some(WindowId(1)));
}

#[test]
fn remove_falls_back_to_most_recent_focus() {
    let mut w = stacked();
    w.focus(WindowId(2), false);
    w.focus(WindowId(3), false);
    let gone = w.remove(WindowId(3)).expect("window 3 is there");
    assert_eq!(gone.id, WindowId(3));
    assert_eq!(gone.element, 300);
    assert_eq!(w.active, Some(WindowId(2)));
    assert_eq!(w.focus_history, vec![WindowId(2)]);
    assert!(w.remove(WindowId(3)).is_none());
    assert!(w.find(WindowId(3)).is_none());
    assert_eq!(w.find_index(WindowId(4)), Some(2));
}

#[test]
fn remove_undoes_add() {
    let mut w = stacked();
    w.focus(WindowId(4), false);
    let before = ids(&w);
    w.add(win(9, ZBand::Fullscreen, None));
    assert!(w.remove(WindowId(9)).is_some());
    assert_eq!(ids(&w), before);
    assert_eq!(w.active, Some(WindowId(4)));
}

#[test]
fn descendants_follow_their_parent_up() {
    let mut w = Workspace::new(WorkspaceId(1), OutputId(1));
    w.add(win(1, ZBand::Normal, None));
    w.add(win(2, ZBand::Normal, Some(1)));
    w.add(win(3, ZBand::Normal, None));
    w.add(win(4, ZBand::Normal, Some(2)));
    w.bring_descendants_above(WindowId(1));
    assert_eq!(ids(&w), vec![1, 3, 2, 4]);
}

#[test]
fn toggle_floating_cycles_through_three_states() {
    assert_eq!(toggle_tiled_override(None), Some(false));
    assert_eq!(toggle_tiled_override(Some(false)), Some(true));
    assert_eq!(toggle_tiled_override(Some(true)), None);
}
