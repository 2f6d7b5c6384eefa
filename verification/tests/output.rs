use zos_wm::binds::Direction;
use zos_wm::output_state::{
    next_output_x, preferred_mode_index, register_output, remove_output, MoveOutcome, OutputId, OutputState,
    PlacedWindow, MOVE_STEP,
};
use zos_wm::tiling::{IdCounter, Point, Rect};
use zos_wm::workspace::{WindowEntry, WindowId, WorkspaceId, WorkspaceMode, ZBand};

fn entry(id: u32, x: i32, y: i32) -> WindowEntry<()> {
    WindowEntry {
        id: WindowId(id),
        element: (),
        band: ZBand::Normal,
        activated: false,
        parent_id: None,
        workspace_id: WorkspaceId(1),
        location: Point { x, y },
    }
}

fn output_with(windows: &[u32]) -> OutputState<(), ()> {
    let mut ids = IdCounter::new();
    let mut o = OutputState::new((), &mut ids);
    for &w in windows {
        o.workspaces[0].add(entry(w, 0, 0));
    }
    o
}

#[test]
fn new_output_shows_workspace_one() {
    let mut ids = IdCounter::new();
    let first: OutputState<(), ()> = OutputState::new((), &mut ids);
    let second: OutputState<(), ()> = OutputState::new((), &mut ids);
    assert_eq!(first.id, OutputId(1));
    assert_eq!(second.id, OutputId(2));
    assert_eq!(first.workspaces.len(), 1);
    assert_eq!(first.active().id, WorkspaceId(1));
    assert_eq!(first.last_seen_active, None);
    let mut c = IdCounter::new();
    assert_eq!(OutputId::allocate(&mut c), OutputId(1));
}

#[test]
fn switch_creates_once_and_is_idempotent() {
    let mut o = output_with(&[]);
    o.switch_to(WorkspaceId(5));
    assert_eq!(o.workspaces.len(), 2);
    assert_eq!(o.active().id, WorkspaceId(5));
    assert_eq!(o.last_seen_active, Some(WorkspaceId(5)));
    o.switch_to(WorkspaceId(5));
    assert_eq!(o.workspaces.len(), 2);
    assert_eq!(o.active_workspace, 1);
    o.switch_to(WorkspaceId(1));
    assert_eq!(o.active_workspace, 0);
    assert!(o.workspace(WorkspaceId(5)).is_some());
    assert_eq!(o.workspace_index(WorkspaceId(5)), Some(1));
    assert!(o.workspace(WorkspaceId(6)).is_none());
}

#[test]
fn switch_action_reports_direction() {
    let mut o = output_with(&[]);
    assert_eq!(o.switch_workspace_action(WorkspaceId(1)), None);
    assert_eq!(o.switch_workspace_action(WorkspaceId(3)), Some(true));
    assert_eq!(o.switch_workspace_action(WorkspaceId(2)), Some(false));
    assert_eq!(o.active().id, WorkspaceId(2));
}

#[test]
fn move_focused_window_outcomes() {
    let mut o = output_with(&[7, 8]);
    assert_eq!(o.move_focused_window_to_workspace(WorkspaceId(2)), MoveOutcome::NoFocusedWindow);
    o.focus_shown(WindowId(7));
    assert_eq!(o.move_focused_window_to_workspace(WorkspaceId(1)), MoveOutcome::AlreadyOnTarget);
    o.switch_to(WorkspaceId(2));
    o.switch_to(WorkspaceId(1));
    assert_eq!(o.move_focused_window_to_workspace(WorkspaceId(2)), MoveOutcome::Moved);
    let target = o.workspace(WorkspaceId(2)).unwrap();
    assert_eq!(target.windows.len(), 1);
    assert_eq!(target.windows[0].workspace_id, WorkspaceId(2));
    assert_eq!(o.active().id, WorkspaceId(1));
    assert_eq!(o.active().windows.len(), 1);
    // An active id without an entry cannot be removed.
    o.workspaces[0].active = Some(WindowId(42));
    assert_eq!(o.move_focused_window_to_workspace(WorkspaceId(2)), MoveOutcome::RemoveFailed);
}

#[test]
fn focus_history_step_goes_back_one() {
    let mut o = output_with(&[1, 2, 3]);
    assert_eq!(o.focus_history_step(true), None);
    o.focus_shown(WindowId(1));
    o.focus_shown(WindowId(2));
    o.focus_shown(WindowId(3));
    assert_eq!(o.focus_history_step(true), Some(WindowId(2)));
    assert_eq!(o.active().active, Some(WindowId(2)));
    // Both directions step back to the previously focused window.
    assert_eq!(o.focus_history_step(false), Some(WindowId(3)));
}

#[test]
fn directional_focus_picks_nearest_centre() {
    let mut o = output_with(&[1, 2, 3, 4]);
    o.focus_shown(WindowId(1));
    let scene = vec![
        PlacedWindow { id: WindowId(1), rect: Rect::new(0, 0, 100, 100) },
        PlacedWindow { id: WindowId(2), rect: Rect::new(300, 0, 100, 100) },
        PlacedWindow { id: WindowId(3), rect: Rect::new(150, 20, 100, 100) },
        PlacedWindow { id: WindowId(4), rect: Rect::new(0, 400, 100, 100) },
        // Not on the shown workspace: ignored.
        PlacedWindow { id: WindowId(9), rect: Rect::new(110, 0, 100, 100) },
    ];
    assert_eq!(o.direction_target(&scene, Direction::Right), Some(WindowId(3)));
    assert_eq!(o.direction_target(&scene, Direction::Down), Some(WindowId(4)));
    assert_eq!(o.direction_target(&scene, Direction::Left), None);
    assert_eq!(o.direction_target(&scene, Direction::Up), None);
    assert_eq!(o.focus_direction(&scene, Direction::Right), Some(WindowId(3)));
    assert_eq!(o.active().active, Some(WindowId(3)));
}

#[test]
fn directional_focus_needs_more_than_a_pixel_and_the_dominant_axis() {
    let mut o = output_with(&[1, 2, 3]);
    o.focus_shown(WindowId(1));
    let scene = vec![
        PlacedWindow { id: WindowId(1), rect: Rect::new(0, 0, 100, 100) },
        // Centre one pixel to the right: not far enough.
        PlacedWindow { id: WindowId(2), rect: Rect::new(1, 0, 100, 100) },
        // More down than right.
        PlacedWindow { id: WindowId(3), rect: Rect::new(50, 60, 100, 100) },
    ];
    assert_eq!(o.direction_target(&scene, Direction::Right), None);
    assert_eq!(o.direction_target(&scene, Direction::Down), Some(WindowId(3)));
    // Ties go to the earlier window in scene order.
    let tie = vec![
        PlacedWindow { id: WindowId(1), rect: Rect::new(0, 0, 100, 100) },
        PlacedWindow { id: WindowId(3), rect: Rect::new(200, 10, 100, 100) },
        PlacedWindow { id: WindowId(2), rect: Rect::new(200, -10, 100, 100) },
    ];
    assert_eq!(o.direction_target(&tie, Direction::Right), Some(WindowId(3)));
    // The focused window must be in the scene.
    assert_eq!(o.direction_target(&tie[1..].to_vec(), Direction::Right), None);
}

#[test]
fn move_active_window_steps_fifty_pixels() {
    let mut o = output_with(&[]);
    o.workspaces[0].add(entry(5, 10, 20));
    assert!(!o.move_active_window(Direction::Left));
    o.focus_shown(WindowId(5));
    assert!(o.move_active_window(Direction::Left));
    assert!(o.move_active_window(Direction::Down));
    assert_eq!(o.active().windows[0].location, Point { x: 10 - MOVE_STEP, y: 20 + MOVE_STEP });
}

#[test]
fn toggle_tiling_uses_the_current_mode() {
    let mut o = output_with(&[1]);
    assert!(o.toggle_active_tiling(Some((1920, 1080))));
    match &o.active().mode {
        WorkspaceMode::Tiled(t) => assert_eq!(t.work_area, Rect::new(0, 0, 1920, 1080)),
        WorkspaceMode::Floating => panic!("expected a tiled workspace"),
    }
    assert!(!o.toggle_active_tiling(None));
    assert!(!o.active().is_tiled());
    assert!(o.toggle_active_tiling(None));
    match &o.active().mode {
        WorkspaceMode::Tiled(t) => assert_eq!(t.work_area, Rect::new(0, 0, 0, 0)),
        WorkspaceMode::Floating => panic!("expected a tiled workspace"),
    }
}

#[test]
fn hotplug_placement() {
    assert_eq!(preferred_mode_index(&vec![false, true, true]), 1);
    assert_eq!(preferred_mode_index(&vec![false, false]), 0);
    assert_eq!(preferred_mode_index(&vec![]), 0);
    assert_eq!(next_output_x(&vec![]), 0);
    assert_eq!(next_output_x(&vec![1920, 2560]), 4480);
}

#[test]
fn hotplug_moves_the_focus() {
    let mut ids = IdCounter::new();
    let mut outputs: Vec<OutputState<&'static str, ()>> = Vec::new();
    let mut focused = None;
    register_output(&mut outputs, &mut focused, OutputState::new("DP-1", &mut ids));
    register_output(&mut outputs, &mut focused, OutputState::new("DP-2", &mut ids));
    assert_eq!(focused, Some(OutputId(1)));
    let gone = remove_output(&mut outputs, &mut focused, 0);
    assert_eq!(gone.output, "DP-1");
    assert_eq!(focused, Some(OutputId(2)));
    register_output(&mut outputs, &mut focused, OutputState::new("DP-3", &mut ids));
    let gone = remove_output(&mut outputs, &mut focused, 1);
    assert_eq!(gone.id, OutputId(3));
    assert_eq!(focused, Some(OutputId(2)));
    remove_output(&mut outputs, &mut focused, 0);
    assert_eq!(focused, None);
    assert!(outputs.is_empty());
}

#[test]
fn mutable_access_to_workspaces() {
    let mut o = output_with(&[1]);
    o.switch_to(WorkspaceId(2));
    o.active_mut().add(entry(9, 0, 0));
    assert_eq!(o.active().len(), 1);
    o.workspace_mut(WorkspaceId(1)).expect("workspace 1").add(entry(2, 0, 0));
    assert_eq!(o.workspace(WorkspaceId(1)).unwrap().len(), 2);
    assert!(o.workspace_mut(WorkspaceId(7)).is_none());
    let e = o.workspace_mut(WorkspaceId(1)).unwrap().find_mut(WindowId(2)).expect("window 2");
    e.location = Point { x: 5, y: 6 };
    assert_eq!(o.workspace(WorkspaceId(1)).unwrap().find(WindowId(2)).unwrap().location, Point { x: 5, y: 6 });
}
