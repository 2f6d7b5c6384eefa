use zos_wm::ipc::{request_action, LineAction};
use zos_wm::ipc::{
    band_name, handle_ipc_request, placeholder_response, IpcOutcome, Request, Response, WindowRow, PROTOCOL_VERSION,
};
use zos_wm::output_state::{OutputId, OutputState};
use zos_wm::tiling::{IdCounter, Point};
use zos_wm::workspace::{WindowEntry, WindowId, WorkspaceId, ZBand};

fn entry(id: u32, ws: u32, band: ZBand) -> WindowEntry<()> {
    WindowEntry {
        id: WindowId(id),
        element: (),
        band,
        activated: false,
        parent_id: None,
        workspace_id: WorkspaceId(ws),
        location: Point { x: 0, y: 0 },
    }
}

/// Two outputs: DP-1 shows workspace 1 with windows 10 and 11 (11 focused);
/// HDMI-A-1 shows workspace 2 with window 20 (focused) and keeps an empty
/// workspace 1.
fn setup() -> (Vec<OutputState<&'static str, ()>>, Vec<String>, Vec<Option<(i32, i32, i32)>>) {
    let mut ids = IdCounter::new();
    let mut a = OutputState::new("DP-1", &mut ids);
    a.workspaces[0].add(entry(10, 1, ZBand::Normal));
    a.workspaces[0].add(entry(11, 1, ZBand::AlwaysOnTop));
    a.focus_shown(WindowId(11));
    let mut b = OutputState::new("HDMI-A-1", &mut ids);
    b.switch_to(WorkspaceId(2));
    b.workspaces[1].add(entry(20, 2, ZBand::Below));
    b.focus_shown(WindowId(20));
    let names = vec!["DP-1".to_string(), "HDMI-A-1".to_string()];
    let modes = vec![Some((2560, 1440, 144000)), None];
    (vec![a, b], names, modes)
}

fn reply(r: IpcOutcome) -> (Response, bool) {
    match r {
        IpcOutcome::Reply { response, resync } => (response, resync),
        other => panic!("expected a reply, got {other:?}"),
    }
}

#[test]
fn placeholder_handler_returns_version() {
    let resp = placeholder_response(&Request::Version, "0.1.0");
    match resp {
        Response::Version { ipc, build } => {
            assert_eq!(ipc, PROTOCOL_VERSION);
            assert_eq!(build, "0.1.0");
        }
        other => panic!("expected Version response, got {other:?}"),
    }
}

#[test]
fn placeholder_handler_errors_on_unwired() {
    let resp = placeholder_response(&Request::Monitors, "0.1.0");
    match resp {
        Response::Error { message } => {
            assert!(message.contains("not yet wired"), "unexpected msg: {message}");
        }
        other => panic!("expected Error response, got {other:?}"),
    }
}

#[test]
fn lists_workspaces_with_optional_output_filter() {
    let (mut outs, names, modes) = setup();
    let (resp, resync) = reply(handle_ipc_request(&mut outs, &names, &modes, None, Request::Workspaces { output: None }, "0.1.0"));
    assert!(!resync);
    let Response::Workspaces { workspaces } = resp else { panic!("expected workspaces") };
    let rows: Vec<(u32, String, usize, bool)> =
        workspaces.into_iter().map(|w| (w.id, w.output, w.windows, w.active)).collect();
    assert_eq!(
        rows,
        vec![
            (1, "DP-1".to_string(), 2, true),
            (1, "HDMI-A-1".to_string(), 0, false),
            (2, "HDMI-A-1".to_string(), 1, true),
        ]
    );

    let filtered = Request::Workspaces { output: Some("HDMI-A-1".into()) };
    let (resp, _) = reply(handle_ipc_request(&mut outs, &names, &modes, None, filtered, "0.1.0"));
    let Response::Workspaces { workspaces } = resp else { panic!("expected workspaces") };
    assert_eq!(workspaces.len(), 2);
    assert!(workspaces.iter().all(|w| w.output == "HDMI-A-1"));

    let none = Request::Workspaces { output: Some("eDP-1".into()) };
    let (resp, _) = reply(handle_ipc_request(&mut outs, &names, &modes, None, none, "0.1.0"));
    assert_eq!(resp, Response::Workspaces { workspaces: vec![] });
}

#[test]
fn lists_windows_in_stacking_order() {
    let (mut outs, names, modes) = setup();
    let r = handle_ipc_request(&mut outs, &names, &modes, None, Request::Windows { workspace: None }, "0.1.0");
    let IpcOutcome::Windows { rows } = r else { panic!("expected window rows") };
    assert_eq!(
        rows,
        vec![
            WindowRow { id: 10, workspace_id: 1, output_index: 0, focused: false, band: ZBand::Normal },
            WindowRow { id: 11, workspace_id: 1, output_index: 0, focused: true, band: ZBand::AlwaysOnTop },
            WindowRow { id: 20, workspace_id: 2, output_index: 1, focused: true, band: ZBand::Below },
        ]
    );
    let r = handle_ipc_request(&mut outs, &names, &modes, None, Request::Windows { workspace: Some(2) }, "0.1.0");
    let IpcOutcome::Windows { rows } = r else { panic!("expected window rows") };
    assert_eq!(rows.len(), 1);
    assert_eq!(rows[0].id, 20);
    assert_eq!(band_name(rows[0].band), "Below");
}

#[test]
fn lists_monitors_with_modes() {
    let (mut outs, names, modes) = setup();
    let (resp, _) = reply(handle_ipc_request(&mut outs, &names, &modes, None, Request::Monitors, "0.1.0"));
    let Response::Monitors { monitors } = resp else { panic!("expected monitors") };
    assert_eq!(monitors.len(), 2);
    assert_eq!((monitors[0].id, monitors[0].name.as_str()), (1, "DP-1"));
    assert_eq!((monitors[0].width, monitors[0].height, monitors[0].refresh_mhz), (2560, 1440, 144000));
    assert_eq!(monitors[0].active_workspace, Some(1));
    assert_eq!((monitors[1].width, monitors[1].height, monitors[1].refresh_mhz), (0, 0, 0));
    assert_eq!(monitors[1].active_workspace, Some(2));
}

#[test]
fn active_window_and_close_take_the_first_focused_output() {
    let (mut outs, names, modes) = setup();
    let r = handle_ipc_request(&mut outs, &names, &modes, None, Request::ActiveWindow, "0.1.0");
    let IpcOutcome::ActiveWindow { row } = r else { panic!("expected active window") };
    assert_eq!(
        row,
        Some(WindowRow { id: 11, workspace_id: 1, output_index: 0, focused: true, band: ZBand::AlwaysOnTop })
    );
    let r = handle_ipc_request(&mut outs, &names, &modes, None, Request::CloseFocused, "0.1.0");
    assert!(matches!(r, IpcOutcome::Close { output_index: 0, window: WindowId(11) }));
}

#[test]
fn close_without_focused_window_is_an_error() {
    let mut ids = IdCounter::new();
    let mut outs = vec![OutputState::<&'static str, ()>::new("DP-1", &mut ids)];
    let names = vec!["DP-1".to_string()];
    let modes = vec![None];
    let (resp, _) = reply(handle_ipc_request(&mut outs, &names, &modes, None, Request::CloseFocused, "0.1.0"));
    assert_eq!(resp, Response::Error { message: "no focused window".into() });
    let r = handle_ipc_request(&mut outs, &names, &modes, None, Request::ActiveWindow, "0.1.0");
    assert!(matches!(r, IpcOutcome::ActiveWindow { row: None }));
}

#[test]
fn switch_acts_on_focused_output_only() {
    let (mut outs, names, modes) = setup();
    let a = outs[0].id;
    let (resp, resync) =
        reply(handle_ipc_request(&mut outs, &names, &modes, Some(a), Request::SwitchToWorkspace { id: 3 }, "0.1.0"));
    assert_eq!(resp, Response::Success);
    assert!(resync);
    assert_eq!(outs[0].active().id, WorkspaceId(3));
    assert_eq!(outs[0].workspaces.len(), 2);
    assert_eq!(outs[1].active().id, WorkspaceId(2));

    let (resp, resync) =
        reply(handle_ipc_request(&mut outs, &names, &modes, None, Request::SwitchToWorkspace { id: 1 }, "0.1.0"));
    assert_eq!(resp, Response::Success);
    assert!(!resync);
    assert_eq!(outs[0].active().id, WorkspaceId(3));
}

#[test]
fn move_window_errors_and_success() {
    let (mut outs, names, modes) = setup();
    let a = outs[0].id;
    let req = |id| Request::MoveWindowToWorkspace { id };

    let (resp, _) = reply(handle_ipc_request(&mut outs, &names, &modes, None, req(2), "0.1.0"));
    assert_eq!(resp, Response::Error { message: "no focused output".into() });

    let (resp, _) = reply(handle_ipc_request(&mut outs, &names, &modes, Some(OutputId(77)), req(2), "0.1.0"));
    assert_eq!(resp, Response::Error { message: "focused output not found".into() });

    let (resp, resync) = reply(handle_ipc_request(&mut outs, &names, &modes, Some(a), req(1), "0.1.0"));
    assert_eq!(resp, Response::Success);
    assert!(!resync);

    let (resp, resync) = reply(handle_ipc_request(&mut outs, &names, &modes, Some(a), req(4), "0.1.0"));
    assert_eq!(resp, Response::Success);
    assert!(resync);
    // Window 11 left workspace 1 and landed on a new, hidden workspace 4;
    // window 10 was never focused, so workspace 1 has no active window now.
    assert_eq!(outs[0].active().id, WorkspaceId(1));
    assert_eq!(outs[0].active().active, None);
    assert_eq!(outs[0].active().windows.len(), 1);
    let w4 = outs[0].workspace(WorkspaceId(4)).expect("workspace 4 created");
    assert_eq!(w4.windows.len(), 1);
    assert_eq!(w4.windows[0].id, WindowId(11));
    assert_eq!(w4.windows[0].workspace_id, WorkspaceId(4));

    let (resp, _) = reply(handle_ipc_request(&mut outs, &names, &modes, Some(a), req(4), "0.1.0"));
    assert_eq!(resp, Response::Error { message: "no focused window".into() });
}

#[test]
fn focus_window_by_id() {
    let (mut outs, names, modes) = setup();
    let (resp, resync) =
        reply(handle_ipc_request(&mut outs, &names, &modes, None, Request::FocusWindow { id: 10 }, "0.1.0"));
    assert_eq!(resp, Response::Success);
    assert!(resync);
    assert_eq!(outs[0].active().active, Some(WindowId(10)));
    // Raised within its band: still below the always-on-top window.
    let order: Vec<u32> = outs[0].active().windows.iter().map(|e| e.id.0).collect();
    assert_eq!(order, vec![10, 11]);

    let (resp, resync) =
        reply(handle_ipc_request(&mut outs, &names, &modes, None, Request::FocusWindow { id: 99 }, "0.1.0"));
    assert_eq!(resp, Response::Error { message: "window 99 not found on any active workspace".into() });
    assert!(!resync);
}

#[test]
fn version_and_quit() {
    let (mut outs, names, modes) = setup();
    let (resp, _) = reply(handle_ipc_request(&mut outs, &names, &modes, None, Request::Version, "2.3.4"));
    assert_eq!(resp, Response::Version { ipc: "1".into(), build: "2.3.4".into() });
    let (resp, resync) = reply(handle_ipc_request(&mut outs, &names, &modes, None, Request::Quit, "2.3.4"));
    assert_eq!(resp, Response::Success);
    assert!(!resync);
}

#[test]
fn server_line_decisions() {
    assert!(matches!(request_action(Ok(Request::Quit)), LineAction::Close));
    assert!(matches!(request_action(Ok(Request::Monitors)), LineAction::Dispatch(Request::Monitors)));
    match request_action(Err("expected value at line 1 column 1".into())) {
        LineAction::Answer(Response::Error { message }) => {
            assert_eq!(message, "malformed request: expected value at line 1 column 1")
        }
        other => panic!("expected an error answer, got {other:?}"),
    }
}

#[test]
fn move_window_with_a_stale_active_id_fails() {
    let (mut outs, names, modes) = setup();
    let a = outs[0].id;
    outs[0].workspaces[0].active = Some(WindowId(42));
    let (resp, resync) = reply(handle_ipc_request(
        &mut outs,
        &names,
        &modes,
        Some(a),
        Request::MoveWindowToWorkspace { id: 2 },
        "0.1.0",
    ));
    assert_eq!(resp, Response::Error { message: "failed to remove focused window".into() });
    assert!(!resync);
    assert_eq!(outs[0].workspaces.len(), 1);
}

#[test]
fn unknown_window_ids_are_written_in_decimal() {
    let (mut outs, names, modes) = setup();
    for (id, text) in [(0u32, "0"), (7, "7"), (1050, "1050"), (u32::MAX, "4294967295")] {
        let (resp, _) =
            reply(handle_ipc_request(&mut outs, &names, &modes, None, Request::FocusWindow { id }, "0.1.0"));
        assert_eq!(resp, Response::Error { message: format!("window {text} not found on any active workspace") });
    }
}
