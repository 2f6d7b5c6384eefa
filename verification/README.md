# zos_wm

The window-management core of the zos-wm Wayland compositor, written in
Verus: every function in `src/` carries a contract that Verus proves.

## Layout

- `src/` — the verified library
  - `workspace.rs` — a workspace's window stack (bands, raising, lowering,
    focus history, descendants), and the floating/tiled switch
  - `output_state.rs` — the workspaces of one output, switching, moving the
    focused window, directional focus, nudging, hotplug bookkeeping
  - `tiling.rs`, `tiling/dwindle.rs` — the dwindle binary-split layout
    (insert, remove, edge resize, directional focus) in fixed-point ratios
  - `binds.rs`, `keysyms.rs` — modifiers, key combos, actions, the default
    bind table and the parsing of `[[bind]]` entries
  - `input.rs` — which key and button events the compositor takes
  - `ipc.rs` — the IPC protocol and how each request is answered
  - `output_config.rs` — output-configuration sessions (wlr-output-management)
  - `screencopy.rs` — which pending screen captures a repaint serves
  - `gamma.rs`, `tearing.rs` — gamma tables and tearing hints per output/surface
  - `header_bar.rs`, `decoration.rs` — the server-side title bar: button zones,
    hover state and repaints
  - `extension.rs`, `animation.rs`, `text.rs`, `assoc.rs` —
    extension registry, small settings and helpers
- `tests/` — tests run against the compiled library
- `app/` — the executable: command line, the bind file loader (TOML and
  libxkbcommon key names), the IPC socket server (JSON) and the
  floating-point animation code
