//! The IPC protocol (newline-delimited JSON on a Unix socket, framed by
//! the caller) and how the compositor answers each request.
use vstd::prelude::*;

use crate::output_state::{focused_in_active, moved_focused_window, switched_to, MoveOutcome, OutputId, OutputState};
use crate::text::prefixed;
use crate::workspace::{first_match, has_id, holds_window, lemma_first_match, lemma_first_match_bounds, WindowId, WorkspaceId, ZBand};

verus! {

/// Version of the wire protocol.
pub const PROTOCOL_VERSION: &'static str = "1";

/// A client request.
#[derive(Debug, Clone, PartialEq, Eq)]
pub enum Request {
    /// List workspaces on one output (by name), or on all of them.
    Workspaces { output: Option<String> },
    /// List windows on one workspace (by id), or on all of them.
    Windows { workspace: Option<u32> },
    /// List all outputs.
    Monitors,
    /// The active window, if any.
    ActiveWindow,
    /// Show a workspace on the focused output.
    SwitchToWorkspace { id: u32 },
    /// Move the active window to a workspace.
    MoveWindowToWorkspace { id: u32 },
    /// Focus a window by id.
    FocusWindow { id: u32 },
    /// Close the focused window.
    CloseFocused,
    /// The protocol and build versions.
    Version,
    /// Disconnect.
    Quit,
}

/// A workspace as listed to clients.
#[derive(Debug, Clone, PartialEq, Eq)]
pub struct Workspace {
    pub id: u32,
    pub output: String,
    pub windows: usize,
    pub active: bool,
}

/// A window as listed to clients.
#[derive(Debug, Clone, PartialEq, Eq)]
pub struct Window {
    pub id: u32,
    pub workspace_id: u32,
    pub output: String,
    pub class: String,
    pub title: String,
    pub focused: bool,
    /// "Below" | "Normal" | "AlwaysOnTop" | "Fullscreen"
    pub band: String,
}

/// An output as listed to clients.
#[derive(Debug, Clone, PartialEq, Eq)]
pub struct Monitor {
    pub id: u32,
    pub name: String,
    pub width: u32,
    pub height: u32,
    pub refresh_mhz: u32,
    pub active_workspace: Option<u32>,
}

/// The answer to a request.
#[derive(Debug, Clone, PartialEq, Eq)]
pub enum Response {
    Workspaces { workspaces: Vec<Workspace> },
    Windows { windows: Vec<Window> },
    Monitors { monitors: Vec<Monitor> },
    ActiveWindow { window: Option<Window> },
    /// The request was carried out (`Ok` on the wire).
    Success,
    Error { message: String },
    Version { ipc: String, build: String },
}

/// The name of a band on the wire.
pub open spec fn band_name_spec(b: ZBand) -> Seq<char> {
    match b {
        ZBand::Below => "Below"@,
        ZBand::Normal => "Normal"@,
        ZBand::AlwaysOnTop => "AlwaysOnTop"@,
        ZBand::Fullscreen => "Fullscreen"@,
    }
}

/// The name of a band on the wire.
pub fn band_name(b: ZBand) -> (s: String)
    ensures
        s@ == band_name_spec(b),
{
    match b {
        ZBand::Below => String::from_str("Below"),
        ZBand::Normal => String::from_str("Normal"),
        ZBand::AlwaysOnTop => String::from_str("AlwaysOnTop"),
        ZBand::Fullscreen => String::from_str("Fullscreen"),
    }
}

/// The decimal digits of `n`, most significant first.
pub open spec fn decimal(n: nat) -> Seq<char>
    decreases n,
{
    if n < 10 {
        seq![(('0' as u8) + n) as char]
    } else {
        decimal(n / 10).push((('0' as u8) + (n % 10)) as char)
    }
}

/// The decimal digit `d` (below ten) as a one-character string.
fn digit_str(d: u32) -> (s: &'static str)
    requires
        d < 10,
    ensures
        s@ == seq![(('0' as u8) + d) as char],
{
    proof {
        reveal_strlit("0");
        reveal_strlit("1");
        reveal_strlit("2");
        reveal_strlit("3");
        reveal_strlit("4");
        reveal_strlit("5");
        reveal_strlit("6");
        reveal_strlit("7");
        reveal_strlit("8");
        reveal_strlit("9");
    }
    if d == 0 {
        "0"
    } else if d == 1 {
        "1"
    } else if d == 2 {
        "2"
    } else if d == 3 {
        "3"
    } else if d == 4 {
        "4"
    } else if d == 5 {
        "5"
    } else if d == 6 {
        "6"
    } else if d == 7 {
        "7"
    } else if d == 8 {
        "8"
    } else {
        "9"
    }
}

/// `n` in decimal, without sign, padding or separators.
fn u32_to_string(n: u32) -> (s: String)
    ensures
        s@ == decimal(n as nat),
    decreases n,
{
    if n < 10 {
        String::from_str(digit_str(n))
    } else {
        let head = u32_to_string(n / 10);
        head.concat(digit_str(n % 10))
    }
}

/// The answer of a handler not yet connected to compositor state: the
/// version for `Version`, an error for everything else.
pub fn placeholder_response(req: &Request, build: &str) -> (r: Response)
    ensures
        match req {
            Request::Version => r matches Response::Version { ipc, build: b } && ipc@ == PROTOCOL_VERSION@ && b@
                == build@,
            _ => r matches Response::Error { message } && message@ == "IPC handler not yet wired to compositor state"@,
        },
{
    match req {
        Request::Version => Response::Version {
            ipc: String::from_str(PROTOCOL_VERSION),
            build: String::from_str(build),
        },
        _ => Response::Error { message: String::from_str("IPC handler not yet wired to compositor state") },
    }
}

// ---------------------------------------------------------------------------
// Listings
// ---------------------------------------------------------------------------

/// A listed workspace read as plain values: (id, output, windows, active).
pub open spec fn ws_row_view(w: Workspace) -> (u32, Seq<char>, usize, bool) {
    (w.id, w.output@, w.windows, w.active)
}

/// Listed workspaces read as plain values.
pub open spec fn ws_rows_view(v: Seq<Workspace>) -> Seq<(u32, Seq<char>, usize, bool)> {
    v.map_values(|w: Workspace| ws_row_view(w))
}

/// The rows for the workspaces of one output named `name`, in order; the
/// shown one is marked active.
pub open spec fn output_ws_rows<O, E>(o: OutputState<O, E>, name: Seq<char>) -> Seq<(u32, Seq<char>, usize, bool)> {
    Seq::new(
        o.workspaces@.len(),
        |j: int| (o.workspaces@[j].id.0, name, o.workspaces@[j].windows@.len() as usize, o.workspaces@[j].id == o.active_ws().id),
    )
}

/// The workspace rows of the first `n` outputs, skipping outputs whose name
/// differs from `filter` when one is given.
pub open spec fn workspace_rows<O, E>(outs: Seq<OutputState<O, E>>, names: Seq<String>, filter: Option<Seq<char>>, n: int) -> Seq<(u32, Seq<char>, usize, bool)>
    decreases n,
{
    if n <= 0 {
        Seq::empty()
    } else {
        let prev = workspace_rows(outs, names, filter, n - 1);
        if filter is None || filter.unwrap() == names[n - 1]@ {
            prev + output_ws_rows(outs[n - 1], names[n - 1]@)
        } else {
            prev
        }
    }
}

/// A window as the compositor lists it, before the output name, class and
/// title are filled in from the compositor's objects.
#[derive(Debug, Clone, Copy, PartialEq, Eq, Structural)]
pub struct WindowRow {
    pub id: u32,
    pub workspace_id: u32,
    /// Index of the window's output in the list handed to the handler.
    pub output_index: usize,
    pub focused: bool,
    pub band: ZBand,
}

/// The rows for the windows of workspace `ws` (in stacking order) on output
/// `i`; a window is focused when it is the workspace's active window and
/// the workspace is shown.
pub open spec fn ws_window_rows<E>(ws: crate::workspace::Workspace<E>, shown: WorkspaceId, i: int) -> Seq<WindowRow> {
    Seq::new(
        ws.windows@.len(),
        |k: int| WindowRow {
            id: ws.windows@[k].id.0,
            workspace_id: ws.id.0,
            output_index: i as usize,
            focused: ws.active == Some(ws.windows@[k].id) && ws.id == shown,
            band: ws.windows@[k].band,
        },
    )
}

/// The window rows of the first `m` workspaces of output `i`, skipping
/// workspaces whose id differs from `filter` when one is given.
pub open spec fn output_window_rows<O, E>(o: OutputState<O, E>, i: int, filter: Option<u32>, m: int) -> Seq<WindowRow>
    decreases m,
{
    if m <= 0 {
        Seq::empty()
    } else {
        let prev = output_window_rows(o, i, filter, m - 1);
        if filter matches Some(f) && o.workspaces@[m - 1].id.0 != f {
            prev
        } else {
            prev + ws_window_rows(o.workspaces@[m - 1], o.active_ws().id, i)
        }
    }
}

/// The window rows of the first `n` outputs.
pub open spec fn window_rows<O, E>(outs: Seq<OutputState<O, E>>, filter: Option<u32>, n: int) -> Seq<WindowRow>
    decreases n,
{
    if n <= 0 {
        Seq::empty()
    } else {
        window_rows(outs, filter, n - 1) + output_window_rows(outs[n - 1], n - 1, filter, outs[n - 1].workspaces@.len() as int)
    }
}

/// A listed monitor read as plain values.
pub open spec fn monitor_view(m: Monitor) -> (u32, Seq<char>, u32, u32, u32, Option<u32>) {
    (m.id, m.name@, m.width, m.height, m.refresh_mhz, m.active_workspace)
}

/// The row for output `o` named `name` with current mode `mode` (width,
/// height, refresh in mHz; zeros when it has none).
pub open spec fn monitor_row<O, E>(o: OutputState<O, E>, name: Seq<char>, mode: Option<(i32, i32, i32)>) -> (u32, Seq<char>, u32, u32, u32, Option<u32>) {
    match mode {
        Some((w, h, r)) => (o.id.0, name, w as u32, h as u32, r as u32, Some(o.active_ws().id.0)),
        None => (o.id.0, name, 0, 0, 0, Some(o.active_ws().id.0)),
    }
}

/// The shown workspace of `o` has an active window with an entry.
pub open spec fn has_focused_window<O, E>(o: OutputState<O, E>) -> bool {
    o.active_ws().active matches Some(a) && holds_window(o.active_ws().windows@, a)
}

/// Index of the first output whose shown workspace has an active window.
pub open spec fn focused_output_pos<O, E>(outs: Seq<OutputState<O, E>>) -> int {
    first_match(outs, |o: OutputState<O, E>| has_focused_window(o))
}

/// The row of the active window of output `i` (marked focused).
pub open spec fn active_window_row<O, E>(outs: Seq<OutputState<O, E>>, i: int) -> WindowRow {
    let ws = outs[i].active_ws();
    let a = ws.active.unwrap();
    let e = ws.windows@[first_match(ws.windows@, has_id::<E>(a))];
    WindowRow { id: e.id.0, workspace_id: ws.id.0, output_index: i as usize, focused: true, band: e.band }
}

/// All outputs are well formed, no two of them share an id, and no window
/// id occurs twice among an output's workspaces.
pub open spec fn outputs_wf<O, E>(outs: Seq<OutputState<O, E>>) -> bool {
    &&& forall|i: int| 0 <= i < outs.len() ==> (#[trigger] outs[i]).wf()
    &&& forall|i: int| 0 <= i < outs.len() ==> crate::output_state::window_ids_unique((#[trigger] outs[i]).workspaces@)
    &&& forall|i: int, j: int| 0 <= i < j < outs.len() ==> (#[trigger] outs[i]).id != (#[trigger] outs[j]).id
}

/// Index of the output with id `id`, or the length.
pub open spec fn output_pos<O, E>(outs: Seq<OutputState<O, E>>, id: OutputId) -> int {
    first_match(outs, |o: OutputState<O, E>| o.id == id)
}

/// Index of the first output whose shown workspace holds window `w`.
pub open spec fn window_output_pos<O, E>(outs: Seq<OutputState<O, E>>, w: WindowId) -> int {
    first_match(outs, |o: OutputState<O, E>| holds_window(o.active_ws().windows@, w))
}

/// Rows for the workspaces of output `o`.
fn output_workspace_rows<O, E>(o: &OutputState<O, E>, name: &String) -> (v: Vec<Workspace>)
    requires
        o.wf(),
    ensures
        ws_rows_view(v@) == output_ws_rows(*o, name@),
{
    let active_id = o.workspaces[o.active_workspace].id;
    let mut v: Vec<Workspace> = Vec::new();
    let mut j: usize = 0;
    while j < o.workspaces.len()
        invariant
            j <= o.workspaces@.len(),
            o.wf(),
            active_id == o.active_ws().id,
            v@.len() == j,
            forall|k: int| 0 <= k < j ==> ws_row_view(#[trigger] v@[k]) == output_ws_rows(*o, name@)[k],
        decreases o.workspaces@.len() - j,
    {
        let ws = &o.workspaces[j];
        v.push(Workspace { id: ws.id.0, output: name.clone(), windows: ws.windows.len(), active: ws.id == active_id });
        j = j + 1;
    }
    assert(ws_rows_view(v@) =~= output_ws_rows(*o, name@));
    v
}

/// Rows for the windows of workspace `j` of output `o` (output index `i`).
fn workspace_window_rows<O, E>(o: &OutputState<O, E>, i: usize, j: usize) -> (v: Vec<WindowRow>)
    requires
        o.wf(),
        j < o.workspaces@.len(),
    ensures
        v@ == ws_window_rows(o.workspaces@[j as int], o.active_ws().id, i as int),
{
    let shown = o.workspaces[o.active_workspace].id;
    let ws = &o.workspaces[j];
    let mut v: Vec<WindowRow> = Vec::new();
    let mut k: usize = 0;
    while k < ws.windows.len()
        invariant
            k <= ws.windows@.len(),
            *ws == o.workspaces@[j as int],
            shown == o.active_ws().id,
            v@.len() == k,
            forall|x: int| 0 <= x < k ==> v@[x] == ws_window_rows(*ws, shown, i as int)[x],
        decreases ws.windows@.len() - k,
    {
        let e = &ws.windows[k];
        v.push(
            WindowRow {
                id: e.id.0,
                workspace_id: ws.id.0,
                output_index: i,
                focused: ws.active == Some(e.id) && ws.id == shown,
                band: e.band,
            },
        );
        k = k + 1;
    }
    assert(v@ =~= ws_window_rows(*ws, shown, i as int));
    v
}

/// The filter of a workspace listing as plain characters.
pub open spec fn name_filter(f: Option<String>) -> Option<Seq<char>> {
    match f {
        Some(s) => Some(s@),
        None => None,
    }
}

proof fn lemma_rows_concat(a: Seq<Workspace>, b: Seq<Workspace>)
    ensures
        ws_rows_view(a + b) == ws_rows_view(a) + ws_rows_view(b),
{
    assert(ws_rows_view(a + b) =~= ws_rows_view(a) + ws_rows_view(b));
}

/// Rows for the workspaces of every output, or of the outputs named
/// `filter`.
pub fn list_workspaces<O, E>(outputs: &Vec<OutputState<O, E>>, names: &Vec<String>, filter: &Option<String>) -> (v: Vec<Workspace>)
    requires
        outputs_wf(outputs@),
        names@.len() == outputs@.len(),
    ensures
        ws_rows_view(v@) == workspace_rows(outputs@, names@, name_filter(*filter), outputs@.len() as int),
{
    let mut all: Vec<Workspace> = Vec::new();
    let mut i: usize = 0;
    while i < outputs.len()
        invariant
            i <= outputs@.len(),
            outputs_wf(outputs@),
            names@.len() == outputs@.len(),
            ws_rows_view(all@) == workspace_rows(outputs@, names@, name_filter(*filter), i as int),
        decreases outputs@.len() - i,
    {
        let keep = match filter {
            Some(f) => crate::text::str_eq(f.as_str(), names[i].as_str()),
            None => true,
        };
        if keep {
            let mut rows = output_workspace_rows(&outputs[i], &names[i]);
            let ghost prev = all@;
            let ghost added = rows@;
            all.append(&mut rows);
            proof {
                lemma_rows_concat(prev, added);
            }
        }
        i = i + 1;
    }
    all
}

/// Rows for the windows of output `o` (output index `i`), workspace by
/// workspace, skipping workspaces whose id differs from `filter` when one
/// is given.
fn output_window_listing<O, E>(o: &OutputState<O, E>, i: usize, filter: Option<u32>) -> (v: Vec<WindowRow>)
    requires
        o.wf(),
    ensures
        v@ == output_window_rows(*o, i as int, filter, o.workspaces@.len() as int),
{
    let mut all: Vec<WindowRow> = Vec::new();
    let mut j: usize = 0;
    while j < o.workspaces.len()
        invariant
            j <= o.workspaces@.len(),
            o.wf(),
            all@ == output_window_rows(*o, i as int, filter, j as int),
        decreases o.workspaces@.len() - j,
    {
        let skip = match filter {
            Some(f) => o.workspaces[j].id.0 != f,
            None => false,
        };
        if !skip {
            let mut rows = workspace_window_rows(o, i, j);
            all.append(&mut rows);
        }
        j = j + 1;
    }
    all
}

/// Rows for the windows of every output, in output order and, within an
/// output, workspace by workspace in stacking order.
pub fn list_windows<O, E>(outputs: &Vec<OutputState<O, E>>, filter: Option<u32>) -> (v: Vec<WindowRow>)
    requires
        outputs_wf(outputs@),
    ensures
        v@ == window_rows(outputs@, filter, outputs@.len() as int),
{
    let mut all: Vec<WindowRow> = Vec::new();
    let mut i: usize = 0;
    while i < outputs.len()
        invariant
            i <= outputs@.len(),
            outputs_wf(outputs@),
            all@ == window_rows(outputs@, filter, i as int),
        decreases outputs@.len() - i,
    {
        let mut rows = output_window_listing(&outputs[i], i, filter);
        all.append(&mut rows);
        i = i + 1;
    }
    all
}

/// One row per output: id, name, current mode (zeros without one) and
/// shown workspace.
pub fn list_monitors<O, E>(
    outputs: &Vec<OutputState<O, E>>,
    names: &Vec<String>,
    modes: &Vec<Option<(i32, i32, i32)>>,
) -> (v: Vec<Monitor>)
    requires
        outputs_wf(outputs@),
        names@.len() == outputs@.len(),
        modes@.len() == outputs@.len(),
    ensures
        v@.len() == outputs@.len(),
        forall|i: int|
            0 <= i < outputs@.len() ==> monitor_view(#[trigger] v@[i]) == monitor_row(
                outputs@[i],
                names@[i]@,
                modes@[i],
            ),
{
    let mut all: Vec<Monitor> = Vec::new();
    let mut i: usize = 0;
    while i < outputs.len()
        invariant
            i <= outputs@.len(),
            outputs_wf(outputs@),
            names@.len() == outputs@.len(),
            modes@.len() == outputs@.len(),
            all@.len() == i,
            forall|k: int| 0 <= k < i ==> monitor_view(#[trigger] all@[k]) == monitor_row(outputs@[k], names@[k]@, modes@[k]),
        decreases outputs@.len() - i,
    {
        let o = &outputs[i];
        assert(o.wf());
        let (width, height, refresh_mhz) = match modes[i] {
            Some((w, h, r)) => (w as u32, h as u32, r as u32),
            None => (0u32, 0u32, 0u32),
        };
        all.push(
            Monitor {
                id: o.id.0,
                name: names[i].clone(),
                width,
                height,
                refresh_mhz,
                active_workspace: Some(o.active().id.0),
            },
        );
        i = i + 1;
    }
    all
}

/// The first output (in list order) whose shown workspace has an active
/// window with an entry, and that window's row.
pub fn active_window<O, E>(outputs: &Vec<OutputState<O, E>>) -> (r: Option<WindowRow>)
    requires
        outputs_wf(outputs@),
    ensures
        ({
            let p = focused_output_pos(outputs@);
            if p < outputs@.len() {
                r == Some(active_window_row(outputs@, p))
            } else {
                r is None
            }
        }),
{
    let mut i: usize = 0;
    while i < outputs.len()
        invariant
            i <= outputs@.len(),
            outputs_wf(outputs@),
            forall|j: int| 0 <= j < i ==> !has_focused_window(#[trigger] outputs@[j]),
        decreases outputs@.len() - i,
    {
        assert(outputs@[i as int].wf());
        let ws = outputs[i].active();
        if let Some(a) = ws.active {
            if let Some(e) = ws.find(a) {
                proof {
                    lemma_first_match(outputs@, |o: OutputState<O, E>| has_focused_window(o), i as int);
                }
                return Some(WindowRow { id: e.id.0, workspace_id: ws.id.0, output_index: i, focused: true, band: e.band });
            }
        }
        i = i + 1;
    }
    proof {
        lemma_first_match(outputs@, |o: OutputState<O, E>| has_focused_window(o), i as int);
    }
    None
}

/// Index of the output with id `id`, or the number of outputs.
fn output_index<O, E>(outputs: &Vec<OutputState<O, E>>, id: OutputId) -> (r: usize)
    ensures
        r == output_pos(outputs@, id),
{
    let mut i: usize = 0;
    while i < outputs.len()
        invariant
            i <= outputs@.len(),
            forall|j: int| 0 <= j < i ==> (#[trigger] outputs@[j]).id != id,
        decreases outputs@.len() - i,
    {
        if outputs[i].id == id {
            proof {
                lemma_first_match(outputs@, |o: OutputState<O, E>| o.id == id, i as int);
            }
            return i;
        }
        i = i + 1;
    }
    proof {
        lemma_first_match(outputs@, |o: OutputState<O, E>| o.id == id, i as int);
    }
    i
}

/// `after` is `before` with output `p` replaced by one that satisfies the
/// caller's description; every other output is unchanged.
pub open spec fn others_unchanged<O, E>(before: Seq<OutputState<O, E>>, after: Seq<OutputState<O, E>>, p: int) -> bool {
    &&& after.len() == before.len()
    &&& forall|j: int| 0 <= j < before.len() && j != p ==> after[j] == before[j]
}

/// `after` is `before` once window `id` was focused on the first output
/// whose shown workspace holds it; `found` tells whether there was one.
pub open spec fn focused_on_some_output<O, E>(
    before: Seq<OutputState<O, E>>,
    after: Seq<OutputState<O, E>>,
    id: WindowId,
    found: bool,
) -> bool {
    let p = window_output_pos(before, id);
    &&& found == (p < before.len())
    &&& found ==> others_unchanged(before, after, p) && focused_in_active(before[p], after[p], Some(id))
    &&& !found ==> after == before
}

/// Focuses and raises window `id` on the first output whose shown
/// workspace holds it. Returns whether there was such an output.
pub fn focus_window<O, E>(outputs: &mut Vec<OutputState<O, E>>, id: WindowId) -> (found: bool)
    requires
        outputs_wf(old(outputs)@),
    ensures
        outputs_wf(final(outputs)@),
        focused_on_some_output(old(outputs)@, final(outputs)@, id, found),
{
    let ghost before = outputs@;
    let p = shown_holder(outputs, id);
    if p >= outputs.len() {
        return false;
    }
    assert(outputs@[p as int].wf());
    assert(crate::output_state::window_ids_unique(outputs@[p as int].workspaces@));
    outputs[p].focus_shown(id);
    proof {
        crate::output_state::lemma_focus_keeps_ids_unique(before[p as int], outputs@[p as int], id);
        assert forall|j: int| 0 <= j < outputs@.len() implies (#[trigger] outputs@[j]).wf() && outputs@[j].id == before[j].id
            && crate::output_state::window_ids_unique(outputs@[j].workspaces@) by {
            if j != p {
                assert(outputs@[j] == before[j]);
            }
        }
    }
    true
}

/// Index of the first output whose shown workspace holds window `id`, or
/// the number of outputs.
fn shown_holder<O, E>(outputs: &Vec<OutputState<O, E>>, id: WindowId) -> (r: usize)
    requires
        outputs_wf(outputs@),
    ensures
        r == window_output_pos(outputs@, id),
        r <= outputs@.len(),
{
    let mut i: usize = 0;
    while i < outputs.len()
        invariant
            i <= outputs@.len(),
            outputs_wf(outputs@),
            forall|j: int| 0 <= j < i ==> !holds_window((#[trigger] outputs@[j]).active_ws().windows@, id),
        decreases outputs@.len() - i,
    {
        assert(outputs@[i as int].wf());
        if outputs[i].active().find_index(id).is_some() {
            proof {
                lemma_first_match(outputs@, |o: OutputState<O, E>| holds_window(o.active_ws().windows@, id), i as int);
            }
            return i;
        }
        i = i + 1;
    }
    proof {
        lemma_first_match(outputs@, |o: OutputState<O, E>| holds_window(o.active_ws().windows@, id), i as int);
    }
    i
}

/// What the caller does with an answered request.
#[derive(Debug)]
pub enum IpcOutcome {
    /// Send `response`; with `resync`, first bring the compositor's scene in
    /// line with the shown workspaces.
    Reply { response: Response, resync: bool },
    /// Answer with these windows, once the caller has added each one's
    /// output name, class and title.
    Windows { rows: Vec<WindowRow> },
    /// Answer with this window as the active one, once the caller has added
    /// its output name, class and title.
    ActiveWindow { row: Option<WindowRow> },
    /// Ask window `window` of output `output_index` to close, then answer
    /// `Ok`.
    Close { output_index: usize, window: WindowId },
}

/// `r` is an error reply with message `msg`.
pub open spec fn is_error_reply(r: IpcOutcome, msg: Seq<char>) -> bool {
    &&& r matches IpcOutcome::Reply { response: Response::Error { message }, resync } && message@ == msg && !resync
}

/// `r` is an `Ok` reply with the given resync flag.
pub open spec fn is_ok_reply(r: IpcOutcome, resync: bool) -> bool {
    r matches IpcOutcome::Reply { response: Response::Success, resync: rs } && rs == resync
}

/// The message for a window id that no shown workspace holds.
pub open spec fn window_not_found_message(id: u32) -> Seq<char> {
    "window "@ + decimal(id as nat) + " not found on any active workspace"@
}

/// How a request is answered, given the outputs before (`before`) and
/// after (`after`), their names and current modes (width, height, refresh
/// in mHz), the focused output and the build version.
pub open spec fn ipc_answer<O, E>(
    before: Seq<OutputState<O, E>>,
    after: Seq<OutputState<O, E>>,
    names: Seq<String>,
    modes: Seq<Option<(i32, i32, i32)>>,
    focused: Option<OutputId>,
    req: Request,
    build: Seq<char>,
    r: IpcOutcome,
) -> bool {
    let n = before.len() as int;
    match req {
        Request::Workspaces { output } => {
            &&& after == before
            &&& r matches IpcOutcome::Reply { response: Response::Workspaces { workspaces }, resync }
            &&& !resync
            &&& ws_rows_view(workspaces@) == workspace_rows(before, names, name_filter(output), n)
        },
        Request::Windows { workspace } => {
            &&& after == before
            &&& r matches IpcOutcome::Windows { rows }
            &&& rows@ == window_rows(before, workspace, n)
        },
        Request::Monitors => {
            &&& after == before
            &&& r matches IpcOutcome::Reply { response: Response::Monitors { monitors }, resync }
            &&& !resync
            &&& monitors@.len() == n
            &&& forall|i: int| 0 <= i < n ==> monitor_view(#[trigger] monitors@[i]) == monitor_row(before[i], names[i]@, modes[i])
        },
        Request::ActiveWindow => {
            let p = focused_output_pos(before);
            &&& after == before
            &&& r matches IpcOutcome::ActiveWindow { row }
            &&& row == (if p < n { Some(active_window_row(before, p)) } else { None::<WindowRow> })
        },
        Request::SwitchToWorkspace { id } => {
            &&& is_ok_reply(r, focused is Some)
            &&& match focused {
                None => after == before,
                Some(o) => {
                    let p = output_pos(before, o);
                    if p < n {
                        others_unchanged(before, after, p) && switched_to(before[p], after[p], WorkspaceId(id))
                    } else {
                        after == before
                    }
                },
            }
        },
        Request::MoveWindowToWorkspace { id } => match focused {
            None => after == before && is_error_reply(r, "no focused output"@),
            Some(o) => {
                let p = output_pos(before, o);
                if p < n {
                    let t = WorkspaceId(id);
                    let m = before[p].move_outcome(t);
                    &&& others_unchanged(before, after, p)
                    &&& moved_focused_window(before[p], after[p], t, m)
                    &&& match m {
                        MoveOutcome::NoFocusedWindow => is_error_reply(r, "no focused window"@),
                        MoveOutcome::AlreadyOnTarget => is_ok_reply(r, false),
                        MoveOutcome::RemoveFailed => is_error_reply(r, "failed to remove focused window"@),
                        MoveOutcome::Moved => is_ok_reply(r, true),
                    }
                } else {
                    after == before && is_error_reply(r, "focused output not found"@)
                }
            },
        },
        Request::FocusWindow { id } => {
            let p = window_output_pos(before, WindowId(id));
            if p < n {
                &&& is_ok_reply(r, true)
                &&& others_unchanged(before, after, p)
                &&& focused_in_active(before[p], after[p], Some(WindowId(id)))
            } else {
                after == before && is_error_reply(r, window_not_found_message(id))
            }
        },
        Request::CloseFocused => {
            let p = focused_output_pos(before);
            &&& after == before
            &&& if p < n {
                r == IpcOutcome::Close { output_index: p as usize, window: WindowId(active_window_row(before, p).id) }
            } else {
                is_error_reply(r, "no focused window"@)
            }
        },
        Request::Version => {
            &&& after == before
            &&& r matches IpcOutcome::Reply { response: Response::Version { ipc, build: b }, resync }
            &&& !resync
            &&& ipc@ == PROTOCOL_VERSION@
            &&& b@ == build
        },
        Request::Quit => after == before && is_ok_reply(r, false),
    }
}

fn error_reply(message: &str) -> (r: IpcOutcome)
    ensures
        is_error_reply(r, message@),
{
    IpcOutcome::Reply { response: Response::Error { message: String::from_str(message) }, resync: false }
}

fn ok_reply(resync: bool) -> (r: IpcOutcome)
    ensures
        is_ok_reply(r, resync),
{
    IpcOutcome::Reply { response: Response::Success, resync }
}

/// Answers a client request against the compositor's outputs. `names` and
/// `modes` hold each output's name and current mode (width, height, refresh
/// in mHz), in the order of `outputs`; `focused_output` is the output with
/// keyboard focus; `build` is the compositor's version.
pub fn handle_ipc_request<O, E>(
    outputs: &mut Vec<OutputState<O, E>>,
    names: &Vec<String>,
    modes: &Vec<Option<(i32, i32, i32)>>,
    focused_output: Option<OutputId>,
    req: Request,
    build: &str,
) -> (r: IpcOutcome)
    requires
        outputs_wf(old(outputs)@),
        names@.len() == old(outputs)@.len(),
        modes@.len() == old(outputs)@.len(),
    ensures
        outputs_wf(final(outputs)@),
        ipc_answer(old(outputs)@, final(outputs)@, names@, modes@, focused_output, req, build@, r),
{
    let ghost before = outputs@;
    match req {
        Request::Workspaces { output } => {
            let workspaces = list_workspaces(outputs, names, &output);
            IpcOutcome::Reply { response: Response::Workspaces { workspaces }, resync: false }
        },
        Request::Windows { workspace } => IpcOutcome::Windows { rows: list_windows(outputs, workspace) },
        Request::Monitors => {
            let monitors = list_monitors(outputs, names, modes);
            IpcOutcome::Reply { response: Response::Monitors { monitors }, resync: false }
        },
        Request::ActiveWindow => IpcOutcome::ActiveWindow { row: active_window(outputs) },
        Request::SwitchToWorkspace { id } => {
            match focused_output {
                Some(o) => {
                    let p = output_index(outputs, o);
                    proof {
                        lemma_first_match_bounds(before, |x: OutputState<O, E>| x.id == o);
                    }
                    if p < outputs.len() {
                        assert(outputs@[p as int].wf());
                        assert(crate::output_state::window_ids_unique(outputs@[p as int].workspaces@));
                        outputs[p].switch_to(WorkspaceId(id));
                        proof {
                            crate::output_state::lemma_switch_keeps_ids_unique(before[p as int], outputs@[p as int], WorkspaceId(id));
                            assert forall|j: int| 0 <= j < outputs@.len() implies (#[trigger] outputs@[j]).wf() && outputs@[j].id == before[j].id
                                && crate::output_state::window_ids_unique(outputs@[j].workspaces@) by {
                                if j != p {
                                    assert(outputs@[j] == before[j]);
                                }
                            }
                        }
                    }
                    ok_reply(true)
                },
                None => ok_reply(false),
            }
        },
        Request::MoveWindowToWorkspace { id } => {
            let o = match focused_output {
                Some(o) => o,
                None => {
                    return error_reply("no focused output");
                },
            };
            let p = output_index(outputs, o);
            proof {
                lemma_first_match_bounds(before, |x: OutputState<O, E>| x.id == o);
            }
            if p >= outputs.len() {
                return error_reply("focused output not found");
            }
            assert(outputs@[p as int].wf());
            assert(crate::output_state::window_ids_unique(outputs@[p as int].workspaces@));
            let m = outputs[p].move_focused_window_to_workspace(WorkspaceId(id));
            proof {
                if m == MoveOutcome::Moved {
                    crate::output_state::law_move_keeps_every_window_once(before[p as int], outputs@[p as int], WorkspaceId(id));
                }
                assert forall|j: int| 0 <= j < outputs@.len() implies (#[trigger] outputs@[j]).wf()
                    && crate::output_state::window_ids_unique(outputs@[j].workspaces@) by {
                    if j != p {
                        assert(outputs@[j] == before[j]);
                    }
                }
            }
            match m {
                MoveOutcome::NoFocusedWindow => error_reply("no focused window"),
                MoveOutcome::AlreadyOnTarget => ok_reply(false),
                MoveOutcome::RemoveFailed => error_reply("failed to remove focused window"),
                MoveOutcome::Moved => ok_reply(true),
            }
        },
        Request::FocusWindow { id } => {
            if focus_window(outputs, WindowId(id)) {
                ok_reply(true)
            } else {
                let digits = u32_to_string(id);
                let message = prefixed("window ", digits.as_str()).concat(" not found on any active workspace");
                IpcOutcome::Reply { response: Response::Error { message }, resync: false }
            }
        },
        Request::CloseFocused => {
            match active_window(outputs) {
                Some(row) => IpcOutcome::Close { output_index: row.output_index, window: WindowId(row.id) },
                None => error_reply("no focused window"),
            }
        },
        Request::Version => IpcOutcome::Reply {
            response: Response::Version { ipc: String::from_str(PROTOCOL_VERSION), build: String::from_str(build) },
            resync: false,
        },
        Request::Quit => ok_reply(false),
    }
}

/// What the server does with one line a client sent, once the line was
/// read as a request (or failed to be, with the parser's message).
#[derive(Debug)]
pub enum LineAction {
    /// Close the connection without answering (`Quit`).
    Close,
    /// Answer the request with the compositor's handler.
    Dispatch(Request),
    /// Answer with this response straight away.
    Answer(Response),
}

/// The server's decision on a non-empty line: `Quit` closes the
/// connection, a malformed line is answered with an error naming the
/// parser's complaint, anything else goes to the handler.
pub fn request_action(parsed: Result<Request, String>) -> (a: LineAction)
    ensures
        match parsed {
            Ok(Request::Quit) => a is Close,
            Ok(r) => a matches LineAction::Dispatch(d) && d == r,
            Err(e) => a matches LineAction::Answer(Response::Error { message }) && message@ == "malformed request: "@ + e@,
        },
{
    match parsed {
        Ok(Request::Quit) => LineAction::Close,
        Ok(r) => LineAction::Dispatch(r),
        Err(e) => LineAction::Answer(Response::Error { message: prefixed("malformed request: ", e.as_str()) }),
    }
}

/// The request only reads the compositor's state.
pub open spec fn is_query(req: Request) -> bool {
    match req {
        Request::Workspaces { .. } | Request::Windows { .. } | Request::Monitors | Request::ActiveWindow => true,
        Request::CloseFocused | Request::Version | Request::Quit => true,
        _ => false,
    }
}

/// Queries (listings, the active window, closing, which the caller carries
/// out on the client, the version and quitting) leave every output as it
/// was.
pub proof fn law_queries_change_nothing<O, E>(
    before: Seq<OutputState<O, E>>,
    after: Seq<OutputState<O, E>>,
    names: Seq<String>,
    modes: Seq<Option<(i32, i32, i32)>>,
    focused: Option<OutputId>,
    req: Request,
    build: Seq<char>,
    r: IpcOutcome,
)
    requires
        is_query(req),
        ipc_answer(before, after, names, modes, focused, req, build, r),
    ensures
        after == before,
{
}

/// A request answered with an error changes no output's workspaces or
/// which of them is shown.
pub proof fn law_errors_change_nothing<O, E>(
    before: Seq<OutputState<O, E>>,
    after: Seq<OutputState<O, E>>,
    names: Seq<String>,
    modes: Seq<Option<(i32, i32, i32)>>,
    focused: Option<OutputId>,
    req: Request,
    build: Seq<char>,
    r: IpcOutcome,
)
    requires
        ipc_answer(before, after, names, modes, focused, req, build, r),
        r matches IpcOutcome::Reply { response: Response::Error { .. }, .. },
    ensures
        after.len() == before.len(),
        forall|i: int|
            0 <= i < before.len() ==> (#[trigger] after[i]).workspaces@ == before[i].workspaces@
                && after[i].active_workspace == before[i].active_workspace,
{
}

/// A workspace switch is what a later listing shows: on the focused output
/// the workspace switched to is listed, and it is the only one marked
/// active.
pub proof fn law_switch_shows_in_listing<O, E>(
    before: Seq<OutputState<O, E>>,
    after: Seq<OutputState<O, E>>,
    names: Seq<String>,
    modes: Seq<Option<(i32, i32, i32)>>,
    o: OutputId,
    id: u32,
    build: Seq<char>,
    r: IpcOutcome,
)
    requires
        ipc_answer(before, after, names, modes, Some(o), Request::SwitchToWorkspace { id }, build, r),
        output_pos(before, o) < before.len(),
    ensures
        ({
            let p = output_pos(before, o);
            let rows = output_ws_rows(after[p], names[p]@);
            &&& exists|k: int| 0 <= k < rows.len() && rows[k].0 == id && rows[k].3
            &&& forall|k: int| 0 <= k < rows.len() && #[trigger] rows[k].3 ==> rows[k].0 == id
        }),
{
    let p = output_pos(before, o);
    let a = after[p];
    let rows = output_ws_rows(a, names[p]@);
    let k = a.active_workspace as int;
    assert(rows[k].0 == id && rows[k].3);
}

/// Moving the focused window is what a later listing shows: the output
/// then has a workspace with the target id, and that workspace holds the
/// window.
pub proof fn law_move_shows_in_listing<O, E>(
    before: Seq<OutputState<O, E>>,
    after: Seq<OutputState<O, E>>,
    names: Seq<String>,
    modes: Seq<Option<(i32, i32, i32)>>,
    o: OutputId,
    id: u32,
    build: Seq<char>,
    r: IpcOutcome,
)
    requires
        outputs_wf(before),
        ipc_answer(before, after, names, modes, Some(o), Request::MoveWindowToWorkspace { id }, build, r),
        output_pos(before, o) < before.len(),
        before[output_pos(before, o)].move_outcome(WorkspaceId(id)) == MoveOutcome::Moved,
    ensures
        ({
            let p = output_pos(before, o);
            let f = before[p].active_ws().active.unwrap();
            exists|j: int|
                0 <= j < after[p].workspaces@.len() && #[trigger] after[p].workspaces@[j].id == WorkspaceId(id)
                    && holds_window(after[p].workspaces@[j].windows@, f)
        }),
{
    let p = output_pos(before, o);
    let b = before[p];
    let a = after[p];
    let t = WorkspaceId(id);
    let aw = b.active_ws();
    let f = aw.active.unwrap();
    lemma_first_match_bounds(aw.windows@, has_id::<E>(f));
    let q = crate::output_state::workspace_pos(b.workspaces@, t);
    lemma_first_match_bounds(b.workspaces@, crate::output_state::ws_has_id::<E>(t));
    if q < b.workspaces@.len() {
        let last = a.workspaces@[q].windows@.len() - 1;
        crate::workspace::lemma_holds_window_at(a.workspaces@[q].windows@, last);
        assert(a.workspaces@[q].id == t);
    } else {
        let n = b.workspaces@.len() as int;
        crate::workspace::lemma_holds_window_at(a.workspaces@[n].windows@, 0);
        assert(a.workspaces@[n].id == t);
    }
}

/// Focusing a window by id answers `Ok` exactly when some output's shown
/// workspace holds it. Then, on the first such output, the window becomes
/// the active one and the newest entry of the focus history (once), exactly
/// the entries holding it are activated, it is the only activated entry
/// and occurs once, no window is lost, and the other outputs are unchanged. Otherwise the error names the id and nothing changes.
pub proof fn law_focus_window_request<O, E>(
    before: Seq<OutputState<O, E>>,
    after: Seq<OutputState<O, E>>,
    names: Seq<String>,
    modes: Seq<Option<(i32, i32, i32)>>,
    focused: Option<OutputId>,
    id: u32,
    build: Seq<char>,
    r: IpcOutcome,
)
    requires
        outputs_wf(before),
        ipc_answer(before, after, names, modes, focused, Request::FocusWindow { id }, build, r),
    ensures
        ({
            let p = window_output_pos(before, WindowId(id));
            let w = WindowId(id);
            &&& is_ok_reply(r, true) <==> p < before.len()
            &&& p < before.len() ==> {
                let old_ws = before[p].active_ws();
                let ws = after[p].active_ws();
                &&& others_unchanged(before, after, p)
                &&& ws.id == old_ws.id
                &&& ws.active == Some(w)
                &&& ws.focus_history@.len() > 0 && ws.focus_history@.last() == w
                &&& ws.focus_history@.no_duplicates()
                &&& ws.windows@.len() == old_ws.windows@.len()
                &&& forall|j: int|
                    0 <= j < ws.windows@.len() ==> (#[trigger] ws.windows@[j]).activated == (ws.windows@[j].id == w)
                &&& forall|j: int, k: int|
                    0 <= j < ws.windows@.len() && 0 <= k < ws.windows@.len() && (#[trigger] ws.windows@[j]).id == w
                        && (#[trigger] ws.windows@[k]).id == w ==> j == k
            }
            &&& p >= before.len() ==> after == before && is_error_reply(r, window_not_found_message(id))
        }),
{
    let p = window_output_pos(before, WindowId(id));
    lemma_first_match_bounds(before, |o: OutputState<O, E>| holds_window(o.active_ws().windows@, WindowId(id)));
    if p < before.len() {
        let b = before[p];
        assert(b.wf());
        let aw = b.active_ws();
        assert(holds_window(aw.windows@, WindowId(id))) by {
            reveal(first_match);
        }
        assert(crate::output_state::window_ids_unique(b.workspaces@));
        crate::output_state::lemma_unique_within_workspace(b.workspaces@, b.active_workspace as int);
        crate::workspace::law_focus_activates_only_it(aw.windows@, aw.focus_history@, aw.active, WindowId(id));
    }
}

/// Moving the focused window to workspace `id` through the IPC, when the
/// focused output's shown workspace has a focused window and is not already
/// that workspace: the answer is `Ok`; the output keeps showing the same
/// workspace; exactly one workspace of the output has id `id` (created when
/// missing), and its stack ends with the moved window's entry, retargeted to
/// it; the window is gone from the shown workspace's stack and focus
/// history; window ids stay unique on the output, which holds the same
/// windows as before, the moved one only in the target workspace; the other
/// outputs are unchanged.
pub proof fn law_move_window_request<O, E>(
    before: Seq<OutputState<O, E>>,
    after: Seq<OutputState<O, E>>,
    names: Seq<String>,
    modes: Seq<Option<(i32, i32, i32)>>,
    o: OutputId,
    id: u32,
    build: Seq<char>,
    r: IpcOutcome,
)
    requires
        outputs_wf(before),
        ipc_answer(before, after, names, modes, Some(o), Request::MoveWindowToWorkspace { id }, build, r),
        output_pos(before, o) < before.len(),
        before[output_pos(before, o)].move_outcome(WorkspaceId(id)) == MoveOutcome::Moved,
    ensures
        ({
            let p = output_pos(before, o);
            let t = WorkspaceId(id);
            let aw = before[p].active_ws();
            let f = aw.active.unwrap();
            let e = aw.windows@[first_match(aw.windows@, has_id::<E>(f))];
            let ws = after[p].workspaces@;
            &&& is_ok_reply(r, true)
            &&& others_unchanged(before, after, p)
            &&& after[p].active_ws().id == aw.id
            &&& exists|j: int| 0 <= j < ws.len() && #[trigger] ws[j].id == t && ws[j].windows@.len() > 0
                && ws[j].windows@.last() == crate::output_state::retargeted(e, t) && ws[j].windows@.last().workspace_id == t
            &&& forall|j: int, k: int| 0 <= j < ws.len() && 0 <= k < ws.len() && (#[trigger] ws[j]).id == t && (#[trigger] ws[k]).id == t ==> j == k
            &&& !holds_window(after[p].active_ws().windows@, f)
            &&& !after[p].active_ws().focus_history@.contains(f)
            &&& {
                &&& crate::output_state::window_ids_unique(ws)
                &&& forall|x: WindowId|
                    crate::output_state::holds_anywhere(ws, x) <==> crate::output_state::holds_anywhere(
                        before[p].workspaces@,
                        x,
                    )
                &&& forall|i: int, j: int|
                    0 <= i < ws.len() && 0 <= j < ws[i].windows@.len() && #[trigger] ws[i].windows@[j].id == f ==> ws[i].id == t
            }
        }),
{
    let p = output_pos(before, o);
    let t = WorkspaceId(id);
    let b = before[p];
    let a = after[p];
    let aw = b.active_ws();
    let f = aw.active.unwrap();
    let fp = first_match(aw.windows@, has_id::<E>(f));
    lemma_first_match_bounds(aw.windows@, has_id::<E>(f));
    let q = crate::output_state::workspace_pos(b.workspaces@, t);
    lemma_first_match_bounds(b.workspaces@, crate::output_state::ws_has_id::<E>(t));
    let ws = a.workspaces@;
    if q < b.workspaces@.len() {
        assert(ws[q].id == t);
        assert(ws[q].windows@.last() == crate::output_state::retargeted(aw.windows@[fp], t));
    } else {
        let n = b.workspaces@.len() as int;
        assert(ws[n].id == t);
        assert(ws[n].windows@ == seq![crate::output_state::retargeted(aw.windows@[fp], t)]);
    }
    assert forall|j: int, k: int| 0 <= j < ws.len() && 0 <= k < ws.len() && (#[trigger] ws[j]).id == t && (#[trigger] ws[k]).id == t implies j == k by {
        if j < k {
            assert(ws[j].id != ws[k].id);
        } else if k < j {
            assert(ws[k].id != ws[j].id);
        }
    }
    lemma_first_match_bounds(before, |x: OutputState<O, E>| x.id == o);
    assert(before[p].wf());
    assert(crate::output_state::window_ids_unique(b.workspaces@));
    crate::output_state::lemma_unique_within_workspace(b.workspaces@, b.active_workspace as int);
    {
        let rest = aw.windows@.remove(fp);
        assert(a.active_ws().windows@ == rest);
        assert forall|j: int| 0 <= j < rest.len() implies !has_id::<E>(f)(#[trigger] rest[j]) by {
            let k = if j < fp { j } else { j + 1 };
            assert(rest[j] == aw.windows@[k]);
            assert(crate::workspace::ids_of(aw.windows@)[k] == aw.windows@[k].id);
            assert(crate::workspace::ids_of(aw.windows@)[fp] == aw.windows@[fp].id);
        }
        lemma_first_match(rest, has_id::<E>(f), rest.len() as int);
        crate::workspace::lemma_without(aw.focus_history@, f);
    }
    crate::output_state::law_move_keeps_every_window_once(b, a, t);
}

/// A listed window is marked focused exactly when its workspace is the one
/// its output shows and it is that workspace's active window; rows of
/// hidden workspaces are never focused.
pub proof fn law_listed_focus_is_shown_active<O, E>(outs: Seq<OutputState<O, E>>, filter: Option<u32>)
    requires
        outputs_wf(outs),
        outs.len() <= usize::MAX,
    ensures
        ({
            let rows = window_rows(outs, filter, outs.len() as int);
            forall|k: int| 0 <= k < rows.len() ==> {
                let row = #[trigger] rows[k];
                &&& row.output_index < outs.len()
                &&& row.focused <==> {
                    let shown = outs[row.output_index as int].active_ws();
                    &&& shown.id.0 == row.workspace_id
                    &&& shown.active == Some(WindowId(row.id))
                }
            }
        }),
{
    lemma_window_rows_focus(outs, filter, outs.len() as int);
}

proof fn lemma_window_rows_focus<O, E>(outs: Seq<OutputState<O, E>>, filter: Option<u32>, n: int)
    requires
        outputs_wf(outs),
        outs.len() <= usize::MAX,
        0 <= n <= outs.len(),
    ensures
        ({
            let rows = window_rows(outs, filter, n);
            forall|k: int| 0 <= k < rows.len() ==> {
                let row = #[trigger] rows[k];
                &&& row.output_index < n
                &&& row.focused <==> {
                    let shown = outs[row.output_index as int].active_ws();
                    &&& shown.id.0 == row.workspace_id
                    &&& shown.active == Some(WindowId(row.id))
                }
            }
        }),
    decreases n,
{
    if n > 0 {
        lemma_window_rows_focus(outs, filter, n - 1);
        let o = outs[n - 1];
        assert(o.wf());
        lemma_output_rows_focus(o, n - 1, filter, o.workspaces@.len() as int);
        let prev = window_rows(outs, filter, n - 1);
        let more = output_window_rows(o, n - 1, filter, o.workspaces@.len() as int);
        let rows = window_rows(outs, filter, n);
        assert(rows == prev + more);
        assert forall|k: int| 0 <= k < rows.len() implies {
            let row = #[trigger] rows[k];
            &&& row.output_index < n
            &&& row.focused <==> {
                let shown = outs[row.output_index as int].active_ws();
                &&& shown.id.0 == row.workspace_id
                &&& shown.active == Some(WindowId(row.id))
            }
        } by {
            if k < prev.len() {
                assert(rows[k] == prev[k]);
            } else {
                assert(rows[k] == more[k - prev.len()]);
            }
        }
    }
}

proof fn lemma_output_rows_focus<O, E>(o: OutputState<O, E>, i: int, filter: Option<u32>, m: int)
    requires
        o.wf(),
        0 <= i < usize::MAX,
        0 <= m <= o.workspaces@.len(),
    ensures
        ({
            let rows = output_window_rows(o, i, filter, m);
            forall|k: int| 0 <= k < rows.len() ==> {
                let row = #[trigger] rows[k];
                &&& row.output_index == i
                &&& row.focused <==> {
                    &&& o.active_ws().id.0 == row.workspace_id
                    &&& o.active_ws().active == Some(WindowId(row.id))
                }
            }
        }),
    decreases m,
{
    if m > 0 {
        lemma_output_rows_focus(o, i, filter, m - 1);
        let prev = output_window_rows(o, i, filter, m - 1);
        let rows = output_window_rows(o, i, filter, m);
        let ws = o.workspaces@[m - 1];
        let shown = o.active_ws();
        let more = ws_window_rows(ws, shown.id, i);
        if !(filter matches Some(f) && ws.id.0 != f) {
            assert(rows == prev + more);
            assert forall|k: int| 0 <= k < rows.len() implies {
                let row = #[trigger] rows[k];
                &&& row.output_index == i
                &&& row.focused <==> {
                    &&& o.active_ws().id.0 == row.workspace_id
                    &&& o.active_ws().active == Some(WindowId(row.id))
                }
            } by {
                if k < prev.len() {
                    assert(rows[k] == prev[k]);
                } else {
                    let j = k - prev.len();
                    assert(rows[k] == more[j]);
                    let e = ws.windows@[j];
                    assert(WindowId(e.id.0) == e.id);
                    if shown.id.0 == ws.id.0 {
                        assert(shown.id == ws.id);
                        if m - 1 != o.active_workspace as int {
                            assert(o.workspaces@[m - 1].id != o.workspaces@[o.active_workspace as int].id);
                        }
                    } else {
                        assert(shown.id != ws.id);
                    }
                }
            }
        }
    }
}

} // verus!
