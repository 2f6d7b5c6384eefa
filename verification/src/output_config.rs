//! Output configuration sessions (the wlr-output-management protocol): what
//! each client request does to a session, and what an apply or a test
//! hands to the backend.
//!
//! Heads are named by a number the caller assigns to each output; modes,
//! positions and transforms are plain values. A requested scale is kept as
//! the bit pattern of its `f64`, checked for validity by the caller.
use vstd::prelude::*;

use crate::tiling::Point;

verus! {

/// An output transform: a rotation, optionally after a flip.
#[derive(Debug, Clone, Copy, PartialEq, Eq, Hash, Structural)]
pub enum Transform {
    Normal,
    _90,
    _180,
    _270,
    Flipped,
    Flipped90,
    Flipped180,
    Flipped270,
}

/// The transform after `t` in the rotate-output cycle: a quarter turn
/// clockwise, going from the last plain rotation to the flipped ones and
/// from the last flipped one back to normal.
pub open spec fn rotated(t: Transform) -> Transform {
    match t {
        Transform::Normal => Transform::_90,
        Transform::_90 => Transform::_180,
        Transform::_180 => Transform::_270,
        Transform::_270 => Transform::Flipped,
        Transform::Flipped => Transform::Flipped90,
        Transform::Flipped90 => Transform::Flipped180,
        Transform::Flipped180 => Transform::Flipped270,
        Transform::Flipped270 => Transform::Normal,
    }
}

impl Transform {
    /// The next transform in the rotate-output cycle.
    pub fn rotate_next(self) -> (r: Transform)
        ensures
            r == rotated(self),
    {
        match self {
            Transform::Normal => Transform::_90,
            Transform::_90 => Transform::_180,
            Transform::_180 => Transform::_270,
            Transform::_270 => Transform::Flipped,
            Transform::Flipped => Transform::Flipped90,
            Transform::Flipped90 => Transform::Flipped180,
            Transform::Flipped180 => Transform::Flipped270,
            Transform::Flipped270 => Transform::Normal,
        }
    }
}

/// The wire code of transform `t` (the `wl_output.transform` enum).
pub open spec fn wl_code(t: Transform) -> u32 {
    match t {
        Transform::Normal => 0,
        Transform::_90 => 1,
        Transform::_180 => 2,
        Transform::_270 => 3,
        Transform::Flipped => 4,
        Transform::Flipped90 => 5,
        Transform::Flipped180 => 6,
        Transform::Flipped270 => 7,
    }
}

/// The transform with wire code `code`, if the protocol defines one.
pub open spec fn transform_with_code(code: u32) -> Option<Transform> {
    if code == 0 {
        Some(Transform::Normal)
    } else if code == 1 {
        Some(Transform::_90)
    } else if code == 2 {
        Some(Transform::_180)
    } else if code == 3 {
        Some(Transform::_270)
    } else if code == 4 {
        Some(Transform::Flipped)
    } else if code == 5 {
        Some(Transform::Flipped90)
    } else if code == 6 {
        Some(Transform::Flipped180)
    } else if code == 7 {
        Some(Transform::Flipped270)
    } else {
        None
    }
}

/// The wire code the protocol sends for `t`.
pub fn transform_to_wl(t: Transform) -> (code: u32)
    ensures
        code == wl_code(t),
{
    match t {
        Transform::Normal => 0,
        Transform::_90 => 1,
        Transform::_180 => 2,
        Transform::_270 => 3,
        Transform::Flipped => 4,
        Transform::Flipped90 => 5,
        Transform::Flipped180 => 6,
        Transform::Flipped270 => 7,
    }
}

/// The transform a client sent as `code`; `None` for a code the protocol
/// does not define.
pub fn wl_to_transform(code: u32) -> (t: Option<Transform>)
    ensures
        t == transform_with_code(code),
{
    match code {
        0 => Some(Transform::Normal),
        1 => Some(Transform::_90),
        2 => Some(Transform::_180),
        3 => Some(Transform::_270),
        4 => Some(Transform::Flipped),
        5 => Some(Transform::Flipped90),
        6 => Some(Transform::Flipped180),
        7 => Some(Transform::Flipped270),
        _ => None,
    }
}

/// Sending a transform and reading it back gives the same transform, and
/// the codes the protocol defines are exactly the ones sent.
pub proof fn law_transform_wire_round_trip(t: Transform, code: u32)
    ensures
        transform_with_code(wl_code(t)) == Some(t),
        transform_with_code(code) matches Some(u) ==> wl_code(u) == code,
{
}

/// `t` rotated `n` times.
pub open spec fn rotated_times(t: Transform, n: nat) -> Transform
    decreases n,
{
    if n == 0 {
        t
    } else {
        rotated(rotated_times(t, (n - 1) as nat))
    }
}

/// `t` comes back after eight rotations and not before.
pub open spec fn full_cycle(t: Transform) -> bool {
    &&& rotated_times(t, 8) == t
    &&& rotated_times(t, 1) != t
    &&& rotated_times(t, 2) != t
    &&& rotated_times(t, 3) != t
    &&& rotated_times(t, 4) != t
    &&& rotated_times(t, 5) != t
    &&& rotated_times(t, 6) != t
    &&& rotated_times(t, 7) != t
}

/// Rotating an output eight times brings it back to where it was, and no
/// fewer rotations do: the cycle visits all eight transforms.
pub proof fn law_rotation_cycle(t: Transform)
    ensures
        rotated_times(t, 8) == t,
        forall|n: nat| 1 <= n < 8 ==> #[trigger] rotated_times(t, n) != t,
{
    assert(rotated_times(t, 0) == t);
    assert(rotated_times(t, 1) == rotated(t));
    assert(rotated_times(t, 2) == rotated(rotated_times(t, 1)));
    assert(rotated_times(t, 3) == rotated(rotated_times(t, 2)));
    assert(rotated_times(t, 4) == rotated(rotated_times(t, 3)));
    assert(rotated_times(t, 5) == rotated(rotated_times(t, 4)));
    assert(rotated_times(t, 6) == rotated(rotated_times(t, 5)));
    assert(rotated_times(t, 7) == rotated(rotated_times(t, 6)));
    assert(rotated_times(t, 8) == rotated(rotated_times(t, 7)));
    assert(full_cycle(t));
    assert forall|n: nat| 1 <= n < 8 implies #[trigger] rotated_times(t, n) != t by {
        if n == 1 {
        } else if n == 2 {
        } else if n == 3 {
        } else if n == 4 {
        } else if n == 5 {
        } else if n == 6 {
        } else {
        }
    }
}

/// A video mode: size in pixels and refresh rate in mHz.
#[derive(Debug, Clone, Copy, PartialEq, Eq, Hash, Structural)]
pub struct OutputMode {
    pub width: i32,
    pub height: i32,
    pub refresh: i32,
}

/// Reasons a configuration apply may fail.
#[derive(Debug, Clone, PartialEq, Eq)]
pub enum OutputConfigError {
    /// The backend does not implement output configuration.
    NotSupported,
    /// A requested mode is not advertised on the head.
    InvalidMode,
    /// A requested position is invalid.
    InvalidPosition,
    /// The configuration went stale between building and applying it.
    Cancelled,
    /// Backend-specific failure.
    Backend(String),
}

/// The adaptive-sync state a client last asked for on an output (`None`
/// until one asks).
#[derive(Debug, Clone, Copy, PartialEq, Eq, Structural)]
pub struct OutputAdaptiveSyncRequest {
    pub enabled: Option<bool>,
}

impl Default for OutputAdaptiveSyncRequest {
    fn default() -> (r: Self)
        ensures
            r.enabled is None,
    {
        OutputAdaptiveSyncRequest { enabled: None }
    }
}

/// The edits a session holds for one head.
#[derive(Debug, Clone, Copy, PartialEq, Eq, Structural)]
pub struct PendingHead {
    pub enabled: Option<bool>,
    pub mode: Option<OutputMode>,
    pub position: Option<Point>,
    /// Bit pattern of the requested scale.
    pub scale_bits: Option<u64>,
    pub transform: Option<Transform>,
    pub adaptive_sync: Option<bool>,
    pub set_mode_done: bool,
    pub set_position_done: bool,
    pub set_scale_done: bool,
    pub set_transform_done: bool,
    pub set_adaptive_sync_done: bool,
}

/// A head just enabled or disabled in a session, with nothing else set.
pub open spec fn fresh_head(enabled: bool) -> PendingHead {
    PendingHead {
        enabled: Some(enabled),
        mode: None,
        position: None,
        scale_bits: None,
        transform: None,
        adaptive_sync: None,
        set_mode_done: false,
        set_position_done: false,
        set_scale_done: false,
        set_transform_done: false,
        set_adaptive_sync_done: false,
    }
}

impl PendingHead {
    /// A head just enabled (`true`) or disabled (`false`), with nothing else
    /// set.
    pub fn fresh(enabled: bool) -> (p: PendingHead)
        ensures
            p == fresh_head(enabled),
    {
        PendingHead {
            enabled: Some(enabled),
            mode: None,
            position: None,
            scale_bits: None,
            transform: None,
            adaptive_sync: None,
            set_mode_done: false,
            set_position_done: false,
            set_scale_done: false,
            set_transform_done: false,
            set_adaptive_sync_done: false,
        }
    }
}

/// One configuration session of a client.
#[derive(Debug)]
pub struct ConfigSession {
    /// The manager serial the client built the session against.
    pub serial: u32,
    /// Edits per head, in the order the heads were first configured.
    pub pending: Vec<(u32, PendingHead)>,
    /// Set once the session was applied or tested.
    pub used: bool,
    /// Set when a request makes the whole session fail on apply.
    pub poisoned: bool,
    /// Heads whose configuration went inert (a refused custom mode): every
    /// later request on them is ignored.
    pub cancelled: Vec<u32>,
}

/// The session as plain values.
#[verifier::ext_equal]
pub struct SessionView {
    pub serial: u32,
    pub pending: Seq<(u32, PendingHead)>,
    pub used: bool,
    pub poisoned: bool,
    pub cancelled: Seq<u32>,
}

/// Entries for head `h`.
pub open spec fn is_head(h: u32) -> spec_fn((u32, PendingHead)) -> bool {
    |e: (u32, PendingHead)| e.0 == h
}

/// Index of head `h` in `pending`, or the length.
pub open spec fn head_pos(pending: Seq<(u32, PendingHead)>, h: u32) -> int {
    crate::workspace::first_match(pending, is_head(h))
}

/// No head occurs twice.
pub open spec fn heads_unique(pending: Seq<(u32, PendingHead)>) -> bool {
    forall|i: int, j: int| 0 <= i < j < pending.len() ==> pending[i].0 != pending[j].0
}

/// What enabling or disabling a head did.
#[derive(Debug, Clone, Copy, PartialEq, Eq, Structural)]
pub enum HeadOutcome {
    /// The session was already applied or tested (a protocol error).
    AlreadyUsed,
    /// The head object carries no output; the session is poisoned.
    MissingHead,
    /// The session is stale; the request is accepted and ignored.
    Outdated,
    /// The head was already configured in this session (a protocol error).
    AlreadyConfigured,
    /// The head is now part of the session.
    Configured,
}

/// A property a client sets on a configured head. Unknown enum values on
/// the wire arrive as `None`; the caller resolves a mode object to the mode
/// it stands for (`None` when it belongs to no head of that output) and
/// checks a scale for being positive and finite.
#[derive(Debug, Clone, Copy, PartialEq, Eq, Structural)]
pub enum HeadSet {
    Mode(Option<OutputMode>),
    CustomMode,
    Position(Point),
    Transform(Option<Transform>),
    Scale { bits: u64, valid: bool },
    AdaptiveSync(Option<bool>),
}

/// What setting a head property did.
#[derive(Debug, Clone, Copy, PartialEq, Eq, Structural)]
pub enum SetOutcome {
    /// The session was already applied or tested (a protocol error).
    AlreadyUsed,
    /// The session is stale or the head is not part of it; nothing changed.
    Ignored,
    /// The property was already set on this head (a protocol error).
    AlreadySet,
    /// The mode object belongs to no head of the output (a protocol error).
    UnknownMode,
    /// The mode is not among the output's current modes (a protocol error).
    ModeNotAdvertised,
    /// Custom modes are unsupported: the session will fail on apply and the
    /// head object goes inert.
    CustomModeRefused,
    /// Unknown transform value (a protocol error).
    InvalidTransform,
    /// Scale not positive and finite (a protocol error).
    InvalidScale,
    /// Unknown adaptive-sync state (a protocol error).
    InvalidAdaptiveSync,
    /// The value was recorded.
    Stored,
}

/// The outcome and the head's new edits when `req` meets head `p`, whose
/// output advertises `advertised`.
pub open spec fn head_after_set(p: PendingHead, req: HeadSet, advertised: Seq<OutputMode>) -> (SetOutcome, PendingHead) {
    match req {
        HeadSet::Mode(m) => if p.set_mode_done {
            (SetOutcome::AlreadySet, p)
        } else {
            let p1 = PendingHead { set_mode_done: true, ..p };
            match m {
                None => (SetOutcome::UnknownMode, p1),
                Some(md) => if advertised.contains(md) {
                    (SetOutcome::Stored, PendingHead { mode: Some(md), ..p1 })
                } else {
                    (SetOutcome::ModeNotAdvertised, p1)
                },
            }
        },
        HeadSet::CustomMode => if p.set_mode_done {
            (SetOutcome::AlreadySet, p)
        } else {
            (SetOutcome::CustomModeRefused, PendingHead { set_mode_done: true, ..p })
        },
        HeadSet::Position(pt) => if p.set_position_done {
            (SetOutcome::AlreadySet, p)
        } else {
            (SetOutcome::Stored, PendingHead { set_position_done: true, position: Some(pt), ..p })
        },
        HeadSet::Transform(t) => if p.set_transform_done {
            (SetOutcome::AlreadySet, p)
        } else {
            let p1 = PendingHead { set_transform_done: true, ..p };
            match t {
                None => (SetOutcome::InvalidTransform, p1),
                Some(tt) => (SetOutcome::Stored, PendingHead { transform: Some(tt), ..p1 }),
            }
        },
        HeadSet::Scale { bits, valid } => if p.set_scale_done {
            (SetOutcome::AlreadySet, p)
        } else {
            let p1 = PendingHead { set_scale_done: true, ..p };
            if valid {
                (SetOutcome::Stored, PendingHead { scale_bits: Some(bits), ..p1 })
            } else {
                (SetOutcome::InvalidScale, p1)
            }
        },
        HeadSet::AdaptiveSync(s) => if p.set_adaptive_sync_done {
            (SetOutcome::AlreadySet, p)
        } else {
            let p1 = PendingHead { set_adaptive_sync_done: true, ..p };
            match s {
                None => (SetOutcome::InvalidAdaptiveSync, p1),
                Some(b) => (SetOutcome::Stored, PendingHead { adaptive_sync: Some(b), ..p1 }),
            }
        },
    }
}

/// The settings a head change carries to the backend; `None` keeps the
/// current value.
#[derive(Debug, Clone, Copy, PartialEq, Eq, Structural)]
pub struct HeadSettings {
    pub mode: Option<OutputMode>,
    pub position: Option<Point>,
    /// Bit pattern of the requested scale.
    pub scale_bits: Option<u64>,
    pub transform: Option<Transform>,
    pub adaptive_sync: Option<bool>,
}

/// What to do with one head.
#[derive(Debug, Clone, Copy, PartialEq, Eq, Structural)]
pub enum OutputConfigAction {
    /// Turn on a head that was off.
    Enable(HeadSettings),
    /// Turn a head off.
    Disable,
    /// Change a head that stays on.
    Update(HeadSettings),
}

/// One change handed to the backend.
#[derive(Debug, Clone, Copy, PartialEq, Eq, Structural)]
pub struct OutputConfigChange {
    pub head: u32,
    pub action: OutputConfigAction,
}

/// The settings recorded on a pending head.
pub open spec fn settings_of(p: PendingHead) -> HeadSettings {
    HeadSettings {
        mode: p.mode,
        position: p.position,
        scale_bits: p.scale_bits,
        transform: p.transform,
        adaptive_sync: p.adaptive_sync,
    }
}

/// The action for a pending head: disable when it was disabled, otherwise
/// an update when the head was on before and an enable when it was not.
pub open spec fn action_for(p: PendingHead, was_enabled: bool) -> OutputConfigAction {
    match p.enabled {
        Some(false) => OutputConfigAction::Disable,
        _ => if was_enabled {
            OutputConfigAction::Update(settings_of(p))
        } else {
            OutputConfigAction::Enable(settings_of(p))
        },
    }
}

/// The changes for all pending heads, in session order; `enabled_before`
/// lists the heads that were on.
pub open spec fn changes_for(pending: Seq<(u32, PendingHead)>, enabled_before: Seq<u32>) -> Seq<OutputConfigChange> {
    pending.map_values(
        |e: (u32, PendingHead)| OutputConfigChange { head: e.0, action: action_for(e.1, enabled_before.contains(e.0)) },
    )
}

/// Some pending head is enabled.
pub open spec fn any_enabled(pending: Seq<(u32, PendingHead)>) -> bool {
    exists|i: int| 0 <= i < pending.len() && pending[i].1.enabled == Some(true)
}

/// How an apply or a test of a session ends on the session's side.
#[derive(Debug)]
pub enum FinishOutcome {
    /// The session was already applied or tested (a protocol error).
    AlreadyUsed,
    /// The session is stale: answer `cancelled`.
    Cancelled,
    /// The session cannot succeed: answer `failed`.
    Failed,
    /// Hand these changes to the backend.
    Submit(Vec<OutputConfigChange>),
}

/// The event that answers an apply or a test, given the backend's result.
#[derive(Debug, Clone, Copy, PartialEq, Eq, Structural)]
pub enum ConfigReply {
    Succeeded,
    Cancelled,
    Failed,
}

impl ConfigSession {
    /// No head occurs twice in the session.
    pub open spec fn wf(&self) -> bool {
        heads_unique(self.pending@)
    }

    /// The session as plain values.
    pub open spec fn view(&self) -> SessionView {
        SessionView {
            serial: self.serial,
            pending: self.pending@,
            used: self.used,
            poisoned: self.poisoned,
            cancelled: self.cancelled@,
        }
    }

    /// A new, empty session built against manager serial `serial`.
    pub fn new(serial: u32) -> (s: ConfigSession)
        ensures
            s.wf(),
            s.serial == serial,
            s.pending@.len() == 0,
            !s.used,
            !s.poisoned,
            s.cancelled@.len() == 0,
    {
        ConfigSession { serial, pending: Vec::new(), used: false, poisoned: false, cancelled: Vec::new() }
    }

    /// The manager's serial moved on since the session was built: the
    /// session is stale.
    pub fn is_outdated(&self, current_serial: u32) -> (r: bool)
        ensures
            r == (self.serial != current_serial),
    {
        self.serial != current_serial
    }

    /// Index of head `h`, or the number of pending heads.
    fn position_of_head(&self, h: u32) -> (r: usize)
        ensures
            r == head_pos(self.pending@, h),
            r <= self.pending@.len(),
    {
        let mut i: usize = 0;
        while i < self.pending.len()
            invariant
                i <= self.pending@.len(),
                forall|j: int| 0 <= j < i ==> !is_head(h)(#[trigger] self.pending@[j]),
            decreases self.pending@.len() - i,
        {
            if self.pending[i].0 == h {
                proof {
                    crate::workspace::lemma_first_match(self.pending@, is_head(h), i as int);
                }
                return i;
            }
            i = i + 1;
        }
        proof {
            crate::workspace::lemma_first_match(self.pending@, is_head(h), i as int);
        }
        i
    }
}

/// The outcome of enabling (`enable`) or disabling head `head` (`None` when
/// the head object carries no output) in session `s`, and the session after.
pub open spec fn configure_result(s: SessionView, current_serial: u32, head: Option<u32>, enable: bool) -> (HeadOutcome, SessionView) {
    if s.used {
        (HeadOutcome::AlreadyUsed, s)
    } else if head is None {
        (HeadOutcome::MissingHead, SessionView { poisoned: true, ..s })
    } else if s.serial != current_serial {
        (HeadOutcome::Outdated, s)
    } else if head_pos(s.pending, head.unwrap()) < s.pending.len() {
        (HeadOutcome::AlreadyConfigured, s)
    } else {
        (HeadOutcome::Configured, SessionView { pending: s.pending.push((head.unwrap(), fresh_head(enable))), ..s })
    }
}

/// The outcome of setting `req` on head `head` in session `s`, and the
/// session after; `advertised` lists the modes the head's output offers. A
/// head whose custom mode was refused has gone inert: requests on it are
/// ignored before anything else is looked at.
pub open spec fn set_result(s: SessionView, current_serial: u32, head: u32, req: HeadSet, advertised: Seq<OutputMode>) -> (SetOutcome, SessionView) {
    let p = head_pos(s.pending, head);
    if s.cancelled.contains(head) {
        (SetOutcome::Ignored, s)
    } else if s.used {
        (SetOutcome::AlreadyUsed, s)
    } else if s.serial != current_serial || p >= s.pending.len() {
        (SetOutcome::Ignored, s)
    } else {
        let (o, np) = head_after_set(s.pending[p].1, req, advertised);
        (
            o,
            SessionView {
                pending: s.pending.update(p, (head, np)),
                poisoned: s.poisoned || o == SetOutcome::CustomModeRefused,
                cancelled: if o == SetOutcome::CustomModeRefused {
                    s.cancelled.push(head)
                } else {
                    s.cancelled
                },
                ..s
            },
        )
    }
}

/// What finishing (applying or testing) session `s` yields, as plain
/// values: `None` for a session already used; otherwise the outcome with
/// its changes (empty unless submitted) and whether they are submitted.
pub open spec fn finish_result(s: SessionView, current_serial: u32, enabled_before: Seq<u32>) -> (FinishKind, Seq<OutputConfigChange>) {
    if s.used {
        (FinishKind::AlreadyUsed, Seq::empty())
    } else if s.serial != current_serial {
        (FinishKind::Cancelled, Seq::empty())
    } else if s.poisoned || s.pending.len() == 0 || !any_enabled(s.pending) {
        (FinishKind::Failed, Seq::empty())
    } else {
        (FinishKind::Submit, changes_for(s.pending, enabled_before))
    }
}

/// The kind of a `FinishOutcome`.
#[derive(Debug, Clone, Copy, PartialEq, Eq, Structural)]
pub enum FinishKind {
    AlreadyUsed,
    Cancelled,
    Failed,
    Submit,
}

/// The kind of `r` and the changes it submits (empty for the others).
pub open spec fn finish_view(r: FinishOutcome) -> (FinishKind, Seq<OutputConfigChange>) {
    match r {
        FinishOutcome::AlreadyUsed => (FinishKind::AlreadyUsed, Seq::empty()),
        FinishOutcome::Cancelled => (FinishKind::Cancelled, Seq::empty()),
        FinishOutcome::Failed => (FinishKind::Failed, Seq::empty()),
        FinishOutcome::Submit(v) => (FinishKind::Submit, v@),
    }
}

/// The session after finishing: used, with its edits drained (unchanged
/// when it was used already).
pub open spec fn session_after_finish(s: SessionView) -> SessionView {
    if s.used {
        s
    } else {
        SessionView { used: true, pending: Seq::empty(), ..s }
    }
}

impl ConfigSession {
    /// Enables (`enable`) or disables head `head` in the session; `None`
    /// stands for a head object that carries no output.
    pub fn configure_head(&mut self, current_serial: u32, head: Option<u32>, enable: bool) -> (r: HeadOutcome)
        requires
            old(self).wf(),
        ensures
            final(self).wf(),
            (r, final(self).view()) == configure_result(old(self).view(), current_serial, head, enable),
    {
        if self.used {
            return HeadOutcome::AlreadyUsed;
        }
        let h = match head {
            Some(h) => h,
            None => {
                self.poisoned = true;
                return HeadOutcome::MissingHead;
            },
        };
        if self.serial != current_serial {
            return HeadOutcome::Outdated;
        }
        let p = self.position_of_head(h);
        if p < self.pending.len() {
            return HeadOutcome::AlreadyConfigured;
        }
        let ghost before = self.pending@;
        self.pending.push((h, PendingHead::fresh(enable)));
        proof {
            crate::workspace::lemma_first_match_bounds(before, is_head(h));
            assert forall|i: int, j: int| 0 <= i < j < self.pending@.len() implies self.pending@[i].0
                != self.pending@[j].0 by {
                if j == before.len() {
                    assert(self.pending@[i] == before[i]);
                }
            }
        }
        HeadOutcome::Configured
    }

    /// Sets a property of head `head`; `advertised` lists the modes the
    /// head's output offers.
    pub fn set_head(&mut self, current_serial: u32, head: u32, req: HeadSet, advertised: &Vec<OutputMode>) -> (r: SetOutcome)
        requires
            old(self).wf(),
        ensures
            final(self).wf(),
            (r, final(self).view()) == set_result(old(self).view(), current_serial, head, req, advertised@),
    {
        if contains_u32(&self.cancelled, head) {
            return SetOutcome::Ignored;
        }
        if self.used {
            return SetOutcome::AlreadyUsed;
        }
        if self.serial != current_serial {
            return SetOutcome::Ignored;
        }
        let p = self.position_of_head(head);
        if p >= self.pending.len() {
            return SetOutcome::Ignored;
        }
        proof {
            crate::workspace::lemma_first_match_bounds(self.pending@, is_head(head));
        }
        let ph = self.pending[p].1;
        let (o, np) = apply_set(ph, req, advertised);
        let ghost before = self.pending@;
        self.pending.set(p, (head, np));
        if o == SetOutcome::CustomModeRefused {
            self.poisoned = true;
            self.cancelled.push(head);
        }
        proof {
            assert forall|i: int, j: int| 0 <= i < j < self.pending@.len() implies self.pending@[i].0
                != self.pending@[j].0 by {
                assert(self.pending@[i].0 == before[i].0);
                assert(self.pending@[j].0 == before[j].0);
            }
        }
        o
    }

    /// Applies or tests the session: marks it used, drains its edits and
    /// says how to answer; `enabled_before` lists the heads that are on.
    pub fn finish(&mut self, current_serial: u32, enabled_before: &Vec<u32>) -> (r: FinishOutcome)
        requires
            old(self).wf(),
        ensures
            final(self).wf(),
            final(self).view() == session_after_finish(old(self).view()),
            finish_view(r) == finish_result(old(self).view(), current_serial, enabled_before@),
    {
        if self.used {
            return FinishOutcome::AlreadyUsed;
        }
        self.used = true;
        let mut pending: Vec<(u32, PendingHead)> = Vec::new();
        std::mem::swap(&mut pending, &mut self.pending);
        if self.serial != current_serial {
            return FinishOutcome::Cancelled;
        }
        if self.poisoned || pending.len() == 0 {
            return FinishOutcome::Failed;
        }
        let mut any = false;
        let mut changes: Vec<OutputConfigChange> = Vec::new();
        let mut i: usize = 0;
        while i < pending.len()
            invariant
                i <= pending@.len(),
                changes@ == changes_for(pending@.take(i as int), enabled_before@),
                any == (exists|k: int| 0 <= k < i && pending@[k].1.enabled == Some(true)),
            decreases pending@.len() - i,
        {
            let (h, ph) = pending[i];
            if ph.enabled == Some(true) {
                any = true;
            }
            let was_enabled = contains_u32(enabled_before, h);
            let settings = HeadSettings {
                mode: ph.mode,
                position: ph.position,
                scale_bits: ph.scale_bits,
                transform: ph.transform,
                adaptive_sync: ph.adaptive_sync,
            };
            let action = match ph.enabled {
                Some(false) => OutputConfigAction::Disable,
                _ => if was_enabled {
                    OutputConfigAction::Update(settings)
                } else {
                    OutputConfigAction::Enable(settings)
                },
            };
            changes.push(OutputConfigChange { head: h, action });
            proof {
                assert(pending@.take(i + 1) =~= pending@.take(i as int).push(pending@[i as int]));
                assert(changes_for(pending@.take(i + 1), enabled_before@) =~= changes_for(
                    pending@.take(i as int),
                    enabled_before@,
                ).push(OutputConfigChange { head: h, action }));
            }
            i = i + 1;
        }
        proof {
            assert(pending@.take(pending@.len() as int) =~= pending@);
        }
        if !any {
            return FinishOutcome::Failed;
        }
        FinishOutcome::Submit(changes)
    }
}

/// Whether `v` holds `x`.
fn contains_u32(v: &Vec<u32>, x: u32) -> (r: bool)
    ensures
        r == v@.contains(x),
{
    let mut i: usize = 0;
    while i < v.len()
        invariant
            i <= v@.len(),
            forall|j: int| 0 <= j < i ==> v@[j] != x,
        decreases v@.len() - i,
    {
        if v[i] == x {
            return true;
        }
        i = i + 1;
    }
    false
}

/// Whether `v` holds mode `m`.
fn contains_mode(v: &Vec<OutputMode>, m: OutputMode) -> (r: bool)
    ensures
        r == v@.contains(m),
{
    let mut i: usize = 0;
    while i < v.len()
        invariant
            i <= v@.len(),
            forall|j: int| 0 <= j < i ==> v@[j] != m,
        decreases v@.len() - i,
    {
        if v[i] == m {
            return true;
        }
        i = i + 1;
    }
    false
}

/// `head_after_set`, computed.
fn apply_set(p: PendingHead, req: HeadSet, advertised: &Vec<OutputMode>) -> (r: (SetOutcome, PendingHead))
    ensures
        r == head_after_set(p, req, advertised@),
{
    match req {
        HeadSet::Mode(m) => {
            if p.set_mode_done {
                return (SetOutcome::AlreadySet, p);
            }
            let p1 = PendingHead { set_mode_done: true, ..p };
            match m {
                None => (SetOutcome::UnknownMode, p1),
                Some(md) => if contains_mode(advertised, md) {
                    (SetOutcome::Stored, PendingHead { mode: Some(md), ..p1 })
                } else {
                    (SetOutcome::ModeNotAdvertised, p1)
                },
            }
        },
        HeadSet::CustomMode => {
            if p.set_mode_done {
                return (SetOutcome::AlreadySet, p);
            }
            (SetOutcome::CustomModeRefused, PendingHead { set_mode_done: true, ..p })
        },
        HeadSet::Position(pt) => {
            if p.set_position_done {
                return (SetOutcome::AlreadySet, p);
            }
            (SetOutcome::Stored, PendingHead { set_position_done: true, position: Some(pt), ..p })
        },
        HeadSet::Transform(t) => {
            if p.set_transform_done {
                return (SetOutcome::AlreadySet, p);
            }
            let p1 = PendingHead { set_transform_done: true, ..p };
            match t {
                None => (SetOutcome::InvalidTransform, p1),
                Some(tt) => (SetOutcome::Stored, PendingHead { transform: Some(tt), ..p1 }),
            }
        },
        HeadSet::Scale { bits, valid } => {
            if p.set_scale_done {
                return (SetOutcome::AlreadySet, p);
            }
            let p1 = PendingHead { set_scale_done: true, ..p };
            if valid {
                (SetOutcome::Stored, PendingHead { scale_bits: Some(bits), ..p1 })
            } else {
                (SetOutcome::InvalidScale, p1)
            }
        },
        HeadSet::AdaptiveSync(s) => {
            if p.set_adaptive_sync_done {
                return (SetOutcome::AlreadySet, p);
            }
            let p1 = PendingHead { set_adaptive_sync_done: true, ..p };
            match s {
                None => (SetOutcome::InvalidAdaptiveSync, p1),
                Some(b) => (SetOutcome::Stored, PendingHead { adaptive_sync: Some(b), ..p1 }),
            }
        },
    }
}

/// The event answering an apply or a test, from the backend's result.
pub fn reply_for(result: &Result<(), OutputConfigError>) -> (r: ConfigReply)
    ensures
        r == (match result {
            Ok(()) => ConfigReply::Succeeded,
            Err(OutputConfigError::Cancelled) => ConfigReply::Cancelled,
            Err(_) => ConfigReply::Failed,
        }),
{
    match result {
        Ok(()) => ConfigReply::Succeeded,
        Err(OutputConfigError::Cancelled) => ConfigReply::Cancelled,
        Err(_) => ConfigReply::Failed,
    }
}

/// The adaptive-sync state each change asks for, in order: a `(head,
/// state)` pair for every enable or update that sets one.
pub open spec fn sync_requests(changes: Seq<OutputConfigChange>) -> Seq<(u32, bool)>
    decreases changes.len(),
{
    if changes.len() == 0 {
        Seq::empty()
    } else {
        let prev = sync_requests(changes.drop_last());
        let c = changes.last();
        match c.action {
            OutputConfigAction::Enable(st) | OutputConfigAction::Update(st) => match st.adaptive_sync {
                Some(b) => prev.push((c.head, b)),
                None => prev,
            },
            OutputConfigAction::Disable => prev,
        }
    }
}

/// The adaptive-sync states to record on the outputs after a successful
/// apply.
pub fn adaptive_sync_requests(changes: &Vec<OutputConfigChange>) -> (v: Vec<(u32, bool)>)
    ensures
        v@ == sync_requests(changes@),
{
    let mut v: Vec<(u32, bool)> = Vec::new();
    let mut i: usize = 0;
    while i < changes.len()
        invariant
            i <= changes@.len(),
            v@ == sync_requests(changes@.take(i as int)),
        decreases changes@.len() - i,
    {
        let c = changes[i];
        proof {
            assert(changes@.take(i + 1).drop_last() =~= changes@.take(i as int));
        }
        match c.action {
            OutputConfigAction::Enable(st) | OutputConfigAction::Update(st) => {
                if let Some(b) = st.adaptive_sync {
                    v.push((c.head, b));
                }
            },
            OutputConfigAction::Disable => {},
        }
        i = i + 1;
    }
    proof {
        assert(changes@.take(changes@.len() as int) =~= changes@);
    }
    v
}

/// `a` and `b` set the same property of a head (a custom mode counts as a
/// mode).
pub open spec fn same_property(a: HeadSet, b: HeadSet) -> bool {
    match (a, b) {
        (HeadSet::Mode(_), HeadSet::Mode(_)) | (HeadSet::Mode(_), HeadSet::CustomMode) => true,
        (HeadSet::CustomMode, HeadSet::Mode(_)) | (HeadSet::CustomMode, HeadSet::CustomMode) => true,
        (HeadSet::Position(_), HeadSet::Position(_)) => true,
        (HeadSet::Transform(_), HeadSet::Transform(_)) => true,
        (HeadSet::Scale { .. }, HeadSet::Scale { .. }) => true,
        (HeadSet::AdaptiveSync(_), HeadSet::AdaptiveSync(_)) => true,
        _ => false,
    }
}

/// A session that was applied or tested refuses every further request
/// (requests on a head gone inert are ignored instead) and stays as it is.
pub proof fn law_used_session_refuses(
    s: SessionView,
    current_serial: u32,
    head: Option<u32>,
    enable: bool,
    h: u32,
    req: HeadSet,
    advertised: Seq<OutputMode>,
    enabled_before: Seq<u32>,
)
    requires
        s.used,
    ensures
        configure_result(s, current_serial, head, enable) == (HeadOutcome::AlreadyUsed, s),
        set_result(s, current_serial, h, req, advertised) == (if s.cancelled.contains(h) {
            SetOutcome::Ignored
        } else {
            SetOutcome::AlreadyUsed
        }, s),
        finish_result(s, current_serial, enabled_before).0 == FinishKind::AlreadyUsed,
        session_after_finish(s) == s,
{
}

/// A head can be configured once per session: once enabling or disabling
/// it succeeded, enabling or disabling it again is refused and changes
/// nothing.
pub proof fn law_head_configured_once(s: SessionView, current_serial: u32, h: u32, first: bool, second: bool)
    requires
        configure_result(s, current_serial, Some(h), first).0 == HeadOutcome::Configured,
    ensures
        ({
            let s1 = configure_result(s, current_serial, Some(h), first).1;
            configure_result(s1, current_serial, Some(h), second) == (HeadOutcome::AlreadyConfigured, s1)
        }),
{
    let s1 = configure_result(s, current_serial, Some(h), first).1;
    let n = s.pending.len() as int;
    crate::workspace::lemma_first_match_bounds(s.pending, is_head(h));
    assert forall|j: int| 0 <= j < n implies !is_head(h)(#[trigger] s1.pending[j]) by {
        assert(s1.pending[j] == s.pending[j]);
    }
    crate::workspace::lemma_first_match(s1.pending, is_head(h), n);
}

/// Each property of a head can be set once per session: after a request
/// reached the head, a second request for the same property is refused as
/// already set, or ignored when the first was a refused custom mode (the
/// head then went inert).
pub proof fn law_property_set_once(
    s: SessionView,
    current_serial: u32,
    h: u32,
    first: HeadSet,
    second: HeadSet,
    advertised: Seq<OutputMode>,
)
    requires
        same_property(first, second),
        set_result(s, current_serial, h, first, advertised).0 != SetOutcome::AlreadyUsed,
        set_result(s, current_serial, h, first, advertised).0 != SetOutcome::Ignored,
    ensures
        ({
            let (o, s1) = set_result(s, current_serial, h, first, advertised);
            set_result(s1, current_serial, h, second, advertised).0 == (if o == SetOutcome::CustomModeRefused {
                SetOutcome::Ignored
            } else {
                SetOutcome::AlreadySet
            })
        }),
{
    let (o, s1) = set_result(s, current_serial, h, first, advertised);
    let p = head_pos(s.pending, h);
    crate::workspace::lemma_first_match_bounds(s.pending, is_head(h));
    assert(!s.cancelled.contains(h));
    if o == SetOutcome::CustomModeRefused {
        assert(s1.cancelled[s1.cancelled.len() - 1] == h);
    } else {
        assert(s1.cancelled == s.cancelled);
    }
    assert forall|j: int| 0 <= j < p implies !is_head(h)(#[trigger] s1.pending[j]) by {
        assert(s1.pending[j] == s.pending[j]);
    }
    crate::workspace::lemma_first_match(s1.pending, is_head(h), p);
}

/// Once a head's custom mode was refused, the head is inert: every later
/// request on it, in any session state, is ignored and changes nothing, and
/// the session can no longer succeed.
pub proof fn law_refused_head_goes_inert(
    s: SessionView,
    current_serial: u32,
    h: u32,
    advertised: Seq<OutputMode>,
    later: HeadSet,
    later_serial: u32,
    later_advertised: Seq<OutputMode>,
    enabled_before: Seq<u32>,
)
    requires
        set_result(s, current_serial, h, HeadSet::CustomMode, advertised).0 == SetOutcome::CustomModeRefused,
    ensures
        ({
            let s1 = set_result(s, current_serial, h, HeadSet::CustomMode, advertised).1;
            &&& set_result(s1, later_serial, h, later, later_advertised) == (SetOutcome::Ignored, s1)
            &&& s1.poisoned
            &&& finish_result(s1, current_serial, enabled_before).0 != FinishKind::Submit
        }),
{
    let s1 = set_result(s, current_serial, h, HeadSet::CustomMode, advertised).1;
    assert(s1.cancelled[s1.cancelled.len() - 1] == h);
}

/// What an apply or a test submits never turns every head off, and a stale
/// session never submits anything.
pub proof fn law_submitted_changes_keep_a_head_on(s: SessionView, current_serial: u32, enabled_before: Seq<u32>)
    requires
        finish_result(s, current_serial, enabled_before).0 == FinishKind::Submit,
    ensures
        s.serial == current_serial,
        !s.poisoned,
        ({
            let changes = finish_result(s, current_serial, enabled_before).1;
            exists|i: int| 0 <= i < changes.len() && !(changes[i].action is Disable)
        }),
{
    let changes = finish_result(s, current_serial, enabled_before).1;
    let i = choose|i: int| 0 <= i < s.pending.len() && s.pending[i].1.enabled == Some(true);
    assert(!(changes[i].action is Disable));
}

/// What clients were last told of an output, scale aside (the caller
/// compares scales, which are floating point).
#[derive(Debug, Clone)]
pub struct HeadSnapshot {
    /// The output has a current mode.
    pub enabled: bool,
    pub current_mode: Option<OutputMode>,
    pub position: Point,
    pub transform: Transform,
    pub adaptive_sync: bool,
    /// The modes the output offers.
    pub modes: Vec<OutputMode>,
}

/// An event telling a client about a changed output.
#[derive(Debug, Clone, Copy, PartialEq, Eq, Structural)]
pub enum HeadEvent {
    Enabled(bool),
    CurrentMode(OutputMode),
    Position(Point),
    /// The scale changed; the caller sends the new one.
    Scale,
    Transform(Transform),
    AdaptiveSync(bool),
}

/// First version of the head object that knows the adaptive-sync event.
pub const ADAPTIVE_SYNC_SINCE: u32 = 4;

/// The snapshots differ (`scale_equal`: their scales compare equal).
pub open spec fn snapshots_differ(old: HeadSnapshot, new: HeadSnapshot, scale_equal: bool) -> bool {
    ||| old.enabled != new.enabled
    ||| old.current_mode != new.current_mode
    ||| old.position != new.position
    ||| !scale_equal
    ||| old.transform != new.transform
    ||| old.adaptive_sync != new.adaptive_sync
    ||| old.modes@ != new.modes@
}

/// `e` when `cond` holds, nothing otherwise.
pub open spec fn event_if(cond: bool, e: HeadEvent) -> Seq<HeadEvent> {
    if cond {
        seq![e]
    } else {
        Seq::empty()
    }
}

/// The current-mode event: for an enabled output whose mode changed to one
/// the client knows.
pub open spec fn mode_event(old: HeadSnapshot, new: HeadSnapshot, client_modes: Seq<OutputMode>) -> Seq<HeadEvent> {
    if new.enabled && old.current_mode != new.current_mode {
        match new.current_mode {
            Some(m) => event_if(client_modes.contains(m), HeadEvent::CurrentMode(m)),
            None => Seq::empty(),
        }
    } else {
        Seq::empty()
    }
}

/// The events a client's head object gets when its output changes from
/// `old` to `new`, in order: enabled, current mode (when enabled and the
/// client knows the new mode), position, scale (`scale_moved`: the scales
/// differ by more than rounding), transform, adaptive sync (for heads of
/// version `ADAPTIVE_SYNC_SINCE` or later).
pub open spec fn head_events_for(
    old: HeadSnapshot,
    new: HeadSnapshot,
    scale_moved: bool,
    client_modes: Seq<OutputMode>,
    head_version: u32,
) -> Seq<HeadEvent> {
    event_if(old.enabled != new.enabled, HeadEvent::Enabled(new.enabled)) + mode_event(old, new, client_modes)
        + event_if(old.position != new.position, HeadEvent::Position(new.position)) + event_if(
        scale_moved,
        HeadEvent::Scale,
    ) + event_if(old.transform != new.transform, HeadEvent::Transform(new.transform)) + event_if(
        head_version >= ADAPTIVE_SYNC_SINCE && old.adaptive_sync != new.adaptive_sync,
        HeadEvent::AdaptiveSync(new.adaptive_sync),
    )
}

/// Whether two mode lists are the same.
fn same_modes(a: &Vec<OutputMode>, b: &Vec<OutputMode>) -> (r: bool)
    ensures
        r == (a@ == b@),
{
    if a.len() != b.len() {
        return false;
    }
    let mut i: usize = 0;
    while i < a.len()
        invariant
            a@.len() == b@.len(),
            i <= a@.len(),
            forall|j: int| 0 <= j < i ==> a@[j] == b@[j],
        decreases a@.len() - i,
    {
        if a[i] != b[i] {
            return false;
        }
        i = i + 1;
    }
    assert(a@ =~= b@);
    true
}

/// Whether an output changed since clients were last told (`scale_equal`:
/// the scales compare equal); nothing is sent, and the serial stays, when
/// it did not.
pub fn snapshot_changed(old: &HeadSnapshot, new: &HeadSnapshot, scale_equal: bool) -> (r: bool)
    ensures
        r == snapshots_differ(*old, *new, scale_equal),
{
    old.enabled != new.enabled || old.current_mode != new.current_mode || old.position != new.position
        || !scale_equal || old.transform != new.transform || old.adaptive_sync != new.adaptive_sync || !same_modes(
        &old.modes,
        &new.modes,
    )
}

/// The events for one client's head object (see `head_events_for`);
/// `client_modes` are the modes the client was told of.
#[verifier::rlimit(30)]
pub fn head_events(
    old: &HeadSnapshot,
    new: &HeadSnapshot,
    scale_moved: bool,
    client_modes: &Vec<OutputMode>,
    head_version: u32,
) -> (v: Vec<HeadEvent>)
    ensures
        v@ == head_events_for(*old, *new, scale_moved, client_modes@, head_version),
{
    let mut v: Vec<HeadEvent> = Vec::new();
    if old.enabled != new.enabled {
        v.push(HeadEvent::Enabled(new.enabled));
    }
    assert(v@ =~= event_if(old.enabled != new.enabled, HeadEvent::Enabled(new.enabled)));
    let ghost e1 = v@;
    if new.enabled && old.current_mode != new.current_mode {
        if let Some(m) = new.current_mode {
            if contains_mode(client_modes, m) {
                v.push(HeadEvent::CurrentMode(m));
            }
        }
    }
    assert(v@ =~= e1 + mode_event(*old, *new, client_modes@));
    let ghost e2 = v@;
    if old.position != new.position {
        v.push(HeadEvent::Position(new.position));
    }
    assert(v@ =~= e2 + event_if(old.position != new.position, HeadEvent::Position(new.position)));
    let ghost e3 = v@;
    if scale_moved {
        v.push(HeadEvent::Scale);
    }
    assert(v@ =~= e3 + event_if(scale_moved, HeadEvent::Scale));
    let ghost e4 = v@;
    if old.transform != new.transform {
        v.push(HeadEvent::Transform(new.transform));
    }
    assert(v@ =~= e4 + event_if(old.transform != new.transform, HeadEvent::Transform(new.transform)));
    let ghost e5 = v@;
    let sync_event = head_version >= ADAPTIVE_SYNC_SINCE && old.adaptive_sync != new.adaptive_sync;
    if sync_event {
        v.push(HeadEvent::AdaptiveSync(new.adaptive_sync));
    }
    assert(v@ =~= e5 + event_if(sync_event, HeadEvent::AdaptiveSync(new.adaptive_sync)));
    v
}

/// The manager serial after a change was announced (wrapping).
pub fn next_serial(serial: u32) -> (r: u32)
    ensures
        r == (if serial == u32::MAX {
            0
        } else {
            (serial + 1) as u32
        }),
{
    if serial == u32::MAX {
        0
    } else {
        serial + 1
    }
}

/// An output whose state did not change sends no event to any client.
pub proof fn law_unchanged_output_sends_nothing(
    old: HeadSnapshot,
    new: HeadSnapshot,
    scale_equal: bool,
    client_modes: Seq<OutputMode>,
    head_version: u32,
)
    requires
        !snapshots_differ(old, new, scale_equal),
    ensures
        head_events_for(old, new, false, client_modes, head_version) == Seq::<HeadEvent>::empty(),
{
    assert(head_events_for(old, new, false, client_modes, head_version) =~= Seq::<HeadEvent>::empty());
}

} // verus!
