//! Per-surface tearing control (the tearing-control protocol): whether a
//! surface asked to be presented without waiting for vertical blank.
//!
//! The hint is double-buffered: a client sets the pending hint, and a
//! surface commit makes it current.
use vstd::prelude::*;

verus! {

/// How a surface wants its content presented.
#[derive(Debug, Clone, Copy, PartialEq, Eq, Hash, Structural)]
pub enum PresentationHint {
    /// Wait for vertical blank (no tearing).
    Vsync,
    /// Present as soon as possible, tearing allowed.
    Async,
}

/// The tearing state of one surface.
#[derive(Debug, Clone, Copy, PartialEq, Eq, Structural)]
pub struct SurfaceTearing {
    /// A tearing-control object is bound to the surface.
    pub attached: bool,
    /// The hint the next commit applies.
    pub pending: PresentationHint,
    /// The hint in effect.
    pub current: PresentationHint,
}

impl Default for SurfaceTearing {
    fn default() -> (s: Self)
        ensures
            !s.attached,
            s.pending == PresentationHint::Vsync,
            s.current == PresentationHint::Vsync,
    {
        SurfaceTearing { attached: false, pending: PresentationHint::Vsync, current: PresentationHint::Vsync }
    }
}

/// `s` once a tearing-control object is bound to it.
pub open spec fn with_control(s: SurfaceTearing) -> SurfaceTearing {
    SurfaceTearing { attached: true, ..s }
}

/// `s` once the client set hint `hint` (`None`: an undefined value,
/// ignored).
pub open spec fn with_hint(s: SurfaceTearing, hint: Option<PresentationHint>) -> SurfaceTearing {
    match hint {
        Some(h) => SurfaceTearing { pending: h, ..s },
        None => s,
    }
}

/// `s` once its tearing-control object was destroyed.
pub open spec fn without_control(s: SurfaceTearing) -> SurfaceTearing {
    SurfaceTearing { attached: false, pending: PresentationHint::Vsync, ..s }
}

/// `s` once the surface committed.
pub open spec fn committed(s: SurfaceTearing) -> SurfaceTearing {
    SurfaceTearing { current: s.pending, ..s }
}

impl SurfaceTearing {
    /// Binds a tearing-control object to the surface. Returns `false`,
    /// changing nothing, when one is already bound (a protocol error: one
    /// object per surface).
    pub fn attach_control(&mut self) -> (bound: bool)
        ensures
            bound == !old(self).attached,
            *final(self) == with_control(*old(self)),
    {
        if self.attached {
            return false;
        }
        self.attached = true;
        true
    }

    /// The client set a hint (`None` for a value the protocol does not
    /// define, which is ignored); it takes effect on the next commit.
    pub fn set_hint(&mut self, hint: Option<PresentationHint>)
        ensures
            *final(self) == with_hint(*old(self), hint),
    {
        if let Some(h) = hint {
            self.pending = h;
        }
    }

    /// The client destroyed its tearing-control object: the surface goes
    /// back to vsync on the next commit and may bind a new object.
    pub fn detach_control(&mut self)
        ensures
            *final(self) == without_control(*old(self)),
    {
        self.attached = false;
        self.pending = PresentationHint::Vsync;
    }

    /// The surface committed: the pending hint becomes current.
    pub fn commit(&mut self)
        ensures
            *final(self) == committed(*old(self)),
    {
        self.current = self.pending;
    }

    /// The hint in effect.
    pub fn hint(&self) -> (h: PresentationHint)
        ensures
            h == self.current,
    {
        self.current
    }

    /// The surface asks for tearing presentation.
    pub fn wants_async(&self) -> (b: bool)
        ensures
            b == (self.current == PresentationHint::Async),
    {
        self.current == PresentationHint::Async
    }
}

/// Whether a surface in state `t` asks for tearing presentation.
pub fn surface_wants_async_presentation(t: &SurfaceTearing) -> (b: bool)
    ensures
        b == (t.current == PresentationHint::Async),
{
    t.wants_async()
}

/// Some surface shown primarily on the output (`surfaces[i].0`) asks for
/// tearing.
pub open spec fn tearing_wanted(surfaces: Seq<(bool, SurfaceTearing)>) -> bool {
    exists|i: int| 0 <= i < surfaces.len() && surfaces[i].0 && surfaces[i].1.current == PresentationHint::Async
}

/// Whether an output should tear: some surface whose primary scanout
/// output it is (`.0`) asks for tearing.
pub fn output_wants_tearing(surfaces: &Vec<(bool, SurfaceTearing)>) -> (b: bool)
    ensures
        b == tearing_wanted(surfaces@),
{
    let mut i: usize = 0;
    while i < surfaces.len()
        invariant
            i <= surfaces@.len(),
            forall|j: int| 0 <= j < i ==> !(surfaces@[j].0 && surfaces@[j].1.current == PresentationHint::Async),
        decreases surfaces@.len() - i,
    {
        let (on_output, t) = surfaces[i];
        if on_output && t.wants_async() {
            return true;
        }
        i = i + 1;
    }
    false
}

/// A hint takes effect exactly at the next commit: setting `Async` and
/// committing makes the surface tear, while setting it without a commit
/// changes nothing the output sees.
pub proof fn law_hint_applies_on_commit(s: SurfaceTearing, h: PresentationHint)
    ensures
        committed(with_hint(s, Some(h))).current == h,
        with_hint(s, Some(h)).current == s.current,
{
}

/// Destroying the control object and committing brings a surface back to
/// vsync, and a new control object can then be bound.
pub proof fn law_detach_then_commit_is_vsync(s: SurfaceTearing)
    ensures
        committed(without_control(s)).current == PresentationHint::Vsync,
        !committed(without_control(s)).attached,
{
}

/// A surface holds at most one control object: binding a second one while
/// the first is bound is refused.
pub proof fn law_one_control_per_surface(s: SurfaceTearing)
    ensures
        with_control(s).attached,
        with_control(with_control(s)) == with_control(s),
{
}

} // verus!
