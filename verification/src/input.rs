//! Bind-table decisions for key and button events: a bound press is taken
//! by the compositor and its release is swallowed, so the client never sees
//! half of a press/release pair.
use vstd::prelude::*;

use crate::binds::{Action, ActionView, BindTable, KeyCombo};

verus! {

/// Codes (keycodes or button codes) whose press the compositor consumed.
pub struct SuppressedSet {
    codes: Vec<u32>,
}

impl SuppressedSet {
    /// The suppressed codes.
    pub closed spec fn view(&self) -> Set<u32> {
        self.codes@.to_set()
    }

    #[verifier::type_invariant]
    closed spec fn inv(&self) -> bool {
        self.codes@.no_duplicates()
    }

    /// No code suppressed.
    pub fn new() -> (s: Self)
        ensures
            s@ == Set::<u32>::empty(),
    {
        let s = SuppressedSet { codes: Vec::new() };
        assert(s.codes@.to_set() =~= Set::<u32>::empty());
        s
    }

    /// Index of `code`, or the length when absent.
    fn index_of(&self, code: u32) -> (r: usize)
        ensures
            r <= self.codes@.len(),
            r < self.codes@.len() ==> self.codes@[r as int] == code,
            r == self.codes@.len() ==> !self.codes@.contains(code),
    {
        let mut i: usize = 0;
        while i < self.codes.len()
            invariant
                i <= self.codes@.len(),
                forall|j: int| 0 <= j < i ==> self.codes@[j] != code,
            decreases self.codes@.len() - i,
        {
            if self.codes[i] == code {
                return i;
            }
            i = i + 1;
        }
        i
    }

    /// Whether `code` is suppressed.
    pub fn contains(&self, code: u32) -> (r: bool)
        ensures
            r == self@.contains(code),
    {
        let i = self.index_of(code);
        i < self.codes.len()
    }

    /// Suppresses `code`.
    pub fn insert(&mut self, code: u32)
        ensures
            final(self)@ == old(self)@.insert(code),
    {
        proof {
            use_type_invariant(&*self);
        }
        let i = self.index_of(code);
        if i < self.codes.len() {
            proof {
                assert(self.codes@.to_set().insert(code) =~= self.codes@.to_set());
            }
            return;
        }
        let mut codes: Vec<u32> = Vec::new();
        std::mem::swap(&mut codes, &mut self.codes);
        let ghost before = codes@;
        codes.push(code);
        proof {
            assert forall|x: u32| codes@.to_set().contains(x) <==> before.to_set().insert(code).contains(x) by {
                if codes@.to_set().contains(x) {
                    let k = choose|k: int| 0 <= k < codes@.len() && codes@[k] == x;
                    if k < before.len() {
                        assert(before[k] == x);
                        assert(before.contains(x));
                    }
                }
                if before.contains(x) {
                    let k = choose|k: int| 0 <= k < before.len() && before[k] == x;
                    assert(codes@[k] == x);
                }
                if x == code {
                    assert(codes@[before.len() as int] == x);
                }
            }
            assert(codes@.to_set() =~= before.to_set().insert(code));
            assert forall|a: int, b: int| 0 <= a < b < codes@.len() implies codes@[a] != codes@[b] by {
                if b == before.len() {
                    assert(codes@[a] == before[a]);
                    assert(before.contains(before[a]));
                }
            }
        }
        self.codes = codes;
    }

    /// Stops suppressing `code`; reports whether it was suppressed.
    pub fn remove(&mut self, code: u32) -> (r: bool)
        ensures
            r == old(self)@.contains(code),
            final(self)@ == old(self)@.remove(code),
    {
        proof {
            use_type_invariant(&*self);
        }
        let i = self.index_of(code);
        if i >= self.codes.len() {
            proof {
                assert(self.codes@.to_set().remove(code) =~= self.codes@.to_set());
            }
            return false;
        }
        let mut codes: Vec<u32> = Vec::new();
        std::mem::swap(&mut codes, &mut self.codes);
        let ghost before = codes@;
        let _ = codes.swap_remove(i);
        proof {
            assert forall|x: u32| codes@.to_set().contains(x) <==> before.to_set().remove(code).contains(x) by {
                if codes@.to_set().contains(x) {
                    let k = choose|k: int| 0 <= k < codes@.len() && codes@[k] == x;
                    if k == i {
                        assert(x == before[before.len() - 1]);
                        assert(before.len() - 1 != i);
                    } else {
                        assert(x == before[k]);
                    }
                    assert(before.contains(x));
                }
                if before.to_set().remove(code).contains(x) {
                    let k = choose|k: int| 0 <= k < before.len() && before[k] == x;
                    assert(k != i);
                    if k == before.len() - 1 {
                        assert(codes@[i as int] == x);
                    } else {
                        assert(codes@[k] == x);
                    }
                }
            }
            assert(codes@.to_set() =~= before.to_set().remove(code));
            assert forall|a: int, b: int| 0 <= a < b < codes@.len() implies codes@[a] != codes@[b] by {
                let ia = if a == i { before.len() - 1 } else { a };
                let ib = if b == i { before.len() - 1 } else { b };
                assert(codes@[a] == before[ia]);
                assert(codes@[b] == before[ib]);
            }
        }
        self.codes = codes;
        true
    }
}

/// What happens to a key event.
#[derive(Debug)]
pub enum KeyFilter {
    /// The focused client receives the event.
    Forward,
    /// The compositor takes the press and performs the action.
    Intercept(Action),
    /// The release of a press the compositor took; nobody receives it and
    /// no action follows.
    Swallow,
}

/// A key decision as plain values: `None` to forward, `Some(None)` to
/// swallow, `Some(Some(a))` to perform `a`.
pub open spec fn key_filter_view(r: KeyFilter) -> Option<Option<ActionView>> {
    match r {
        KeyFilter::Forward => None,
        KeyFilter::Swallow => Some(None),
        KeyFilter::Intercept(a) => Some(Some(a@)),
    }
}

/// The decision on a key event and the suppressed keycodes after it (see
/// `key_event_filter`).
pub open spec fn key_step(
    bindings: Map<KeyCombo, ActionView>,
    suppressed: Set<u32>,
    keycode: u32,
    pressed: bool,
    inhibited: bool,
    combo: KeyCombo,
) -> (Option<Option<ActionView>>, Set<u32>) {
    if pressed {
        if !inhibited && bindings.contains_key(combo) {
            (Some(Some(bindings[combo])), suppressed.insert(keycode))
        } else {
            (None, suppressed)
        }
    } else if suppressed.contains(keycode) {
        (Some(None), suppressed.remove(keycode))
    } else {
        (None, suppressed)
    }
}

/// The decision on a key event whose keysym and modifiers make `combo`.
/// A press of a bound combo is intercepted (unless a shortcut inhibitor is
/// active) and its keycode suppressed; the release of a suppressed keycode
/// is swallowed, with no action, and unsuppressed; everything else is
/// forwarded. A release never yields an action.
pub fn key_event_filter(
    bindings: &BindTable,
    suppressed: &mut SuppressedSet,
    keycode: u32,
    pressed: bool,
    inhibited: bool,
    combo: KeyCombo,
) -> (r: KeyFilter)
    ensures
        (key_filter_view(r), final(suppressed)@) == key_step(bindings@, old(suppressed)@, keycode, pressed, inhibited, combo),
{
    if pressed {
        if inhibited {
            return KeyFilter::Forward;
        }
        match bindings.get(combo) {
            Some(action) => {
                let a = action.duplicate();
                suppressed.insert(keycode);
                KeyFilter::Intercept(a)
            },
            None => KeyFilter::Forward,
        }
    } else {
        if suppressed.remove(keycode) {
            KeyFilter::Swallow
        } else {
            proof {
                assert(old(suppressed)@.remove(keycode) =~= old(suppressed)@);
            }
            KeyFilter::Forward
        }
    }
}

/// What happens to a mouse button event.
#[derive(Debug)]
pub enum ButtonFilter {
    /// The surface under the pointer receives the event.
    Forward,
    /// The compositor performs the action instead.
    Dispatch(Action),
    /// The release of a consumed press; nobody receives it.
    Swallow,
}

/// A button decision as plain values: `None` to forward, `Some(None)` to
/// swallow, `Some(Some(a))` to perform `a`.
pub open spec fn button_filter_view(r: ButtonFilter) -> Option<Option<ActionView>> {
    match r {
        ButtonFilter::Forward => None,
        ButtonFilter::Swallow => Some(None),
        ButtonFilter::Dispatch(a) => Some(Some(a@)),
    }
}

/// The decision on a button event and the suppressed buttons after it (see
/// `button_event_filter`).
pub open spec fn button_step(
    bindings: Map<KeyCombo, ActionView>,
    suppressed: Set<u32>,
    button: u32,
    pressed: bool,
    combo: KeyCombo,
) -> (Option<Option<ActionView>>, Set<u32>) {
    if pressed {
        if bindings.contains_key(combo) {
            (Some(Some(bindings[combo])), suppressed.insert(button))
        } else {
            (None, suppressed)
        }
    } else if suppressed.contains(button) {
        (Some(None), suppressed.remove(button))
    } else {
        (None, suppressed)
    }
}

/// The decision on a button press or release whose modifiers and button
/// make `combo`: a bound press dispatches its action and suppresses the
/// button; the release of a suppressed button is swallowed.
pub fn button_event_filter(
    bindings: &BindTable,
    suppressed: &mut SuppressedSet,
    button: u32,
    pressed: bool,
    combo: KeyCombo,
) -> (r: ButtonFilter)
    ensures
        (button_filter_view(r), final(suppressed)@) == button_step(bindings@, old(suppressed)@, button, pressed, combo),
{
    if pressed {
        match bindings.get(combo) {
            Some(action) => {
                let a = action.duplicate();
                suppressed.insert(button);
                ButtonFilter::Dispatch(a)
            },
            None => ButtonFilter::Forward,
        }
    } else {
        if suppressed.remove(button) {
            ButtonFilter::Swallow
        } else {
            proof {
                assert(old(suppressed)@.remove(button) =~= old(suppressed)@);
            }
            ButtonFilter::Forward
        }
    }
}

/// A bound key pressed and released never reaches the client: the press
/// performs the bound action, the release (whatever the modifiers then) is
/// swallowed without an action, and the suppressed keycodes end as they
/// began.
pub proof fn law_bound_key_press_release(
    bindings: Map<KeyCombo, ActionView>,
    suppressed: Set<u32>,
    keycode: u32,
    combo: KeyCombo,
    release_inhibited: bool,
    release_combo: KeyCombo,
)
    requires
        !suppressed.contains(keycode),
        bindings.contains_key(combo),
    ensures
        ({
            let (press, s1) = key_step(bindings, suppressed, keycode, true, false, combo);
            let (release, s2) = key_step(bindings, s1, keycode, false, release_inhibited, release_combo);
            &&& press == Some(Some(bindings[combo]))
            &&& release == Some(None::<ActionView>)
            &&& s2 == suppressed
        }),
{
    assert(suppressed.insert(keycode).remove(keycode) =~= suppressed);
}

/// A key release never yields an action: it is swallowed exactly when its
/// keycode was suppressed (which it then no longer is), and forwarded
/// otherwise.
pub proof fn law_release_never_acts(
    bindings: Map<KeyCombo, ActionView>,
    suppressed: Set<u32>,
    keycode: u32,
    inhibited: bool,
    combo: KeyCombo,
)
    ensures
        ({
            let (r, after) = key_step(bindings, suppressed, keycode, false, inhibited, combo);
            &&& r == (if suppressed.contains(keycode) { Some(None::<ActionView>) } else { None })
            &&& !after.contains(keycode)
            &&& after == suppressed.remove(keycode)
        }),
{
    if !suppressed.contains(keycode) {
        assert(suppressed.remove(keycode) =~= suppressed);
    }
}

/// A key that was never suppressed is forwarded on release, and an unbound
/// press is forwarded without suppressing anything.
pub proof fn law_unbound_keys_pass_through(
    bindings: Map<KeyCombo, ActionView>,
    suppressed: Set<u32>,
    keycode: u32,
    inhibited: bool,
    combo: KeyCombo,
)
    requires
        !suppressed.contains(keycode),
        !bindings.contains_key(combo),
    ensures
        key_step(bindings, suppressed, keycode, true, inhibited, combo) == (None::<Option<ActionView>>, suppressed),
        key_step(bindings, suppressed, keycode, false, inhibited, combo) == (None::<Option<ActionView>>, suppressed),
{
}

/// A bound button pressed and released: the press performs the action, the
/// release is swallowed, and the suppressed buttons end as they began.
pub proof fn law_bound_button_press_release(
    bindings: Map<KeyCombo, ActionView>,
    suppressed: Set<u32>,
    button: u32,
    combo: KeyCombo,
    release_combo: KeyCombo,
)
    requires
        !suppressed.contains(button),
        bindings.contains_key(combo),
    ensures
        ({
            let (press, s1) = button_step(bindings, suppressed, button, true, combo);
            let (release, s2) = button_step(bindings, s1, button, false, release_combo);
            &&& press == Some(Some(bindings[combo]))
            &&& release == Some(None::<ActionView>)
            &&& s2 == suppressed
        }),
{
    assert(suppressed.insert(button).remove(button) =~= suppressed);
}

/// Pointer focus policy: whether moving the pointer over a window changes
/// keyboard focus and raises it.
#[derive(Debug, Clone, Copy, PartialEq, Eq, Hash, Structural)]
pub enum FocusMode {
    /// Focus and raise on click only.
    ClickToFocus,
    /// Focus and raise on hover.
    FollowMouse,
    /// Focus on hover, raise on click.
    FollowMouseClickToRaise,
}

impl Default for FocusMode {
    fn default() -> (m: Self)
        ensures
            m == FocusMode::ClickToFocus,
    {
        FocusMode::ClickToFocus
    }
}

} // verus!
