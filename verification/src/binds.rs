//! Keybinding model: modifier sets, key combos, actions, the bind table and
//! the parsing of user bind entries (`[[bind]]` tables of `binds.toml`).
use vstd::prelude::*;

use crate::assoc::{
    entries_map, lemma_map_with_dom, lemma_seq_keys_index, lemma_unique_entries, lemma_unique_update, map_with, unique_keys,
};
use crate::keysyms;
use crate::text::{prefixed, str_eq, to_lowercase, to_uppercase, unicode_lowercase, unicode_uppercase};

verus! {

/// Bit of the Shift modifier.
pub const SHIFT_BIT: u8 = 0b0000_0001;

/// Bit of the Control modifier.
pub const CTRL_BIT: u8 = 0b0000_0010;

/// Bit of the Alt modifier.
pub const ALT_BIT: u8 = 0b0000_0100;

/// Bit of the Super (logo / Win / Cmd) modifier.
pub const SUPER_BIT: u8 = 0b0000_1000;

/// Bit of AltGr, kept apart from Alt for layouts that distinguish them.
pub const ALTGR_BIT: u8 = 0b0001_0000;

/// Compositor-relevant modifier keys as a bit set. Caps-lock and num-lock
/// are keyboard state, not bindable modifiers, and have no bit.
#[derive(Debug, Clone, Copy, PartialEq, Eq, Hash, Default, Structural)]
pub struct Modifiers {
    pub bits: u8,
}

impl Modifiers {
    /// No modifier.
    pub fn empty() -> (m: Modifiers)
        ensures
            m.bits == 0,
    {
        Modifiers { bits: 0 }
    }

    /// Shift alone.
    pub fn shift() -> (m: Modifiers)
        ensures
            m.bits == SHIFT_BIT,
    {
        Modifiers { bits: SHIFT_BIT }
    }

    /// Control alone.
    pub fn ctrl() -> (m: Modifiers)
        ensures
            m.bits == CTRL_BIT,
    {
        Modifiers { bits: CTRL_BIT }
    }

    /// Alt alone.
    pub fn alt() -> (m: Modifiers)
        ensures
            m.bits == ALT_BIT,
    {
        Modifiers { bits: ALT_BIT }
    }

    /// Super alone.
    pub fn super_key() -> (m: Modifiers)
        ensures
            m.bits == SUPER_BIT,
    {
        Modifiers { bits: SUPER_BIT }
    }

    /// AltGr alone.
    pub fn altgr() -> (m: Modifiers)
        ensures
            m.bits == ALTGR_BIT,
    {
        Modifiers { bits: ALTGR_BIT }
    }
}

impl core::ops::BitOr for Modifiers {
    type Output = Modifiers;

    /// The union of two modifier sets.
    fn bitor(self, rhs: Modifiers) -> (m: Modifiers)
        ensures
            m.bits == self.bits | rhs.bits,
    {
        Modifiers { bits: self.bits | rhs.bits }
    }
}

impl vstd::std_specs::ops::BitOrSpecImpl for Modifiers {
    open spec fn obeys_bitor_spec() -> bool {
        true
    }

    open spec fn bitor_req(self, rhs: Modifiers) -> bool {
        true
    }

    open spec fn bitor_spec(self, rhs: Modifiers) -> Modifiers {
        Modifiers { bits: self.bits | rhs.bits }
    }
}

/// The modifier set of the pressed modifier keys; caps-lock and num-lock do
/// not count.
pub fn current_modifiers(shift: bool, ctrl: bool, alt: bool, logo: bool, iso_level3_shift: bool) -> (m: Modifiers)
    ensures
        m.bits == ((if shift { SHIFT_BIT } else { 0u8 }) | (if ctrl { CTRL_BIT } else { 0u8 }) | (if alt {
            ALT_BIT
        } else {
            0u8
        }) | (if logo { SUPER_BIT } else { 0u8 }) | (if iso_level3_shift { ALTGR_BIT } else { 0u8 })),
{
    let mut bits: u8 = 0;
    bits = bits | if shift { SHIFT_BIT } else { 0u8 };
    bits = bits | if ctrl { CTRL_BIT } else { 0u8 };
    bits = bits | if alt { ALT_BIT } else { 0u8 };
    bits = bits | if logo { SUPER_BIT } else { 0u8 };
    bits = bits | if iso_level3_shift { ALTGR_BIT } else { 0u8 };
    proof {
        let s = if shift { SHIFT_BIT } else { 0u8 };
        assert(0u8 | s == s) by (bit_vector);
    }
    Modifiers { bits }
}

/// A bindable input: a keyboard symbol or a mouse button code
/// (`BTN_LEFT = 0x110`, `BTN_RIGHT = 0x111`, ...).
#[derive(Debug, Clone, Copy, PartialEq, Eq, Hash, Structural)]
pub enum BindKey {
    Keysym(u32),
    MouseButton(u32),
}

/// Lookup key of the bind table: a modifier set and an input.
#[derive(Debug, Clone, Copy, PartialEq, Eq, Hash, Structural)]
pub struct KeyCombo {
    pub modifiers: Modifiers,
    pub key: BindKey,
}

impl KeyCombo {
    pub fn new(modifiers: Modifiers, key: BindKey) -> (c: Self)
        ensures
            c == (KeyCombo { modifiers, key }),
    {
        KeyCombo { modifiers, key }
    }

    pub fn keysym(modifiers: Modifiers, sym: u32) -> (c: Self)
        ensures
            c == (KeyCombo { modifiers, key: BindKey::Keysym(sym) }),
    {
        KeyCombo { modifiers, key: BindKey::Keysym(sym) }
    }

    pub fn button(modifiers: Modifiers, button: u32) -> (c: Self)
        ensures
            c == (KeyCombo { modifiers, key: BindKey::MouseButton(button) }),
    {
        KeyCombo { modifiers, key: BindKey::MouseButton(button) }
    }
}

/// Direction parameter for focus and movement actions.
#[derive(Debug, Clone, Copy, PartialEq, Eq, Hash, Structural)]
pub enum Direction {
    Left,
    Right,
    Up,
    Down,
}

/// The verbs the compositor responds to.
#[derive(Debug, Clone, PartialEq, Eq, Hash)]
pub enum Action {
    /// Spawn a process; argv[0] is the program, the rest its arguments.
    Spawn(Vec<String>),
    /// Quit the compositor.
    Quit,
    /// Switch the active virtual terminal.
    VtSwitch(i32),
    CloseWindow,
    /// Begin a move grab on the window under the cursor.
    BeginMove,
    /// Begin a resize grab on the window under the cursor.
    BeginResize,
    ToggleFullscreen,
    ToggleMaximize,
    /// Cycle the focused window's floating/tiled override.
    ToggleFloating,
    SwitchToWorkspace(u32),
    MoveWindowToWorkspace(u32),
    /// Toggle the focused workspace between floating and tiled.
    ToggleWorkspaceTiling,
    /// Focus history forward.
    FocusNext,
    /// Focus history backward.
    FocusPrev,
    FocusDirection(Direction),
    MoveWindow(Direction),
    ScaleUp,
    ScaleDown,
    RotateOutput,
    ToggleTint,
    TogglePreview,
    Screen(usize),
    /// No-op.
    Nop,
}

/// An action with its spawn arguments read as character sequences.
pub enum ActionView {
    Spawn(Seq<Seq<char>>),
    Quit,
    VtSwitch(i32),
    CloseWindow,
    BeginMove,
    BeginResize,
    ToggleFullscreen,
    ToggleMaximize,
    ToggleFloating,
    SwitchToWorkspace(u32),
    MoveWindowToWorkspace(u32),
    ToggleWorkspaceTiling,
    FocusNext,
    FocusPrev,
    FocusDirection(Direction),
    MoveWindow(Direction),
    ScaleUp,
    ScaleDown,
    RotateOutput,
    ToggleTint,
    TogglePreview,
    Screen(usize),
    Nop,
}

/// The character sequences of a list of strings.
pub open spec fn strings_view(v: Seq<String>) -> Seq<Seq<char>> {
    v.map_values(|s: String| s@)
}

impl View for Action {
    type V = ActionView;

    open spec fn view(&self) -> ActionView {
        match self {
            Action::Spawn(v) => ActionView::Spawn(strings_view(v@)),
            Action::Quit => ActionView::Quit,
            Action::VtSwitch(n) => ActionView::VtSwitch(*n),
            Action::CloseWindow => ActionView::CloseWindow,
            Action::BeginMove => ActionView::BeginMove,
            Action::BeginResize => ActionView::BeginResize,
            Action::ToggleFullscreen => ActionView::ToggleFullscreen,
            Action::ToggleMaximize => ActionView::ToggleMaximize,
            Action::ToggleFloating => ActionView::ToggleFloating,
            Action::SwitchToWorkspace(n) => ActionView::SwitchToWorkspace(*n),
            Action::MoveWindowToWorkspace(n) => ActionView::MoveWindowToWorkspace(*n),
            Action::ToggleWorkspaceTiling => ActionView::ToggleWorkspaceTiling,
            Action::FocusNext => ActionView::FocusNext,
            Action::FocusPrev => ActionView::FocusPrev,
            Action::FocusDirection(d) => ActionView::FocusDirection(*d),
            Action::MoveWindow(d) => ActionView::MoveWindow(*d),
            Action::ScaleUp => ActionView::ScaleUp,
            Action::ScaleDown => ActionView::ScaleDown,
            Action::RotateOutput => ActionView::RotateOutput,
            Action::ToggleTint => ActionView::ToggleTint,
            Action::TogglePreview => ActionView::TogglePreview,
            Action::Screen(n) => ActionView::Screen(*n),
            Action::Nop => ActionView::Nop,
        }
    }
}

/// Copies a list of strings.
fn copy_strings(v: &Vec<String>) -> (r: Vec<String>)
    ensures
        strings_view(r@) == strings_view(v@),
{
    let mut r: Vec<String> = Vec::new();
    let mut i: usize = 0;
    while i < v.len()
        invariant
            i <= v.len(),
            r@.len() == i,
            forall|j: int| 0 <= j < i ==> r@[j]@ == v@[j]@,
        decreases v.len() - i,
    {
        r.push(v[i].clone());
        i = i + 1;
    }
    assert(strings_view(r@) =~= strings_view(v@));
    r
}

impl Action {
    /// A copy of the action.
    pub fn duplicate(&self) -> (a: Action)
        ensures
            a@ == self@,
    {
        match self {
            Action::Spawn(v) => Action::Spawn(copy_strings(v)),
            Action::Quit => Action::Quit,
            Action::VtSwitch(n) => Action::VtSwitch(*n),
            Action::CloseWindow => Action::CloseWindow,
            Action::BeginMove => Action::BeginMove,
            Action::BeginResize => Action::BeginResize,
            Action::ToggleFullscreen => Action::ToggleFullscreen,
            Action::ToggleMaximize => Action::ToggleMaximize,
            Action::ToggleFloating => Action::ToggleFloating,
            Action::SwitchToWorkspace(n) => Action::SwitchToWorkspace(*n),
            Action::MoveWindowToWorkspace(n) => Action::MoveWindowToWorkspace(*n),
            Action::ToggleWorkspaceTiling => Action::ToggleWorkspaceTiling,
            Action::FocusNext => Action::FocusNext,
            Action::FocusPrev => Action::FocusPrev,
            Action::FocusDirection(d) => Action::FocusDirection(*d),
            Action::MoveWindow(d) => Action::MoveWindow(*d),
            Action::ScaleUp => Action::ScaleUp,
            Action::ScaleDown => Action::ScaleDown,
            Action::RotateOutput => Action::RotateOutput,
            Action::ToggleTint => Action::ToggleTint,
            Action::TogglePreview => Action::TogglePreview,
            Action::Screen(n) => Action::Screen(*n),
            Action::Nop => Action::Nop,
        }
    }
}

// ---------------------------------------------------------------------------
// Bind table
// ---------------------------------------------------------------------------

/// Entries with their actions read as views.
pub open spec fn binds_view(s: Seq<(KeyCombo, Action)>) -> Seq<(KeyCombo, ActionView)> {
    s.map_values(|e: (KeyCombo, Action)| (e.0, e.1@))
}

/// The table mapping key combos to actions; a combo is bound at most once.
pub struct BindTable {
    entries: Vec<(KeyCombo, Action)>,
}

/// User bindings override the table: a combo the user binds ends bound to
/// the user's last binding for it (entry `i`, no later entry binding the
/// same combo).
pub proof fn law_last_user_binding_wins(m: Map<KeyCombo, ActionView>, s: Seq<(KeyCombo, ActionView)>, i: int)
    requires
        0 <= i < s.len(),
        forall|j: int| i < j < s.len() ==> #[trigger] s[j].0 != s[i].0,
    ensures
        map_with(m, s).contains_key(s[i].0),
        map_with(m, s)[s[i].0] == s[i].1,
    decreases s.len(),
{
    if i < s.len() - 1 {
        let p = s.drop_last();
        assert(s[s.len() - 1].0 != s[i].0);
        assert forall|j: int| i < j < p.len() implies #[trigger] p[j].0 != p[i].0 by {
            assert(s[j] == p[j]);
        }
        law_last_user_binding_wins(m, p, i);
    }
}

/// User bindings only add: a combo the user does not bind keeps what the
/// table had for it.
pub proof fn law_unbound_combos_keep_their_binding(m: Map<KeyCombo, ActionView>, s: Seq<(KeyCombo, ActionView)>, c: KeyCombo)
    requires
        forall|j: int| 0 <= j < s.len() ==> #[trigger] s[j].0 != c,
    ensures
        map_with(m, s).contains_key(c) == m.contains_key(c),
        m.contains_key(c) ==> map_with(m, s)[c] == m[c],
    decreases s.len(),
{
    if s.len() > 0 {
        let p = s.drop_last();
        assert(s[s.len() - 1].0 != c);
        assert forall|j: int| 0 <= j < p.len() implies #[trigger] p[j].0 != c by {
            assert(s[j] == p[j]);
        }
        law_unbound_combos_keep_their_binding(m, p, c);
    }
}

impl BindTable {
    /// The bindings as a map.
    pub closed spec fn view(&self) -> Map<KeyCombo, ActionView> {
        entries_map(binds_view(self.entries@))
    }

    #[verifier::type_invariant]
    closed spec fn inv(&self) -> bool {
        unique_keys(binds_view(self.entries@))
    }

    /// An empty table.
    pub fn new() -> (t: Self)
        ensures
            t@ == Map::<KeyCombo, ActionView>::empty(),
    {
        let t = BindTable { entries: Vec::new() };
        assert(binds_view(t.entries@) =~= Seq::<(KeyCombo, ActionView)>::empty());
        t
    }

    /// Binds `combo` to `action`, replacing an earlier binding of `combo`.
    pub fn insert(&mut self, combo: KeyCombo, action: Action)
        ensures
            final(self)@ == old(self)@.insert(combo, action@),
    {
        proof {
            use_type_invariant(&*self);
        }
        let ghost a = action@;
        let mut entries: Vec<(KeyCombo, Action)> = Vec::new();
        std::mem::swap(&mut entries, &mut self.entries);
        let mut i: usize = 0;
        while i < entries.len()
            invariant
                i <= entries.len(),
                entries@ == old(self).entries@,
                unique_keys(binds_view(entries@)),
                a == action@,
                forall|j: int| 0 <= j < i ==> entries@[j].0 != combo,
            decreases entries.len() - i,
        {
            if entries[i].0 == combo {
                let ghost before = entries@;
                proof {
                    lemma_unique_update(binds_view(before), i as int, a);
                }
                entries.set(i, (combo, action));
                proof {
                    assert forall|j: int| 0 <= j < before.len() implies #[trigger] binds_view(entries@)[j]
                        == binds_view(before).update(i as int, (combo, a))[j] by {
                        assert(binds_view(entries@)[j] == (entries@[j].0, entries@[j].1@));
                        assert(binds_view(before)[j] == (before[j].0, before[j].1@));
                        if j == i {
                            assert(entries@[j] == (combo, action));
                            assert(entries@[j].1@ == a);
                        } else {
                            assert(entries@[j] == before[j]);
                        }
                    }
                    assert(binds_view(entries@) =~= binds_view(before).update(i as int, (combo, a)));
                }
                self.entries = entries;
                return;
            }
            i = i + 1;
        }
        let ghost before = entries@;
        entries.push((combo, action));
        proof {
            assert(binds_view(entries@).drop_last() =~= binds_view(before));
            assert forall|j: int, k: int| 0 <= j < k < binds_view(entries@).len() implies #[trigger] binds_view(
                entries@,
            )[j].0 != #[trigger] binds_view(entries@)[k].0 by {
                assert(binds_view(entries@)[j].0 == entries@[j].0);
                assert(binds_view(entries@)[k].0 == entries@[k].0);
                assert(entries@[j] == before[j]);
                if k < before.len() {
                    assert(entries@[k] == before[k]);
                    assert(binds_view(before)[j].0 == before[j].0);
                    assert(binds_view(before)[k].0 == before[k].0);
                } else {
                    assert(entries@[k].0 == combo);
                }
            }
        }
        self.entries = entries;
    }

    /// The action bound to `combo`, if any.
    pub fn get(&self, combo: KeyCombo) -> (r: Option<&Action>)
        ensures
            r is None <==> !self@.contains_key(combo),
            r matches Some(a) ==> self@[combo] == a@,
    {
        proof {
            use_type_invariant(self);
            lemma_unique_entries(binds_view(self.entries@));
            lemma_map_with_dom(Map::empty(), binds_view(self.entries@));
            lemma_seq_keys_index(binds_view(self.entries@));
        }
        let mut i: usize = 0;
        while i < self.entries.len()
            invariant
                i <= self.entries.len(),
                unique_keys(binds_view(self.entries@)),
                forall|j: int| 0 <= j < i ==> self.entries@[j].0 != combo,
            decreases self.entries.len() - i,
        {
            if self.entries[i].0 == combo {
                proof {
                    lemma_unique_entries(binds_view(self.entries@));
                    assert(binds_view(self.entries@)[i as int] == (combo, self.entries@[i as int].1@));
                }
                return Some(&self.entries[i].1);
            }
            i = i + 1;
        }
        proof {
            lemma_map_with_dom(Map::empty(), binds_view(self.entries@));
            lemma_seq_keys_index(binds_view(self.entries@));
            assert forall|j: int| 0 <= j < binds_view(self.entries@).len() implies #[trigger] binds_view(
                self.entries@,
            )[j].0 != combo by {
                assert(binds_view(self.entries@)[j].0 == self.entries@[j].0);
            }
        }
        None
    }

    /// Adds the user's bindings on top of the table, in order: a binding
    /// for a combo already bound replaces it, and among user bindings for
    /// one combo the last wins.
    pub fn add_user_bindings(&mut self, binds: Vec<(KeyCombo, Action)>)
        ensures
            final(self)@ == map_with(old(self)@, binds_view(binds@)),
    {
        let mut i: usize = 0;
        let ghost v = binds_view(binds@);
        while i < binds.len()
            invariant
                i <= binds@.len(),
                v == binds_view(binds@),
                self@ == map_with(old(self)@, v.take(i as int)),
            decreases binds@.len() - i,
        {
            let (combo, action) = &binds[i];
            self.insert(*combo, action.duplicate());
            proof {
                assert(v.take(i + 1).drop_last() =~= v.take(i as int));
                assert(v.take(i + 1).last() == v[i as int]);
            }
            i = i + 1;
        }
        assert(v.take(binds@.len() as int) =~= v);
    }

    /// Number of bound combos.
    pub fn len(&self) -> (n: usize)
        ensures
            n == self@.len(),
    {
        proof {
            use_type_invariant(self);
            lemma_unique_entries(binds_view(self.entries@));
        }
        self.entries.len()
    }
}

// ---------------------------------------------------------------------------
// Default bindings
// ---------------------------------------------------------------------------

/// Control and Alt together.
pub const CTRL_ALT: u8 = 0b0000_0110;

/// Super and Shift together.
pub const SUPER_SHIFT: u8 = 0b0000_1001;

/// Alt and Shift together.
pub const ALT_SHIFT: u8 = 0b0000_0101;

/// The combo of the modifiers `bits` and the keysym `sym`.
pub open spec fn sym_combo(bits: u8, sym: u32) -> KeyCombo {
    KeyCombo { modifiers: Modifiers { bits }, key: BindKey::Keysym(sym) }
}

/// The combo of the modifiers `bits` and the mouse button `button`.
pub open spec fn button_combo(bits: u8, button: u32) -> KeyCombo {
    KeyCombo { modifiers: Modifiers { bits }, key: BindKey::MouseButton(button) }
}

/// The keysym of a combo's input, if it is a key.
pub open spec fn combo_keysym(c: KeyCombo) -> Option<u32> {
    match c.key {
        BindKey::Keysym(s) => Some(s),
        BindKey::MouseButton(_) => None,
    }
}

/// Compositor lifecycle and window basics.
pub open spec fn lifecycle_binds() -> Map<KeyCombo, ActionView> {
    map![
        sym_combo(CTRL_ALT, keysyms::BackSpace) => ActionView::Quit,
        sym_combo(SUPER_BIT, keysyms::q) => ActionView::CloseWindow,
        sym_combo(SUPER_BIT, keysyms::Return) => ActionView::Spawn(seq!["wezterm"@]),
        sym_combo(SUPER_BIT, keysyms::space) => ActionView::Spawn(seq!["zos-launcher"@]),
        sym_combo(SUPER_BIT, keysyms::v) => ActionView::ToggleFloating,
        sym_combo(SUPER_SHIFT, keysyms::T) => ActionView::ToggleWorkspaceTiling
    ]
}

/// Ctrl+Alt+XF86_Switch_VT_n switches to terminal n, for the first `n`
/// terminals.
pub open spec fn vt_binds(n: int) -> Map<KeyCombo, ActionView> {
    Map::new(
        |c: KeyCombo| c.modifiers.bits == CTRL_ALT && (combo_keysym(c) matches Some(s) && keysyms::XF86_Switch_VT_1 <= s < keysyms::XF86_Switch_VT_1 + n),
        |c: KeyCombo| ActionView::VtSwitch((combo_keysym(c).unwrap() - keysyms::XF86_Switch_VT_1 + 1) as i32),
    )
}

/// Debug controls on Ctrl+Alt.
pub open spec fn debug_binds() -> Map<KeyCombo, ActionView> {
    map![
        sym_combo(CTRL_ALT, keysyms::r) => ActionView::RotateOutput,
        sym_combo(CTRL_ALT, keysyms::p) => ActionView::ScaleUp,
        sym_combo(CTRL_ALT, keysyms::m) => ActionView::ScaleDown,
        sym_combo(CTRL_ALT, keysyms::t) => ActionView::ToggleTint,
        sym_combo(CTRL_ALT, keysyms::w) => ActionView::TogglePreview
    ]
}

/// `bits` with digit key `d` (`1..=n`) maps to `act(d)`.
pub open spec fn digit_binds(bits: u8, n: int, act: spec_fn(int) -> ActionView) -> Map<KeyCombo, ActionView> {
    Map::new(
        |c: KeyCombo| c.modifiers.bits == bits && (combo_keysym(c) matches Some(s) && keysyms::_1 <= s < keysyms::_1 + n),
        |c: KeyCombo| act(combo_keysym(c).unwrap() - keysyms::_1 + 1),
    )
}

/// Ctrl+Alt+digit moves the pointer to that screen.
pub open spec fn screen_action(d: int) -> ActionView {
    ActionView::Screen(d as usize)
}

/// Super+digit switches to that workspace.
pub open spec fn switch_action(d: int) -> ActionView {
    ActionView::SwitchToWorkspace(d as u32)
}

/// Super+Shift+digit moves the focused window to that workspace.
pub open spec fn move_to_action(d: int) -> ActionView {
    ActionView::MoveWindowToWorkspace(d as u32)
}

/// Focus cycling, directional focus and movement, window state toggles and
/// mouse grabs.
pub open spec fn navigation_binds() -> Map<KeyCombo, ActionView> {
    map![
        sym_combo(ALT_BIT, keysyms::Tab) => ActionView::FocusNext,
        sym_combo(ALT_SHIFT, keysyms::Tab) => ActionView::FocusPrev,
        sym_combo(SUPER_BIT, keysyms::h) => ActionView::FocusDirection(Direction::Left),
        sym_combo(SUPER_BIT, keysyms::j) => ActionView::FocusDirection(Direction::Down),
        sym_combo(SUPER_BIT, keysyms::k) => ActionView::FocusDirection(Direction::Up),
        sym_combo(SUPER_BIT, keysyms::l) => ActionView::FocusDirection(Direction::Right),
        sym_combo(SUPER_SHIFT, keysyms::H) => ActionView::MoveWindow(Direction::Left),
        sym_combo(SUPER_SHIFT, keysyms::J) => ActionView::MoveWindow(Direction::Down),
        sym_combo(SUPER_SHIFT, keysyms::K) => ActionView::MoveWindow(Direction::Up),
        sym_combo(SUPER_SHIFT, keysyms::L) => ActionView::MoveWindow(Direction::Right),
        sym_combo(SUPER_BIT, keysyms::f) => ActionView::ToggleFullscreen,
        sym_combo(SUPER_BIT, keysyms::F) => ActionView::ToggleMaximize,
        button_combo(SUPER_BIT, 272) => ActionView::BeginMove,
        button_combo(SUPER_BIT, 273) => ActionView::BeginResize
    ]
}

/// The default bind table, groups bound in this order (a later group would
/// override an earlier one on a shared combo).
pub open spec fn default_bind_table() -> Map<KeyCombo, ActionView> {
    lifecycle_binds()
        .union_prefer_right(vt_binds(12))
        .union_prefer_right(debug_binds())
        .union_prefer_right(digit_binds(CTRL_ALT, 9, |d: int| screen_action(d)))
        .union_prefer_right(digit_binds(SUPER_BIT, 9, |d: int| switch_action(d)).union_prefer_right(
            digit_binds(SUPER_SHIFT, 9, |d: int| move_to_action(d)),
        ))
        .union_prefer_right(navigation_binds())
}

/// The hardcoded default bindings.
pub fn default_bindings() -> (t: BindTable)
    ensures
        t@ == default_bind_table(),
{
    let ca = Modifiers::ctrl() | Modifiers::alt();
    let sup = Modifiers::super_key();
    let sup_shift = Modifiers::super_key() | Modifiers::shift();
    let alt = Modifiers::alt();
    let alt_shift = Modifiers::alt() | Modifiers::shift();
    proof {
        assert(CTRL_BIT | ALT_BIT == 6u8) by (bit_vector);
        assert(SUPER_BIT | SHIFT_BIT == 9u8) by (bit_vector);
        assert(ALT_BIT | SHIFT_BIT == 5u8) by (bit_vector);
    }
    let mut m = BindTable::new();

    // Compositor lifecycle.
    m.insert(KeyCombo::keysym(ca, keysyms::BackSpace), Action::Quit);
    m.insert(KeyCombo::keysym(sup, keysyms::q), Action::CloseWindow);
    let mut terminal: Vec<String> = Vec::new();
    terminal.push(String::from_str("wezterm"));
    let mut launcher: Vec<String> = Vec::new();
    launcher.push(String::from_str("zos-launcher"));
    proof {
        assert(strings_view(terminal@) =~= seq!["wezterm"@]);
        assert(strings_view(launcher@) =~= seq!["zos-launcher"@]);
    }
    m.insert(KeyCombo::keysym(sup, keysyms::Return), Action::Spawn(terminal));
    m.insert(KeyCombo::keysym(sup, keysyms::space), Action::Spawn(launcher));
    m.insert(KeyCombo::keysym(sup, keysyms::v), Action::ToggleFloating);
    m.insert(KeyCombo::keysym(sup_shift, keysyms::T), Action::ToggleWorkspaceTiling);
    let ghost m1 = m@;
    proof {
        assert(m1 =~= lifecycle_binds());
    }

    // Virtual terminal switches; XF86_Switch_VT_1..=12 are consecutive.
    let mut i: i32 = 1;
    while i <= 12
        invariant
            1 <= i <= 13,
            ca.bits == CTRL_ALT,
            m@ == m1.union_prefer_right(vt_binds(i - 1)),
        decreases 13 - i,
    {
        let sym: u32 = keysyms::XF86_Switch_VT_1 + (i - 1) as u32;
        m.insert(KeyCombo::keysym(ca, sym), Action::VtSwitch(i));
        proof {
            assert(m@ =~= m1.union_prefer_right(vt_binds(i as int)));
        }
        i = i + 1;
    }
    let ghost m2 = m@;

    // Debug controls.
    m.insert(KeyCombo::keysym(ca, keysyms::r), Action::RotateOutput);
    m.insert(KeyCombo::keysym(ca, keysyms::p), Action::ScaleUp);
    m.insert(KeyCombo::keysym(ca, keysyms::m), Action::ScaleDown);
    m.insert(KeyCombo::keysym(ca, keysyms::t), Action::ToggleTint);
    m.insert(KeyCombo::keysym(ca, keysyms::w), Action::TogglePreview);
    let ghost m3 = m@;
    proof {
        assert(m3 =~= m2.union_prefer_right(debug_binds()));
    }

    // Pointer to screen n.
    let mut i: usize = 1;
    while i <= 9
        invariant
            1 <= i <= 10,
            ca.bits == CTRL_ALT,
            m@ == m3.union_prefer_right(digit_binds(CTRL_ALT, i - 1, |d: int| screen_action(d))),
        decreases 10 - i,
    {
        let sym: u32 = keysyms::_1 + (i - 1) as u32;
        m.insert(KeyCombo::keysym(ca, sym), Action::Screen(i));
        proof {
            assert(m@ =~= m3.union_prefer_right(digit_binds(CTRL_ALT, i as int, |d: int| screen_action(d))));
        }
        i = i + 1;
    }
    let ghost m4 = m@;

    // Workspace switching and moving.
    let mut i: u32 = 1;
    while i <= 9
        invariant
            1 <= i <= 10,
            sup.bits == SUPER_BIT,
            sup_shift.bits == SUPER_SHIFT,
            m@ == m4.union_prefer_right(
                digit_binds(SUPER_BIT, i - 1, |d: int| switch_action(d)).union_prefer_right(
                    digit_binds(SUPER_SHIFT, i - 1, |d: int| move_to_action(d)),
                ),
            ),
        decreases 10 - i,
    {
        let sym: u32 = keysyms::_1 + (i - 1);
        m.insert(KeyCombo::keysym(sup, sym), Action::SwitchToWorkspace(i));
        m.insert(KeyCombo::keysym(sup_shift, sym), Action::MoveWindowToWorkspace(i));
        proof {
            assert(m@ =~= m4.union_prefer_right(
                digit_binds(SUPER_BIT, i as int, |d: int| switch_action(d)).union_prefer_right(
                    digit_binds(SUPER_SHIFT, i as int, |d: int| move_to_action(d)),
                ),
            ));
        }
        i = i + 1;
    }
    let ghost m5 = m@;

    // Focus cycling.
    m.insert(KeyCombo::keysym(alt, keysyms::Tab), Action::FocusNext);
    m.insert(KeyCombo::keysym(alt_shift, keysyms::Tab), Action::FocusPrev);
    // Directional focus.
    m.insert(KeyCombo::keysym(sup, keysyms::h), Action::FocusDirection(Direction::Left));
    m.insert(KeyCombo::keysym(sup, keysyms::j), Action::FocusDirection(Direction::Down));
    m.insert(KeyCombo::keysym(sup, keysyms::k), Action::FocusDirection(Direction::Up));
    m.insert(KeyCombo::keysym(sup, keysyms::l), Action::FocusDirection(Direction::Right));
    // Directional moves.
    m.insert(KeyCombo::keysym(sup_shift, keysyms::H), Action::MoveWindow(Direction::Left));
    m.insert(KeyCombo::keysym(sup_shift, keysyms::J), Action::MoveWindow(Direction::Down));
    m.insert(KeyCombo::keysym(sup_shift, keysyms::K), Action::MoveWindow(Direction::Up));
    m.insert(KeyCombo::keysym(sup_shift, keysyms::L), Action::MoveWindow(Direction::Right));
    // Window state toggles.
    m.insert(KeyCombo::keysym(sup, keysyms::f), Action::ToggleFullscreen);
    m.insert(KeyCombo::keysym(sup, keysyms::F), Action::ToggleMaximize);
    // Mouse grabs: BTN_LEFT = 0x110 = 272, BTN_RIGHT = 0x111 = 273.
    m.insert(KeyCombo::button(sup, 272), Action::BeginMove);
    m.insert(KeyCombo::button(sup, 273), Action::BeginResize);
    proof {
        assert(m@ =~= m5.union_prefer_right(navigation_binds()));
    }
    m
}

// ---------------------------------------------------------------------------
// User bind entries
// ---------------------------------------------------------------------------

/// A value in a bind entry's `args` list: a string, an integer, or anything
/// else a TOML array may hold (float, boolean, datetime, array, table).
#[derive(Debug, Clone, PartialEq)]
pub enum ArgValue {
    String(String),
    Integer(i64),
    Other,
}

/// One `[[bind]]` entry: modifier names, a key name or a mouse button code,
/// an action name and its arguments.
#[derive(Debug, Clone)]
pub struct UserBindEntry {
    pub mods: Vec<String>,
    pub key: Option<String>,
    pub button: Option<u32>,
    pub action: String,
    pub args: Vec<ArgValue>,
}

/// All `[[bind]]` entries of a bind file.
#[derive(Debug, Clone, Default)]
pub struct UserBinds {
    pub binds: Vec<UserBindEntry>,
}

/// The modifier bit a canonical (upper-cased) modifier name stands for.
pub open spec fn modifier_named(u: Seq<char>) -> Option<u8> {
    if u == "SHIFT"@ {
        Some(SHIFT_BIT)
    } else if u == "CTRL"@ || u == "CONTROL"@ {
        Some(CTRL_BIT)
    } else if u == "ALT"@ {
        Some(ALT_BIT)
    } else if u == "SUPER"@ || u == "LOGO"@ || u == "MOD"@ {
        Some(SUPER_BIT)
    } else if u == "ALTGR"@ {
        Some(ALTGR_BIT)
    } else {
        None
    }
}

/// Parsing the modifier names from index `i` on, the bits gathered so far
/// being `acc`: the first unknown name is reported (upper-cased).
pub open spec fn modifiers_from(names: Seq<String>, i: int, acc: u8) -> Result<u8, Seq<char>>
    decreases names.len() - i,
{
    if i >= names.len() || i < 0 {
        Ok(acc)
    } else {
        let u = unicode_uppercase(names[i]@);
        match modifier_named(u) {
            None => Err("unknown modifier: "@ + u),
            Some(b) => modifiers_from(names, i + 1, acc | b),
        }
    }
}

/// The direction a canonical (lower-cased) direction name stands for.
pub open spec fn direction_named(l: Seq<char>) -> Option<Direction> {
    if l == "left"@ {
        Some(Direction::Left)
    } else if l == "right"@ {
        Some(Direction::Right)
    } else if l == "up"@ {
        Some(Direction::Up)
    } else if l == "down"@ {
        Some(Direction::Down)
    } else {
        None
    }
}

/// Parsing a direction name: case-insensitive (Unicode lower-casing).
pub open spec fn direction_result(s: Seq<char>) -> Result<Direction, Seq<char>> {
    let l = unicode_lowercase(s);
    match direction_named(l) {
        Some(d) => Ok(d),
        None => Err("unknown direction: "@ + l),
    }
}

/// The string of an argument, if it is one.
pub open spec fn arg_str(a: ArgValue) -> Option<Seq<char>> {
    match a {
        ArgValue::String(s) => Some(s@),
        _ => None,
    }
}

/// The integer of an argument, if it is one.
pub open spec fn arg_int(a: ArgValue) -> Option<i64> {
    match a {
        ArgValue::Integer(n) => Some(n),
        _ => None,
    }
}

/// The string arguments, in order; the others are skipped.
pub open spec fn string_args(args: Seq<ArgValue>) -> Seq<Seq<char>>
    decreases args.len(),
{
    if args.len() == 0 {
        Seq::empty()
    } else {
        let prev = string_args(args.drop_last());
        match arg_str(args.last()) {
            Some(s) => prev.push(s),
            None => prev,
        }
    }
}

/// The first argument as an integer.
pub open spec fn first_int(args: Seq<ArgValue>) -> Option<i64> {
    if args.len() > 0 {
        arg_int(args[0])
    } else {
        None
    }
}

/// The first argument as a string.
pub open spec fn first_str(args: Seq<ArgValue>) -> Option<Seq<char>> {
    if args.len() > 0 {
        arg_str(args[0])
    } else {
        None
    }
}

/// An action that takes a direction, or the direction's parse error.
pub open spec fn directional(args: Seq<ArgValue>, missing: Seq<char>, make: spec_fn(Direction) -> ActionView) -> Result<ActionView, Seq<char>> {
    match first_str(args) {
        None => Err(missing),
        Some(d) => match direction_result(d) {
            Ok(dir) => Ok(make(dir)),
            Err(e) => Err(e),
        },
    }
}

/// The action an entry names, built from its arguments.
pub open spec fn action_result(name: Seq<char>, args: Seq<ArgValue>) -> Result<ActionView, Seq<char>> {
    if name == "Quit"@ {
        Ok(ActionView::Quit)
    } else if name == "CloseWindow"@ {
        Ok(ActionView::CloseWindow)
    } else if name == "BeginMove"@ {
        Ok(ActionView::BeginMove)
    } else if name == "BeginResize"@ {
        Ok(ActionView::BeginResize)
    } else if name == "ToggleFullscreen"@ {
        Ok(ActionView::ToggleFullscreen)
    } else if name == "ToggleMaximize"@ {
        Ok(ActionView::ToggleMaximize)
    } else if name == "ToggleFloating"@ {
        Ok(ActionView::ToggleFloating)
    } else if name == "ToggleWorkspaceTiling"@ {
        Ok(ActionView::ToggleWorkspaceTiling)
    } else if name == "FocusNext"@ {
        Ok(ActionView::FocusNext)
    } else if name == "FocusPrev"@ {
        Ok(ActionView::FocusPrev)
    } else if name == "ScaleUp"@ {
        Ok(ActionView::ScaleUp)
    } else if name == "ScaleDown"@ {
        Ok(ActionView::ScaleDown)
    } else if name == "RotateOutput"@ {
        Ok(ActionView::RotateOutput)
    } else if name == "ToggleTint"@ {
        Ok(ActionView::ToggleTint)
    } else if name == "TogglePreview"@ {
        Ok(ActionView::TogglePreview)
    } else if name == "Nop"@ {
        Ok(ActionView::Nop)
    } else if name == "Spawn"@ {
        let argv = string_args(args);
        if argv.len() == 0 {
            Err("Spawn needs at least one string arg"@)
        } else {
            Ok(ActionView::Spawn(argv))
        }
    } else if name == "VtSwitch"@ {
        match first_int(args) {
            None => Err("VtSwitch needs an integer arg"@),
            Some(n) => Ok(ActionView::VtSwitch(n as i32)),
        }
    } else if name == "SwitchToWorkspace"@ {
        match first_int(args) {
            None => Err("SwitchToWorkspace needs an integer arg"@),
            Some(n) => Ok(ActionView::SwitchToWorkspace(n as u32)),
        }
    } else if name == "MoveWindowToWorkspace"@ {
        match first_int(args) {
            None => Err("MoveWindowToWorkspace needs an integer arg"@),
            Some(n) => Ok(ActionView::MoveWindowToWorkspace(n as u32)),
        }
    } else if name == "Screen"@ {
        match first_int(args) {
            None => Err("Screen needs an integer arg"@),
            Some(n) => Ok(ActionView::Screen(n as usize)),
        }
    } else if name == "FocusDirection"@ {
        directional(args, "FocusDirection needs a string arg"@, |d: Direction| ActionView::FocusDirection(d))
    } else if name == "MoveWindow"@ {
        directional(args, "MoveWindow needs a string arg"@, |d: Direction| ActionView::MoveWindow(d))
    } else {
        Err("unknown action: "@ + name)
    }
}

/// The input a bind entry names: a key, whose name the keymap resolved to
/// keysym `sym` (zero for no such key), or a button; exactly one of the two
/// must be given.
pub open spec fn bind_key_result(key: Option<String>, button: Option<u32>, sym: u32) -> Result<BindKey, Seq<char>> {
    match (key, button) {
        (Some(k), None) => {
            if k@.contains('\0') {
                Err(nul_key_message())
            } else if sym == 0 {
                Err("unknown keysym: "@ + k@)
            } else {
                Ok(BindKey::Keysym(sym))
            }
        },
        (None, Some(b)) => Ok(BindKey::MouseButton(b)),
        (Some(_), Some(_)) => Err("bind has both `key` and `button`"@),
        (None, None) => Err("bind has neither `key` nor `button`"@),
    }
}

/// Parsing a bind entry whose key name resolved to keysym `sym`:
/// modifiers, then the input, then the action; the first failure is
/// reported.
pub open spec fn bind_result(e: UserBindEntry, sym: u32) -> Result<(KeyCombo, ActionView), Seq<char>> {
    match modifiers_from(e.mods@, 0, 0) {
        Err(m) => Err(m),
        Ok(bits) => match bind_key_result(e.key, e.button, sym) {
            Err(m) => Err(m),
            Ok(k) => match action_result(e.action@, e.args@) {
                Err(m) => Err(m),
                Ok(a) => Ok((KeyCombo { modifiers: Modifiers { bits }, key: k }, a)),
            },
        },
    }
}

/// Parsing the entry gets as far as looking its key name up: the modifiers
/// parse, a key (and no button) is given, and the name holds no NUL
/// character.
pub open spec fn needs_key_lookup(e: UserBindEntry) -> bool {
    &&& modifiers_from(e.mods@, 0, 0) is Ok
    &&& e.key matches Some(k) && !k@.contains('\0')
    &&& e.button is None
}

/// A parse result with the action and message read as views.
pub open spec fn bind_result_view(r: Result<(KeyCombo, Action), String>) -> Result<(KeyCombo, ActionView), Seq<char>> {
    match r {
        Ok((c, a)) => Ok((c, a@)),
        Err(m) => Err(m@),
    }
}

/// The modifier bit of a canonical (upper-cased) modifier name.
pub fn modifier_from_uppercase(u: &str) -> (r: Option<u8>)
    ensures
        r == modifier_named(u@),
{
    if str_eq(u, "SHIFT") {
        Some(SHIFT_BIT)
    } else if str_eq(u, "CTRL") || str_eq(u, "CONTROL") {
        Some(CTRL_BIT)
    } else if str_eq(u, "ALT") {
        Some(ALT_BIT)
    } else if str_eq(u, "SUPER") || str_eq(u, "LOGO") || str_eq(u, "MOD") {
        Some(SUPER_BIT)
    } else if str_eq(u, "ALTGR") {
        Some(ALTGR_BIT)
    } else {
        None
    }
}

/// Parses modifier names, case-insensitively; the first unknown name fails
/// the whole list.
pub fn parse_modifiers(strs: &[String]) -> (r: Result<Modifiers, String>)
    ensures
        match (r, modifiers_from(strs@, 0, 0)) {
            (Ok(m), Ok(bits)) => m.bits == bits,
            (Err(e), Err(msg)) => e@ == msg,
            _ => false,
        },
{
    let mut bits: u8 = 0;
    let mut i: usize = 0;
    while i < strs.len()
        invariant
            i <= strs@.len(),
            modifiers_from(strs@, 0, 0) == modifiers_from(strs@, i as int, bits),
        decreases strs@.len() - i,
    {
        let u = to_uppercase(strs[i].as_str());
        match modifier_from_uppercase(u.as_str()) {
            None => {
                return Err(prefixed("unknown modifier: ", u.as_str()));
            },
            Some(b) => {
                bits = bits | b;
            },
        }
        i = i + 1;
    }
    Ok(Modifiers { bits })
}

/// The direction of a canonical (lower-cased) direction name, or the
/// message naming it as unknown.
pub fn direction_from_lowercase(l: &str) -> (r: Result<Direction, String>)
    ensures
        match (r, direction_named(l@)) {
            (Ok(d), Some(d2)) => d == d2,
            (Err(e), None) => e@ == "unknown direction: "@ + l@,
            _ => false,
        },
{
    if str_eq(l, "left") {
        Ok(Direction::Left)
    } else if str_eq(l, "right") {
        Ok(Direction::Right)
    } else if str_eq(l, "up") {
        Ok(Direction::Up)
    } else if str_eq(l, "down") {
        Ok(Direction::Down)
    } else {
        Err(prefixed("unknown direction: ", l))
    }
}

/// Parses a direction name, case-insensitively.
pub fn parse_direction(s: &str) -> (r: Result<Direction, String>)
    ensures
        match (r, direction_result(s@)) {
            (Ok(d), Ok(d2)) => d == d2,
            (Err(e), Err(msg)) => e@ == msg,
            _ => false,
        },
{
    let l = to_lowercase(s);
    direction_from_lowercase(l.as_str())
}

/// The message for a key name holding a NUL character, which no keymap
/// lookup accepts.
pub open spec fn nul_key_message() -> Seq<char> {
    "key name holds a NUL character"@
}

/// Whether `s` holds a NUL character.
pub fn has_nul(s: &str) -> (b: bool)
    ensures
        b == s@.contains('\0'),
{
    broadcast use vstd::string::axiom_spec_iter;
    let mut found = false;
    for c in it: s.chars()
        invariant
            it.seq() == s@,
            found == exists|j: int| 0 <= j < it.index() && it.seq()[j] == '\0',
    {
        if c == '\0' {
            found = true;
        }
    }
    found
}

/// Accepts the keysym `sym` that the keymap resolved key name `s` to; zero
/// means the name is unknown. A name holding a NUL character is refused
/// whatever `sym` is: the keymap lookup cannot take it.
pub fn parse_keysym(s: &str, sym: u32) -> (r: Result<u32, String>)
    ensures
        match r {
            Ok(k) => k == sym && sym != 0 && !s@.contains('\0'),
            Err(e) => if s@.contains('\0') {
                e@ == nul_key_message()
            } else {
                sym == 0 && e@ == "unknown keysym: "@ + s@
            },
        },
{
    if has_nul(s) {
        return Err(String::from_str("key name holds a NUL character"));
    }
    if sym == 0 {
        return Err(prefixed("unknown keysym: ", s));
    }
    Ok(sym)
}

/// The string arguments, copied, in order.
fn collect_string_args(args: &[ArgValue]) -> (v: Vec<String>)
    ensures
        strings_view(v@) == string_args(args@),
{
    let mut v: Vec<String> = Vec::new();
    let mut i: usize = 0;
    while i < args.len()
        invariant
            i <= args@.len(),
            strings_view(v@) == string_args(args@.take(i as int)),
        decreases args@.len() - i,
    {
        match &args[i] {
            ArgValue::String(s) => {
                v.push(s.clone());
            },
            _ => {},
        }
        proof {
            assert(args@.take(i + 1).drop_last() =~= args@.take(i as int));
            assert(args@.take(i + 1).last() == args@[i as int]);
            assert(strings_view(v@) =~= string_args(args@.take(i + 1)));
        }
        i = i + 1;
    }
    assert(args@.take(args@.len() as int) =~= args@);
    v
}

/// The first argument as an integer.
fn first_integer(args: &[ArgValue]) -> (r: Option<i64>)
    ensures
        r == first_int(args@),
{
    if args.len() == 0 {
        return None;
    }
    match &args[0] {
        ArgValue::Integer(n) => Some(*n),
        _ => None,
    }
}

/// The first argument as a string.
fn first_string(args: &[ArgValue]) -> (r: Option<&String>)
    ensures
        r matches Some(s) ==> first_str(args@) == Some(s@),
        r is None ==> first_str(args@) is None,
{
    if args.len() == 0 {
        return None;
    }
    match &args[0] {
        ArgValue::String(s) => Some(s),
        _ => None,
    }
}

/// The action named `name`, built from `args`.
pub fn parse_action(name: &str, args: &[ArgValue]) -> (r: Result<Action, String>)
    ensures
        match (r, action_result(name@, args@)) {
            (Ok(a), Ok(av)) => a@ == av,
            (Err(e), Err(msg)) => e@ == msg,
            _ => false,
        },
{
    if str_eq(name, "Quit") {
        Ok(Action::Quit)
    } else if str_eq(name, "CloseWindow") {
        Ok(Action::CloseWindow)
    } else if str_eq(name, "BeginMove") {
        Ok(Action::BeginMove)
    } else if str_eq(name, "BeginResize") {
        Ok(Action::BeginResize)
    } else if str_eq(name, "ToggleFullscreen") {
        Ok(Action::ToggleFullscreen)
    } else if str_eq(name, "ToggleMaximize") {
        Ok(Action::ToggleMaximize)
    } else if str_eq(name, "ToggleFloating") {
        Ok(Action::ToggleFloating)
    } else if str_eq(name, "ToggleWorkspaceTiling") {
        Ok(Action::ToggleWorkspaceTiling)
    } else if str_eq(name, "FocusNext") {
        Ok(Action::FocusNext)
    } else if str_eq(name, "FocusPrev") {
        Ok(Action::FocusPrev)
    } else if str_eq(name, "ScaleUp") {
        Ok(Action::ScaleUp)
    } else if str_eq(name, "ScaleDown") {
        Ok(Action::ScaleDown)
    } else if str_eq(name, "RotateOutput") {
        Ok(Action::RotateOutput)
    } else if str_eq(name, "ToggleTint") {
        Ok(Action::ToggleTint)
    } else if str_eq(name, "TogglePreview") {
        Ok(Action::TogglePreview)
    } else if str_eq(name, "Nop") {
        Ok(Action::Nop)
    } else if str_eq(name, "Spawn") {
        let argv = collect_string_args(args);
        if argv.len() == 0 {
            return Err(String::from_str("Spawn needs at least one string arg"));
        }
        Ok(Action::Spawn(argv))
    } else if str_eq(name, "VtSwitch") {
        match first_integer(args) {
            None => Err(String::from_str("VtSwitch needs an integer arg")),
            Some(n) => Ok(Action::VtSwitch(n as i32)),
        }
    } else if str_eq(name, "SwitchToWorkspace") {
        match first_integer(args) {
            None => Err(String::from_str("SwitchToWorkspace needs an integer arg")),
            Some(n) => Ok(Action::SwitchToWorkspace(n as u32)),
        }
    } else if str_eq(name, "MoveWindowToWorkspace") {
        match first_integer(args) {
            None => Err(String::from_str("MoveWindowToWorkspace needs an integer arg")),
            Some(n) => Ok(Action::MoveWindowToWorkspace(n as u32)),
        }
    } else if str_eq(name, "Screen") {
        match first_integer(args) {
            None => Err(String::from_str("Screen needs an integer arg")),
            Some(n) => Ok(Action::Screen(n as usize)),
        }
    } else if str_eq(name, "FocusDirection") {
        match first_string(args) {
            None => Err(String::from_str("FocusDirection needs a string arg")),
            Some(d) => match parse_direction(d.as_str()) {
                Ok(dir) => Ok(Action::FocusDirection(dir)),
                Err(e) => Err(e),
            },
        }
    } else if str_eq(name, "MoveWindow") {
        match first_string(args) {
            None => Err(String::from_str("MoveWindow needs a string arg")),
            Some(d) => match parse_direction(d.as_str()) {
                Ok(dir) => Ok(Action::MoveWindow(dir)),
                Err(e) => Err(e),
            },
        }
    } else {
        Err(prefixed("unknown action: ", name))
    }
}

/// Whether parsing `entry` needs its key name looked up: the modifiers
/// parse, a key (and no button) is given, and the name holds no NUL
/// character (such a name is refused without a lookup).
pub fn key_lookup_needed(entry: &UserBindEntry) -> (b: bool)
    ensures
        b == needs_key_lookup(*entry),
{
    match parse_modifiers(entry.mods.as_slice()) {
        Ok(_) => match &entry.key {
            Some(k) => entry.button.is_none() && !has_nul(k.as_str()),
            None => false,
        },
        Err(_) => false,
    }
}

/// Parses one bind entry into its combo and action; `key_sym` is the keysym
/// the keymap resolved the entry's key name to (zero for an unknown name;
/// unused without a key).
pub fn parse_user_bind(entry: &UserBindEntry, key_sym: u32) -> (r: Result<(KeyCombo, Action), String>)
    ensures
        bind_result_view(r) == bind_result(*entry, key_sym),
{
    let mods = match parse_modifiers(entry.mods.as_slice()) {
        Ok(m) => m,
        Err(e) => {
            return Err(e);
        },
    };
    let bind_key = match (&entry.key, entry.button) {
        (Some(k), None) => match parse_keysym(k.as_str(), key_sym) {
            Ok(sym) => BindKey::Keysym(sym),
            Err(e) => {
                return Err(e);
            },
        },
        (None, Some(b)) => BindKey::MouseButton(b),
        (Some(_), Some(_)) => {
            return Err(String::from_str("bind has both `key` and `button`"));
        },
        (None, None) => {
            return Err(String::from_str("bind has neither `key` nor `button`"));
        },
    };
    let action = match parse_action(entry.action.as_str(), entry.args.as_slice()) {
        Ok(a) => a,
        Err(e) => {
            return Err(e);
        },
    };
    Ok((KeyCombo::new(mods, bind_key), action))
}

/// The parsed bindings of the entries that parse, in order; entry `i`'s
/// key name resolved to `syms[i]`.
pub open spec fn parsed_binds(es: Seq<UserBindEntry>, syms: Seq<u32>) -> Seq<(KeyCombo, ActionView)>
    decreases es.len(),
{
    if es.len() == 0 {
        Seq::empty()
    } else {
        let prev = parsed_binds(es.drop_last(), syms);
        match bind_result(es.last(), syms[es.len() - 1]) {
            Ok(x) => prev.push(x),
            Err(_) => prev,
        }
    }
}

/// Parses every entry, keeping the ones that parse (in order) and skipping
/// malformed ones; `key_syms[i]` is what entry `i`'s key name resolved to.
pub fn collect_user_bindings(parsed: &UserBinds, key_syms: &Vec<u32>) -> (v: Vec<(KeyCombo, Action)>)
    requires
        key_syms@.len() == parsed.binds@.len(),
    ensures
        binds_view(v@) == parsed_binds(parsed.binds@, key_syms@),
{
    let mut out: Vec<(KeyCombo, Action)> = Vec::new();
    let mut i: usize = 0;
    while i < parsed.binds.len()
        invariant
            i <= parsed.binds@.len(),
            key_syms@.len() == parsed.binds@.len(),
            binds_view(out@) == parsed_binds(parsed.binds@.take(i as int), key_syms@),
        decreases parsed.binds@.len() - i,
    {
        let r = parse_user_bind(&parsed.binds[i], key_syms[i]);
        match r {
            Ok(combo_action) => {
                out.push(combo_action);
            },
            Err(_) => {},
        }
        proof {
            let es = parsed.binds@.take(i + 1);
            assert(es.drop_last() =~= parsed.binds@.take(i as int));
            assert(es.last() == parsed.binds@[i as int]);
            assert(binds_view(out@) =~= parsed_binds(es, key_syms@));
        }
        i = i + 1;
    }
    assert(parsed.binds@.take(parsed.binds@.len() as int) =~= parsed.binds@);
    out
}

/// Each action name parses to the action of the same name: the plain names
/// whatever the arguments, the integer-taking ones with their first
/// argument, and the direction-taking ones with the direction their first
/// argument names.
#[verifier::rlimit(80)]
pub proof fn law_action_names_map_to_their_actions(args: Seq<ArgValue>, d: Seq<char>, dir: Direction)
    ensures
        action_result("Quit"@, args) == Ok::<ActionView, Seq<char>>(ActionView::Quit),
        action_result("CloseWindow"@, args) == Ok::<ActionView, Seq<char>>(ActionView::CloseWindow),
        action_result("BeginMove"@, args) == Ok::<ActionView, Seq<char>>(ActionView::BeginMove),
        action_result("BeginResize"@, args) == Ok::<ActionView, Seq<char>>(ActionView::BeginResize),
        action_result("ToggleFullscreen"@, args) == Ok::<ActionView, Seq<char>>(ActionView::ToggleFullscreen),
        action_result("ToggleMaximize"@, args) == Ok::<ActionView, Seq<char>>(ActionView::ToggleMaximize),
        action_result("ToggleFloating"@, args) == Ok::<ActionView, Seq<char>>(ActionView::ToggleFloating),
        action_result("ToggleWorkspaceTiling"@, args) == Ok::<ActionView, Seq<char>>(ActionView::ToggleWorkspaceTiling),
        action_result("FocusNext"@, args) == Ok::<ActionView, Seq<char>>(ActionView::FocusNext),
        action_result("FocusPrev"@, args) == Ok::<ActionView, Seq<char>>(ActionView::FocusPrev),
        action_result("ScaleUp"@, args) == Ok::<ActionView, Seq<char>>(ActionView::ScaleUp),
        action_result("ScaleDown"@, args) == Ok::<ActionView, Seq<char>>(ActionView::ScaleDown),
        action_result("RotateOutput"@, args) == Ok::<ActionView, Seq<char>>(ActionView::RotateOutput),
        action_result("ToggleTint"@, args) == Ok::<ActionView, Seq<char>>(ActionView::ToggleTint),
        action_result("TogglePreview"@, args) == Ok::<ActionView, Seq<char>>(ActionView::TogglePreview),
        action_result("Nop"@, args) == Ok::<ActionView, Seq<char>>(ActionView::Nop),
        first_int(args) matches Some(k) ==> {
            &&& action_result("VtSwitch"@, args) == Ok::<ActionView, Seq<char>>(ActionView::VtSwitch(k as i32))
            &&& action_result("SwitchToWorkspace"@, args) == Ok::<ActionView, Seq<char>>(ActionView::SwitchToWorkspace(k as u32))
            &&& action_result("MoveWindowToWorkspace"@, args) == Ok::<ActionView, Seq<char>>(
                ActionView::MoveWindowToWorkspace(k as u32),
            )
            &&& action_result("Screen"@, args) == Ok::<ActionView, Seq<char>>(ActionView::Screen(k as usize))
        },
        first_str(args) == Some(d) && direction_result(d) == Ok::<Direction, Seq<char>>(dir) ==> {
            &&& action_result("FocusDirection"@, args) == Ok::<ActionView, Seq<char>>(ActionView::FocusDirection(dir))
            &&& action_result("MoveWindow"@, args) == Ok::<ActionView, Seq<char>>(ActionView::MoveWindow(dir))
        },
{
    reveal_strlit("Quit");
    reveal_strlit("CloseWindow");
    reveal_strlit("BeginMove");
    reveal_strlit("BeginResize");
    reveal_strlit("ToggleFullscreen");
    reveal_strlit("ToggleMaximize");
    reveal_strlit("ToggleFloating");
    reveal_strlit("ToggleWorkspaceTiling");
    reveal_strlit("FocusNext");
    reveal_strlit("FocusPrev");
    reveal_strlit("ScaleUp");
    reveal_strlit("ScaleDown");
    reveal_strlit("RotateOutput");
    reveal_strlit("ToggleTint");
    reveal_strlit("TogglePreview");
    reveal_strlit("Nop");
    reveal_strlit("Spawn");
    reveal_strlit("VtSwitch");
    reveal_strlit("SwitchToWorkspace");
    reveal_strlit("MoveWindowToWorkspace");
    reveal_strlit("Screen");
    reveal_strlit("FocusDirection");
    reveal_strlit("MoveWindow");
    assert("Quit"@.len() == 4);
    assert("CloseWindow"@.len() == 11);
    assert("CloseWindow"@[0] == 'C');
    assert("BeginMove"@.len() == 9);
    assert("BeginMove"@[0] == 'B');
    assert("BeginResize"@.len() == 11);
    assert("BeginResize"@[0] == 'B');
    assert("ToggleFullscreen"@.len() == 16);
    assert("ToggleMaximize"@.len() == 14);
    assert("ToggleMaximize"@[0] == 'T');
    assert("ToggleMaximize"@[6] == 'M');
    assert("ToggleFloating"@.len() == 14);
    assert("ToggleFloating"@[0] == 'T');
    assert("ToggleFloating"@[6] == 'F');
    assert("ToggleWorkspaceTiling"@.len() == 21);
    assert("ToggleWorkspaceTiling"@[0] == 'T');
    assert("FocusNext"@.len() == 9);
    assert("FocusNext"@[0] == 'F');
    assert("FocusNext"@[5] == 'N');
    assert("FocusPrev"@.len() == 9);
    assert("FocusPrev"@[0] == 'F');
    assert("FocusPrev"@[5] == 'P');
    assert("ScaleUp"@.len() == 7);
    assert("ScaleDown"@.len() == 9);
    assert("ScaleDown"@[0] == 'S');
    assert("RotateOutput"@.len() == 12);
    assert("ToggleTint"@.len() == 10);
    assert("ToggleTint"@[0] == 'T');
    assert("TogglePreview"@.len() == 13);
    assert("Nop"@.len() == 3);
    assert("Spawn"@.len() == 5);
    assert("VtSwitch"@.len() == 8);
    assert("SwitchToWorkspace"@.len() == 17);
    assert("MoveWindowToWorkspace"@.len() == 21);
    assert("MoveWindowToWorkspace"@[0] == 'M');
    assert("Screen"@.len() == 6);
    assert("FocusDirection"@.len() == 14);
    assert("FocusDirection"@[0] == 'F');
    assert("MoveWindow"@.len() == 10);
    assert("MoveWindow"@[0] == 'M');
}

/// The action names that take no argument.
pub open spec fn plain_action_name(name: Seq<char>) -> bool {
    ||| name == "Quit"@
    ||| name == "CloseWindow"@
    ||| name == "BeginMove"@
    ||| name == "BeginResize"@
    ||| name == "ToggleFullscreen"@
    ||| name == "ToggleMaximize"@
    ||| name == "ToggleFloating"@
    ||| name == "ToggleWorkspaceTiling"@
    ||| name == "FocusNext"@
    ||| name == "FocusPrev"@
    ||| name == "ScaleUp"@
    ||| name == "ScaleDown"@
    ||| name == "RotateOutput"@
    ||| name == "ToggleTint"@
    ||| name == "TogglePreview"@
    ||| name == "Nop"@
}

/// The action names that take an integer as their first argument.
pub open spec fn integer_action_name(name: Seq<char>) -> bool {
    ||| name == "VtSwitch"@
    ||| name == "SwitchToWorkspace"@
    ||| name == "MoveWindowToWorkspace"@
    ||| name == "Screen"@
}

/// The action names that take a direction as their first argument.
pub open spec fn direction_action_name(name: Seq<char>) -> bool {
    ||| name == "FocusDirection"@
    ||| name == "MoveWindow"@
}

/// An action parses exactly when its name is known and its arguments fit
/// it: no argument needed; `Spawn` with at least one string argument (the
/// command line is the string arguments in order, the others dropped); an
/// integer first argument; or a first argument naming a direction. Extra
/// arguments are ignored.
#[verifier::rlimit(50)]
pub proof fn law_action_parses_iff(name: Seq<char>, args: Seq<ArgValue>)
    ensures
        action_result(name, args) is Ok <==> {
            ||| plain_action_name(name)
            ||| (name == "Spawn"@ && string_args(args).len() > 0)
            ||| (integer_action_name(name) && first_int(args) is Some)
            ||| (direction_action_name(name) && (first_str(args) matches Some(d) && direction_result(d) is Ok))
        },
        name == "Spawn"@ && string_args(args).len() > 0 ==> action_result(name, args) == Ok::<ActionView, Seq<char>>(
            ActionView::Spawn(string_args(args)),
        ),
{
    reveal_strlit("Quit");
    reveal_strlit("CloseWindow");
    reveal_strlit("BeginMove");
    reveal_strlit("BeginResize");
    reveal_strlit("ToggleFullscreen");
    reveal_strlit("ToggleMaximize");
    reveal_strlit("ToggleFloating");
    reveal_strlit("ToggleWorkspaceTiling");
    reveal_strlit("FocusNext");
    reveal_strlit("FocusPrev");
    reveal_strlit("ScaleUp");
    reveal_strlit("ScaleDown");
    reveal_strlit("RotateOutput");
    reveal_strlit("ToggleTint");
    reveal_strlit("TogglePreview");
    reveal_strlit("Nop");
    reveal_strlit("Spawn");
    reveal_strlit("VtSwitch");
    reveal_strlit("SwitchToWorkspace");
    reveal_strlit("MoveWindowToWorkspace");
    reveal_strlit("Screen");
    reveal_strlit("FocusDirection");
    reveal_strlit("MoveWindow");
    if name == "Quit"@ {
        assert(name.len() == 4);
    } else if name == "CloseWindow"@ {
        assert(name.len() == 11);
        assert(name[0] == 'C');
    } else if name == "BeginMove"@ {
        assert(name.len() == 9);
        assert(name[0] == 'B');
    } else if name == "BeginResize"@ {
        assert(name.len() == 11);
        assert(name[0] == 'B');
    } else if name == "ToggleFullscreen"@ {
        assert(name.len() == 16);
    } else if name == "ToggleMaximize"@ {
        assert(name.len() == 14);
        assert(name[0] == 'T');
        assert(name[6] == 'M');
    } else if name == "ToggleFloating"@ {
        assert(name.len() == 14);
        assert(name[0] == 'T');
        assert(name[6] == 'F');
    } else if name == "ToggleWorkspaceTiling"@ {
        assert(name.len() == 21);
        assert(name[0] == 'T');
    } else if name == "FocusNext"@ {
        assert(name.len() == 9);
        assert(name[0] == 'F');
        assert(name[5] == 'N');
    } else if name == "FocusPrev"@ {
        assert(name.len() == 9);
        assert(name[0] == 'F');
        assert(name[5] == 'P');
    } else if name == "ScaleUp"@ {
        assert(name.len() == 7);
    } else if name == "ScaleDown"@ {
        assert(name.len() == 9);
        assert(name[0] == 'S');
    } else if name == "RotateOutput"@ {
        assert(name.len() == 12);
    } else if name == "ToggleTint"@ {
        assert(name.len() == 10);
        assert(name[0] == 'T');
    } else if name == "TogglePreview"@ {
        assert(name.len() == 13);
    } else if name == "Nop"@ {
        assert(name.len() == 3);
    } else if name == "Spawn"@ {
        assert(name.len() == 5);
    } else if name == "VtSwitch"@ {
        assert(name.len() == 8);
    } else if name == "SwitchToWorkspace"@ {
        assert(name.len() == 17);
    } else if name == "MoveWindowToWorkspace"@ {
        assert(name.len() == 21);
        assert(name[0] == 'M');
    } else if name == "Screen"@ {
        assert(name.len() == 6);
    } else if name == "FocusDirection"@ {
        assert(name.len() == 14);
        assert(name[0] == 'F');
    } else if name == "MoveWindow"@ {
        assert(name.len() == 10);
        assert(name[0] == 'M');
    } else {
        assert(!plain_action_name(name));
        assert(!integer_action_name(name));
        assert(!direction_action_name(name));
    }
}

/// The modifier bit each name stands for, `None` for an unknown name.
pub open spec fn modifier_flags(names: Seq<String>) -> Seq<Option<u8>> {
    names.map_values(|n: String| modifier_named(unicode_uppercase(n@)))
}

/// The union of the modifier bits whose flags are set.
pub open spec fn bits_of(shift: bool, ctrl: bool, alt: bool, sup: bool, altgr: bool) -> u8 {
    (if shift { 1u8 } else { 0u8 }) | (if ctrl { 2u8 } else { 0u8 }) | (if alt { 4u8 } else { 0u8 }) | (if sup {
        8u8
    } else {
        0u8
    }) | (if altgr { 16u8 } else { 0u8 })
}

/// The union of the modifier bits among `flags`.
pub open spec fn flag_bits(flags: Set<Option<u8>>) -> u8 {
    bits_of(
        flags.contains(Some(SHIFT_BIT)),
        flags.contains(Some(CTRL_BIT)),
        flags.contains(Some(ALT_BIT)),
        flags.contains(Some(SUPER_BIT)),
        flags.contains(Some(ALTGR_BIT)),
    )
}

proof fn lemma_bits_or(acc: u8, b: u8, x1: bool, x2: bool, x3: bool, x4: bool, x5: bool)
    by (bit_vector)
    requires
        b == 1 || b == 2 || b == 4 || b == 8 || b == 16,
    ensures
        (acc | b) | bits_of(x1, x2, x3, x4, x5) == acc | bits_of(
            x1 || b == 1,
            x2 || b == 2,
            x3 || b == 4,
            x4 || b == 8,
            x5 || b == 16,
        ),
        acc | bits_of(false, false, false, false, false) == acc,
{
}

proof fn lemma_modifiers_from_bits(names: Seq<String>, i: int, acc: u8)
    requires
        0 <= i <= names.len(),
    ensures
        ({
            let flags = modifier_flags(names).subrange(i, names.len() as int);
            &&& modifiers_from(names, i, acc) is Ok <==> !flags.contains(None)
            &&& !flags.contains(None) ==> modifiers_from(names, i, acc) == Ok::<u8, Seq<char>>(
                acc | flag_bits(flags.to_set()),
            )
        }),
    decreases names.len() - i,
{
    let fl = modifier_flags(names);
    let flags = fl.subrange(i, names.len() as int);
    lemma_bits_or(acc, 1, false, false, false, false, false);
    if i == names.len() {
        assert(flags.to_set() =~= Set::<Option<u8>>::empty());
    } else {
        let u = unicode_uppercase(names[i]@);
        assert(fl[i] == modifier_named(u));
        let rest = fl.subrange(i + 1, names.len() as int);
        assert(flags =~= seq![fl[i]] + rest);
        assert(flags[0] == fl[i]);
        assert forall|x: Option<u8>| flags.contains(x) <==> (x == fl[i] || rest.contains(x)) by {
            if flags.contains(x) {
                let k = choose|k: int| 0 <= k < flags.len() && flags[k] == x;
                if k > 0 {
                    assert(rest[k - 1] == x);
                }
            }
            if rest.contains(x) {
                let k = choose|k: int| 0 <= k < rest.len() && rest[k] == x;
                assert(flags[k + 1] == x);
            }
        }
        match modifier_named(u) {
            None => {
                assert(flags.contains(None));
            },
            Some(b) => {
                lemma_modifiers_from_bits(names, i + 1, acc | b);
                if !flags.contains(None) {
                    assert(flags.to_set() =~= rest.to_set().insert(Some(b)));
                    let rs = rest.to_set();
                    lemma_bits_or(
                        acc,
                        b,
                        rs.contains(Some(SHIFT_BIT)),
                        rs.contains(Some(CTRL_BIT)),
                        rs.contains(Some(ALT_BIT)),
                        rs.contains(Some(SUPER_BIT)),
                        rs.contains(Some(ALTGR_BIT)),
                    );
                }
            },
        }
    }
}

/// Modifier names parse exactly when every one of them, upper-cased, is a
/// known modifier name; the result is then the union of their bits, and no
/// names at all give no modifiers.
pub proof fn law_modifiers_parse_iff_known(a: Seq<String>)
    ensures
        modifiers_from(a, 0, 0) is Ok <==> forall|i: int|
            0 <= i < a.len() ==> #[trigger] modifier_named(unicode_uppercase(a[i]@)) is Some,
        modifiers_from(a, 0, 0) is Ok ==> modifiers_from(a, 0, 0) == Ok::<u8, Seq<char>>(
            flag_bits(modifier_flags(a).to_set()),
        ),
        a.len() == 0 ==> modifiers_from(a, 0, 0) == Ok::<u8, Seq<char>>(0),
{
    law_modifiers_ignore_order_and_repeats(a, a);
    let fa = modifier_flags(a);
    assert((forall|i: int| 0 <= i < a.len() ==> #[trigger] modifier_named(unicode_uppercase(a[i]@)) is Some)
        <==> !fa.contains(None)) by {
        if fa.contains(None) {
            let k = choose|k: int| 0 <= k < fa.len() && fa[k] == None::<u8>;
            assert(modifier_named(unicode_uppercase(a[k]@)) is None);
        }
        if exists|i: int| 0 <= i < a.len() && #[trigger] modifier_named(unicode_uppercase(a[i]@)) is None {
            let i = choose|i: int| 0 <= i < a.len() && #[trigger] modifier_named(unicode_uppercase(a[i]@)) is None;
            assert(fa[i] == None::<u8>);
        }
    }
}

/// Modifier names parse when every one of them is known (case aside), and
/// the result is the union of their bits: it depends neither on the order
/// of the names nor on repeats. Two lists naming the same modifiers parse
/// alike.
pub proof fn law_modifiers_ignore_order_and_repeats(a: Seq<String>, b: Seq<String>)
    requires
        modifier_flags(a).to_set() == modifier_flags(b).to_set(),
    ensures
        modifiers_from(a, 0, 0) is Ok <==> !modifier_flags(a).contains(None),
        modifiers_from(a, 0, 0) is Ok ==> modifiers_from(a, 0, 0) == Ok::<u8, Seq<char>>(
            flag_bits(modifier_flags(a).to_set()),
        ),
        modifiers_from(a, 0, 0) is Ok <==> modifiers_from(b, 0, 0) is Ok,
        modifiers_from(a, 0, 0) is Ok ==> modifiers_from(a, 0, 0) == modifiers_from(b, 0, 0),
{
    lemma_modifiers_from_bits(a, 0, 0);
    lemma_modifiers_from_bits(b, 0, 0);
    assert(modifier_flags(a).subrange(0, a.len() as int) =~= modifier_flags(a));
    assert(modifier_flags(b).subrange(0, b.len() as int) =~= modifier_flags(b));
    lemma_bits_or(0, 1, false, false, false, false, false);
    let fa = modifier_flags(a);
    let fb = modifier_flags(b);
    assert(fa.contains(None) <==> fa.to_set().contains(None));
    assert(fb.contains(None) <==> fb.to_set().contains(None));
    let x: u8 = flag_bits(fa.to_set());
    assert(0u8 | x == x) by (bit_vector);
}

} // verus!
