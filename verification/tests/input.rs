use zos_wm::animation::AnimationStyle;
use zos_wm::binds::{current_modifiers, Action, BindTable, KeyCombo, Modifiers};
use zos_wm::decoration::{decoration_mode_for, DecorationMode, WindowState};
use zos_wm::input::{button_event_filter, key_event_filter, ButtonFilter, FocusMode, KeyFilter, SuppressedSet};
use zos_wm::keysyms;

fn table() -> BindTable {
    let mut t = BindTable::new();
    t.insert(KeyCombo::keysym(Modifiers::super_key(), keysyms::q), Action::CloseWindow);
    t.insert(KeyCombo::button(Modifiers::super_key(), 272), Action::BeginMove);
    t
}

#[test]
fn bound_key_is_intercepted_and_its_release_swallowed() {
    let t = table();
    let mut s = SuppressedSet::new();
    let combo = KeyCombo::keysym(Modifiers::super_key(), keysyms::q);
    match key_event_filter(&t, &mut s, 24, true, false, combo) {
        KeyFilter::Intercept(a) => assert_eq!(a, Action::CloseWindow),
        other => panic!("bound press must be intercepted, got {other:?}"),
    }
    assert!(s.contains(24));
    // The release arrives after Super went up: still swallowed.
    let release = KeyCombo::keysym(Modifiers::empty(), keysyms::q);
    // A release never carries an action: it is swallowed.
    assert!(matches!(key_event_filter(&t, &mut s, 24, false, false, release), KeyFilter::Swallow));
    assert!(!s.contains(24));
    assert!(matches!(key_event_filter(&t, &mut s, 24, false, false, release), KeyFilter::Forward));
}

#[test]
fn inhibited_or_unbound_keys_are_forwarded() {
    let t = table();
    let mut s = SuppressedSet::new();
    let combo = KeyCombo::keysym(Modifiers::super_key(), keysyms::q);
    assert!(matches!(key_event_filter(&t, &mut s, 24, true, true, combo), KeyFilter::Forward));
    assert!(!s.contains(24));
    let other = KeyCombo::keysym(Modifiers::empty(), keysyms::w);
    assert!(matches!(key_event_filter(&t, &mut s, 25, true, false, other), KeyFilter::Forward));
    assert!(!s.contains(25));
}

#[test]
fn bound_button_dispatches_and_release_is_swallowed() {
    let t = table();
    let mut s = SuppressedSet::new();
    let combo = KeyCombo::button(Modifiers::super_key(), 272);
    match button_event_filter(&t, &mut s, 272, true, combo) {
        ButtonFilter::Dispatch(a) => assert_eq!(a, Action::BeginMove),
        other => panic!("expected dispatch, got {other:?}"),
    }
    assert!(matches!(button_event_filter(&t, &mut s, 272, false, combo), ButtonFilter::Swallow));
    assert!(matches!(button_event_filter(&t, &mut s, 272, false, combo), ButtonFilter::Forward));
    let plain = KeyCombo::button(Modifiers::empty(), 272);
    assert!(matches!(button_event_filter(&t, &mut s, 272, true, plain), ButtonFilter::Forward));
}

#[test]
fn suppressed_set_holds_each_code_once() {
    let mut s = SuppressedSet::new();
    s.insert(5);
    s.insert(5);
    assert!(s.contains(5));
    assert!(s.remove(5));
    assert!(!s.contains(5));
    assert!(!s.remove(5));
}

#[test]
fn modifier_state_maps_to_bits() {
    assert_eq!(current_modifiers(true, false, false, true, false), Modifiers::shift() | Modifiers::super_key());
    assert_eq!(current_modifiers(false, true, true, false, true), Modifiers::ctrl() | Modifiers::alt() | Modifiers::altgr());
    assert_eq!(current_modifiers(false, false, false, false, false), Modifiers::empty());
}

#[test]
fn defaults_of_small_settings() {
    assert_eq!(FocusMode::default(), FocusMode::ClickToFocus);
    let mut d = WindowState::new();
    assert!(!d.is_ssd);
    d.set_ssd(true);
    assert!(d.is_ssd);
    assert_eq!(d.header_bar.width, 0);
    assert_ne!(AnimationStyle::Slide, AnimationStyle::Disabled);
}

#[test]
fn decorations_are_client_side_unless_asked() {
    assert_eq!(decoration_mode_for(None), DecorationMode::ClientSide);
    assert_eq!(decoration_mode_for(Some(DecorationMode::ClientSide)), DecorationMode::ClientSide);
    assert_eq!(decoration_mode_for(Some(DecorationMode::ServerSide)), DecorationMode::ServerSide);
}
