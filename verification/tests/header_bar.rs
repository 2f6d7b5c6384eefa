use zos_wm::header_bar::{ButtonRepaints, HeaderBar, HeaderZone, PointerColumn, BUTTON_WIDTH, HEADER_BAR_HEIGHT};

#[test]
fn zones_from_the_right() {
    let mut bar = HeaderBar::new();
    assert_eq!(bar.zone(), None);
    bar.redraw(400);
    let zone_at = |bar: &mut HeaderBar, x: i64| {
        bar.pointer_enter(PointerColumn::At(x));
        bar.zone().unwrap()
    };
    assert_eq!(zone_at(&mut bar, 399), HeaderZone::Close);
    assert_eq!(zone_at(&mut bar, 368), HeaderZone::Close);
    assert_eq!(zone_at(&mut bar, 367), HeaderZone::Maximize);
    assert_eq!(zone_at(&mut bar, 336), HeaderZone::Maximize);
    assert_eq!(zone_at(&mut bar, 335), HeaderZone::Minimize);
    assert_eq!(zone_at(&mut bar, 304), HeaderZone::Minimize);
    assert_eq!(zone_at(&mut bar, 303), HeaderZone::Title);
    assert_eq!(zone_at(&mut bar, -5), HeaderZone::Title);
    bar.pointer_enter(PointerColumn::NotANumber);
    assert_eq!(bar.zone(), Some(HeaderZone::Title));
    bar.pointer_leave();
    assert_eq!(bar.zone(), None);
    assert_eq!((BUTTON_WIDTH, HEADER_BAR_HEIGHT), (32, 32));
}

#[test]
fn redraw_tracks_hover_and_repaints_what_changed() {
    let mut bar = HeaderBar::new();
    // First layout: everything is repainted, nothing hovered.
    assert_eq!(bar.redraw(200), ButtonRepaints { close: true, maximize: true, minimize: true });
    bar.pointer_enter(PointerColumn::At(190));
    assert_eq!(bar.redraw(200), ButtonRepaints { close: true, maximize: false, minimize: false });
    assert!(bar.close_button_hover);
    // Same state again: nothing to repaint.
    assert_eq!(bar.redraw(200), ButtonRepaints { close: false, maximize: false, minimize: false });
    bar.pointer_enter(PointerColumn::At(150));
    assert_eq!(bar.redraw(200), ButtonRepaints { close: true, maximize: true, minimize: false });
    assert!(!bar.close_button_hover && bar.maximize_button_hover && !bar.minimize_button_hover);
    // A zero width only records the width.
    assert_eq!(bar.redraw(0), ButtonRepaints { close: false, maximize: false, minimize: false });
    assert_eq!(bar.width, 0);
    assert!(bar.maximize_button_hover);
}
