use zos_wm::output_config::{transform_to_wl, wl_to_transform, Transform};
use zos_wm::tearing::{output_wants_tearing, surface_wants_async_presentation, PresentationHint, SurfaceTearing};

#[test]
fn hint_takes_effect_on_commit() {
    let mut s = SurfaceTearing::default();
    assert!(s.attach_control());
    s.set_hint(Some(PresentationHint::Async));
    assert!(!s.wants_async());
    s.commit();
    assert!(s.wants_async());
    // An undefined hint value is ignored.
    s.set_hint(None);
    s.commit();
    assert!(s.wants_async());
}

#[test]
fn one_control_object_per_surface() {
    let mut s = SurfaceTearing::default();
    assert!(s.attach_control());
    assert!(!s.attach_control());
    s.detach_control();
    assert!(s.attach_control());
}

#[test]
fn destroying_the_control_reverts_to_vsync_on_commit() {
    let mut s = SurfaceTearing::default();
    s.attach_control();
    s.set_hint(Some(PresentationHint::Async));
    s.commit();
    s.detach_control();
    assert!(s.wants_async());
    s.commit();
    assert!(!s.wants_async());
    assert!(!s.attached);
}

#[test]
fn outputs_tear_for_their_own_surfaces_only() {
    let mut tearing = SurfaceTearing::default();
    tearing.set_hint(Some(PresentationHint::Async));
    tearing.commit();
    let calm = SurfaceTearing::default();
    assert!(output_wants_tearing(&vec![(false, calm), (true, tearing)]));
    assert!(!output_wants_tearing(&vec![(false, tearing), (true, calm)]));
    assert!(!output_wants_tearing(&vec![]));
}

#[test]
fn transforms_have_their_wire_codes() {
    assert_eq!(transform_to_wl(Transform::Normal), 0);
    assert_eq!(transform_to_wl(Transform::_270), 3);
    assert_eq!(transform_to_wl(Transform::Flipped180), 6);
    for code in 0..8 {
        assert_eq!(wl_to_transform(code).map(transform_to_wl), Some(code));
    }
    assert_eq!(wl_to_transform(8), None);
}

#[test]
fn hint_getters() {
    let mut s = SurfaceTearing::default();
    assert_eq!(s.hint(), PresentationHint::Vsync);
    s.set_hint(Some(PresentationHint::Async));
    s.commit();
    assert_eq!(s.hint(), PresentationHint::Async);
    assert!(surface_wants_async_presentation(&s));
}
