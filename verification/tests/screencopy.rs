use zos_wm::output_state::disables_overlay_planes;
use zos_wm::screencopy::{capture_step, partition_pending, CaptureStep};

#[test]
fn repaint_serves_its_own_captures_and_fails_orphans() {
    assert_eq!(capture_step(Some(2), 2, true), CaptureStep::Capture);
    assert_eq!(capture_step(Some(1), 2, true), CaptureStep::Keep);
    assert_eq!(capture_step(None, 2, true), CaptureStep::Fail);
    let pending = vec![Some(1), Some(2), None, Some(2), Some(3)];
    let (keep, capture, fail) = partition_pending(&pending, 2, true);
    assert_eq!(keep, vec![0, 4]);
    assert_eq!(capture, vec![1, 3]);
    assert_eq!(fail, vec![2]);
    let (keep, capture, fail) = partition_pending(&vec![], 2, true);
    assert!(keep.is_empty() && capture.is_empty() && fail.is_empty());
}

#[test]
fn nvidia_hardware_goes_without_overlay_planes() {
    assert!(disables_overlay_planes("nvidia-drm", ""));
    assert!(disables_overlay_planes("nvidia", "DRM driver"));
    assert!(disables_overlay_planes("simpledrm", "NVIDIA Corporation"));
    assert!(disables_overlay_planes("NVIDIA", ""));
    assert!(!disables_overlay_planes("i915", "Intel Graphics"));
    assert!(!disables_overlay_planes("amdgpu", "AMD GPU"));
    assert!(!disables_overlay_planes("nvidi", "a"));
}

#[test]
fn output_without_a_mode_fails_its_captures() {
    assert_eq!(capture_step(Some(2), 2, false), CaptureStep::Fail);
    assert_eq!(capture_step(Some(1), 2, false), CaptureStep::Keep);
    let pending = vec![Some(1), Some(2), None, Some(2)];
    let (keep, capture, fail) = partition_pending(&pending, 2, false);
    assert_eq!(keep, vec![0]);
    assert!(capture.is_empty());
    assert_eq!(fail, vec![1, 2, 3]);
}
