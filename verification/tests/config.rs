use zos_wm::output_config::{head_events, next_serial, snapshot_changed, HeadEvent, HeadSnapshot};
use zos_wm::output_config::{
    adaptive_sync_requests, reply_for, ConfigReply, ConfigSession, FinishOutcome, HeadOutcome, HeadSet,
    HeadSettings, OutputAdaptiveSyncRequest, OutputConfigAction, OutputConfigChange, OutputConfigError, OutputMode,
    SetOutcome, Transform,
};
use zos_wm::tiling::Point;

const FHD: OutputMode = OutputMode { width: 1920, height: 1080, refresh: 60000 };
const QHD: OutputMode = OutputMode { width: 2560, height: 1440, refresh: 144000 };

fn submitted(r: FinishOutcome) -> Vec<OutputConfigChange> {
    match r {
        FinishOutcome::Submit(v) => v,
        other => panic!("expected changes, got {other:?}"),
    }
}

#[test]
fn rotation_cycles_through_all_transforms() {
    let mut t = Transform::Normal;
    let mut seen = vec![t];
    for _ in 0..7 {
        t = t.rotate_next();
        seen.push(t);
    }
    assert_eq!(
        seen,
        vec![
            Transform::Normal,
            Transform::_90,
            Transform::_180,
            Transform::_270,
            Transform::Flipped,
            Transform::Flipped90,
            Transform::Flipped180,
            Transform::Flipped270,
        ]
    );
    assert_eq!(t.rotate_next(), Transform::Normal);
}

#[test]
fn enable_configure_apply_builds_changes() {
    let mut s = ConfigSession::new(7);
    assert!(!s.is_outdated(7));
    assert_eq!(s.configure_head(7, Some(1), true), HeadOutcome::Configured);
    assert_eq!(s.configure_head(7, Some(2), false), HeadOutcome::Configured);
    assert_eq!(s.configure_head(7, Some(3), true), HeadOutcome::Configured);
    let modes = vec![FHD, QHD];
    assert_eq!(s.set_head(7, 1, HeadSet::Mode(Some(QHD)), &modes), SetOutcome::Stored);
    assert_eq!(s.set_head(7, 1, HeadSet::Position(Point { x: 1920, y: 0 }), &modes), SetOutcome::Stored);
    assert_eq!(s.set_head(7, 1, HeadSet::AdaptiveSync(Some(true)), &modes), SetOutcome::Stored);
    assert_eq!(s.set_head(7, 3, HeadSet::Transform(Some(Transform::_90)), &modes), SetOutcome::Stored);
    let bits = 1.5f64.to_bits();
    assert_eq!(s.set_head(7, 3, HeadSet::Scale { bits, valid: true }, &modes), SetOutcome::Stored);

    // Head 1 was on before, head 3 was not.
    let changes = submitted(s.finish(7, &vec![1, 2]));
    assert!(s.used);
    assert!(s.pending.is_empty());
    assert_eq!(
        changes,
        vec![
            OutputConfigChange {
                head: 1,
                action: OutputConfigAction::Update(HeadSettings {
                    mode: Some(QHD),
                    position: Some(Point { x: 1920, y: 0 }),
                    scale_bits: None,
                    transform: None,
                    adaptive_sync: Some(true),
                }),
            },
            OutputConfigChange { head: 2, action: OutputConfigAction::Disable },
            OutputConfigChange {
                head: 3,
                action: OutputConfigAction::Enable(HeadSettings {
                    mode: None,
                    position: None,
                    scale_bits: Some(bits),
                    transform: Some(Transform::_90),
                    adaptive_sync: None,
                }),
            },
        ]
    );
    assert_eq!(adaptive_sync_requests(&changes), vec![(1, true)]);
    assert_eq!(f64::from_bits(bits), 1.5);
}

#[test]
fn a_session_is_used_once() {
    let mut s = ConfigSession::new(1);
    s.configure_head(1, Some(4), true);
    assert!(matches!(s.finish(1, &vec![]), FinishOutcome::Submit(_)));
    assert!(matches!(s.finish(1, &vec![]), FinishOutcome::AlreadyUsed));
    assert_eq!(s.configure_head(1, Some(5), true), HeadOutcome::AlreadyUsed);
    assert_eq!(s.set_head(1, 4, HeadSet::CustomMode, &vec![]), SetOutcome::AlreadyUsed);
}

#[test]
fn heads_and_properties_are_configured_once() {
    let mut s = ConfigSession::new(1);
    assert_eq!(s.configure_head(1, Some(4), true), HeadOutcome::Configured);
    assert_eq!(s.configure_head(1, Some(4), false), HeadOutcome::AlreadyConfigured);
    let modes = vec![FHD];
    assert_eq!(s.set_head(1, 4, HeadSet::Mode(Some(QHD)), &modes), SetOutcome::ModeNotAdvertised);
    assert_eq!(s.set_head(1, 4, HeadSet::Mode(Some(FHD)), &modes), SetOutcome::AlreadySet);
    assert_eq!(s.set_head(1, 4, HeadSet::CustomMode, &modes), SetOutcome::AlreadySet);
    assert_eq!(s.set_head(1, 4, HeadSet::Transform(None), &modes), SetOutcome::InvalidTransform);
    assert_eq!(s.set_head(1, 4, HeadSet::Transform(Some(Transform::Normal)), &modes), SetOutcome::AlreadySet);
    assert_eq!(s.set_head(1, 4, HeadSet::Scale { bits: 0, valid: false }, &modes), SetOutcome::InvalidScale);
    assert_eq!(s.set_head(1, 4, HeadSet::AdaptiveSync(None), &modes), SetOutcome::InvalidAdaptiveSync);
    assert_eq!(s.set_head(1, 4, HeadSet::Position(Point { x: 0, y: 0 }), &modes), SetOutcome::Stored);
    assert_eq!(s.set_head(1, 4, HeadSet::Position(Point { x: 5, y: 5 }), &modes), SetOutcome::AlreadySet);
    // Heads outside the session are ignored.
    assert_eq!(s.set_head(1, 9, HeadSet::Position(Point { x: 0, y: 0 }), &modes), SetOutcome::Ignored);
    assert_eq!(s.set_head(1, 4, HeadSet::Mode(None), &modes), SetOutcome::AlreadySet);
    let fresh_mode = {
        let mut t = ConfigSession::new(1);
        t.configure_head(1, Some(4), true);
        t.set_head(1, 4, HeadSet::Mode(None), &modes)
    };
    assert_eq!(fresh_mode, SetOutcome::UnknownMode);
}

#[test]
fn custom_mode_poisons_the_session() {
    let mut s = ConfigSession::new(3);
    s.configure_head(3, Some(1), true);
    assert_eq!(s.set_head(3, 1, HeadSet::CustomMode, &vec![FHD]), SetOutcome::CustomModeRefused);
    assert!(s.poisoned);
    // The head went inert: later requests on it are ignored.
    assert_eq!(s.set_head(3, 1, HeadSet::Position(Point { x: 0, y: 0 }), &vec![FHD]), SetOutcome::Ignored);
    assert_eq!(s.set_head(3, 1, HeadSet::Mode(Some(FHD)), &vec![FHD]), SetOutcome::Ignored);
    assert!(matches!(s.finish(3, &vec![1]), FinishOutcome::Failed));
    // Even once the session is used.
    assert_eq!(s.set_head(3, 1, HeadSet::Position(Point { x: 0, y: 0 }), &vec![FHD]), SetOutcome::Ignored);
}

#[test]
fn missing_head_poisons_and_stale_sessions_cancel() {
    let mut s = ConfigSession::new(3);
    assert_eq!(s.configure_head(3, None, true), HeadOutcome::MissingHead);
    assert!(s.poisoned);

    let mut stale = ConfigSession::new(2);
    assert!(stale.is_outdated(3));
    assert_eq!(stale.configure_head(3, Some(1), true), HeadOutcome::Outdated);
    assert_eq!(stale.set_head(3, 1, HeadSet::CustomMode, &vec![]), SetOutcome::Ignored);
    assert!(matches!(stale.finish(3, &vec![]), FinishOutcome::Cancelled));
    assert!(stale.used);
}

#[test]
fn apply_fails_without_an_enabled_head() {
    let mut empty = ConfigSession::new(0);
    assert!(matches!(empty.finish(0, &vec![]), FinishOutcome::Failed));
    let mut all_off = ConfigSession::new(0);
    all_off.configure_head(0, Some(1), false);
    all_off.configure_head(0, Some(2), false);
    assert!(matches!(all_off.finish(0, &vec![1, 2]), FinishOutcome::Failed));
}

#[test]
fn backend_results_map_to_replies() {
    assert_eq!(reply_for(&Ok(())), ConfigReply::Succeeded);
    assert_eq!(reply_for(&Err(OutputConfigError::Cancelled)), ConfigReply::Cancelled);
    assert_eq!(reply_for(&Err(OutputConfigError::InvalidMode)), ConfigReply::Failed);
    assert_eq!(reply_for(&Err(OutputConfigError::Backend("drm".into()))), ConfigReply::Failed);
    assert_eq!(OutputAdaptiveSyncRequest::default().enabled, None);
}

fn snapshot(enabled: bool, mode: Option<OutputMode>, x: i32) -> HeadSnapshot {
    HeadSnapshot {
        enabled,
        current_mode: mode,
        position: Point { x, y: 0 },
        transform: Transform::Normal,
        adaptive_sync: false,
        modes: vec![FHD, QHD],
    }
}

#[test]
fn change_events_follow_the_diff() {
    let old = snapshot(true, Some(FHD), 0);
    let same = snapshot(true, Some(FHD), 0);
    assert!(!snapshot_changed(&old, &same, true));
    assert!(snapshot_changed(&old, &same, false));
    assert_eq!(head_events(&old, &same, false, &vec![FHD, QHD], 4), vec![]);

    let mut new = snapshot(true, Some(QHD), 1920);
    new.transform = Transform::_90;
    new.adaptive_sync = true;
    assert!(snapshot_changed(&old, &new, true));
    assert_eq!(
        head_events(&old, &new, true, &vec![FHD, QHD], 4),
        vec![
            HeadEvent::CurrentMode(QHD),
            HeadEvent::Position(Point { x: 1920, y: 0 }),
            HeadEvent::Scale,
            HeadEvent::Transform(Transform::_90),
            HeadEvent::AdaptiveSync(true),
        ]
    );
    // An older head gets no adaptive-sync event; a client that does not
    // know the new mode gets no mode event.
    assert_eq!(
        head_events(&old, &new, false, &vec![FHD], 3),
        vec![HeadEvent::Position(Point { x: 1920, y: 0 }), HeadEvent::Transform(Transform::_90)]
    );
    // Disabling sends the enabled flag and no mode.
    let off = snapshot(false, None, 0);
    assert_eq!(head_events(&old, &off, false, &vec![FHD], 4), vec![HeadEvent::Enabled(false)]);
    assert_eq!(next_serial(7), 8);
    assert_eq!(next_serial(u32::MAX), 0);
}
