use itk::drift::{local_reference_ms, position_drift_ms, rate_correction, seek_target};
use itk::{ClockSync, RateCorrection};

#[test]
fn drift_within_tolerance_holds_rate() {
    assert_eq!(rate_correction(0), RateCorrection::Hold);
    assert_eq!(rate_correction(100), RateCorrection::Hold);
    assert_eq!(rate_correction(150), RateCorrection::Hold);
    assert_eq!(rate_correction(-150), RateCorrection::Hold);
}

#[test]
fn drift_gentle_corrections() {
    assert_eq!(rate_correction(300), RateCorrection::SlowDownGently);
    assert_eq!(rate_correction(-300), RateCorrection::SpeedUpGently);
    assert_eq!(rate_correction(151), RateCorrection::SlowDownGently);
    assert_eq!(rate_correction(500), RateCorrection::SlowDownGently);
    assert_eq!(rate_correction(-500), RateCorrection::SpeedUpGently);
}

#[test]
fn drift_moderate_corrections() {
    assert_eq!(rate_correction(1000), RateCorrection::SlowDownModerately);
    assert_eq!(rate_correction(-1000), RateCorrection::SpeedUpModerately);
    assert_eq!(rate_correction(501), RateCorrection::SlowDownModerately);
    assert_eq!(rate_correction(1500), RateCorrection::SlowDownModerately);
    assert_eq!(rate_correction(-1500), RateCorrection::SpeedUpModerately);
}

#[test]
fn drift_large_requires_seek() {
    assert_eq!(rate_correction(2000), RateCorrection::Seek);
    assert_eq!(rate_correction(-1501), RateCorrection::Seek);
    assert_eq!(seek_target(2000, 10_000), Some(10_000));
    assert_eq!(seek_target(-1501, 7), Some(7));
    assert_eq!(seek_target(1500, 10_000), None);
    assert_eq!(seek_target(0, 10_000), None);
}

#[test]
fn drift_seek_agrees_with_rate_correction() {
    for drift in [-5000i64, -1501, -1500, -700, -151, 0, 149, 600, 1500, 1501, 99_999] {
        let seeks = seek_target(drift, 42).is_some();
        assert_eq!(seeks, rate_correction(drift) == RateCorrection::Seek);
    }
}

#[test]
fn drift_corrections_mirror_each_other() {
    for drift in [1i64, 150, 151, 499, 501, 1499, 1501, 40_000] {
        let ahead = rate_correction(drift);
        let behind = rate_correction(-drift);
        let mirrored = match ahead {
            RateCorrection::SlowDownGently => RateCorrection::SpeedUpGently,
            RateCorrection::SlowDownModerately => RateCorrection::SpeedUpModerately,
            other => other,
        };
        assert_eq!(behind, mirrored);
    }
}

#[test]
fn drift_between_positions() {
    assert_eq!(position_drift_ms(10_500, 10_000), 500);
    assert_eq!(position_drift_ms(9_700, 10_000), -300);
    assert_eq!(position_drift_ms(0, 0), 0);
}

#[test]
fn local_reference_uses_clock_offset_when_available() {
    let mut clock = ClockSync::new();
    // Without an offset, the remote time is used as is.
    assert_eq!(local_reference_ms(&clock, 5000), 5000);
    // Remote clock 100ms ahead.
    clock.process_pong(1000, 1150, 1100);
    assert_eq!(clock.offset_ms(), Some(100));
    assert_eq!(local_reference_ms(&clock, 5000), 4900);
    // A conversion that would underflow falls back to the remote time.
    assert_eq!(local_reference_ms(&clock, 50), 50);
}
