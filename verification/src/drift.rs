use crate::clock;
use crate::clock::ClockSync;
use vstd::prelude::*;

verus! {

/// Drift, in milliseconds, up to which playback keeps its normal rate.
pub const DRIFT_TOLERANCE_MS: i64 = 150;

/// Drift, in milliseconds, up to which a gentle rate correction is applied.
pub const GENTLE_DRIFT_LIMIT_MS: i64 = 500;

/// Drift, in milliseconds, up to which a moderate rate correction is applied; beyond it a
/// hard seek is recommended.
pub const MODERATE_DRIFT_LIMIT_MS: i64 = 1500;

/// The correction recommended for a drift between local and target playback.
#[derive(Debug, Clone, Copy, PartialEq, Eq, Structural)]
pub enum RateCorrection {
    /// Within tolerance: keep the normal rate.
    Hold,
    /// Slightly ahead: slow down a little.
    SlowDownGently,
    /// Slightly behind: speed up a little.
    SpeedUpGently,
    /// Clearly ahead: slow down more.
    SlowDownModerately,
    /// Clearly behind: speed up more.
    SpeedUpModerately,
    /// Too far off for a rate change: seek instead.
    Seek,
}

pub open spec fn abs(x: int) -> int {
    if x < 0 {
        -x
    } else {
        x
    }
}

/// The drift of a local position from a target position, both read as `i64`
/// (positive when ahead, negative when behind).
pub open spec fn drift_between(current_position_ms: u64, target_position_ms: u64) -> int {
    (current_position_ms as i64) - (target_position_ms as i64)
}

/// The correction for a drift: none within the tolerance, a gentle or moderate slow-down
/// (when ahead) or speed-up (when behind) within the two limits, and a seek beyond them.
pub open spec fn correction_for(drift_ms: int) -> RateCorrection {
    let magnitude = abs(drift_ms);
    if magnitude <= DRIFT_TOLERANCE_MS {
        RateCorrection::Hold
    } else if magnitude <= GENTLE_DRIFT_LIMIT_MS {
        if drift_ms > 0 {
            RateCorrection::SlowDownGently
        } else {
            RateCorrection::SpeedUpGently
        }
    } else if magnitude <= MODERATE_DRIFT_LIMIT_MS {
        if drift_ms > 0 {
            RateCorrection::SlowDownModerately
        } else {
            RateCorrection::SpeedUpModerately
        }
    } else {
        RateCorrection::Seek
    }
}

/// The seek recommendation for a drift: the target position once the drift exceeds the
/// moderate limit.
pub open spec fn seek_for(drift_ms: int, target_position_ms: u64) -> Option<u64> {
    if abs(drift_ms) > MODERATE_DRIFT_LIMIT_MS {
        Some(target_position_ms)
    } else {
        None
    }
}

/// The local time of a remote reference time: converted with the clock offset when the
/// conversion succeeds, the remote time itself otherwise.
pub open spec fn local_reference(
    offset: Option<i64>,
    remote_reference_ms: u64,
) -> u64 {
    match clock::shift_result(remote_reference_ms, clock::negate(clock::widen(offset))) {
        Ok(local_ms) => local_ms,
        Err(_) => remote_reference_ms,
    }
}

/// The drift of `current_position_ms` from `target_position_ms`, positive when ahead.
pub fn position_drift_ms(current_position_ms: u64, target_position_ms: u64) -> (drift: i64)
    requires
        i64::MIN <= drift_between(current_position_ms, target_position_ms) <= i64::MAX,
    ensures
        drift == drift_between(current_position_ms, target_position_ms),
        drift + (target_position_ms as i64) == current_position_ms as i64,
{
    current_position_ms as i64 - target_position_ms as i64
}

fn drift_magnitude(drift_ms: i64) -> (m: i64)
    requires
        drift_ms != i64::MIN,
    ensures
        m == abs(drift_ms as int),
{
    if drift_ms < 0 {
        -drift_ms
    } else {
        drift_ms
    }
}

/// The correction recommended for a drift.
pub fn rate_correction(drift_ms: i64) -> (c: RateCorrection)
    requires
        drift_ms != i64::MIN,
    ensures
        c == correction_for(drift_ms as int),
{
    let magnitude = drift_magnitude(drift_ms);
    if magnitude <= DRIFT_TOLERANCE_MS {
        RateCorrection::Hold
    } else if magnitude <= GENTLE_DRIFT_LIMIT_MS {
        if drift_ms > 0 {
            RateCorrection::SlowDownGently
        } else {
            RateCorrection::SpeedUpGently
        }
    } else if magnitude <= MODERATE_DRIFT_LIMIT_MS {
        if drift_ms > 0 {
            RateCorrection::SlowDownModerately
        } else {
            RateCorrection::SpeedUpModerately
        }
    } else {
        RateCorrection::Seek
    }
}

/// The position to seek to, when the drift is too large for a rate correction.
pub fn seek_target(drift_ms: i64, target_position_ms: u64) -> (r: Option<u64>)
    requires
        drift_ms != i64::MIN,
    ensures
        r == seek_for(drift_ms as int, target_position_ms),
{
    if drift_magnitude(drift_ms) > MODERATE_DRIFT_LIMIT_MS {
        Some(target_position_ms)
    } else {
        None
    }
}

/// The local time of a target's remote reference time, falling back to the remote time
/// when the clock has no offset yet or the conversion fails.
pub fn local_reference_ms(clock_sync: &ClockSync, remote_reference_ms: u64) -> (t: u64)
    ensures
        t == local_reference(clock_sync.offset(), remote_reference_ms),
        (clock_sync.offset() matches Some(o) ==> (0 <= remote_reference_ms - o <= u64::MAX ==> t
            == remote_reference_ms - o)),
        (clock_sync.offset() matches Some(o) ==> (!(0 <= remote_reference_ms - o <= u64::MAX)
            ==> t == remote_reference_ms)),
        (clock_sync.offset() is None ==> t == remote_reference_ms),
{
    match clock_sync.remote_to_local(remote_reference_ms) {
        Ok(local_ms) => local_ms,
        Err(_) => remote_reference_ms,
    }
}

// ----------------------------------------------------------------------------
// Laws
// ----------------------------------------------------------------------------

/// How strong a correction is: none, gentle, moderate, seek.
pub open spec fn severity(c: RateCorrection) -> int {
    match c {
        RateCorrection::Hold => 0,
        RateCorrection::SlowDownGently | RateCorrection::SpeedUpGently => 1,
        RateCorrection::SlowDownModerately | RateCorrection::SpeedUpModerately => 2,
        RateCorrection::Seek => 3,
    }
}

/// The same correction in the opposite direction.
pub open spec fn mirrored(c: RateCorrection) -> RateCorrection {
    match c {
        RateCorrection::SlowDownGently => RateCorrection::SpeedUpGently,
        RateCorrection::SpeedUpGently => RateCorrection::SlowDownGently,
        RateCorrection::SlowDownModerately => RateCorrection::SpeedUpModerately,
        RateCorrection::SpeedUpModerately => RateCorrection::SlowDownModerately,
        other => other,
    }
}

/// A seek is recommended exactly when the rate correction is `Seek`.
pub proof fn lemma_seek_iff_seek_correction(drift_ms: int, target_position_ms: u64)
    ensures
        seek_for(drift_ms, target_position_ms) is Some <==> correction_for(drift_ms)
            == RateCorrection::Seek,
        seek_for(drift_ms, target_position_ms) is Some ==> seek_for(
            drift_ms,
            target_position_ms,
        ) == Some(target_position_ms),
{
}

/// Being ahead by some amount calls for the mirror image of the correction for being
/// behind by the same amount.
pub proof fn lemma_correction_symmetric(drift_ms: int)
    ensures
        correction_for(-drift_ms) == mirrored(correction_for(drift_ms)),
{
}

/// A larger drift never calls for a milder correction.
pub proof fn lemma_correction_monotone(smaller_ms: int, larger_ms: int)
    requires
        abs(smaller_ms) <= abs(larger_ms),
    ensures
        severity(correction_for(smaller_ms)) <= severity(correction_for(larger_ms)),
{
}

/// A correction never pushes the wrong way: ahead means slowing down, behind speeding up.
pub proof fn lemma_correction_direction(drift_ms: int)
    ensures
        drift_ms > 0 ==> correction_for(drift_ms) != RateCorrection::SpeedUpGently
            && correction_for(drift_ms) != RateCorrection::SpeedUpModerately,
        drift_ms < 0 ==> correction_for(drift_ms) != RateCorrection::SlowDownGently
            && correction_for(drift_ms) != RateCorrection::SlowDownModerately,
{
}

/// The drift of a local position from a target position is their difference: adding the
/// target back gives the local position, both read as `i64`.
pub proof fn lemma_drift_is_difference(current_position_ms: u64, target_position_ms: u64)
    ensures
        drift_between(current_position_ms, target_position_ms) + (target_position_ms as i64)
            == current_position_ms as i64,
{
}

/// A remote reference time becomes local by subtracting the clock offset, whatever its sign,
/// when the result is a valid time; otherwise, and without an offset, it stays as it is.
pub proof fn lemma_local_reference_subtracts_offset(offset: Option<i64>, remote_reference_ms: u64)
    ensures
        (offset matches Some(o) ==> (0 <= remote_reference_ms - o <= u64::MAX ==> local_reference(
            offset,
            remote_reference_ms,
        ) == remote_reference_ms - o)),
        (offset matches Some(o) ==> (!(0 <= remote_reference_ms - o <= u64::MAX) ==> local_reference(
            offset,
            remote_reference_ms,
        ) == remote_reference_ms)),
        (offset is None ==> local_reference(offset, remote_reference_ms) == remote_reference_ms),
{
}

} // verus!
