use itk::time::epoch_millis_u64;
use itk::{ClockSync, SyncError, MAX_SAMPLES};

#[test]
fn test_clock_sync_basic() {
    let mut sync = ClockSync::new();

    // Simulate ping/pong with 100ms RTT and 50ms offset
    // local send: 1000, remote: 1050, local recv: 1100
    sync.process_pong(1000, 1050, 1100);

    // local_at_remote = 1000 + 50 = 1050, offset = 1050 - 1050 = 0
    assert!(sync.is_synced());
    assert_eq!(sync.offset_ms(), Some(0));
}

#[test]
fn test_clock_sync_convergence_with_noisy_samples() {
    let mut sync = ClockSync::new();

    // (send, remote, recv) -> offset = remote - (send + rtt/2)
    let samples = [
        (1000u64, 1060u64, 1020u64), // rtt=20, offset=50
        (1100, 1160, 1120),          // rtt=20, offset=50
        (1200, 1310, 1400),          // rtt=200, offset=10 (noisy)
        (1300, 1360, 1320),          // rtt=20, offset=50
        (1400, 1460, 1420),          // rtt=20, offset=50
    ];

    for (send, remote, recv) in samples {
        sync.process_pong(send, remote, recv);
    }

    let offset = sync.offset_ms().unwrap();
    assert!(
        (40..=60).contains(&offset),
        "Expected offset near 50, got {offset}"
    );
}

#[test]
fn test_clock_sync_local_to_remote_overflow() {
    let mut sync = ClockSync::new();
    // offset = 1100 - (1000 + 50) = +50
    sync.process_pong(1000, 1100, 1100);

    let result = sync.local_to_remote(u64::MAX);
    assert!(result.is_err());
}

#[test]
fn test_clock_sync_remote_to_local_underflow() {
    let mut sync = ClockSync::new();
    sync.process_pong(0, 1000, 100);

    let result = sync.remote_to_local(0);
    assert!(result.is_err());
}

#[test]
fn test_clock_sync_reset() {
    let mut sync = ClockSync::new();
    sync.process_pong(1000, 1050, 1100);
    assert!(sync.is_synced());

    sync.reset();
    assert!(!sync.is_synced());
    assert_eq!(sync.offset_ms(), None);
}

#[test]
fn test_clock_sync_no_offset_before_samples() {
    let sync = ClockSync::new();
    assert!(!sync.is_synced());
    assert_eq!(sync.offset_ms(), None);
    assert!(sync.local_to_remote(1000).is_err());
    assert!(sync.remote_to_local(1000).is_err());
}

#[test]
fn test_clock_sync_negative_offset() {
    let mut sync = ClockSync::new();
    // send=1000, remote=950, recv=1100 -> rtt=100, one_way=50, offset = 950 - 1050 = -100
    sync.process_pong(1000, 950, 1100);
    let offset = sync.offset_ms().unwrap();
    assert_eq!(offset, -100);

    let remote = sync.local_to_remote(1000).unwrap();
    assert_eq!(remote, 900);

    let local = sync.remote_to_local(900).unwrap();
    assert_eq!(local, 1000);
}

#[test]
fn test_clock_sync_max_samples_eviction() {
    let mut sync = ClockSync::new();

    for i in 0..15u64 {
        sync.process_pong(i * 100, i * 100 + 50, i * 100 + 100);
    }

    assert!(sync.is_synced());
    let offset = sync.offset_ms().unwrap();
    assert_eq!(offset, 0);
}

#[test]
fn test_clock_sync_zero_rtt() {
    let mut sync = ClockSync::new();
    sync.process_pong(1000, 1000, 1000);
    assert_eq!(sync.offset_ms(), Some(0));
}

// ---------------------------------------------------------------------------
// Further cases
// ---------------------------------------------------------------------------

#[test]
fn clock_sync_errors_name_their_cause() {
    let mut sync = ClockSync::new();
    assert_eq!(sync.local_to_remote(5), Err(SyncError::NoClockOffset));
    assert_eq!(sync.remote_to_local(5), Err(SyncError::NoClockOffset));
    sync.process_pong(1000, 1100, 1100); // offset +50
    assert_eq!(sync.local_to_remote(u64::MAX), Err(SyncError::TimeConversionOverflow));
    assert_eq!(sync.remote_to_local(49), Err(SyncError::TimeConversionOverflow));
    assert_eq!(sync.remote_to_local(50), Ok(0));
    assert_eq!(sync.local_to_remote(u64::MAX - 50), Ok(u64::MAX));
}

#[test]
fn clock_sync_conversions_are_inverse() {
    let mut sync = ClockSync::new();
    sync.process_pong(10_000, 12_345, 10_200); // rtt 200, offset 12345 - 10100 = 2245
    assert_eq!(sync.offset_ms(), Some(2245));
    for local in [0u64, 1, 777, 1_000_000, u64::MAX - 2245] {
        let remote = sync.local_to_remote(local).unwrap();
        assert_eq!(remote, local + 2245);
        assert_eq!(sync.remote_to_local(remote), Ok(local));
    }
    for remote in [2245u64, 5000, u64::MAX] {
        let local = sync.remote_to_local(remote).unwrap();
        assert_eq!(sync.local_to_remote(local), Ok(remote));
    }
}

#[test]
fn clock_sync_receive_before_send_counts_as_zero_rtt() {
    let mut sync = ClockSync::new();
    // recv < send: rtt saturates at 0, offset = remote - send
    sync.process_pong(2000, 2600, 1000);
    assert_eq!(sync.offset_ms(), Some(600));
}

#[test]
fn clock_sync_remote_time_beyond_i64_wraps() {
    let mut sync = ClockSync::new();
    // remote u64::MAX reads as -1 in i64; offset = -1 - 0 = -1
    sync.process_pong(0, u64::MAX, 0);
    assert_eq!(sync.offset_ms(), Some(-1));
}

#[test]
fn clock_sync_even_half_takes_mean_rounded_toward_zero() {
    let mut sync = ClockSync::new();
    // Three samples: best half holds two (lowest rtt).
    sync.process_pong(0, 10, 0); // rtt 0, offset 10
    sync.process_pong(0, 13, 0); // rtt 0, offset 13
    sync.process_pong(0, 1000, 400); // rtt 400, offset 800, excluded
    assert_eq!(sync.offset_ms(), Some(11)); // (10 + 13) / 2 = 11

    let mut negative = ClockSync::new();
    negative.process_pong(100, 90, 100); // offset -10
    negative.process_pong(100, 87, 100); // offset -13
    negative.process_pong(0, 5000, 400); // excluded
    assert_eq!(negative.offset_ms(), Some(-11)); // -23 / 2 = -11
}

#[test]
fn clock_sync_ties_in_rtt_go_to_earlier_samples() {
    let mut sync = ClockSync::new();
    // Four samples with equal rtt: the best half is the first two.
    sync.process_pong(0, 110, 20); // offset 100
    sync.process_pong(0, 210, 20); // offset 200
    sync.process_pong(0, 1010, 20); // offset 1000
    sync.process_pong(0, 2010, 20); // offset 2000
    assert_eq!(sync.offset_ms(), Some(150));
}

#[test]
fn clock_sync_window_keeps_only_recent_samples() {
    let mut sync = ClockSync::new();
    // Ten precise samples suggesting 1000, then ten suggesting 0: the old ones leave.
    for i in 0..10u64 {
        sync.process_pong(i, i + 1000, i);
    }
    assert_eq!(sync.offset_ms(), Some(1000));
    for i in 0..MAX_SAMPLES as u64 {
        sync.process_pong(100 + i, 100 + i, 100 + i);
    }
    assert_eq!(sync.offset_ms(), Some(0));
}

#[test]
fn clock_sync_estimate_within_window_offsets() {
    let mut sync = ClockSync::new();
    let pongs = [(0u64, 40u64, 10u64), (0, 90, 30), (0, 15, 6), (0, 70, 2), (0, 33, 44)];
    let mut lowest = i64::MAX;
    let mut highest = i64::MIN;
    for (send, remote, recv) in pongs {
        let offset = remote as i64 - (send + (recv - send) / 2) as i64;
        lowest = lowest.min(offset);
        highest = highest.max(offset);
        sync.process_pong(send, remote, recv);
        let estimate = sync.offset_ms().unwrap();
        assert!(lowest <= estimate && estimate <= highest);
    }
}

#[test]
fn clock_sync_default_is_unsynced() {
    let sync = ClockSync::default();
    assert!(!sync.is_synced());
}

#[test]
fn now_ms_reads_a_time_after_the_epoch() {
    // 2020-01-01 in milliseconds since the epoch.
    assert!(itk::now_ms() > 1_577_836_800_000);
}

#[test]
fn clock_sync_slow_sample_offset_is_ignored() {
    // Whatever the noisy, high-RTT sample suggests, the estimate stays at 50.
    for noisy_remote in [0u64, 1310, 5000, 1_000_000] {
        let mut sync = ClockSync::new();
        sync.process_pong(1000, 1060, 1020);
        sync.process_pong(1100, 1160, 1120);
        sync.process_pong(1200, noisy_remote, 1400);
        sync.process_pong(1300, 1360, 1320);
        sync.process_pong(1400, 1460, 1420);
        assert_eq!(sync.offset_ms(), Some(50));
    }
}

#[test]
fn clock_sync_single_sample_sets_its_offset() {
    let mut sync = ClockSync::new();
    sync.process_pong(500, 9_000, 700); // rtt 200, local estimate 600, offset 8400
    assert_eq!(sync.offset_ms(), Some(8400));
    assert!(sync.is_synced());
}

#[test]
fn epoch_millis_defaults_and_truncates() {
    assert_eq!(epoch_millis_u64(None), 0);
    assert_eq!(epoch_millis_u64(Some(1_700_000_000_123)), 1_700_000_000_123);
    assert_eq!(epoch_millis_u64(Some(u64::MAX as u128)), u64::MAX);
    assert_eq!(epoch_millis_u64(Some((1u128 << 64) + 5)), 5);
}

#[test]
fn clock_sync_only_last_ten_exchanges_count() {
    let exchanges: Vec<(u64, u64, u64)> = (0..17u64)
        .map(|i| (i * 1000, i * 1000 + 37 * (i % 5) + 3 * i, i * 1000 + 10 * (i % 7)))
        .collect();
    let mut all = ClockSync::new();
    for &(send, remote, recv) in &exchanges {
        all.process_pong(send, remote, recv);
    }
    let mut recent = ClockSync::new();
    for &(send, remote, recv) in &exchanges[exchanges.len() - MAX_SAMPLES..] {
        recent.process_pong(send, remote, recv);
    }
    assert_eq!(all.offset_ms(), recent.offset_ms());
}

#[test]
fn clock_sync_offset_iff_exchange_since_reset() {
    let mut sync = ClockSync::default();
    assert_eq!(sync.offset_ms(), None);
    sync.process_pong(0, 5, 0);
    assert!(sync.offset_ms().is_some());
    sync.reset();
    assert_eq!(sync.offset_ms(), None);
    sync.reset();
    assert_eq!(sync.offset_ms(), None);
    sync.process_pong(0, 7, 0);
    assert_eq!(sync.offset_ms(), Some(7));
}
