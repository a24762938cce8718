use queued_build_hook::clock::NANOS_PER_SEC;
use queued_build_hook::metrics::{
    CompletedBatch, MetricsState, ROLLING_MAX_AGE, ROLLING_MAX_ENTRIES,
};
use queued_build_hook::protocol::BatchAverage;

fn batch(duration: u64, completed: u64) -> CompletedBatch {
    CompletedBatch {
        drv_path: Some("/nix/store/x.drv".into()),
        paths_count: 1,
        closure_bytes: None,
        duration,
        completed,
    }
}

#[test]
fn window_is_half_an_hour() {
    assert_eq!(ROLLING_MAX_AGE, 30 * 60 * NANOS_PER_SEC);
}

#[test]
fn window_drops_what_is_too_old() {
    let mut metrics = MetricsState::new();
    metrics.record(batch(1, 0), 0);
    metrics.record(batch(2, 1), 1);
    // Exactly as old as allowed: the first stays.
    metrics.record(batch(3, ROLLING_MAX_AGE), ROLLING_MAX_AGE);
    assert_eq!(metrics.rolling.len(), 3);
    metrics.record(batch(4, ROLLING_MAX_AGE + 1), ROLLING_MAX_AGE + 1);
    let kept: Vec<u64> = metrics.rolling.iter().map(|c| c.duration).collect();
    assert_eq!(kept, vec![2, 3, 4]);
    assert_eq!(metrics.last_completed.unwrap().duration, 4);
}

#[test]
fn window_is_capped() {
    let mut metrics = MetricsState::new();
    for i in 0..(ROLLING_MAX_ENTRIES as u64 + 5) {
        metrics.record(batch(i, i), i);
    }
    assert_eq!(metrics.rolling.len(), ROLLING_MAX_ENTRIES);
    assert_eq!(metrics.rolling[0].duration, 5);
    assert_eq!(metrics.rolling[199].duration, 204);
}

#[test]
fn average_is_exact() {
    let mut metrics = MetricsState::new();
    assert_eq!(metrics.average_duration(), None);
    metrics.record(batch(7, 0), 0);
    metrics.record(batch(8, 0), 0);
    assert_eq!(
        metrics.average_duration(),
        Some(BatchAverage { total_nanos: 15, batches: 2 })
    );
    metrics.record(batch(u64::MAX, 0), 0);
    assert_eq!(
        metrics.average_duration(),
        Some(BatchAverage { total_nanos: 15 + u64::MAX as u128, batches: 3 })
    );
}

#[test]
fn window_of_a_long_run_stays_capped_in_order_and_fresh() {
    let mut metrics = MetricsState::new();
    let mut now = 0;
    for i in 0..1000u64 {
        // Bursts, with a long break after each hundred.
        now += if i % 100 == 0 { ROLLING_MAX_AGE + 1 } else { 1 };
        metrics.record(batch(i, now), now);
        assert!(metrics.rolling.len() <= ROLLING_MAX_ENTRIES);
        assert_eq!(metrics.rolling.len() as u64, i % 100 + 1);
        assert!(metrics.rolling.iter().all(|c| now - c.completed <= ROLLING_MAX_AGE));
        let ends: Vec<u64> = metrics.rolling.iter().map(|c| c.completed).collect();
        assert!(ends.windows(2).all(|w| w[0] <= w[1]));
    }
}
