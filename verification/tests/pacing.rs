use ticklog::pacing::{Pacing, Pause, SPIN_CAP, SPIN_MIN, SYNC_EVERY};

#[test]
fn the_first_pass_syncs_and_then_every_1024th() {
    let mut pace = Pacing::new();
    let mut synced = Vec::new();
    for pass in 0..3000u32 {
        if pace.begin_pass() {
            synced.push(pass);
        }
    }
    assert_eq!(synced, vec![0, SYNC_EVERY, 2 * SYNC_EVERY]);
}

#[test]
fn syncs_stay_aligned_when_the_counter_wraps() {
    let mut pace = Pacing { spin: SPIN_MIN, since_sync: u32::MAX, dirty: false };
    assert!(!pace.begin_pass());
    assert_eq!(pace.since_sync, 0);
    assert!(pace.begin_pass());
}

#[test]
fn idle_passes_spin_ever_longer_up_to_the_cap() {
    let mut pace = Pacing::new();
    let spins: Vec<u32> = (0..8).map(|_| pace.end_pass(false).spins).collect();
    assert_eq!(spins, vec![8, 16, 32, 64, 128, 256, 256, 256]);
    assert_eq!(pace.spin, SPIN_CAP);
    // Work resets the batch.
    assert_eq!(pace.end_pass(true), Pause { flush: false, spins: 0 });
    assert_eq!(pace.end_pass(false).spins, SPIN_MIN);
}

#[test]
fn a_burst_is_flushed_once() {
    let mut pace = Pacing::new();
    assert!(!pace.end_pass(false).flush);
    assert!(!pace.end_pass(true).flush);
    assert!(!pace.end_pass(true).flush);
    assert!(pace.end_pass(false).flush);
    assert!(!pace.end_pass(false).flush);
}
