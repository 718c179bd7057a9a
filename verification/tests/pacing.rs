use std::time::Duration;
use terminalshooter::pacing::FramePacer;

/// An arbitrary origin: the pacer only sees nanoseconds since some instant.
const START: u64 = 5_000_000_000;

fn frame_interval() -> u64 {
    Duration::from_secs_f64(1.0 / 60.0).as_nanos() as u64
}

#[test]
fn late_wakeups_do_not_accumulate_into_a_lower_frame_rate() {
    let start = START;
    let interval = frame_interval();
    let mut pacer = FramePacer::new(start, interval);
    let mut now = start + Duration::from_millis(1).as_nanos() as u64;
    for frame in 1..=600u64 {
        let deadline = pacer.advance(now);
        assert_eq!(deadline, start + interval * frame);
        // Simulate a 3ms late wakeup and 1ms of rendering each frame.
        now = deadline + Duration::from_millis(4).as_nanos() as u64;
    }
}

#[test]
fn long_stall_resets_cadence_without_catchup_burst() {
    let start = START;
    let interval = frame_interval();
    let mut pacer = FramePacer::new(start, interval);
    let stalled = start + Duration::from_secs(1).as_nanos() as u64;
    assert_eq!(pacer.advance(stalled), stalled);
    assert_eq!(
        pacer.advance(stalled + Duration::from_millis(1).as_nanos() as u64),
        stalled + interval
    );
}

#[test]
fn wakeup_almost_one_interval_late_keeps_cadence() {
    let mut pacer = FramePacer::new(1_000, 100);
    assert_eq!(pacer.advance(1_199), 1_100);
    assert_eq!(pacer.advance(1_299), 1_200);
}

#[test]
fn wakeup_a_whole_interval_late_restarts_cadence() {
    let mut pacer = FramePacer::new(1_000, 100);
    assert_eq!(pacer.advance(1_200), 1_200);
    assert_eq!(pacer.advance(1_250), 1_300);
}
