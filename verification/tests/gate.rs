use hrm_core::heart_rate::HeartRate;
use hrm_core::stream::{AcceptOutcome, SampleStream};

fn non_blank_sample() -> HeartRate {
    // One R-R field: raw ticks 1024, i.e. 1048 ms.
    HeartRate::new(&vec![0x10, 0x3C, 0x00, 0x04]).unwrap()
}

fn blank_sample() -> HeartRate {
    HeartRate::new(&vec![0x00, 0x46]).unwrap()
}

#[test]
fn warmup_rejects_then_accepts() {
    let start: u64 = 100_000;
    let mut stream = SampleStream::new(start);
    let outcome = stream.accept(non_blank_sample(), start + 4_000);
    assert_eq!(outcome, AcceptOutcome::RejectedWarmup);
    assert_eq!(stream.accepted_len(), 0);
    let outcome = stream.accept(non_blank_sample(), start + 6_000);
    assert_eq!(outcome, AcceptOutcome::Accepted);
    assert_eq!(stream.accepted_len(), 1);
}

#[test]
fn warmup_boundary_is_inclusive() {
    let start: u64 = 0;
    let mut stream = SampleStream::new(start);
    assert_eq!(
        stream.accept(non_blank_sample(), start + 5_000),
        AcceptOutcome::RejectedWarmup
    );
    assert_eq!(
        stream.accept(non_blank_sample(), start + 5_001),
        AcceptOutcome::Accepted
    );
}

#[test]
fn cooldown_after_blank() {
    let start: u64 = 0;
    let t0: u64 = start + 10_000;
    let mut stream = SampleStream::new(start);
    let outcome = stream.accept(blank_sample(), t0);
    assert_eq!(outcome, AcceptOutcome::RejectedBlank);
    assert_eq!(stream.accepted_len(), 0);
    let outcome = stream.accept(non_blank_sample(), t0 + 2_000);
    assert_eq!(outcome, AcceptOutcome::RejectedCooldown);
    assert_eq!(stream.accepted_len(), 0);
    let outcome = stream.accept(non_blank_sample(), t0 + 4_000);
    assert_eq!(outcome, AcceptOutcome::Accepted);
    assert_eq!(stream.accepted_len(), 1);
}

#[test]
fn blank_during_warmup_still_stamps_cooldown() {
    let start: u64 = 0;
    let mut stream = SampleStream::new(start);
    // A blank reading is rejected as blank even inside the warmup
    // window, and still stamps the cooldown clock.
    assert_eq!(
        stream.accept(blank_sample(), start + 4_000),
        AcceptOutcome::RejectedBlank
    );
    assert_eq!(
        stream.accept(non_blank_sample(), start + 6_000),
        AcceptOutcome::RejectedCooldown
    );
    assert_eq!(
        stream.accept(non_blank_sample(), start + 8_000),
        AcceptOutcome::Accepted
    );
}

#[test]
fn rr_history_flattens_in_arrival_order() {
    let start: u64 = 0;
    let mut stream = SampleStream::new(start);
    let first = HeartRate::new(&vec![0x10, 0x3C, 0x00, 0x04, 0x00, 0x08]).unwrap();
    let second = HeartRate::new(&vec![0x10, 0x3D, 0x00, 0x04]).unwrap();
    assert_eq!(stream.accept(first, 6_000), AcceptOutcome::Accepted);
    assert_eq!(stream.accept(second, 7_000), AcceptOutcome::Accepted);
    assert_eq!(stream.rr_history(), vec![1048u16, 2097, 1048]);
}

#[test]
fn rr_history_empty_at_session_start() {
    let stream = SampleStream::new(42);
    assert!(stream.rr_history().is_empty());
}
