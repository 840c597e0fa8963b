use inkflow::second_pass::{PendingSecondPass, SecondPassScheduler};

#[test]
fn worker_pending_second_pass_appends_tail_until_complete() {
    let mut pending = PendingSecondPass {
        segment_id: 1,
        sample_rate_hz: 16_000,
        samples: vec![0.1_f32; 4],
        peak_mean_abs: 0.1_f32,
        remaining_tail_samples: 4,
    };

    assert!(!pending.append_tail(&[0.2, 0.2]));
    assert_eq!(pending.remaining_tail_samples, 2);

    assert!(pending.append_tail(&[0.3, 0.3]));
    assert_eq!(pending.remaining_tail_samples, 0);
    assert_eq!(pending.samples.len(), 8);
}

#[test]
fn second_pass_pending_second_pass_appends_tail_until_complete() {
    let mut pending = PendingSecondPass {
        segment_id: 1,
        sample_rate_hz: 16_000,
        samples: vec![0.1_f32; 4],
        peak_mean_abs: 0.1_f32,
        remaining_tail_samples: 4,
    };

    assert!(!pending.append_tail(&[0.2, 0.2]));
    assert_eq!(pending.remaining_tail_samples, 2);

    assert!(pending.append_tail(&[0.3, 0.3]));
    assert_eq!(pending.remaining_tail_samples, 0);
    assert_eq!(pending.samples.len(), 8);
}

#[test]
fn schedule_defers_until_tail_complete() {
    let mut scheduler = SecondPassScheduler::new();
    let scheduled = scheduler.schedule(1, 16_000, vec![0.1_f32; 4], 0.2_f32, 3);
    assert!(scheduled.is_none());

    let appended = scheduler.append_tail(&[0.2, 0.2]);
    assert!(appended.is_none());

    let appended = scheduler.append_tail(&[0.3]);
    let job = appended.expect("expected second-pass job after tail");
    assert_eq!(job.samples.len(), 7);
}

#[test]
fn flush_forces_enqueue_when_tail_remaining() {
    let mut scheduler = SecondPassScheduler::new();
    let scheduled = scheduler.schedule(2, 16_000, vec![0.1_f32; 2], 0.2_f32, 5);
    assert!(scheduled.is_none());

    let flushed = scheduler.flush(true);
    assert!(matches!(flushed, Some(job) if job.segment_id == 2));

    let appended = scheduler.append_tail(&[0.2, 0.2]);
    assert!(appended.is_none());
}

#[test]
fn schedule_immediate_when_no_tail() {
    let mut scheduler = SecondPassScheduler::new();
    let scheduled = scheduler.schedule(3, 16_000, vec![0.1_f32; 3], 0.2_f32, 0);
    assert!(matches!(scheduled, Some(job) if job.segment_id == 3 && job.samples.len() == 3));
}

#[test]
fn tail_takes_only_what_is_missing() {
    let mut scheduler = SecondPassScheduler::new();
    assert!(scheduler.schedule(4, 16_000, vec![1u8, 2], (), 3).is_none());
    assert!(scheduler.append_tail(&[3]).is_none());
    let job = scheduler.append_tail(&[4, 5, 6, 7]).expect("tail complete");
    assert_eq!(job.samples, vec![1, 2, 3, 4, 5]);
    assert!(scheduler.flush(true).is_none());
}

#[test]
fn unforced_flush_keeps_an_incomplete_tail() {
    let mut scheduler = SecondPassScheduler::new();
    assert!(scheduler.schedule(5, 16_000, vec![1u8], (), 2).is_none());
    assert!(scheduler.flush(false).is_none());
    assert!(scheduler.pending.is_some());
}
