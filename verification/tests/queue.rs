use inkflow::queue::SecondPassQueue;

fn rank(peak_mean_abs: f32) -> u32 {
    peak_mean_abs.to_bits()
}

#[derive(Debug)]
struct Job {
    segment_id: u64,
    sample_rate_hz: u32,
    samples: Vec<f32>,
}

#[test]
fn queue_drops_lowest_energy_when_full() {
    let mut queue = SecondPassQueue::new(2);
    assert!(queue.push(Job { segment_id: 1, sample_rate_hz: 16_000, samples: vec![0.0; 10] }, rank(0.2)));
    assert!(queue.push(Job { segment_id: 2, sample_rate_hz: 16_000, samples: vec![0.0; 10] }, rank(0.4)));
    assert!(queue.push(Job { segment_id: 3, sample_rate_hz: 16_000, samples: vec![0.0; 10] }, rank(0.8)));

    let first = queue.pop().unwrap();
    let second = queue.pop().unwrap();
    let ids = [first, second].into_iter().map(|job| job.segment_id).collect::<Vec<_>>();

    assert!(ids.contains(&2));
    assert!(ids.contains(&3));
}

#[test]
fn full_queue_refuses_a_weaker_job() {
    let mut queue = SecondPassQueue::new(1);
    assert!(queue.push(7u64, 5));
    assert!(!queue.push(8u64, 5));
    assert!(!queue.push(9u64, 4));
    assert_eq!(queue.len(), 1);
    assert_eq!(queue.pop(), Some(7));
    assert_eq!(queue.pop(), None);
}

#[test]
fn zero_capacity_holds_one_job_and_order_is_kept() {
    let mut queue = SecondPassQueue::new(0);
    assert_eq!(queue.capacity(), 1);
    assert!(queue.push(1u64, 1));
    assert!(queue.push(2u64, 2));
    assert_eq!(queue.len(), 1);
    assert_eq!(queue.pop(), Some(2));

    let mut queue = SecondPassQueue::new(3);
    for id in 1..=3u64 {
        assert!(queue.push(id, 10));
    }
    assert_eq!(queue.pop(), Some(1));
    assert_eq!(queue.pop(), Some(2));
    assert_eq!(queue.pop(), Some(3));
}

#[test]
fn samples_are_carried_unchanged() {
    let mut queue = SecondPassQueue::new(2);
    assert!(queue.push(Job { segment_id: 4, sample_rate_hz: 48_000, samples: vec![0.5; 3] }, rank(0.1)));
    let job = queue.pop().unwrap();
    assert_eq!(job.sample_rate_hz, 48_000);
    assert_eq!(job.samples.len(), 3);
}
