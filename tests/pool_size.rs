use liveness::compute_pool_size;
use liveness::pool::{QUEUE_CAPACITY, DEFAULT_POOL_SIZE};
use liveness::{drop_notice, Dispatcher, Offer, WorkQueue};

#[test]
fn pool_size_clamps_zero_to_one() {
    assert_eq!(compute_pool_size(Some("0".into()), Some(8)), 1);
}

#[test]
fn pool_size_uses_env_when_valid() {
    assert_eq!(compute_pool_size(Some("5".into()), Some(8)), 5);
}

#[test]
fn pool_size_falls_back_to_available_parallelism() {
    assert_eq!(compute_pool_size(None, Some(6)), 6);
}

#[test]
fn pool_size_uses_default_when_unset_and_unavailable() {
    assert_eq!(compute_pool_size(None, None), 4);
}

#[test]
fn pool_size_uses_default_when_env_invalid_and_unavailable() {
    assert_eq!(compute_pool_size(Some("abc".into()), None), 4);
}

#[test]
fn pool_size_reads_numbers_as_str_parse_does() {
    assert_eq!(compute_pool_size(Some("+7".into()), Some(2)), 7);
    assert_eq!(compute_pool_size(Some(" 7".into()), Some(2)), 2);
    assert_eq!(compute_pool_size(Some("-1".into()), Some(3)), 3);
    assert_eq!(compute_pool_size(Some("".into()), Some(0)), DEFAULT_POOL_SIZE);
    assert_eq!(
        compute_pool_size(Some("99999999999999999999999".into()), Some(3)),
        3
    );
    assert_eq!(compute_pool_size(Some("0012".into()), None), 12);
}

#[test]
fn dispatcher_rotates_through_workers() {
    let mut d = Dispatcher::new(3);
    let got: Vec<usize> = (0..7).map(|_| d.assign()).collect();
    assert_eq!(got, vec![0, 1, 2, 0, 1, 2, 0]);
    assert_eq!(d.pool_size(), 3);
}

#[test]
fn single_worker_queue_drops_the_hundred_and_first() {
    let mut d = Dispatcher::new(1);
    let mut q: WorkQueue<u32> = WorkQueue::new(QUEUE_CAPACITY);
    let mut dropped = 0;
    let mut notices = Vec::new();
    for i in 0..101u32 {
        assert_eq!(d.assign(), 0);
        let offer = q.offer(i);
        if let Some(n) = drop_notice(&offer) {
            notices.push(n);
        }
        if !matches!(offer, Offer::Accepted) {
            dropped += 1;
        }
    }
    assert_eq!(dropped, 1);
    assert_eq!(notices, vec!["Connection dropped: worker queue is full"]);
    assert_eq!(q.len(), 100);
}

#[test]
fn queue_hands_out_oldest_first_and_refuses_when_closed() {
    let mut q: WorkQueue<u32> = WorkQueue::new(2);
    assert!(matches!(q.offer(1), Offer::Accepted));
    assert!(matches!(q.offer(2), Offer::Accepted));
    assert!(matches!(q.offer(3), Offer::Full(3)));
    assert_eq!(q.take(), Some(1));
    assert!(matches!(q.offer(4), Offer::Accepted));
    assert_eq!(q.take(), Some(2));
    assert_eq!(q.take(), Some(4));
    assert_eq!(q.take(), None);
    q.close();
    let offer = q.offer(5);
    assert!(matches!(offer, Offer::Closed(5)));
    assert_eq!(
        drop_notice(&offer),
        Some("Worker queue disconnected \u{2013} dropping connection")
    );
    assert_eq!(drop_notice(&Offer::<u32>::Accepted), None);
}
