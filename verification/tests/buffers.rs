use swec::btree_buffer::BTreeMapBuffer;
use swec::buffer::StatusBuffer;
use swec::status::{Status, TimedStatus};
use swec::time::Timestamp;
use swec::vec_buffer::VecBuffer;

fn at(secs: i64, latency: u32) -> TimedStatus {
    TimedStatus { time: Timestamp::new(secs, 0), inner: Status::Up(latency) }
}

#[test]
fn vec_buffer_starts_empty() {
    let b = VecBuffer::new(4);
    assert_eq!(b.len(), 0);
    assert!(b.is_empty());
    assert_eq!(b.cap(), 4);
    assert_eq!(b.get(0), None);
    assert_eq!(b.as_vec(), vec![]);
    assert_eq!(b.nearest(Timestamp::new(0, 0)), None);
}

#[test]
fn vec_buffer_keeps_push_order() {
    let mut b = VecBuffer::new(4);
    b.push(at(10, 1));
    b.push(at(5, 2));
    b.push(at(10, 3));
    assert_eq!(b.len(), 3);
    assert!(!b.is_empty());
    assert_eq!(b.as_vec(), vec![at(10, 1), at(5, 2), at(10, 3)]);
    assert_eq!(b.get(0), Some(at(10, 1)));
    assert_eq!(b.get(1), Some(at(5, 2)));
    assert_eq!(b.get(2), Some(at(10, 3)));
    assert_eq!(b.get(3), None);
}

#[test]
fn vec_buffer_evicts_oldest_push() {
    let mut b = VecBuffer::new(3);
    for i in 0..7 {
        b.push(at(100 - i, i as u32));
        assert!(b.len() <= 3);
    }
    assert_eq!(b.as_vec(), vec![at(96, 4), at(95, 5), at(94, 6)]);
}

#[test]
fn vec_buffer_of_capacity_zero_holds_nothing() {
    let mut b = VecBuffer::new(0);
    b.push(at(1, 1));
    assert_eq!(b.len(), 0);
    assert_eq!(b.nearest(Timestamp::new(1, 0)), None);
}

#[test]
fn vec_buffer_nearest_between_two_entries() {
    let mut b = VecBuffer::new(8);
    b.push(at(0, 1));
    b.push(at(10, 2));
    assert_eq!(b.nearest(Timestamp::new(4, 0)), Some(at(0, 1)));
    assert_eq!(b.nearest(Timestamp::new(6, 0)), Some(at(10, 2)));
}

#[test]
fn vec_buffer_nearest_tie_goes_to_first_pushed() {
    let mut b = VecBuffer::new(8);
    b.push(at(10, 1));
    b.push(at(0, 2));
    b.push(at(10, 3));
    assert_eq!(b.nearest(Timestamp::new(5, 0)), Some(at(10, 1)));
    assert_eq!(b.nearest(Timestamp::new(10, 0)), Some(at(10, 1)));
}

#[test]
fn vec_buffer_nearest_counts_nanoseconds() {
    let mut b = VecBuffer::new(8);
    b.push(TimedStatus { time: Timestamp::new(1, 0), inner: Status::Up(1) });
    b.push(TimedStatus { time: Timestamp::new(1, 10), inner: Status::Up(2) });
    assert_eq!(
        b.nearest(Timestamp::new(1, 6)),
        Some(TimedStatus { time: Timestamp::new(1, 10), inner: Status::Up(2) })
    );
    assert_eq!(
        b.nearest(Timestamp::new(0, 999_999_999)),
        Some(TimedStatus { time: Timestamp::new(1, 0), inner: Status::Up(1) })
    );
}

#[test]
fn vec_buffer_round_trip_keeps_order_and_duplicates() {
    let mut b = VecBuffer::new(5);
    b.push(at(3, 1));
    b.push(at(1, 2));
    b.push(at(3, 3));
    let again = VecBuffer::from_vec(b.as_vec(), b.cap());
    assert_eq!(again.as_vec(), b.as_vec());
    assert_eq!(again.cap(), b.cap());
    assert_eq!(again.len(), 3);
}

#[test]
fn vec_buffer_from_vec_keeps_the_last_entries() {
    let b = VecBuffer::from_vec(vec![at(1, 1), at(2, 2), at(3, 3), at(4, 4)], 2);
    assert_eq!(b.as_vec(), vec![at(3, 3), at(4, 4)]);
}

#[test]
fn btree_buffer_starts_empty() {
    let b = BTreeMapBuffer::new(4);
    assert_eq!(b.len(), 0);
    assert!(b.is_empty());
    assert_eq!(b.cap(), 4);
    assert_eq!(b.get(0), None);
    assert_eq!(b.as_vec(), vec![]);
    assert_eq!(b.nearest(Timestamp::new(0, 0)), None);
}

#[test]
fn btree_buffer_orders_by_instant() {
    let mut b = BTreeMapBuffer::new(4);
    b.push(at(10, 1));
    b.push(at(5, 2));
    b.push(at(7, 3));
    assert_eq!(b.as_vec(), vec![at(5, 2), at(7, 3), at(10, 1)]);
    assert_eq!(b.get(0), Some(at(5, 2)));
    assert_eq!(b.get(2), Some(at(10, 1)));
    assert_eq!(b.get(3), None);
}

#[test]
fn btree_buffer_collapses_equal_instants() {
    let mut b = BTreeMapBuffer::new(4);
    b.push(at(10, 1));
    b.push(at(5, 2));
    b.push(at(10, 3));
    assert_eq!(b.len(), 2);
    assert_eq!(b.as_vec(), vec![at(5, 2), at(10, 3)]);
}

#[test]
fn btree_buffer_takes_equal_instants_written_differently_as_one() {
    let mut b = BTreeMapBuffer::new(4);
    b.push(TimedStatus { time: Timestamp::new(1, 0), inner: Status::Up(1) });
    b.push(TimedStatus { time: Timestamp::new(0, 1_000_000_000), inner: Status::Up(2) });
    assert_eq!(
        b.as_vec(),
        vec![TimedStatus { time: Timestamp::new(0, 1_000_000_000), inner: Status::Up(2) }]
    );
}

#[test]
fn btree_buffer_evicts_earliest_instant() {
    let mut b = BTreeMapBuffer::new(3);
    for (i, secs) in [50, 10, 40, 20, 30, 60].into_iter().enumerate() {
        b.push(at(secs, i as u32));
        assert!(b.len() <= 3);
    }
    assert_eq!(b.as_vec(), vec![at(40, 2), at(50, 0), at(60, 5)]);
}

#[test]
fn btree_buffer_drops_a_push_earlier_than_all_when_full() {
    let mut b = BTreeMapBuffer::new(2);
    b.push(at(5, 1));
    b.push(at(6, 2));
    b.push(at(1, 3));
    assert_eq!(b.as_vec(), vec![at(5, 1), at(6, 2)]);
}

#[test]
fn btree_buffer_of_capacity_zero_holds_nothing() {
    let mut b = BTreeMapBuffer::new(0);
    b.push(at(1, 1));
    assert_eq!(b.len(), 0);
}

#[test]
fn btree_buffer_nearest_between_two_entries() {
    let mut b = BTreeMapBuffer::new(8);
    b.push(at(10, 2));
    b.push(at(0, 1));
    assert_eq!(b.nearest(Timestamp::new(4, 0)), Some(at(0, 1)));
    assert_eq!(b.nearest(Timestamp::new(6, 0)), Some(at(10, 2)));
}

#[test]
fn btree_buffer_nearest_at_the_ends_and_on_a_tie() {
    let mut b = BTreeMapBuffer::new(8);
    b.push(at(0, 1));
    b.push(at(10, 2));
    b.push(at(20, 3));
    assert_eq!(b.nearest(Timestamp::new(-7, 0)), Some(at(0, 1)));
    assert_eq!(b.nearest(Timestamp::new(99, 0)), Some(at(20, 3)));
    assert_eq!(b.nearest(Timestamp::new(10, 0)), Some(at(10, 2)));
    assert_eq!(b.nearest(Timestamp::new(15, 0)), Some(at(10, 2)));
    assert_eq!(b.nearest(Timestamp::new(5, 0)), Some(at(0, 1)));
}

#[test]
fn btree_buffer_agrees_with_a_scan_on_nearest() {
    let mut sorted = BTreeMapBuffer::new(16);
    let mut scanned = VecBuffer::new(16);
    for secs in [3, 9, 27, 81, 243] {
        sorted.push(at(secs, secs as u32));
        scanned.push(at(secs, secs as u32));
    }
    for t in -5..260 {
        assert_eq!(sorted.nearest(Timestamp::new(t, 0)), scanned.nearest(Timestamp::new(t, 0)));
    }
}

#[test]
fn btree_buffer_round_trip_changes_nothing() {
    let b = BTreeMapBuffer::from_vec(vec![at(3, 1), at(1, 2), at(3, 3), at(2, 4)], 5);
    assert_eq!(b.as_vec(), vec![at(1, 2), at(2, 4), at(3, 3)]);
    let again = BTreeMapBuffer::from_vec(b.as_vec(), b.cap());
    assert_eq!(again.as_vec(), b.as_vec());
    let third = BTreeMapBuffer::from_vec(again.as_vec(), again.cap());
    assert_eq!(third.as_vec(), again.as_vec());
}

#[test]
fn strategies_differ_on_equal_and_unordered_instants() {
    let pushed = vec![at(3, 1), at(1, 2), at(3, 3)];
    let by_push = VecBuffer::from_vec(pushed.clone(), 2);
    let by_time = BTreeMapBuffer::from_vec(pushed, 2);
    assert_eq!(by_push.as_vec(), vec![at(1, 2), at(3, 3)]);
    assert_eq!(by_time.as_vec(), vec![at(1, 2), at(3, 3)]);
    let pushed = vec![at(9, 1), at(8, 2), at(7, 3)];
    let by_push = VecBuffer::from_vec(pushed.clone(), 2);
    let by_time = BTreeMapBuffer::from_vec(pushed, 2);
    assert_eq!(by_push.as_vec(), vec![at(8, 2), at(7, 3)]);
    assert_eq!(by_time.as_vec(), vec![at(8, 2), at(9, 1)]);
}
