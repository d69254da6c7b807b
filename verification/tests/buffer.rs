//! Tests of the snapshot buffer: ordering, duplicate suppression,
//! capacity eviction, counter bookkeeping and jitter measurement.

use snapshot::Buffer;
use snapshot::Position;
use snapshot::SCALE;
use snapshot::Settings;

fn pos(number: i64, seconds: i64) -> Position {
    Position { x: number, y: 0, remote_time: seconds * SCALE }
}

#[test]
fn test_snapshot_insertion() {
    let settings = Settings::default();
    let mut buf: Buffer<Position> = Buffer::new(&settings);

    let one = pos(1, 10);
    let two = pos(2, 20);
    let three = pos(3, 30);
    let four = pos(4, 40);

    buf.insert_snapshot(one, 0);
    buf.insert_snapshot(two, 0);
    buf.insert_snapshot(four, 0);
    buf.insert_snapshot(four, 0);
    buf.insert_snapshot(three, 0);

    let numbers: Vec<i64> = buf.buf.iter().map(|s| s.x).collect();
    assert_eq!(numbers, vec![4, 3, 2, 1]);
}

#[test]
fn insertion_ordering_front_to_back() {
    // Front-to-back remote times read 40, 30, 20, 10 after out-of-order
    // arrival with one duplicate.
    let settings = Settings::default();
    let mut buf: Buffer<Position> = Buffer::new(&settings);
    for (n, secs) in [(1, 10), (2, 20), (3, 40), (4, 40), (5, 30)] {
        buf.insert_snapshot(pos(n, secs), 0);
    }
    let times: Vec<i64> = buf.buf.iter().map(|s| s.remote_time).collect();
    assert_eq!(times, vec![40 * SCALE, 30 * SCALE, 20 * SCALE, 10 * SCALE]);
    // Strictly descending adjacent pairs.
    for w in buf.buf.windows(2) {
        assert!(w[0].remote_time > w[1].remote_time);
    }
    // The first arrival of remote time 40 won the tie.
    assert_eq!(buf.buf[0].x, 3);
}

#[test]
fn capacity_evicts_oldest() {
    // Default capacity is ceil(2.0 / 0.2) = 10 snapshots.
    let settings = Settings::default();
    let mut buf: Buffer<Position> = Buffer::new(&settings);
    assert_eq!(buf.buf_len, 10);
    for i in 1..=15 {
        buf.insert_snapshot(pos(i, i), i * SCALE);
    }
    assert_eq!(buf.buf.len(), 10);
    // The newest is kept, the oldest five were evicted.
    assert_eq!(buf.buf[0].remote_time, 15 * SCALE);
    assert_eq!(buf.buf[9].remote_time, 6 * SCALE);
}

#[test]
fn duplicate_insertion_leaves_buffer_unchanged() {
    let settings = Settings::default();
    let mut buf: Buffer<Position> = Buffer::new(&settings);
    buf.insert_snapshot(pos(1, 10), 0);
    buf.insert_snapshot(pos(2, 20), 0);
    let counter = buf.last_remote_counter;
    let times_before: Vec<i64> = buf.buf.iter().map(|s| s.remote_time).collect();
    // A second snapshot with an already-held remote time is dropped, and
    // the bookkeeping does not move.
    buf.insert_snapshot(pos(9, 20), 0);
    let times_after: Vec<i64> = buf.buf.iter().map(|s| s.remote_time).collect();
    assert_eq!(times_before, times_after);
    assert_eq!(buf.buf[0].x, 2);
    assert_eq!(buf.last_remote_counter, counter);
}

#[test]
fn counter_advances_only_on_new_front() {
    let settings = Settings::default();
    let mut buf: Buffer<Position> = Buffer::new(&settings);
    assert_eq!(buf.last_remote_counter, 0);
    buf.insert_snapshot(pos(1, 10), 0);
    assert_eq!(buf.last_remote_counter, 1);
    buf.insert_snapshot(pos(2, 20), 0);
    assert_eq!(buf.last_remote_counter, 2);
    // A late packet that lands in the interior must not touch the counter
    // or the last-remote bookkeeping.
    buf.insert_snapshot(pos(3, 15), 0);
    assert_eq!(buf.last_remote_counter, 2);
    assert_eq!(buf.last_remote_time, 20 * SCALE);
    // Nor does a duplicate.
    buf.insert_snapshot(pos(4, 20), 0);
    assert_eq!(buf.last_remote_counter, 2);
    // A fresh front advances it again and records the arrival instant.
    buf.insert_snapshot(pos(5, 30), 7 * SCALE);
    assert_eq!(buf.last_remote_counter, 3);
    assert_eq!(buf.last_remote_time, 30 * SCALE);
    assert_eq!(buf.last_remote_instant, 7 * SCALE);
}

#[test]
fn duplicate_jitter_measurement() {
    // Remote times 1.0, 1.2, 1.2, 1.4: the duplicate is dropped, the gap
    // average reads exactly 0.2 and three snapshots are held.
    let settings = Settings::default();
    let mut buf: Buffer<Position> = Buffer::new(&settings);
    for (i, tenth) in [10i64, 12, 12, 14].iter().enumerate() {
        let p = Position { x: i as i64, y: 0, remote_time: tenth * SCALE / 10 };
        buf.insert_snapshot(p, 0);
    }
    assert_eq!(buf.remote_delta_time.value, Some(SCALE / 5));
    assert_eq!(buf.buf.len(), 3);
}

#[test]
fn dynamic_offset_widens_with_jitter() {
    let mut settings = Settings::default();
    settings.dynamic_playback_time = false;
    let mut buf: Buffer<Position> = Buffer::new(&settings);
    buf.insert_snapshot(pos(0, 1), 0);
    buf.insert_snapshot(pos(1, 2), 0);
    buf.insert_snapshot(pos(2, 4), 0);
    // Static offset: one period.
    assert_eq!(buf.dynamic_playback_offset(), 200_000);

    let settings = Settings::default();
    let mut buf: Buffer<Position> = Buffer::new(&settings);
    buf.insert_snapshot(pos(0, 1), 0);
    buf.insert_snapshot(pos(1, 2), 0);
    buf.insert_snapshot(pos(2, 4), 0);
    // Uneven gaps (1.0 s then 2.0 s) leave a positive deviation, widening
    // the offset beyond one period.
    assert!(buf.remote_delta_time.std_dev > 0);
    assert_eq!(
        buf.dynamic_playback_offset(),
        200_000 + buf.remote_delta_time.std_dev
    );
}
