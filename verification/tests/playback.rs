//! End-to-end tests of the playback: steady state, hard clamp,
//! extrapolation and speed control.

use snapshot::Buffer;
use snapshot::Playback;
use snapshot::Position;
use snapshot::SCALE;
use snapshot::Settings;

fn pos(x: i64, remote_time: i64) -> Position {
    Position { x, y: 0, remote_time }
}

#[test]
fn step_on_empty_buffer_returns_none() {
    let settings = Settings::default();
    let buf: Buffer<Position> = Buffer::new(&settings);
    let mut play = Playback::new(&buf);
    assert!(play.step(200_000, &buf, 0).is_none());
    assert!(play.step(200_000, &buf, 200_000).is_none());
}

#[test]
fn steady_state_settles_inside_dead_band() {
    // One hundred snapshots at exact 0.2 s spacing, one step between each,
    // local clock in lockstep with the remote.  The playback settles with
    // timescale 1.0, a fixed distance behind the newest snapshot that lies
    // within the half-period dead band of the target.
    let settings = Settings::default();
    let mut buf: Buffer<Position> = Buffer::new(&settings);
    let mut play = Playback::new(&buf);
    let mut last = None;
    for k in 1..=100i64 {
        let now = 200_000 * k;
        buf.insert_snapshot(pos(k, 200_000 * k), now);
        last = play.step(200_000, &buf, now);
    }
    assert!(last.is_some());
    let target = buf.buf[0].remote_time - 200_000;
    assert_eq!(play.timescale, SCALE);
    assert!((play.playback_time - target).abs() <= 100_000);
    // The settling point is deterministic: 0.080 s ahead of the target.
    assert_eq!(play.playback_time - target, 80_000);
    assert_eq!(play.playback_time, 19_880_000);
}

#[test]
fn hard_clamp_snaps_into_band() {
    // A single snapshot at remote time 1000.0 while the playback is at 0:
    // the step clamps the playback time to target - clamp and flags it.
    let settings = Settings::default();
    let mut buf: Buffer<Position> = Buffer::new(&settings);
    let mut play = Playback::new(&buf);
    buf.insert_snapshot(pos(1, 1000 * SCALE), 0);
    let r = play.step(200_000, &buf, 0);
    // Target is 1000.0 - 0.2; the playback lands within one clamp of it.
    let target = 1000 * SCALE - 200_000;
    assert!(play.playback_time >= target - 200_000);
    assert!(play.playback_time <= target + 200_000);
    assert_eq!(play.playback_time, 999_600_000);
    assert_eq!(play.db_clamping_ema.value, Some(SCALE));
    // Far behind the target: the catch-up average is at +clamp, above the
    // fast threshold, so the playback hastens.
    assert_eq!(play.timescale, 1_020_000);
    // With no bracketing pair the newest snapshot is returned as-is.
    assert_eq!(r.unwrap().x, 1);
}

#[test]
fn extrapolation_is_capped() {
    // Two snapshots at 10.0 and 10.2; the local clock then jumps 5 s with
    // no further packets, overrunning the buffer.  The returned value is
    // produced by interpolate with t capped at 2.5.
    let settings = Settings::default();
    let mut buf: Buffer<Position> = Buffer::new(&settings);
    let mut play = Playback::new(&buf);
    buf.insert_snapshot(pos(0, 10_000_000), 10_000_000);
    buf.insert_snapshot(pos(1 * SCALE, 10_200_000), 10_200_000);
    play.step(200_000, &buf, 10_200_000);
    assert_eq!(play.playback_time, 9_800_000);
    let r = play.step(5_000_000, &buf, 15_200_000).unwrap();
    assert_eq!(play.playback_time, 14_900_000);
    // t = 2.5 between x = 0 (at 10.0) and x = 1.0 (at 10.2): x = 2.5.
    assert_eq!(r.x, 2_500_000);
    // The extrapolation diagnostic rises toward 1.0 on the next insert.
    buf.insert_snapshot(pos(2 * SCALE, 15_400_000), 15_400_000);
    play.step(200_000, &buf, 15_400_000);
    let db = play.db_extrapolating_ema.value.unwrap();
    assert!(db > 900_000);
    assert_eq!(db, 960_785);
}

#[test]
fn slow_recovery_when_ahead_of_target() {
    // A snapshot whose remote time is just behind the playback time puts
    // the target behind the playback: after the clamp the catch-up average
    // sits at -clamp, below the slow threshold, so the playback slows.
    let settings = Settings::default();
    let mut buf: Buffer<Position> = Buffer::new(&settings);
    let mut play = Playback::new(&buf);
    buf.insert_snapshot(pos(1, 100_000), 100_000);
    play.step(200_000, &buf, 100_000);
    assert_eq!(play.playback_time, 100_000);
    assert_eq!(play.catchup_time.value, Some(-200_000));
    assert_eq!(play.timescale, 960_000);
    assert_eq!(play.db_clamping_ema.value, Some(SCALE));
}

#[test]
fn fast_recovery_when_behind_target() {
    // Symmetrically, a snapshot far ahead leaves the playback behind the
    // target: the catch-up average sits at +clamp, above the fast
    // threshold, and the playback hastens.
    let settings = Settings::default();
    let mut buf: Buffer<Position> = Buffer::new(&settings);
    let mut play = Playback::new(&buf);
    buf.insert_snapshot(pos(1, 50 * SCALE), 50 * SCALE);
    play.step(200_000, &buf, 50 * SCALE);
    assert_eq!(play.catchup_time.value, Some(200_000));
    assert_eq!(play.timescale, 1_020_000);
}

#[test]
fn interpolates_between_bracketing_pair() {
    // Playback time lands between two snapshots: the result is the linear
    // blend at the corresponding t.
    let settings = Settings::default();
    let mut buf: Buffer<Position> = Buffer::new(&settings);
    buf.insert_snapshot(pos(0, 1_000_000), 1_000_000);
    buf.insert_snapshot(pos(1_000_000, 2_000_000), 2_000_000);
    let mut play = Playback::new(&buf);
    // Drive the playback time to 1.5 s without a counter edge: the
    // playback was created after the inserts, so no clamp interferes.
    let r = play.step(1_500_000, &buf, 2_000_000).unwrap();
    assert_eq!(play.playback_time, 1_500_000);
    // Half-way between x = 0 and x = 1.0.
    assert_eq!(r.x, 500_000);
    assert_eq!(r.remote_time, 1_500_000);
}
