use tcu_telemetry::frame::{encode, N_CHANNELS};
use tcu_telemetry::reader::process_chunk;
use tcu_telemetry::register::LatestState;
use tcu_telemetry::store::{ChannelStore, Sample, WindowedStore};

#[test]
fn window_is_empty_before_the_first_tick() {
    let ch = ChannelStore::new();
    assert_eq!(ch.visible_samples(), vec![]);
    assert_eq!(ch.sample_count(), 0);
}

#[test]
fn first_tick_appends_and_publishes_one_sample() {
    let mut ch = ChannelStore::new();
    ch.tick(0, true, 10_000);
    assert_eq!(ch.sample_count(), 1);
    assert_eq!(ch.visible_samples(), vec![Sample { time_ms: 0, high: true }]);
}

#[test]
fn window_keeps_only_the_most_recent_span() {
    let mut ch = ChannelStore::new();
    for t in 0..10u64 {
        ch.tick(t * 100, t % 2 == 0, 300);
    }
    // now = 900, window = 300 ms: samples stamped 600..=900 stay visible.
    let visible = ch.visible_samples();
    assert_eq!(visible.len(), 4);
    assert_eq!(visible[0].time_ms, 600);
    assert_eq!(visible[3].time_ms, 900);
    assert!(visible[0].time_ms >= 900 - 300);
    assert_eq!(ch.sample_count(), 10);
}

#[test]
fn window_larger_than_history_keeps_it_all() {
    let mut ch = ChannelStore::new();
    for t in 0..5u64 {
        ch.tick(t * 100, false, 60_000);
    }
    assert_eq!(ch.visible_samples().len(), 5);
}

#[test]
fn oldest_visible_is_within_window_and_newest_is_the_tick() {
    let mut ch = ChannelStore::new();
    let window = 250u64;
    for t in 0..20u64 {
        let now = t * 50;
        ch.tick(now, true, window);
        let visible = ch.visible_samples();
        let newest = visible.last().unwrap();
        assert_eq!(newest.time_ms, now);
        let oldest = visible.first().unwrap();
        assert!(oldest.time_ms >= now.saturating_sub(window));
    }
}

#[test]
fn shrinking_the_window_shrinks_the_next_tick() {
    let mut ch = ChannelStore::new();
    for t in 0..10u64 {
        ch.tick(t * 100, false, 10_000);
    }
    assert_eq!(ch.visible_samples().len(), 10);
    // The size shrinks from 10 s to 200 ms; the very next tick reflects it.
    ch.tick(1000, false, 200);
    let visible = ch.visible_samples();
    assert_eq!(visible.len(), 3);
    assert_eq!(visible[0].time_ms, 800);
    assert_eq!(visible[2].time_ms, 1000);
}

#[test]
fn growing_the_window_brings_history_back() {
    let mut ch = ChannelStore::new();
    for t in 0..10u64 {
        ch.tick(t * 100, false, 200);
    }
    assert_eq!(ch.visible_samples().len(), 3);
    ch.tick(1000, false, 10_000);
    assert_eq!(ch.visible_samples().len(), 11);
}

#[test]
fn end_to_end_frame_to_window() {
    let states = vec![true, false, true, false, true, false, true];
    let frame = encode(&states);

    let mut reg = LatestState::new();
    assert!(process_chunk(&mut reg, &frame));
    assert_eq!(reg.read(), states);

    let mut store = WindowedStore::new();
    store.tick(5, &reg, 10_000);
    for i in 0..N_CHANNELS {
        let visible = store.channel(i).visible_samples();
        assert_eq!(visible, vec![Sample { time_ms: 5, high: states[i] }]);
    }
}

#[test]
fn ticks_may_repeat_a_register_value() {
    let mut reg = LatestState::new();
    let states = vec![false, true, false, true, false, true, false];
    assert!(process_chunk(&mut reg, &encode(&states)));

    let mut store = WindowedStore::new();
    store.tick(0, &reg, 10_000);
    store.tick(1, &reg, 10_000);
    for i in 0..N_CHANNELS {
        let visible = store.channel(i).visible_samples();
        assert_eq!(visible.len(), 2);
        assert_eq!(visible[0].high, states[i]);
        assert_eq!(visible[1].high, states[i]);
    }
}
