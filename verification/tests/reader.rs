use tcu_telemetry::frame::{encode, N_CHANNELS, START_MARKER};
use tcu_telemetry::reader::{process_chunk, reader_step, ReadEvent, StepResult};
use tcu_telemetry::register::LatestState;

#[test]
fn register_starts_all_low() {
    let reg = LatestState::new();
    assert_eq!(reg.read(), vec![false; N_CHANNELS]);
}

#[test]
fn valid_frame_updates_register_as_a_whole() {
    let mut reg = LatestState::new();
    let states = vec![true, true, false, false, true, false, true];
    let accepted = process_chunk(&mut reg, &encode(&states));
    assert!(accepted);
    assert_eq!(reg.read(), states);
}

#[test]
fn corrupt_start_marker_keeps_register() {
    let mut reg = LatestState::new();
    let states = vec![true, false, false, true, false, true, false];
    assert!(process_chunk(&mut reg, &encode(&states)));

    let mut corrupt = encode(&vec![true; N_CHANNELS]);
    corrupt[0] = 0x00;
    assert!(!process_chunk(&mut reg, &corrupt));
    assert_eq!(reg.read(), states);
}

#[test]
fn corrupt_end_marker_keeps_register() {
    let mut reg = LatestState::new();
    let states = vec![false, true, false, true, false, true, true];
    assert!(process_chunk(&mut reg, &encode(&states)));

    let mut corrupt = encode(&vec![true; N_CHANNELS]);
    let last = corrupt.len() - 1;
    corrupt[last] = 0x00;
    assert!(!process_chunk(&mut reg, &corrupt));
    assert_eq!(reg.read(), states);
}

#[test]
fn short_read_keeps_register() {
    let mut reg = LatestState::new();
    let states = vec![true, false, true, false, false, false, true];
    assert!(process_chunk(&mut reg, &encode(&states)));

    let short = vec![START_MARKER, 1, 1];
    let r = reader_step(&mut reg, &ReadEvent::Data(short));
    assert_eq!(r, StepResult::ShortRead);
    assert_eq!(reg.read(), states);
}

#[test]
fn timeout_and_fault_keep_register_and_loop() {
    let mut reg = LatestState::new();
    let states = vec![false, false, true, true, true, false, false];
    assert!(process_chunk(&mut reg, &encode(&states)));

    assert_eq!(reader_step(&mut reg, &ReadEvent::Timeout), StepResult::NoData);
    assert_eq!(reg.read(), states);
    assert_eq!(reader_step(&mut reg, &ReadEvent::Fault), StepResult::FaultLogged);
    assert_eq!(reg.read(), states);
}

#[test]
fn whole_frame_with_bad_markers_is_a_bad_frame() {
    let mut reg = LatestState::new();
    let mut corrupt = encode(&vec![true; N_CHANNELS]);
    corrupt[0] = 0x7F;
    let r = reader_step(&mut reg, &ReadEvent::Data(corrupt));
    assert_eq!(r, StepResult::BadFrame);
    assert_eq!(reg.read(), vec![false; N_CHANNELS]);
}

#[test]
fn sustained_corruption_leaves_last_valid_value_and_a_live_reader() {
    let mut reg = LatestState::new();
    let states = vec![true, false, true, true, false, true, false];
    assert!(process_chunk(&mut reg, &encode(&states)));

    let mut corrupt = encode(&vec![false; N_CHANNELS]);
    corrupt[0] = START_MARKER ^ 0x40;
    for _ in 0..1000 {
        let r = reader_step(&mut reg, &ReadEvent::Data(corrupt.clone()));
        assert_eq!(r, StepResult::BadFrame);
        assert_eq!(reg.read(), states);
    }

    let next = vec![false, true, false, false, true, false, true];
    let r = reader_step(&mut reg, &ReadEvent::Data(encode(&next)));
    assert_eq!(r, StepResult::Updated);
    assert_eq!(reg.read(), next);
}

#[test]
fn sustained_corruption_with_no_prior_frame_keeps_the_default() {
    let mut reg = LatestState::new();
    let mut corrupt = encode(&vec![true; N_CHANNELS]);
    corrupt[0] = 0x00;
    for _ in 0..1000 {
        let r = reader_step(&mut reg, &ReadEvent::Data(corrupt.clone()));
        assert_eq!(r, StepResult::BadFrame);
    }
    assert_eq!(reg.read(), vec![false; N_CHANNELS]);
}
