use rlr_tools::dribble::{
    count_snappy_corrections, count_sustained_neutral_frames, finalize_dribble_window,
    prune_challenges, record_challenge, tally_events, DribbleEvent, DribbleWindow,
    DRIBBLE_GAP_TOLERANCE, DRIBBLE_MIN_FRAMES,
};
use std::collections::HashMap;

#[test]
fn snappy_change_must_exceed_the_delta() {
    // a change of exactly 40 is not enough
    assert_eq!(count_snappy_corrections(&[128, 168, 128]), 0);
    assert_eq!(count_snappy_corrections(&[128, 169, 128]), 1);
}

#[test]
fn one_more_frame_never_lowers_sustained_neutral() {
    let mut h = vec![128u8; 29];
    assert_eq!(count_sustained_neutral_frames(&h), 0);
    h.push(128);
    assert_eq!(count_sustained_neutral_frames(&h), 30);
    h.push(5);
    assert_eq!(count_sustained_neutral_frames(&h), 30);
}

fn event(duration: usize, flick: bool, timed: bool) -> DribbleEvent {
    DribbleEvent {
        start_frame: 0,
        duration_frames: duration,
        snappy_corrections: 0,
        zero_steer_frames: 0,
        flick_detected: flick,
        flick_opponent_timed: timed,
    }
}

fn active_window(frames: usize, steer: u8) -> DribbleWindow {
    let mut w = DribbleWindow::new(10);
    for i in 0..frames {
        w.observe(10 + i, true, steer);
    }
    w
}

#[test]
fn snappy_correction_needs_a_big_change_and_a_return() {
    // jump of 72 from 128 to 200, back to neutral two frames later
    assert_eq!(count_snappy_corrections(&[128, 200, 180, 130, 128]), 1);
    // big change without a return near neutral
    assert_eq!(count_snappy_corrections(&[128, 255, 255, 255, 255, 255, 255]), 0);
    // small changes only
    assert_eq!(count_snappy_corrections(&[128, 150, 128, 110, 128]), 0);
}

#[test]
fn snappy_return_counts_from_the_change_frame() {
    // the change frame itself is near neutral: counted at once
    assert_eq!(count_snappy_corrections(&[60, 128, 128]), 1);
    // the steer only drifts back to neutral eight frames after the change:
    // too late, and no step of the drift is big enough to count
    assert_eq!(count_snappy_corrections(&[128, 0, 0, 0, 0, 30, 60, 90, 115]), 0);
    // the return on the fifth frame of the window still counts
    assert_eq!(count_snappy_corrections(&[128, 0, 0, 0, 0, 128]), 1);
}

#[test]
fn snappy_counting_continues_after_the_return() {
    assert_eq!(count_snappy_corrections(&[128, 0, 128, 0, 128]), 2);
    assert_eq!(count_snappy_corrections(&[128, 0, 128, 128, 0, 128]), 2);
    assert_eq!(count_snappy_corrections(&[]), 0);
    assert_eq!(count_snappy_corrections(&[0]), 0);
}

#[test]
fn sustained_neutral_counts_long_runs_only() {
    let mut h = vec![128u8; 29];
    assert_eq!(count_sustained_neutral_frames(&h), 0);
    h.push(128);
    assert_eq!(count_sustained_neutral_frames(&h), 30);
    h.push(127);
    h.extend(std::iter::repeat(128).take(10));
    h.push(0);
    h.extend(std::iter::repeat(128).take(31));
    assert_eq!(count_sustained_neutral_frames(&h), 61);
    assert_eq!(count_sustained_neutral_frames(&[]), 0);
}

#[test]
fn window_starts_continues_and_ends_after_the_gap() {
    let mut w = DribbleWindow::new(0);
    assert!(!w.active);
    assert!(!w.observe(5, true, 100));
    assert!(w.active);
    assert_eq!(w.start_frame, 5);
    assert!(!w.observe(6, true, 110));
    assert_eq!(w.frames, 2);
    assert_eq!(w.steer_history, vec![100, 110]);
    for i in 0..DRIBBLE_GAP_TOLERANCE {
        assert!(!w.observe(7 + i, false, 0));
    }
    assert_eq!(w.gap_frames, DRIBBLE_GAP_TOLERANCE);
    // contact again resets the gap
    assert!(!w.observe(30, true, 120));
    assert_eq!(w.gap_frames, 0);
    assert_eq!(w.frames, 3);
    for i in 0..DRIBBLE_GAP_TOLERANCE {
        assert!(!w.observe(31 + i, false, 0));
    }
    assert!(w.observe(50, false, 0));
    // frames and history are kept until finalized
    assert_eq!(w.frames, 3);
}

#[test]
fn inactive_window_ignores_frames_without_contact() {
    let mut w = DribbleWindow::new(3);
    assert!(!w.observe(4, false, 0));
    assert_eq!(w.gap_frames, 0);
    assert!(!w.active);
}

#[test]
fn restarting_a_window_clears_its_history() {
    let mut w = active_window(3, 90);
    w.active = false;
    w.observe(40, true, 77);
    assert_eq!(w.start_frame, 40);
    assert_eq!(w.frames, 1);
    assert_eq!(w.steer_history, vec![77]);
}

#[test]
fn long_dribble_is_credited_to_the_owner() {
    let mut windows = HashMap::new();
    windows.insert(7u64, active_window(DRIBBLE_MIN_FRAMES, 128));
    let mut car_to_player = HashMap::new();
    car_to_player.insert(7u64, 70u64);
    let mut events: HashMap<u64, Vec<DribbleEvent>> = HashMap::new();
    let mut challenges: HashMap<usize, Vec<(u64, usize)>> = HashMap::new();
    challenges.insert(0, vec![(9, 80)]);
    let mut teams = HashMap::new();
    teams.insert(70u64, 0usize);
    finalize_dribble_window(
        7,
        100,
        &car_to_player,
        &mut windows,
        &mut events,
        Some(true),
        &challenges,
        &teams,
    );
    assert!(!windows[&7].active);
    let list = &events[&70];
    assert_eq!(list.len(), 1);
    let e = list[0];
    assert_eq!(e.start_frame, 10);
    assert_eq!(e.duration_frames, DRIBBLE_MIN_FRAMES);
    assert_eq!(e.snappy_corrections, 0);
    assert_eq!(e.zero_steer_frames, DRIBBLE_MIN_FRAMES);
    assert!(e.flick_detected);
    assert!(e.flick_opponent_timed);
}

#[test]
fn flick_is_untimed_when_the_challenge_is_old() {
    let mut windows = HashMap::new();
    windows.insert(7u64, active_window(DRIBBLE_MIN_FRAMES, 0));
    let mut car_to_player = HashMap::new();
    car_to_player.insert(7u64, 70u64);
    let mut events: HashMap<u64, Vec<DribbleEvent>> = HashMap::new();
    let mut challenges: HashMap<usize, Vec<(u64, usize)>> = HashMap::new();
    challenges.insert(0, vec![(9, 69)]);
    let mut teams = HashMap::new();
    teams.insert(70u64, 0usize);
    finalize_dribble_window(7, 100, &car_to_player, &mut windows, &mut events, Some(true), &challenges, &teams);
    let e = events[&70][0];
    assert!(e.flick_detected);
    assert!(!e.flick_opponent_timed);
    assert_eq!(e.zero_steer_frames, 0);
}

#[test]
fn short_dribble_only_closes_the_window() {
    let mut windows = HashMap::new();
    windows.insert(7u64, active_window(DRIBBLE_MIN_FRAMES - 1, 128));
    let mut car_to_player = HashMap::new();
    car_to_player.insert(7u64, 70u64);
    let mut events: HashMap<u64, Vec<DribbleEvent>> = HashMap::new();
    finalize_dribble_window(7, 100, &car_to_player, &mut windows, &mut events, None, &HashMap::new(), &HashMap::new());
    assert!(!windows[&7].active);
    assert!(events.is_empty());
}

#[test]
fn dribble_of_unowned_car_is_not_credited() {
    let mut windows = HashMap::new();
    windows.insert(7u64, active_window(DRIBBLE_MIN_FRAMES + 5, 128));
    let mut events: HashMap<u64, Vec<DribbleEvent>> = HashMap::new();
    finalize_dribble_window(7, 100, &HashMap::new(), &mut windows, &mut events, Some(true), &HashMap::new(), &HashMap::new());
    assert!(events.is_empty());
    // and a car without a window is left alone
    finalize_dribble_window(8, 100, &HashMap::new(), &mut windows, &mut events, None, &HashMap::new(), &HashMap::new());
    assert_eq!(windows.len(), 1);
}

#[test]
fn challenges_are_recorded_against_the_other_team_and_pruned() {
    let mut c: HashMap<usize, Vec<(u64, usize)>> = HashMap::new();
    record_challenge(&mut c, 1, 11, 10);
    record_challenge(&mut c, 1, 12, 50);
    record_challenge(&mut c, 0, 21, 70);
    assert_eq!(c[&0], vec![(11, 10), (12, 50)]);
    assert_eq!(c[&1], vec![(21, 70)]);
    prune_challenges(&mut c, 71);
    assert_eq!(c[&0], vec![(12, 50)]);
    assert_eq!(c[&1], vec![(21, 70)]);
    prune_challenges(&mut c, 130);
    assert!(c[&0].is_empty());
    assert_eq!(c[&1], vec![(21, 70)]);
}

#[test]
fn tally_adds_up_events() {
    let events = vec![event(60, true, true), event(90, true, false), event(75, false, false)];
    let t = tally_events(&events);
    assert_eq!(t.dribble_count, 3);
    assert_eq!(t.total_dribble_frames, 225);
    assert_eq!(t.total_flick_count, 2);
    assert_eq!(t.timed_flick_count, 1);
    let empty = tally_events(&Vec::new());
    assert_eq!(empty.dribble_count, 0);
    assert_eq!(empty.total_dribble_frames, 0);
}
