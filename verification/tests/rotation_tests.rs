use rlr_tools::replay::AnalysisError;
use rlr_tools::rotation::{
    bump, check_team_size, make_pair_key, merge_minutes, minute_totals, CommitCooldowns,
    PlayerRotationStats, RotationFrame, DOUBLE_COMMIT_COOLDOWN, MOMENTUM_MIN_FRAMES,
};
use std::collections::HashMap;

fn frame(near_ball: bool, offensive: bool, upfield: bool, retreating: bool, far: bool) -> RotationFrame {
    RotationFrame {
        near_ball,
        offensive,
        moving_upfield: upfield,
        retreating,
        at_far_post: far,
    }
}

#[test]
fn team_size_two_and_three_are_analysed() {
    assert!(check_team_size(2).is_ok());
    assert!(check_team_size(3).is_ok());
}

#[test]
fn one_v_one_is_skipped() {
    match check_team_size(1) {
        Err(AnalysisError::Unsupported(msg)) => {
            assert_eq!(msg, "Rotation analysis requires 2v2 or 3v3 (skipping 1v1)")
        }
        other => panic!("unexpected {:?}", other),
    }
    assert!(matches!(check_team_size(0), Err(AnalysisError::Unsupported(_))));
}

#[test]
fn four_v_four_is_unsupported() {
    match check_team_size(4) {
        Err(AnalysisError::Unsupported(msg)) => {
            assert_eq!(msg, "Rotation analysis not supported for 4v4")
        }
        other => panic!("unexpected {:?}", other),
    }
}

#[test]
fn pair_key_orders_names() {
    let (a, b) = make_pair_key("zed", "amy");
    assert_eq!((a.as_str(), b.as_str()), ("amy", "zed"));
    let (a, b) = make_pair_key("amy", "zed");
    assert_eq!((a.as_str(), b.as_str()), ("amy", "zed"));
}

#[test]
fn pair_key_is_the_same_either_way() {
    for (x, y) in [("Bob", "bob"), ("ab", "a"), ("", "x"), ("same", "same"), ("ᵇᵉⁿʲi", "Keimo")] {
        assert_eq!(make_pair_key(x, y), make_pair_key(y, x));
    }
    // byte order: upper case before lower case, prefix first
    assert_eq!(make_pair_key("bob", "Bob").0, "Bob");
    assert_eq!(make_pair_key("ab", "a").0, "a");
}

#[test]
fn pair_key_follows_string_order() {
    let names = ["alpha", "Alpha", "ålpha", "alph", "z", "", "ᵇᵉⁿʲi", "b\u{10000}"];
    for x in names {
        for y in names {
            let (first, second) = make_pair_key(x, y);
            if x < y {
                assert_eq!((first.as_str(), second.as_str()), (x, y));
            } else {
                assert_eq!((first.as_str(), second.as_str()), (y, x));
            }
        }
    }
}

#[test]
fn double_commit_cooldown_per_pair() {
    let mut c = CommitCooldowns::new();
    // never charged counts as charged at frame 0
    assert!(!c.record_if_due("a", "b", 50));
    assert!(c.record_if_due("a", "b", 120));
    assert!(!c.record_if_due("b", "a", 200));
    assert!(!c.record_if_due("a", "b", 239));
    assert!(c.record_if_due("b", "a", 240));
    // another pair has its own cooldown
    assert!(c.record_if_due("a", "c", 241));
    assert!(!c.record_if_due("c", "a", 241 + DOUBLE_COMMIT_COOLDOWN - 1));
    assert!(c.record_if_due("a", "c", 241 + DOUBLE_COMMIT_COOLDOWN));
}

#[test]
fn bump_counts_per_key() {
    let mut m: HashMap<usize, usize> = HashMap::new();
    bump(&mut m, 3);
    bump(&mut m, 3);
    bump(&mut m, 0);
    assert_eq!(m.get(&3), Some(&2));
    assert_eq!(m.get(&0), Some(&1));
    assert_eq!(m.len(), 2);
}

#[test]
fn momentum_counts_each_sustained_push_once() {
    let mut s = PlayerRotationStats::new("p".to_string(), 0);
    for _ in 0..MOMENTUM_MIN_FRAMES - 1 {
        s.observe(0, frame(false, true, true, false, false));
    }
    assert_eq!(s.offensive_momentum_count, 0);
    s.observe(0, frame(false, true, true, false, false));
    assert_eq!(s.offensive_momentum_count, 1);
    for _ in 0..50 {
        s.observe(0, frame(false, true, true, false, false));
    }
    assert_eq!(s.offensive_momentum_count, 1);
    assert_eq!(s.consecutive_upfield_frames, 80);
    // leaving the push resets the run
    s.observe(1, frame(false, false, true, false, false));
    assert_eq!(s.consecutive_upfield_frames, 0);
    for _ in 0..MOMENTUM_MIN_FRAMES {
        s.observe(1, frame(false, true, true, false, false));
    }
    assert_eq!(s.offensive_momentum_count, 2);
}

#[test]
fn rotation_counters_add_up() {
    let mut s = PlayerRotationStats::new("p".to_string(), 1);
    s.observe(0, frame(true, true, false, false, false));
    s.observe(0, frame(false, false, false, true, true));
    s.observe(1, frame(true, false, false, true, false));
    s.record_chase(1);
    assert_eq!(s.frames_active, 3);
    assert_eq!(s.frames_near_ball, 2);
    assert_eq!(s.frames_offensive, 1);
    assert_eq!(s.frames_defensive, 2);
    assert_eq!(s.total_retreats, 2);
    assert_eq!(s.far_post_retreats, 1);
    assert_eq!(s.frames_chasing, 1);
    assert_eq!(s.per_minute_total_frames.get(&0), Some(&2));
    assert_eq!(s.per_minute_total_frames.get(&1), Some(&1));
    assert_eq!(s.per_minute_offensive_frames.get(&0), Some(&1));
    assert_eq!(s.per_minute_offensive_frames.get(&1), None);
    assert_eq!(s.per_minute_chase_frames.get(&1), Some(&1));
    assert_eq!(s.team, 1);
}

#[test]
fn far_post_without_retreat_is_not_counted() {
    let mut s = PlayerRotationStats::new("p".to_string(), 0);
    s.observe(0, frame(false, false, false, false, true));
    assert_eq!(s.total_retreats, 0);
    assert_eq!(s.far_post_retreats, 0);
}

#[test]
fn minutes_are_merged_sorted_and_unique() {
    let lists = vec![vec![3, 1], vec![], vec![2, 3, 0], vec![7]];
    assert_eq!(merge_minutes(&lists), vec![0, 1, 2, 3, 7]);
    assert!(merge_minutes(&Vec::new()).is_empty());
}

#[test]
fn minute_totals_sum_a_team() {
    let mut a = PlayerRotationStats::new("a".to_string(), 0);
    let mut b = PlayerRotationStats::new("b".to_string(), 0);
    let mut c = PlayerRotationStats::new("c".to_string(), 1);
    a.observe(2, frame(false, true, false, false, false));
    a.observe(2, frame(false, false, false, false, false));
    b.observe(2, frame(false, true, false, false, false));
    b.record_chase(2);
    c.observe(2, frame(false, true, false, false, false));
    let players = vec![a, b, c];
    assert_eq!(minute_totals(&players, 0, 2), (3, 2, 1));
    assert_eq!(minute_totals(&players, 1, 2), (1, 1, 0));
    assert_eq!(minute_totals(&players, 0, 5), (0, 0, 0));
}
