use rlr_tools::boost;
use rlr_tools::boost::BoostTracker;
use rlr_tools::bot::{analyze_inputs, count_distinct, is_discrete_only, InputScoreBasis};
use rlr_tools::kickoff;
use rlr_tools::kickoff::sequence_difference;
use rlr_tools::replay::{
    resolve_object_id, ActorUpdate, AnalysisError, Attribute, Frame, NewActor, ReplayData,
};
use rlr_tools::synchrony;
use rlr_tools::synchrony::{compute_synchrony, value_changes, InputEvent};

const STEER: u64 = 0;
const THROTTLE: u64 = 1;
const COUNTDOWN: u64 = 2;
const BALL_HIT: u64 = 3;
const OWNER: u64 = 4;
const NAME: u64 = 5;
const BOOST: u64 = 6;
const VEHICLE: u64 = 7;
const BOOST_AMOUNT: u64 = 8;

fn object_table() -> Vec<Option<String>> {
    [
        "TAGame.Vehicle_TA:ReplicatedSteer",
        "TAGame.Vehicle_TA:ReplicatedThrottle",
        "TAGame.GameEvent_TA:ReplicatedRoundCountDownNumber",
        "TAGame.GameEvent_Soccar_TA:bBallHasBeenHit",
        "Engine.Pawn:PlayerReplicationInfo",
        "Engine.PlayerReplicationInfo:PlayerName",
        "TAGame.CarComponent_Boost_TA:ReplicatedBoost",
        "TAGame.CarComponent_TA:Vehicle",
        "TAGame.CarComponent_Boost_TA:ReplicatedBoostAmount",
    ]
    .iter()
    .map(|s| Some(s.to_string()))
    .collect()
}

fn blank() -> Attribute {
    Attribute {
        string: None,
        active_actor: None,
        byte: None,
        int: None,
        boolean: None,
        flagged_int: None,
        boost_amount: None,
        grant_count: None,
    }
}

fn update(actor: u64, object: u64, attribute: Attribute) -> ActorUpdate {
    ActorUpdate { actor_id: Some(actor), object_id: Some(object), attribute }
}

fn name(actor: u64, n: &str) -> ActorUpdate {
    update(actor, NAME, Attribute { string: Some(n.to_string()), ..blank() })
}

fn owner(car: u64, player: u64) -> ActorUpdate {
    update(car, OWNER, Attribute { active_actor: Some(player), ..blank() })
}

fn byte(actor: u64, object: u64, v: u64) -> ActorUpdate {
    update(actor, object, Attribute { byte: Some(v), ..blank() })
}

fn countdown(v: i64) -> ActorUpdate {
    update(1, COUNTDOWN, Attribute { int: Some(v), ..blank() })
}

fn frame(ups: Vec<ActorUpdate>) -> Frame {
    Frame { new_actors: Vec::new(), deleted_actors: Vec::new(), updated_actors: Some(ups) }
}

fn empty_frame() -> Frame {
    frame(Vec::new())
}

fn replay(frames: Vec<Frame>) -> ReplayData {
    ReplayData { objects: Some(object_table()), frames: Some(frames) }
}

// ---------------------------------------------------------------------------
// Object lookup
// ---------------------------------------------------------------------------

#[test]
fn object_id_is_first_position_of_the_name() {
    let mut objects = object_table();
    objects.push(None);
    objects.push(Some("TAGame.Vehicle_TA:ReplicatedSteer".to_string()));
    assert_eq!(resolve_object_id(&objects, "TAGame.Vehicle_TA:ReplicatedSteer"), Some(0));
    assert_eq!(resolve_object_id(&objects, "Engine.PlayerReplicationInfo:PlayerName"), Some(5));
    assert_eq!(resolve_object_id(&objects, "Nothing"), None);
    assert_eq!(resolve_object_id(&[], "Nothing"), None);
}

// ---------------------------------------------------------------------------
// Kickoff analysis
// ---------------------------------------------------------------------------

fn kickoff_replay() -> ReplayData {
    let mut frames = vec![frame(vec![name(100, "Alice"), owner(10, 100), countdown(3)])];
    // frame 1: kickoff, already on full throttle
    frames.push(frame(vec![countdown(0), byte(10, THROTTLE, 255)]));
    frames.push(frame(vec![byte(10, STEER, 200)]));
    frames.push(empty_frame());
    frames.push(empty_frame());
    // frame 5: ball hit
    frames.push(frame(vec![update(1, BALL_HIT, Attribute { boolean: Some(true), ..blank() })]));
    for _ in 6..10 {
        frames.push(empty_frame());
    }
    // frame 10: countdown again; frame 11: second kickoff
    frames.push(frame(vec![countdown(3)]));
    frames.push(frame(vec![countdown(0), byte(10, THROTTLE, 128)]));
    frames.push(empty_frame());
    frames.push(empty_frame());
    frames.push(frame(vec![byte(10, THROTTLE, 255)]));
    replay(frames)
}

#[test]
fn kickoffs_are_found_and_summarised() {
    let report = kickoff::analyze(&kickoff_replay()).expect("analysis runs");
    assert_eq!(report.kickoff_count, 2);
    assert_eq!(report.players.len(), 1);
    let alice = &report.players[0];
    assert_eq!(alice.player_id, 100);
    assert_eq!(alice.name.as_deref(), Some("Alice"));
    assert_eq!(alice.reaction_frames, vec![Some(0), Some(3)]);
    assert_eq!(alice.pre_hold_count, 1);
}

#[test]
fn kickoff_sequences_are_interpolated_per_frame() {
    let report = kickoff::analyze(&kickoff_replay()).expect("analysis runs");
    let alice = &report.players[0];
    // the first kickoff ends with the ball hit after 4 frames: too short
    assert_eq!(alice.throttle_sequences.len(), 1);
    assert_eq!(alice.steer_sequences.len(), 1);
    let throttle = &alice.throttle_sequences[0];
    assert_eq!(throttle.len(), 200);
    assert_eq!(&throttle[..4], &[128, 128, 128, 255]);
    assert!(throttle[3..].iter().all(|&v| v == 255));
    assert!(alice.steer_sequences[0].iter().all(|&v| v == 128));
}

#[test]
fn inputs_after_the_window_are_not_recorded() {
    let mut frames = vec![frame(vec![name(100, "Bob"), owner(10, 100)])];
    frames.push(frame(vec![countdown(0)]));
    for _ in 2..202 {
        frames.push(empty_frame());
    }
    // frame 202 is 201 frames after the kickoff: the window has closed
    frames.push(frame(vec![byte(10, THROTTLE, 255)]));
    let report = kickoff::analyze(&replay(frames)).expect("analysis runs");
    assert_eq!(report.kickoff_count, 1);
    assert!(report.players.is_empty());
}

#[test]
fn last_input_of_the_window_is_recorded() {
    let mut frames = vec![frame(vec![name(100, "Bob"), owner(10, 100)])];
    frames.push(frame(vec![countdown(0)]));
    for _ in 2..201 {
        frames.push(empty_frame());
    }
    frames.push(frame(vec![byte(10, THROTTLE, 0)]));
    let report = kickoff::analyze(&replay(frames)).expect("analysis runs");
    assert_eq!(report.players.len(), 1);
    assert_eq!(report.players[0].reaction_frames, vec![Some(200)]);
    assert_eq!(report.players[0].pre_hold_count, 0);
}

#[test]
fn the_ball_hit_ends_the_kickoff_window() {
    let frames = vec![
        frame(vec![name(100, "Cat"), owner(10, 100), name(200, "Dan"), owner(20, 200)]),
        frame(vec![countdown(0), byte(10, THROTTLE, 255)]),
        frame(vec![update(1, BALL_HIT, Attribute { boolean: Some(true), ..blank() }), byte(20, THROTTLE, 255)]),
        frame(vec![byte(20, THROTTLE, 0)]),
    ];
    let report = kickoff::analyze(&replay(frames)).expect("analysis runs");
    assert_eq!(report.kickoff_count, 1);
    // Dan's inputs came after the hit: he took no part in the kickoff
    assert_eq!(report.players.len(), 1);
    assert_eq!(report.players[0].player_id, 100);
    assert_eq!(report.players[0].reaction_frames, vec![Some(0)]);
}

#[test]
fn repeated_zero_countdown_is_one_kickoff() {
    let frames = vec![
        frame(vec![countdown(0)]),
        frame(vec![countdown(0)]),
        frame(vec![countdown(1), countdown(0)]),
    ];
    let report = kickoff::analyze(&replay(frames)).expect("analysis runs");
    assert_eq!(report.kickoff_count, 2);
}

#[test]
fn kickoff_analysis_errors() {
    assert!(matches!(
        kickoff::analyze(&ReplayData { objects: None, frames: Some(Vec::new()) }),
        Err(AnalysisError::MissingObjects)
    ));
    assert!(matches!(
        kickoff::analyze(&ReplayData { objects: Some(object_table()), frames: None }),
        Err(AnalysisError::MissingFrames)
    ));
    let mut objects = object_table();
    objects[2] = None;
    match kickoff::analyze(&ReplayData { objects: Some(objects), frames: Some(Vec::new()) }) {
        Err(AnalysisError::MissingObject(m)) => assert_eq!(m, "CountDown not found"),
        other => panic!("unexpected {:?}", other.map(|r| r.kickoff_count)),
    }
    let mut objects = object_table();
    objects[0] = None;
    objects[5] = None;
    match kickoff::analyze(&ReplayData { objects: Some(objects), frames: None }) {
        Err(AnalysisError::MissingObject(m)) => assert_eq!(m, "ReplicatedSteer not found"),
        other => panic!("unexpected {:?}", other.map(|r| r.kickoff_count)),
    }
}

#[test]
fn sequence_difference_sums_over_the_common_length() {
    assert_eq!(sequence_difference(&[0, 255, 10], &[255, 0]), (510, 2));
    assert_eq!(sequence_difference(&[5, 5], &[5, 5, 9]), (0, 2));
    assert_eq!(sequence_difference(&[], &[1]), (0, 0));
}

// ---------------------------------------------------------------------------
// Boost analysis
// ---------------------------------------------------------------------------

fn boost_update(component: u64, amount: u64, grant: u64) -> ActorUpdate {
    update(
        component,
        BOOST,
        Attribute { boost_amount: Some(amount), grant_count: Some(grant), ..blank() },
    )
}

#[test]
fn boost_is_tracked_per_player() {
    let frames = vec![
        frame(vec![
            name(100, "Alice"),
            owner(10, 100),
            update(50, VEHICLE, Attribute { active_actor: Some(10), ..blank() }),
        ]),
        frame(vec![boost_update(50, 85, 0)]),
        frame(vec![boost_update(50, 255, 1)]),
        frame(vec![boost_update(50, 200, 1)]),
        frame(vec![boost_update(50, 0, 1)]),
        frame(vec![boost_update(50, 30, 2)]),
        // an unlinked component is ignored
        frame(vec![boost_update(51, 255, 9)]),
    ];
    let results = boost::analyze(&replay(frames)).expect("analysis runs");
    assert_eq!(results.len(), 1);
    let r = &results[0];
    assert_eq!(r.player_id, 100);
    assert_eq!(r.name.as_deref(), Some("Alice"));
    assert_eq!(r.total_samples, 5);
    assert_eq!(r.sample_sum, 570);
    assert_eq!(r.zero_count, 1);
    assert_eq!(r.full_count, 1);
    assert_eq!(r.boost_collected, 200);
    assert_eq!(r.boost_consumed, 255);
    assert_eq!(r.big_pad_pickups, 1);
    assert_eq!(r.small_pad_pickups, 1);
}

#[test]
fn older_boost_format_uses_jump_heuristics() {
    let mut t = BoostTracker::new();
    t.record(170, None); // +85: big jump but not to full
    t.record(255, None); // +85 to full: big pad
    t.record(100, None);
    t.record(105, None); // +5: too small
    t.record(120, None); // +15: small pad
    assert_eq!(t.big_pad_pickups, 0 + 1);
    assert_eq!(t.small_pad_pickups, 2);
    assert_eq!(t.boost_collected, 85 + 85 + 5 + 15);
    assert_eq!(t.boost_consumed, 155);
    // balance: collected - consumed = last - start
    assert_eq!(t.boost_collected as i128 - t.boost_consumed as i128, 120 - 85);
}

#[test]
fn grant_count_decides_pickups_in_newer_format() {
    let mut t = BoostTracker::new();
    t.record(90, Some(1)); // count grew, rise of 5: no pickup
    t.record(255, Some(1)); // count unchanged: no pickup
    t.record(255, Some(2)); // count grew, full: big pad
    assert_eq!(t.big_pad_pickups, 1);
    assert_eq!(t.small_pad_pickups, 0);
}

#[test]
fn boost_analysis_errors() {
    let mut objects = object_table();
    objects[6] = None;
    objects[8] = None;
    match boost::analyze(&ReplayData { objects: Some(objects), frames: Some(Vec::new()) }) {
        Err(AnalysisError::Unsupported(m)) => assert_eq!(
            m,
            "no boost data found (neither ReplicatedBoost nor ReplicatedBoostAmount)"
        ),
        other => panic!("unexpected {:?}", other.map(|r| r.len())),
    }
    let mut objects = object_table();
    objects[7] = None;
    match boost::analyze(&ReplayData { objects: Some(objects), frames: Some(Vec::new()) }) {
        Err(AnalysisError::MissingObject(m)) => assert_eq!(m, "Vehicle link not found"),
        other => panic!("unexpected {:?}", other.map(|r| r.len())),
    }
    assert!(matches!(
        boost::analyze(&ReplayData { objects: Some(object_table()), frames: None }),
        Err(AnalysisError::MissingFrames)
    ));
}

// ---------------------------------------------------------------------------
// Input diversity
// ---------------------------------------------------------------------------

#[test]
fn discrete_values_are_zero_center_and_full() {
    assert!(is_discrete_only(&[0, 128, 255, 0]));
    assert!(is_discrete_only(&[]));
    assert!(!is_discrete_only(&[0, 127]));
}

#[test]
fn distinct_values_are_counted_once() {
    assert_eq!(count_distinct(&[3, 3, 1, 255, 1]), 3);
    assert_eq!(count_distinct(&[]), 0);
    let all: Vec<u8> = (0..=255).collect();
    assert_eq!(count_distinct(&all), 256);
}

#[test]
fn keyboard_player_goes_to_the_timing_path() {
    let mut ups = vec![name(100, "Keys"), owner(10, 100), name(200, "Pad"), owner(20, 200)];
    for i in 0..12u64 {
        ups.push(byte(10, STEER, [0, 128, 255][(i % 3) as usize]));
        ups.push(byte(10, THROTTLE, [0, 255][(i % 2) as usize]));
    }
    for i in 0..5u64 {
        ups.push(byte(20, STEER, 100 + i));
    }
    let stats = analyze_inputs(&replay(vec![frame(ups)])).expect("analysis runs");
    assert_eq!(stats.len(), 2);
    let keys = &stats[0];
    assert_eq!(keys.name, "Keys");
    assert_eq!(keys.unique_steer_count, 3);
    assert_eq!(keys.unique_throttle_count, 2);
    assert_eq!(keys.total_steer_updates, 12);
    assert!(keys.steer_only_discrete && keys.throttle_only_discrete);
    assert!(matches!(keys.basis, InputScoreBasis::DiscreteOnly));
    assert_eq!((keys.asymmetry_high, keys.asymmetry_low), (3, 2));
    let pad = &stats[1];
    assert!(matches!(pad.basis, InputScoreBasis::TooFewSamples));
    assert_eq!(pad.unique_steer_count, 5);
    assert!(!pad.is_spectator);
}

#[test]
fn analog_player_is_scored_on_diversity() {
    let mut ups = vec![name(100, "Analog"), owner(10, 100)];
    for i in 0..20u64 {
        ups.push(byte(10, STEER, i * 7));
        ups.push(byte(10, THROTTLE, 200));
    }
    let stats = analyze_inputs(&replay(vec![frame(ups)])).expect("analysis runs");
    match stats[0].basis {
        InputScoreBasis::Diversity { unique_total } => assert_eq!(unique_total, 21),
        other => panic!("unexpected {:?}", other),
    }
}

#[test]
fn input_analysis_errors() {
    let mut objects = object_table();
    objects[1] = None;
    match analyze_inputs(&ReplayData { objects: Some(objects), frames: Some(Vec::new()) }) {
        Err(AnalysisError::MissingObject(m)) => {
            assert_eq!(m, "ReplicatedThrottle not found in objects")
        }
        other => panic!("unexpected {:?}", other.map(|r| r.len())),
    }
    assert!(matches!(
        analyze_inputs(&ReplayData { objects: None, frames: None }),
        Err(AnalysisError::MissingObjects)
    ));
}

// ---------------------------------------------------------------------------
// Input synchrony
// ---------------------------------------------------------------------------

fn ev(frame_idx: usize, value: u8) -> InputEvent {
    InputEvent { frame_idx, value }
}

#[test]
fn value_changes_pair_consecutive_different_values() {
    let events = [ev(1, 0), ev(2, 0), ev(4, 255), ev(9, 128)];
    assert_eq!(value_changes(&events), vec![(2, 4), (4, 9)]);
    assert!(value_changes(&[ev(1, 3)]).is_empty());
}

#[test]
fn synchrony_counts_frames_with_two_changes() {
    let steer = [ev(1, 0), ev(2, 255), ev(3, 0), ev(5, 255)];
    let throttle = [ev(1, 0), ev(2, 255), ev(4, 0), ev(5, 0)];
    // steer changes at 2, 3, 5; throttle at 2, 4
    assert_eq!(compute_synchrony(&steer, &throttle), (1, 4));
    assert_eq!(compute_synchrony(&[], &[]), (0, 0));
}

#[test]
fn synchrony_facts_per_player() {
    let mut frames = vec![frame(vec![name(100, "Sync"), owner(10, 100)])];
    for i in 0..12u64 {
        let v = if i % 2 == 0 { 0 } else { 255 };
        frames.push(frame(vec![byte(10, STEER, v), byte(10, THROTTLE, v)]));
    }
    let facts = synchrony::analyze(&replay(frames)).expect("analysis runs");
    assert_eq!(facts.len(), 1);
    let f = &facts[0];
    assert_eq!(f.name.as_deref(), Some("Sync"));
    assert!(f.is_discrete_only);
    assert!(f.has_enough_data);
    assert_eq!(f.steer_events.len(), 12);
    assert_eq!(f.steer_changes.len(), 11);
    assert_eq!(f.simultaneous_changes, 11);
    assert_eq!(f.total_change_frames, 11);
}

#[test]
fn new_and_deleted_actors_do_not_disturb_the_scans() {
    let mut first = frame(vec![name(100, "A"), owner(10, 100)]);
    first.new_actors.push(NewActor { actor_id: Some(10), object_id: Some(99) });
    first.deleted_actors.push(Some(3));
    let frames = vec![first, Frame { new_actors: Vec::new(), deleted_actors: Vec::new(), updated_actors: None }];
    let facts = synchrony::analyze(&replay(frames)).expect("analysis runs");
    assert_eq!(facts.len(), 1);
    assert!(!facts[0].has_enough_data);
}
