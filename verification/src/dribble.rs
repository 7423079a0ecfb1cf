//! Dribble analysis, the integer side: the per-car dribble window, what a
//! finished dribble records, and the steering habits counted in it.
//!
//! Whether the ball sits on a car, and whether a flick happened, are
//! geometric questions a caller answers from positions; this module takes
//! the answers.

use std::collections::HashMap;
use vstd::prelude::*;

verus! {

/// Minimum length of a dribble, in frames (about half a second).
pub const DRIBBLE_MIN_FRAMES: usize = 60;

/// Frames without ball contact a dribble survives.
pub const DRIBBLE_GAP_TOLERANCE: usize = 15;

/// A steer change larger than this may start a snappy correction.
pub const SNAPPY_STEER_DELTA: u8 = 40;

/// The steer must come back near neutral within this many frames.
pub const SNAPPY_RETURN_FRAMES: usize = 5;

/// "Near neutral": within this distance of 128.
pub const SNAPPY_NEUTRAL_TOLERANCE: u8 = 15;

/// Steer at rest.
pub const STEER_NEUTRAL: u8 = 128;

/// Runs of exact neutral steer at least this long count as sustained.
pub const SUSTAINED_NEUTRAL_MIN: usize = 30;

/// A flick counts as timed when an opponent challenged within this many
/// frames before the dribble ended.
pub const FLICK_TIMING_WINDOW: usize = 30;

/// `|a - b|` for bytes.
pub open spec fn byte_distance(a: u8, b: u8) -> int {
    if a >= b {
        a - b
    } else {
        b - a
    }
}

/// The first position `j` in `[i, end)` where the steer is near neutral.
pub open spec fn first_return(h: Seq<u8>, i: nat, end: nat) -> Option<nat>
    decreases end - i,
{
    if i >= end || i >= h.len() {
        None
    } else if byte_distance(h[i as int], STEER_NEUTRAL) <= SNAPPY_NEUTRAL_TOLERANCE {
        Some(i)
    } else {
        first_return(h, i + 1, end)
    }
}

/// Snappy corrections from position `i` on: a steer change of more than
/// `SNAPPY_STEER_DELTA` from the previous frame that returns near neutral
/// within `SNAPPY_RETURN_FRAMES` frames (counting from the change) is one
/// correction; counting resumes after the frame that follows the return.
pub open spec fn snappy_from(h: Seq<u8>, i: nat) -> nat
    decreases (if i < h.len() { h.len() - i } else { 0 }),
{
    if i == 0 || i >= h.len() {
        0
    } else if byte_distance(h[i as int], h[i - 1]) > SNAPPY_STEER_DELTA {
        let end: nat = if i + SNAPPY_RETURN_FRAMES <= h.len() {
            (i + SNAPPY_RETURN_FRAMES) as nat
        } else {
            h.len()
        };
        match first_return(h, i, end) {
            Some(j) => if j + 2 > i {
                1 + snappy_from(h, j + 2)
            } else {
                0
            },
            None => snappy_from(h, i + 1),
        }
    } else {
        snappy_from(h, i + 1)
    }
}

proof fn lemma_first_return_in_range(h: Seq<u8>, i: nat, end: nat)
    ensures
        first_return(h, i, end) matches Some(j) ==> i <= j < end && j < h.len()
            && byte_distance(h[j as int], STEER_NEUTRAL) <= SNAPPY_NEUTRAL_TOLERANCE,
        first_return(h, i, end) is None ==> forall|j: int|
            i <= j < end && j < h.len() ==> byte_distance(h[j], STEER_NEUTRAL)
                > SNAPPY_NEUTRAL_TOLERANCE,
    decreases end - i,
{
    if i < end && i < h.len() {
        lemma_first_return_in_range(h, i + 1, end);
    }
}

proof fn lemma_snappy_from_le(h: Seq<u8>, i: nat)
    ensures
        snappy_from(h, i) <= h.len(),
    decreases (if i < h.len() { h.len() - i } else { 0 }),
{
    if i == 0 || i >= h.len() {
    } else {
        lemma_snappy_from_le(h, i + 1);
        let end: nat = if i + SNAPPY_RETURN_FRAMES <= h.len() {
            (i + SNAPPY_RETURN_FRAMES) as nat
        } else {
            h.len()
        };
        lemma_first_return_in_range(h, i, end);
        if let Some(j) = first_return(h, i, end) {
            lemma_snappy_from_bound(h, j + 2);
        }
    }
}

proof fn lemma_snappy_from_bound(h: Seq<u8>, i: nat)
    ensures
        1 <= i <= h.len() + 1 ==> snappy_from(h, i) + i <= h.len() + 1,
    decreases (if i < h.len() { h.len() - i } else { 0 }),
{
    if i == 0 || i >= h.len() {
    } else {
        lemma_snappy_from_bound(h, i + 1);
        let end: nat = if i + SNAPPY_RETURN_FRAMES <= h.len() {
            (i + SNAPPY_RETURN_FRAMES) as nat
        } else {
            h.len()
        };
        lemma_first_return_in_range(h, i, end);
        if let Some(j) = first_return(h, i, end) {
            lemma_snappy_from_bound(h, j + 2);
        }
    }
}

fn distance_to(a: u8, b: u8) -> (d: u8)
    ensures
        d == byte_distance(a, b),
{
    if a >= b {
        a - b
    } else {
        b - a
    }
}

/// Counts the snappy corrections in a dribble's steer history: changes of
/// more than `SNAPPY_STEER_DELTA` from one frame to the next that come back
/// near neutral in time (see `snappy_from`).
pub fn count_snappy_corrections(steer_history: &[u8]) -> (count: usize)
    ensures
        count == snappy_from(steer_history@, 1),
{
    let ghost h = steer_history@;
    let mut count: usize = 0;
    let mut i: usize = 1;
    proof {
        lemma_snappy_from_bound(h, 1);
    }
    while i < steer_history.len()
        invariant
            h == steer_history@,
            i >= 1,
            count + snappy_from(h, i as nat) == snappy_from(h, 1),
            snappy_from(h, 1) <= h.len(),
            snappy_from(h, i as nat) + i <= h.len() + 1,
        decreases h.len() - i,
    {
        let prev = steer_history[i - 1];
        let curr = steer_history[i];
        let delta = distance_to(curr, prev);
        let ghost end: nat = if i + SNAPPY_RETURN_FRAMES <= h.len() {
            (i + SNAPPY_RETURN_FRAMES) as nat
        } else {
            h.len()
        };
        proof {
            lemma_first_return_in_range(h, i as nat, end);
            lemma_snappy_from_bound(h, i as nat + 1);
        }
        if delta > SNAPPY_STEER_DELTA {
            let window_end = if steer_history.len() - i >= SNAPPY_RETURN_FRAMES {
                i + SNAPPY_RETURN_FRAMES
            } else {
                steer_history.len()
            };
            let mut j = i;
            let mut found = false;
            while !found && j < window_end
                invariant
                    h == steer_history@,
                    i <= j <= window_end,
                    window_end == end,
                    window_end <= h.len(),
                    first_return(h, i as nat, end) == first_return(h, j as nat, end),
                    found ==> j < window_end && byte_distance(h[j as int], STEER_NEUTRAL)
                        <= SNAPPY_NEUTRAL_TOLERANCE,
                decreases window_end - j, (if found { 0int } else { 1int }),
            {
                if distance_to(steer_history[j], STEER_NEUTRAL) <= SNAPPY_NEUTRAL_TOLERANCE {
                    found = true;
                } else {
                    j = j + 1;
                }
            }
            if found {
                proof {
                    lemma_snappy_from_bound(h, j as nat + 2);
                    assert(first_return(h, j as nat, end) == Some(j as nat));
                    assert(snappy_from(h, i as nat) == 1 + snappy_from(h, j as nat + 2));
                }
                count = count + 1;
                // resume after the frame that follows the return
                i = if j + 1 < steer_history.len() {
                    j + 2
                } else {
                    steer_history.len()
                };
                continue;
            }
        }
        i = i + 1;
    }
    count
}


/// Frames at exact neutral steer that lie in runs of at least
/// `SUSTAINED_NEUTRAL_MIN`, from position `i` on, given that the `run`
/// frames just before `i` were neutral.
pub open spec fn sustained_from(h: Seq<u8>, i: nat, run: nat) -> nat
    decreases h.len() - i,
{
    if i >= h.len() {
        if run >= SUSTAINED_NEUTRAL_MIN {
            run
        } else {
            0
        }
    } else if h[i as int] == STEER_NEUTRAL {
        sustained_from(h, i + 1, run + 1)
    } else {
        (if run >= SUSTAINED_NEUTRAL_MIN {
            run
        } else {
            0
        }) + sustained_from(h, i + 1, 0)
    }
}

proof fn lemma_sustained_bound(h: Seq<u8>, i: nat, run: nat)
    requires
        i <= h.len(),
        run <= i,
    ensures
        sustained_from(h, i, run) + i <= h.len() + run,
    decreases h.len() - i,
{
    if i < h.len() {
        if h[i as int] == STEER_NEUTRAL {
            lemma_sustained_bound(h, i + 1, run + 1);
        } else {
            lemma_sustained_bound(h, i + 1, 0);
        }
    }
}

/// Counts the frames of exact neutral steer that lie in sustained runs.
pub fn count_sustained_neutral_frames(steer_history: &[u8]) -> (total: usize)
    ensures
        total == sustained_from(steer_history@, 0, 0),
{
    let ghost h = steer_history@;
    let mut total: usize = 0;
    let mut run: usize = 0;
    proof {
        lemma_sustained_bound(h, 0, 0);
    }
    for i in 0..steer_history.len()
        invariant
            h == steer_history@,
            run <= i,
            total + sustained_from(h, i as nat, run as nat) == sustained_from(h, 0, 0),
            sustained_from(h, 0, 0) <= h.len(),
    {
        proof {
            lemma_sustained_bound(h, i as nat, run as nat);
        }
        if steer_history[i] == STEER_NEUTRAL {
            run = run + 1;
        } else {
            if run >= SUSTAINED_NEUTRAL_MIN {
                proof {
                    lemma_sustained_bound(h, i as nat + 1, 0);
                }
                total = total + run;
            }
            run = 0;
        }
    }
    proof {
        lemma_sustained_bound(h, h.len(), run as nat);
    }
    if run >= SUSTAINED_NEUTRAL_MIN {
        total = total + run;
    }
    total
}

// ---------------------------------------------------------------------------
// Dribble windows and events
// ---------------------------------------------------------------------------

/// A car's dribble in progress (or the last one, when not active).
#[derive(Debug, Clone)]
pub struct DribbleWindow {
    pub start_frame: usize,
    pub frames: usize,
    /// Consecutive frames without ball contact.
    pub gap_frames: usize,
    /// Steer during the dribble frames.
    pub steer_history: Vec<u8>,
    pub active: bool,
}

/// A finished dribble long enough to count.
#[derive(Debug, Clone, Copy)]
pub struct DribbleEvent {
    pub start_frame: usize,
    pub duration_frames: usize,
    pub snappy_corrections: usize,
    pub zero_steer_frames: usize,
    pub flick_detected: bool,
    pub flick_opponent_timed: bool,
}

impl DribbleWindow {
    /// An inactive window, as a car's first one.
    pub fn new(frame_idx: usize) -> (w: Self)
        ensures
            w.start_frame == frame_idx,
            w.frames == 0,
            w.gap_frames == 0,
            w.steer_history@ == Seq::<u8>::empty(),
            !w.active,
    {
        DribbleWindow {
            start_frame: frame_idx,
            frames: 0,
            gap_frames: 0,
            steer_history: Vec::new(),
            active: false,
        }
    }

    /// Takes one frame: when the ball is on the car the dribble starts (if
    /// it was not active) or continues, and the steer is recorded; when it
    /// is not, an active dribble accumulates gap frames. Returns whether the
    /// gap now exceeds the tolerance, so that the dribble has ended.
    pub fn observe(&mut self, frame_idx: usize, is_dribbling: bool, steer: u8) -> (ended: bool)
        requires
            old(self).frames < usize::MAX,
            old(self).gap_frames < usize::MAX,
        ensures
            is_dribbling ==> {
                &&& final(self).active
                &&& final(self).gap_frames == 0
                &&& !ended
                &&& if old(self).active {
                    &&& final(self).start_frame == old(self).start_frame
                    &&& final(self).frames == old(self).frames + 1
                    &&& final(self).steer_history@ == old(self).steer_history@.push(steer)
                } else {
                    &&& final(self).start_frame == frame_idx
                    &&& final(self).frames == 1
                    &&& final(self).steer_history@ == seq![steer]
                }
            },
            !is_dribbling ==> {
                &&& final(self).start_frame == old(self).start_frame
                &&& final(self).frames == old(self).frames
                &&& final(self).steer_history@ == old(self).steer_history@
                &&& final(self).active == old(self).active
                &&& final(self).gap_frames == (if old(self).active {
                    old(self).gap_frames + 1
                } else {
                    old(self).gap_frames as int
                })
                &&& ended == (old(self).active && final(self).gap_frames
                    > DRIBBLE_GAP_TOLERANCE)
            },
    {
        if is_dribbling {
            if !self.active {
                self.start_frame = frame_idx;
                self.frames = 0;
                self.gap_frames = 0;
                self.steer_history.clear();
                self.active = true;
            } else {
                self.gap_frames = 0;
            }
            self.frames = self.frames + 1;
            self.steer_history.push(steer);
            false
        } else if self.active {
            self.gap_frames = self.gap_frames + 1;
            self.gap_frames > DRIBBLE_GAP_TOLERANCE
        } else {
            false
        }
    }
}

/// Whether an opponent's challenge was recorded within the timing window
/// that ends at `frame_idx`.
pub open spec fn challenged_within(entries: Seq<(u64, usize)>, frame_idx: usize) -> bool {
    exists|i: int|
        0 <= i < entries.len() && (if frame_idx >= FLICK_TIMING_WINDOW {
            frame_idx - FLICK_TIMING_WINDOW
        } else {
            0
        }) <= #[trigger] entries[i].1 <= frame_idx
}

fn challenged_in_window(entries: &Vec<(u64, usize)>, frame_idx: usize) -> (b: bool)
    ensures
        b == challenged_within(entries@, frame_idx),
{
    let from = frame_idx.saturating_sub(FLICK_TIMING_WINDOW);
    for i in 0..entries.len()
        invariant
            from == (if frame_idx >= FLICK_TIMING_WINDOW {
                frame_idx - FLICK_TIMING_WINDOW
            } else {
                0
            }),
            forall|j: int| 0 <= j < i ==> !(from <= #[trigger] entries@[j].1 <= frame_idx),
    {
        let f = entries[i].1;
        if from <= f && f <= frame_idx {
            return true;
        }
    }
    false
}

/// The event a finished dribble records: its start and length, the snappy
/// corrections and sustained-neutral frames of its steer, whether it ended
/// in a flick, and whether that flick came while an opponent was
/// challenging (`challenges` being the recent challenges against the
/// dribbler's team, when the team is known).
pub open spec fn dribble_event_of(
    w: DribbleWindow,
    frame_idx: usize,
    flick_info: Option<bool>,
    challenges: Option<Seq<(u64, usize)>>,
) -> DribbleEvent {
    let flick = flick_info == Some(true);
    DribbleEvent {
        start_frame: w.start_frame,
        duration_frames: w.frames,
        snappy_corrections: snappy_from(w.steer_history@, 1) as usize,
        zero_steer_frames: sustained_from(w.steer_history@, 0, 0) as usize,
        flick_detected: flick,
        flick_opponent_timed: flick && match challenges {
            Some(entries) => challenged_within(entries, frame_idx),
            None => false,
        },
    }
}

/// The events recorded for `player` so far.
pub open spec fn events_of(events: Map<u64, Vec<DribbleEvent>>, player: u64) -> Seq<DribbleEvent> {
    if events.contains_key(player) {
        events[player]@
    } else {
        seq![]
    }
}

/// Ends the dribble of car `car_id` at frame `frame_idx`, if one is
/// active: the window becomes inactive, and when it lasted at least
/// `DRIBBLE_MIN_FRAMES` frames and the car's owner is known, the owner is
/// credited with the dribble's event (see `dribble_event_of`; the recent
/// challenges are those recorded against the owner's team).
pub fn finalize_dribble_window(
    car_id: u64,
    frame_idx: usize,
    car_to_player: &HashMap<u64, u64>,
    dribble_windows: &mut HashMap<u64, DribbleWindow>,
    player_dribble_events: &mut HashMap<u64, Vec<DribbleEvent>>,
    flick_info: Option<bool>,
    opponent_challenging: &HashMap<usize, Vec<(u64, usize)>>,
    player_to_team: &HashMap<u64, usize>,
)
    ensures
        ({
            let ws = old(dribble_windows)@;
            let active = ws.contains_key(car_id) && ws[car_id].active;
            let w = ws[car_id];
            let qualifies = active && w.frames >= DRIBBLE_MIN_FRAMES && car_to_player@.contains_key(
                car_id,
            );
            let player = car_to_player@[car_id];
            let challenges = if player_to_team@.contains_key(player)
                && opponent_challenging@.contains_key(player_to_team@[player]) {
                Some(opponent_challenging@[player_to_team@[player]]@)
            } else {
                None
            };
            &&& final(dribble_windows)@ == (if active {
                ws.insert(car_id, DribbleWindow { active: false, ..w })
            } else {
                ws
            })
            &&& if qualifies {
                &&& final(player_dribble_events)@.dom() == old(player_dribble_events)@.dom().insert(
                    player,
                )
                &&& forall|p: u64|
                    p != player && old(player_dribble_events)@.contains_key(p) ==> (
                    #[trigger] final(player_dribble_events)@[p]) == old(player_dribble_events)@[p]
                &&& final(player_dribble_events)@[player]@ == events_of(
                    old(player_dribble_events)@,
                    player,
                ).push(dribble_event_of(w, frame_idx, flick_info, challenges))
            } else {
                final(player_dribble_events)@ == old(player_dribble_events)@
            }
        }),
{
    broadcast use vstd::std_specs::hash::group_hash_axioms;

    let mut window = match dribble_windows.remove(&car_id) {
        Some(w) => w,
        None => {
            return;
        },
    };
    if !window.active {
        dribble_windows.insert(car_id, window);
        return;
    }
    window.active = false;
    let frames = window.frames;
    let start_frame = window.start_frame;
    let snappy_corrections = count_snappy_corrections(window.steer_history.as_slice());
    let zero_steer_frames = count_sustained_neutral_frames(window.steer_history.as_slice());
    let ghost w_old = window;
    dribble_windows.insert(car_id, window);
    assert(dribble_windows@ =~= old(dribble_windows)@.insert(
        car_id,
        DribbleWindow { active: false, ..old(dribble_windows)@[car_id] },
    ));

    if frames < DRIBBLE_MIN_FRAMES {
        return;
    }
    let player = match car_to_player.get(&car_id) {
        Some(p) => *p,
        None => {
            return;
        },
    };
    let flick_detected = match flick_info {
        Some(f) => f,
        None => false,
    };
    let flick_opponent_timed = if flick_detected {
        match player_to_team.get(&player) {
            Some(team) => match opponent_challenging.get(team) {
                Some(entries) => challenged_in_window(entries, frame_idx),
                None => false,
            },
            None => false,
        }
    } else {
        false
    };
    let event = DribbleEvent {
        start_frame,
        duration_frames: frames,
        snappy_corrections,
        zero_steer_frames,
        flick_detected,
        flick_opponent_timed,
    };
    let mut list = match player_dribble_events.remove(&player) {
        Some(l) => l,
        None => Vec::new(),
    };
    let ghost before = list@;
    assert(before == events_of(old(player_dribble_events)@, player));
    list.push(event);
    player_dribble_events.insert(player, list);
    assert(player_dribble_events@.dom() =~= old(player_dribble_events)@.dom().insert(player));
}


// ---------------------------------------------------------------------------
// Opponent challenges
// ---------------------------------------------------------------------------

/// The recent challenges against each team (keys 0 and 1), as pairs of the
/// challenging car and the frame.
pub open spec fn teams_only(m: Map<usize, Vec<(u64, usize)>>) -> bool {
    forall|k: usize| m.contains_key(k) ==> k <= 1
}

/// The challenges recorded against `team` (none when absent).
pub open spec fn challenges_of(m: Map<usize, Vec<(u64, usize)>>, team: usize) -> Seq<(u64, usize)> {
    if m.contains_key(team) {
        m[team]@
    } else {
        seq![]
    }
}

/// Records that car `car_id`, of team `team_idx`, challenged the ball at
/// frame `frame_idx`: a challenge against the other team.
pub fn record_challenge(
    opponent_challenging: &mut HashMap<usize, Vec<(u64, usize)>>,
    team_idx: usize,
    car_id: u64,
    frame_idx: usize,
)
    requires
        team_idx <= 1,
    ensures
        ({
            let opposing = (1 - team_idx) as usize;
            &&& final(opponent_challenging)@.dom() == old(opponent_challenging)@.dom().insert(
                opposing,
            )
            &&& final(opponent_challenging)@[opposing]@ == challenges_of(
                old(opponent_challenging)@,
                opposing,
            ).push((car_id, frame_idx))
            &&& forall|k: usize|
                k != opposing && old(opponent_challenging)@.contains_key(k) ==> (
                #[trigger] final(opponent_challenging)@[k]) == old(opponent_challenging)@[k]
        }),
{
    broadcast use vstd::std_specs::hash::group_hash_axioms;

    let opposing = 1 - team_idx;
    let mut list = match opponent_challenging.remove(&opposing) {
        Some(l) => l,
        None => Vec::new(),
    };
    list.push((car_id, frame_idx));
    opponent_challenging.insert(opposing, list);
    assert(opponent_challenging@.dom() =~= old(opponent_challenging)@.dom().insert(opposing));
}

/// Whether a challenge is recent at frame `frame_idx`: no more than twice
/// the timing window old.
pub open spec fn challenge_is_recent(frame_idx: usize) -> spec_fn((u64, usize)) -> bool {
    |e: (u64, usize)|
        (if frame_idx >= e.1 {
            frame_idx - e.1
        } else {
            0
        }) <= 2 * FLICK_TIMING_WINDOW
}

fn recent_challenges(entries: &Vec<(u64, usize)>, frame_idx: usize) -> (kept: Vec<(u64, usize)>)
    ensures
        kept@ == entries@.filter(challenge_is_recent(frame_idx)),
{
    let ghost pred = challenge_is_recent(frame_idx);
    let mut kept: Vec<(u64, usize)> = Vec::new();
    assert(entries@.subrange(0, 0).filter(pred) =~= Seq::<(u64, usize)>::empty()) by {
        reveal(Seq::filter);
    }
    for i in 0..entries.len()
        invariant
            pred == challenge_is_recent(frame_idx),
            kept@ == entries@.subrange(0, i as int).filter(pred),
    {
        let e = entries[i];
        proof {
            let next = entries@.subrange(0, i + 1int);
            assert(next.drop_last() =~= entries@.subrange(0, i as int));
            assert(next.last() == e);
            reveal(Seq::filter);
        }
        if frame_idx.saturating_sub(e.1) <= 2 * FLICK_TIMING_WINDOW {
            kept.push(e);
        }
    }
    assert(entries@.subrange(0, entries@.len() as int) =~= entries@);
    kept
}

/// Drops the challenges that are no longer recent at frame `frame_idx`,
/// keeping the others in order.
pub fn prune_challenges(opponent_challenging: &mut HashMap<usize, Vec<(u64, usize)>>, frame_idx: usize)
    requires
        teams_only(old(opponent_challenging)@),
    ensures
        final(opponent_challenging)@.dom() == old(opponent_challenging)@.dom(),
        forall|k: usize|
            old(opponent_challenging)@.contains_key(k) ==> (#[trigger] final(opponent_challenging)@[k])@
                == old(opponent_challenging)@[k]@.filter(challenge_is_recent(frame_idx)),
{
    broadcast use vstd::std_specs::hash::group_hash_axioms;

    let ghost start = opponent_challenging@;
    let mut team: usize = 0;
    while team < 2
        invariant
            teams_only(start),
            team <= 2,
            opponent_challenging@.dom() == start.dom(),
            forall|k: usize|
                k < team && start.contains_key(k) ==> (#[trigger] opponent_challenging@[k])@
                    == start[k]@.filter(challenge_is_recent(frame_idx)),
            forall|k: usize|
                k >= team && start.contains_key(k) ==> #[trigger] opponent_challenging@[k]
                    == start[k],
        decreases 2 - team,
    {
        match opponent_challenging.remove(&team) {
            Some(list) => {
                let kept = recent_challenges(&list, frame_idx);
                opponent_challenging.insert(team, kept);
                assert(opponent_challenging@.dom() =~= start.dom());
            },
            None => {},
        }
        team = team + 1;
    }
}

// ---------------------------------------------------------------------------
// Per-player tallies
// ---------------------------------------------------------------------------

/// The counts a player's dribble events add up to.
#[derive(Debug, Clone, Copy)]
pub struct DribbleTally {
    pub dribble_count: usize,
    pub total_dribble_frames: usize,
    pub total_flick_count: usize,
    pub timed_flick_count: usize,
}

/// The frames of the first `n` events.
pub open spec fn frames_sum(events: Seq<DribbleEvent>, n: nat) -> int
    decreases n,
{
    if n == 0 || n > events.len() {
        0
    } else {
        frames_sum(events, (n - 1) as nat) + events[n - 1].duration_frames
    }
}

/// How many of the first `n` events ended in a flick (`timed` false), or
/// in a flick timed to an opponent's challenge (`timed` true).
pub open spec fn flicks_in(events: Seq<DribbleEvent>, n: nat, timed: bool) -> int
    decreases n,
{
    if n == 0 || n > events.len() {
        0
    } else {
        flicks_in(events, (n - 1) as nat, timed) + (if (if timed {
            events[n - 1].flick_opponent_timed
        } else {
            events[n - 1].flick_detected
        }) {
            1int
        } else {
            0
        })
    }
}

proof fn lemma_flicks_bounded(events: Seq<DribbleEvent>, n: nat, timed: bool)
    requires
        n <= events.len(),
    ensures
        0 <= flicks_in(events, n, timed) <= n,
    decreases n,
{
    if n > 0 {
        lemma_flicks_bounded(events, (n - 1) as nat, timed);
    }
}

proof fn lemma_frames_sum_monotone(events: Seq<DribbleEvent>, m: nat, n: nat)
    requires
        m <= n <= events.len(),
    ensures
        0 <= frames_sum(events, m) <= frames_sum(events, n),
    decreases n - m,
{
    if m < n {
        lemma_frames_sum_monotone(events, m, (n - 1) as nat);
    } else {
        lemma_frames_sum_nonneg(events, m);
    }
}

proof fn lemma_frames_sum_nonneg(events: Seq<DribbleEvent>, n: nat)
    ensures
        0 <= frames_sum(events, n),
    decreases n,
{
    if n > 0 {
        lemma_frames_sum_nonneg(events, (n - 1) as nat);
    }
}

/// Adds up a player's dribble events: how many, their frames, their flicks
/// and their timed flicks. The frame total must fit in `usize`.
pub fn tally_events(events: &Vec<DribbleEvent>) -> (t: DribbleTally)
    requires
        frames_sum(events@, events@.len()) <= usize::MAX,
    ensures
        t.dribble_count == events@.len(),
        t.total_dribble_frames == frames_sum(events@, events@.len()),
        t.total_flick_count == flicks_in(events@, events@.len(), false),
        t.timed_flick_count == flicks_in(events@, events@.len(), true),
{
    let mut frames: usize = 0;
    let mut flicks: usize = 0;
    let mut timed: usize = 0;
    for i in 0..events.len()
        invariant
            frames_sum(events@, events@.len()) <= usize::MAX,
            frames == frames_sum(events@, i as nat),
            flicks == flicks_in(events@, i as nat, false),
            timed == flicks_in(events@, i as nat, true),
    {
        proof {
            lemma_frames_sum_monotone(events@, i as nat + 1, events@.len());
            lemma_flicks_bounded(events@, i as nat, false);
            lemma_flicks_bounded(events@, i as nat, true);
        }
        let e = events[i];
        frames = frames + e.duration_frames;
        if e.flick_detected {
            flicks = flicks + 1;
        }
        if e.flick_opponent_timed {
            timed = timed + 1;
        }
    }
    DribbleTally {
        dribble_count: events.len(),
        total_dribble_frames: frames,
        total_flick_count: flicks,
        timed_flick_count: timed,
    }
}

} // verus!

verus! {

/// A dribble's steering counts fit inside it: no more snappy corrections,
/// and no more sustained-neutral frames, than the dribble has frames.
pub proof fn law_steer_counts_within_dribble(steer_history: Seq<u8>)
    ensures
        snappy_from(steer_history, 1) <= steer_history.len(),
        sustained_from(steer_history, 0, 0) <= steer_history.len(),
{
    lemma_snappy_from_le(steer_history, 1);
    lemma_sustained_bound(steer_history, 0, 0);
}

} // verus!

verus! {

proof fn lemma_sustained_append(h: Seq<u8>, x: u8, i: nat, run: nat)
    requires
        i <= h.len(),
    ensures
        sustained_from(h.push(x), i, run) >= sustained_from(h, i, run),
        x != STEER_NEUTRAL ==> sustained_from(h.push(x), i, run) == sustained_from(h, i, run),
    decreases h.len() - i,
{
    let hx = h.push(x);
    if i < h.len() {
        assert(hx[i as int] == h[i as int]);
        lemma_sustained_append(h, x, i + 1, run + 1);
        lemma_sustained_append(h, x, i + 1, 0);
    } else {
        assert(hx[i as int] == x);
        assert(sustained_from(hx, i + 1, run + 1) == (if run + 1 >= SUSTAINED_NEUTRAL_MIN {
            run + 1
        } else {
            0
        }));
        assert(sustained_from(hx, i + 1, 0) == 0);
    }
}

/// Steering one more frame never takes sustained-neutral frames away: the
/// count for the longer history is at least that for the shorter one, and
/// the same when the new frame is not at exact neutral.
pub proof fn law_sustained_neutral_grows_with_history(h: Seq<u8>, x: u8)
    ensures
        sustained_from(h.push(x), 0, 0) >= sustained_from(h, 0, 0),
        x != STEER_NEUTRAL ==> sustained_from(h.push(x), 0, 0) == sustained_from(h, 0, 0),
{
    lemma_sustained_append(h, x, 0, 0);
}

} // verus!
