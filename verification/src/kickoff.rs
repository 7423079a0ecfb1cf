//! Kickoff analysis: finds every kickoff of a match and what each player
//! did with steer and throttle during it.
//!
//! A kickoff starts on the frame where the round countdown becomes 0 (from
//! anything else, or from not having been seen yet). Its window lasts until
//! the ball is hit, more than `KICKOFF_WINDOW_FRAMES` frames have passed
//! since its start, or a later kickoff starts, whichever comes first.

use crate::replay::{
    empty_links, id_or_max, id_or_max_exec, link_all_frames, link_frames, object_id_of,
    resolve_object_id, ActorUpdate, AnalysisError, Frame, LinkObjects, PlayerLinks, ReplayData,
};
use vstd::prelude::*;

verus! {

/// Maximum number of frames after countdown=0 that belong to the kickoff.
pub const KICKOFF_WINDOW_FRAMES: usize = 200;

/// Neutral value of a steer or throttle byte.
pub const NEUTRAL_INPUT: u8 = 128;

/// Full throttle.
pub const FULL_THROTTLE: u8 = 255;

/// The object ids the kickoff scan looks for.
#[derive(Debug, Clone, Copy)]
pub struct KickoffObjects {
    /// `TAGame.Vehicle_TA:ReplicatedSteer`
    pub steer: u64,
    /// `TAGame.Vehicle_TA:ReplicatedThrottle`
    pub throttle: u64,
    /// `TAGame.GameEvent_TA:ReplicatedRoundCountDownNumber`
    pub countdown: u64,
    /// `TAGame.GameEvent_Soccar_TA:bBallHasBeenHit`, when the replay has it
    pub ball_hit: Option<u64>,
}

/// One player's inputs within one kickoff: (frame offset from the start,
/// value), in the order they arrived.
#[derive(Debug, Clone)]
pub struct KickoffInputs {
    pub steer: Vec<(usize, u8)>,
    pub throttle: Vec<(usize, u8)>,
}

/// One kickoff: the frame it started on, the first frame within its window
/// where the ball was hit, and the inputs of each player (by player actor
/// id, each id at most once, in order of first input).
#[derive(Debug, Clone)]
pub struct KickoffWindow {
    pub start_frame_idx: usize,
    pub ball_hit_frame_idx: Option<usize>,
    pub player_inputs: Vec<(u64, KickoffInputs)>,
}

pub struct InputsModel {
    pub steer: Seq<(usize, u8)>,
    pub throttle: Seq<(usize, u8)>,
}

pub struct WindowModel {
    pub start: usize,
    pub ball_hit: Option<usize>,
    pub inputs: Seq<(u64, InputsModel)>,
}

/// The state of the scan over the frames: the kickoffs found so far, the
/// last countdown value seen, and the kickoff whose window is open.
pub struct ScanModel {
    pub windows: Seq<WindowModel>,
    pub last_countdown: Option<i64>,
    pub current: Option<usize>,
}

impl View for KickoffInputs {
    type V = InputsModel;

    open spec fn view(&self) -> InputsModel {
        InputsModel { steer: self.steer@, throttle: self.throttle@ }
    }
}

pub open spec fn inputs_views(ps: Seq<(u64, KickoffInputs)>) -> Seq<(u64, InputsModel)> {
    ps.map_values(|p: (u64, KickoffInputs)| (p.0, p.1@))
}

impl View for KickoffWindow {
    type V = WindowModel;

    open spec fn view(&self) -> WindowModel {
        WindowModel {
            start: self.start_frame_idx,
            ball_hit: self.ball_hit_frame_idx,
            inputs: inputs_views(self.player_inputs@),
        }
    }
}

pub open spec fn window_views(ws: Seq<KickoffWindow>) -> Seq<WindowModel> {
    ws.map_values(|w: KickoffWindow| w@)
}

/// The first position of `player` among a window's players.
pub open spec fn player_position(inputs: Seq<(u64, InputsModel)>, player: u64) -> Option<int> {
    if exists|i: int| 0 <= i < inputs.len() && inputs[i].0 == player {
        Some(
            choose|i: int|
                0 <= i < inputs.len() && inputs[i].0 == player && forall|j: int|
                    0 <= j < i ==> inputs[j].0 != player,
        )
    } else {
        None
    }
}

/// Appends a sample to the steer or the throttle inputs.
pub open spec fn with_sample(m: InputsModel, sample: (usize, u8), is_steer: bool) -> InputsModel {
    if is_steer {
        InputsModel { steer: m.steer.push(sample), ..m }
    } else {
        InputsModel { throttle: m.throttle.push(sample), ..m }
    }
}

/// A window with one more input of `player`.
pub open spec fn record_sample(w: WindowModel, player: u64, sample: (usize, u8), is_steer: bool) -> WindowModel {
    match player_position(w.inputs, player) {
        Some(i) => WindowModel {
            inputs: w.inputs.update(i, (player, with_sample(w.inputs[i].1, sample, is_steer))),
            ..w
        },
        None => WindowModel {
            inputs: w.inputs.push(
                (
                    player,
                    with_sample(InputsModel { steer: seq![], throttle: seq![] }, sample, is_steer),
                ),
            ),
            ..w
        },
    }
}

/// The scan after one update of frame `f`: a countdown update to 0 from a
/// different (or no) previous value opens a new kickoff; a ball-hit update
/// that is true marks the open kickoff's hit and closes its window; a steer
/// or throttle byte of a car whose owner is known is recorded for that
/// owner in the open kickoff, at its offset from the kickoff's start.
pub open spec fn scan_update(s: ScanModel, f: usize, u: ActorUpdate, k: KickoffObjects, c2p: Map<u64, u64>) -> ScanModel {
    let aid = id_or_max(u.actor_id);
    let oid = id_or_max(u.object_id);
    let s1 = if oid == k.countdown && u.attribute.int is Some {
        let val = u.attribute.int.unwrap();
        if val == 0 && (s.last_countdown is None || s.last_countdown.unwrap() != 0) {
            ScanModel {
                windows: s.windows.push(WindowModel { start: f, ball_hit: None, inputs: seq![] }),
                last_countdown: Some(val),
                current: Some(s.windows.len() as usize),
            }
        } else {
            ScanModel { last_countdown: Some(val), ..s }
        }
    } else {
        s
    };
    let s2 = if k.ball_hit == Some(oid) && u.attribute.boolean == Some(true) && s1.current is Some
        && s1.windows[s1.current.unwrap() as int].ball_hit is None {
        let c = s1.current.unwrap() as int;
        ScanModel {
            windows: s1.windows.update(c, WindowModel { ball_hit: Some(f), ..s1.windows[c] }),
            current: None,
            ..s1
        }
    } else {
        s1
    };
    if s2.current is Some && (oid == k.steer || oid == k.throttle) && u.attribute.byte is Some
        && c2p.contains_key(aid) {
        let c = s2.current.unwrap() as int;
        let sample = ((f - s2.windows[c].start) as usize, u.attribute.byte.unwrap() as u8);
        ScanModel {
            windows: s2.windows.update(
                c,
                record_sample(s2.windows[c], c2p[aid], sample, oid == k.steer),
            ),
            ..s2
        }
    } else {
        s2
    }
}

/// The scan after a run of updates of frame `f`.
pub open spec fn scan_updates(s: ScanModel, f: usize, ups: Seq<ActorUpdate>, k: KickoffObjects, c2p: Map<u64, u64>) -> ScanModel
    decreases ups.len(),
{
    if ups.len() == 0 {
        s
    } else {
        scan_update(scan_updates(s, f, ups.drop_last(), k, c2p), f, ups.last(), k, c2p)
    }
}

/// Closes the open kickoff once more than `KICKOFF_WINDOW_FRAMES` frames
/// have passed since it started.
pub open spec fn close_expired(s: ScanModel, f: usize) -> ScanModel {
    match s.current {
        Some(c) => if f - s.windows[c as int].start > KICKOFF_WINDOW_FRAMES {
            ScanModel { current: None, ..s }
        } else {
            s
        },
        None => s,
    }
}

/// The scan after frame `f`; a frame without an update list is skipped.
pub open spec fn scan_frame(s: ScanModel, f: usize, frame: Frame, k: KickoffObjects, c2p: Map<u64, u64>) -> ScanModel {
    match frame.updated_actors {
        Some(ups) => scan_updates(close_expired(s, f), f, ups@, k, c2p),
        None => s,
    }
}

pub open spec fn initial_scan() -> ScanModel {
    ScanModel { windows: seq![], last_countdown: None, current: None }
}

/// The scan after the first frames.
pub open spec fn scan_frames(frames: Seq<Frame>, k: KickoffObjects, c2p: Map<u64, u64>) -> ScanModel
    decreases frames.len(),
{
    if frames.len() == 0 {
        initial_scan()
    } else {
        scan_frame(
            scan_frames(frames.drop_last(), k, c2p),
            (frames.len() - 1) as usize,
            frames.last(),
            k,
            c2p,
        )
    }
}


// ---------------------------------------------------------------------------
// The scan, executably
// ---------------------------------------------------------------------------

/// The scan state as the analysis keeps it.
pub struct KickoffScan {
    pub windows: Vec<KickoffWindow>,
    pub last_countdown: Option<i64>,
    pub current: Option<usize>,
}

impl View for KickoffScan {
    type V = ScanModel;

    open spec fn view(&self) -> ScanModel {
        ScanModel {
            windows: window_views(self.windows@),
            last_countdown: self.last_countdown,
            current: self.current,
        }
    }
}

/// The open kickoff, if any, is one of those found, and every kickoff found
/// so far started at or before frame `f`.
pub open spec fn scan_wf(s: ScanModel, f: usize) -> bool {
    &&& (s.current matches Some(c) ==> c < s.windows.len())
    &&& forall|i: int| 0 <= i < s.windows.len() ==> #[trigger] s.windows[i].start <= f
}

/// The position of `player` among a kickoff's players.
fn find_player(inputs: &Vec<(u64, KickoffInputs)>, player: u64) -> (pos: Option<usize>)
    ensures
        match pos {
            Some(i) => {
                &&& i < inputs@.len()
                &&& inputs@[i as int].0 == player
                &&& player_position(inputs_views(inputs@), player) == Some(i as int)
            },
            None => player_position(inputs_views(inputs@), player) is None,
        },
{
    let ghost v = inputs_views(inputs@);
    let mut i: usize = 0;
    while i < inputs.len()
        invariant
            i <= inputs@.len(),
            v == inputs_views(inputs@),
            forall|j: int| 0 <= j < i ==> v[j].0 != player,
        decreases inputs@.len() - i,
    {
        if inputs[i].0 == player {
            proof {
                let c = choose|c: int|
                    0 <= c < v.len() && v[c].0 == player && forall|j: int|
                        0 <= j < c ==> v[j].0 != player;
                assert(v[i as int].0 == player);
                if c < i {
                    assert(false);
                }
                if (i as int) < c {
                    assert(v[i as int].0 != player);
                }
            }
            return Some(i);
        }
        i = i + 1;
    }
    None
}

/// Records one input sample of `player` in a kickoff.
fn record_in_window(w: &mut KickoffWindow, player: u64, sample: (usize, u8), is_steer: bool)
    ensures
        final(w)@ == record_sample(old(w)@, player, sample, is_steer),
{
    let pos = find_player(&w.player_inputs, player);
    match pos {
        Some(i) => {
            let ghost before = w.player_inputs@;
            if is_steer {
                w.player_inputs[i].1.steer.push(sample);
            } else {
                w.player_inputs[i].1.throttle.push(sample);
            }
            proof {
                let ov = inputs_views(before);
                assert(inputs_views(w.player_inputs@) =~= ov.update(
                    i as int,
                    (player, with_sample(ov[i as int].1, sample, is_steer)),
                ));
            }
        },
        None => {
            let mut fresh = KickoffInputs { steer: Vec::new(), throttle: Vec::new() };
            if is_steer {
                fresh.steer.push(sample);
            } else {
                fresh.throttle.push(sample);
            }
            let ghost before = w.player_inputs@;
            w.player_inputs.push((player, fresh));
            proof {
                let e = with_sample(InputsModel { steer: seq![], throttle: seq![] }, sample, is_steer);
                assert(fresh@.steer =~= e.steer);
                assert(fresh@.throttle =~= e.throttle);
                assert(inputs_views(w.player_inputs@) =~= inputs_views(before).push((player, e)));
            }
        },
    }
}

impl KickoffScan {
    pub fn new() -> (s: Self)
        ensures
            s@ == initial_scan(),
    {
        let s = KickoffScan { windows: Vec::new(), last_countdown: None, current: None };
        assert(s@.windows =~= seq![]);
        s
    }

    /// Records one input sample of `player` in the open kickoff.
    fn record(&mut self, c: usize, player: u64, sample: (usize, u8), is_steer: bool)
        requires
            c < old(self).windows@.len(),
        ensures
            final(self)@ == (ScanModel {
                windows: old(self)@.windows.update(
                    c as int,
                    record_sample(old(self)@.windows[c as int], player, sample, is_steer),
                ),
                ..old(self)@
            }),
    {
        let ghost old_ws = self.windows@;
        record_in_window(&mut self.windows[c], player, sample, is_steer);
        proof {
            assert(self@.windows =~= old(self)@.windows.update(
                c as int,
                record_sample(old(self)@.windows[c as int], player, sample, is_steer),
            ));
        }
    }

    /// Closes the open kickoff when its window has run out at frame `f`.
    fn close_if_expired(&mut self, f: usize)
        requires
            scan_wf(old(self)@, f),
        ensures
            final(self)@ == close_expired(old(self)@, f),
            scan_wf(final(self)@, f),
    {
        match self.current {
            Some(c) => {
                assert(self@.windows[c as int].start <= f);
                if f - self.windows[c].start_frame_idx > KICKOFF_WINDOW_FRAMES {
                    self.current = None;
                }
            },
            None => {},
        }
    }

    /// Applies one update of frame `f` to the scan.
    pub fn feed_update(&mut self, f: usize, u: &ActorUpdate, k: KickoffObjects, links: &PlayerLinks)
        requires
            scan_wf(old(self)@, f),
        ensures
            final(self)@ == scan_update(old(self)@, f, *u, k, links@.car_to_player),
            scan_wf(final(self)@, f),
    {
        let aid = id_or_max_exec(u.actor_id);
        let oid = id_or_max_exec(u.object_id);
        let ghost s0 = self@;

        if oid == k.countdown {
            match u.attribute.int {
                Some(val) => {
                    let is_new = match self.last_countdown {
                        Some(prev) => prev != 0,
                        None => true,
                    };
                    if val == 0 && is_new {
                        let w = KickoffWindow {
                            start_frame_idx: f,
                            ball_hit_frame_idx: None,
                            player_inputs: Vec::new(),
                        };
                        assert(w@.inputs =~= seq![]);
                        self.windows.push(w);
                        self.current = Some(self.windows.len() - 1);
                        assert(self@.windows =~= s0.windows.push(
                            WindowModel { start: f, ball_hit: None, inputs: seq![] },
                        ));
                    }
                    self.last_countdown = Some(val);
                },
                None => {},
            }
        }
        let ghost s1 = self@;

        match k.ball_hit {
            Some(bh) => {
                if oid == bh && u.attribute.boolean == Some(true) {
                    match self.current {
                        Some(c) => {
                            if self.windows[c].ball_hit_frame_idx.is_none() {
                                self.windows[c].ball_hit_frame_idx = Some(f);
                                self.current = None;
                                assert(self@.windows =~= s1.windows.update(
                                    c as int,
                                    WindowModel { ball_hit: Some(f), ..s1.windows[c as int] },
                                ));
                            }
                        },
                        None => {},
                    }
                }
            },
            None => {},
        }

        match self.current {
            Some(c) => {
                if oid == k.steer || oid == k.throttle {
                    match u.attribute.byte {
                        Some(b) => {
                            match links.player_of(aid) {
                                Some(player) => {
                                    assert(self@.windows[c as int].start <= f);
                                    let offset = f - self.windows[c].start_frame_idx;
                                    self.record(c, player, (offset, b as u8), oid == k.steer);
                                },
                                None => {},
                            }
                        },
                        None => {},
                    }
                }
            },
            None => {},
        }
    }
}

/// Finds the kickoffs of a match and collects each player's inputs in
/// them, given who owns which car.
pub fn scan_kickoffs(frames: &[Frame], k: KickoffObjects, links: &PlayerLinks) -> (windows: Vec<KickoffWindow>)
    ensures
        window_views(windows@) == scan_frames(frames@, k, links@.car_to_player).windows,
{
    let ghost c2p = links@.car_to_player;
    let mut scan = KickoffScan::new();
    for i in 0..frames.len()
        invariant
            c2p == links@.car_to_player,
            scan@ == scan_frames(frames@.subrange(0, i as int), k, c2p),
            scan_wf(scan@, i),
    {
        assert(frames@.subrange(0, i + 1).drop_last() =~= frames@.subrange(0, i as int));
        match &frames[i].updated_actors {
            Some(ups) => {
                scan.close_if_expired(i);
                let ghost before = scan@;
                for j in 0..ups.len()
                    invariant
                        c2p == links@.car_to_player,
                        scan@ == scan_updates(before, i, ups@.subrange(0, j as int), k, c2p),
                        scan_wf(scan@, i),
                {
                    assert(ups@.subrange(0, j + 1).drop_last() =~= ups@.subrange(0, j as int));
                    scan.feed_update(i, &ups[j], k, links);
                }
                assert(ups@.subrange(0, ups@.len() as int) =~= ups@);
            },
            None => {},
        }
    }
    assert(frames@.subrange(0, frames@.len() as int) =~= frames@);
    scan.windows
}


// ---------------------------------------------------------------------------
// Per-player summaries
// ---------------------------------------------------------------------------

/// The first throttle (or steer) sample that is not neutral.
pub open spec fn first_non_neutral(samples: Seq<(usize, u8)>) -> Option<(usize, u8)>
    decreases samples.len(),
{
    if samples.len() == 0 {
        None
    } else if samples[0].1 != NEUTRAL_INPUT {
        Some(samples[0])
    } else {
        first_non_neutral(samples.drop_first())
    }
}

/// The player's reaction in a kickoff: the frame offset of the first
/// non-neutral throttle, if the player took part and moved the throttle.
pub open spec fn reaction_in(w: WindowModel, player: u64) -> Option<usize> {
    match player_position(w.inputs, player) {
        Some(i) => match first_non_neutral(w.inputs[i].1.throttle) {
            Some(s) => Some(s.0),
            None => None,
        },
        None => None,
    }
}

/// The player was already on full throttle when the kickoff started: the
/// first non-neutral throttle is full throttle at offset 0.
pub open spec fn pre_held_in(w: WindowModel, player: u64) -> bool {
    match player_position(w.inputs, player) {
        Some(i) => first_non_neutral(w.inputs[i].1.throttle) == Some((0usize, FULL_THROTTLE)),
        None => false,
    }
}

/// How many of the kickoffs the player pre-held.
pub open spec fn pre_hold_total(ws: Seq<WindowModel>, player: u64) -> nat
    decreases ws.len(),
{
    if ws.len() == 0 {
        0
    } else {
        pre_hold_total(ws.drop_last(), player) + if pre_held_in(ws.last(), player) {
            1nat
        } else {
            0nat
        }
    }
}

/// Number of frames of the kickoff that its input sequences cover: up to
/// the ball hit, at most `KICKOFF_WINDOW_FRAMES`.
pub open spec fn covered_frames(w: WindowModel) -> nat {
    let until_hit: int = match w.ball_hit {
        Some(h) => if h >= w.start {
            h - w.start
        } else {
            0
        },
        None => KICKOFF_WINDOW_FRAMES as int,
    };
    if until_hit < KICKOFF_WINDOW_FRAMES {
        until_hit as nat
    } else {
        KICKOFF_WINDOW_FRAMES as nat
    }
}

/// How many leading samples, from position `i` on, arrived at or before
/// frame offset `f`.
pub open spec fn leading_upto(samples: Seq<(usize, u8)>, f: nat, i: nat) -> nat
    decreases samples.len() - i,
{
    if i < samples.len() && samples[i as int].0 <= f {
        leading_upto(samples, f, i + 1)
    } else {
        i
    }
}

/// The input held at frame offset `f`: the value of the last of the leading
/// samples that arrived by then, or neutral before the first one.
pub open spec fn held_value(samples: Seq<(usize, u8)>, f: nat) -> u8 {
    let k = leading_upto(samples, f, 0);
    if k == 0 {
        NEUTRAL_INPUT
    } else {
        samples[k - 1].1
    }
}

/// The per-frame input sequence of a kickoff: the held value at each of the
/// first `len` frame offsets.
pub open spec fn per_frame_sequence(samples: Seq<(usize, u8)>, len: nat) -> Seq<u8> {
    Seq::new(len, |f: int| held_value(samples, f as nat))
}

proof fn lemma_leading_upto_ge(samples: Seq<(usize, u8)>, f: nat, i: nat)
    ensures
        leading_upto(samples, f, i) >= i,
        i <= samples.len() ==> leading_upto(samples, f, i) <= samples.len(),
    decreases samples.len() - i,
{
    if i < samples.len() && samples[i as int].0 <= f {
        lemma_leading_upto_ge(samples, f, i + 1);
    }
}

/// Starting the count further on, past samples that all arrived in time,
/// gives the same count.
proof fn lemma_leading_upto_skip(samples: Seq<(usize, u8)>, f: nat, i: nat, j: nat)
    requires
        i <= j <= samples.len(),
        forall|m: int| i <= m < j ==> samples[m].0 <= f,
    ensures
        leading_upto(samples, f, i) == leading_upto(samples, f, j),
    decreases j - i,
{
    if i < j {
        lemma_leading_upto_skip(samples, f, i + 1, j);
    }
}

/// The leading samples up to `f` all arrived by `f`.
proof fn lemma_leading_upto_all_in_time(samples: Seq<(usize, u8)>, f: nat, i: nat)
    ensures
        forall|m: int| i <= m < leading_upto(samples, f, i) ==> samples[m].0 <= f,
    decreases samples.len() - i,
{
    if i < samples.len() && samples[i as int].0 <= f {
        lemma_leading_upto_all_in_time(samples, f, i + 1);
    }
}

/// Spreads sparse (offset, value) samples over `len` frames, holding each
/// value until the next sample arrives.
fn interpolate(samples: &Vec<(usize, u8)>, len: usize) -> (seq: Vec<u8>)
    ensures
        seq@ == per_frame_sequence(samples@, len as nat),
{
    let ghost ss = samples@;
    let mut seq: Vec<u8> = Vec::with_capacity(len);
    let mut last_val: u8 = NEUTRAL_INPUT;
    let mut idx: usize = 0;
    for frame_offset in 0..len
        invariant
            ss == samples@,
            idx <= ss.len(),
            seq@.len() == frame_offset,
            forall|f: int| 0 <= f < frame_offset ==> #[trigger] seq@[f] == held_value(ss, f as nat),
            forall|m: int| 0 <= m < idx ==> ss[m].0 <= frame_offset,
            frame_offset > 0 ==> idx == leading_upto(ss, (frame_offset - 1) as nat, 0),
            frame_offset == 0 ==> idx == 0,
            last_val == (if idx == 0 {
                NEUTRAL_INPUT
            } else {
                ss[idx - 1].1
            }),
    {
        let ghost start_idx = idx;
        while idx < samples.len() && samples[idx].0 <= frame_offset
            invariant
                ss == samples@,
                start_idx <= idx <= ss.len(),
                forall|m: int| 0 <= m < idx ==> ss[m].0 <= frame_offset,
                last_val == (if idx == 0 {
                    NEUTRAL_INPUT
                } else {
                    ss[idx - 1].1
                }),
            decreases ss.len() - idx,
        {
            last_val = samples[idx].1;
            idx = idx + 1;
        }
        proof {
            lemma_leading_upto_skip(ss, frame_offset as nat, 0, idx as nat);
        }
        seq.push(last_val);
    }
    assert(seq@ =~= per_frame_sequence(ss, len as nat));
    seq
}


/// What the analysis reports of one player across all kickoffs.
#[derive(Debug, Clone)]
pub struct KickoffPlayerSummary {
    pub player_id: u64,
    /// The player's name, when the replay names the player.
    pub name: Option<String>,
    /// The reaction in each kickoff, in kickoff order.
    pub reaction_frames: Vec<Option<usize>>,
    pub pre_hold_count: usize,
    /// Per-frame steer sequences of the kickoffs the player took part in
    /// (only those covering at least 5 frames).
    pub steer_sequences: Vec<Vec<u8>>,
    /// Per-frame throttle sequences, likewise.
    pub throttle_sequences: Vec<Vec<u8>>,
}

/// Sequences shorter than this are not compared.
pub const MIN_SEQUENCE_FRAMES: usize = 5;

/// The reactions of a player over a run of kickoffs.
pub open spec fn reactions(ws: Seq<WindowModel>, player: u64) -> Seq<Option<usize>> {
    ws.map_values(|w: WindowModel| reaction_in(w, player))
}

/// The per-frame sequences of the player's steer (or throttle) in the
/// kickoffs the player took part in, keeping those of at least
/// `MIN_SEQUENCE_FRAMES` frames.
pub open spec fn player_sequences(ws: Seq<WindowModel>, player: u64, steer: bool) -> Seq<Seq<u8>>
    decreases ws.len(),
{
    if ws.len() == 0 {
        seq![]
    } else {
        let before = player_sequences(ws.drop_last(), player, steer);
        let w = ws.last();
        match player_position(w.inputs, player) {
            Some(i) => if covered_frames(w) >= MIN_SEQUENCE_FRAMES {
                let samples = if steer {
                    w.inputs[i].1.steer
                } else {
                    w.inputs[i].1.throttle
                };
                before.push(per_frame_sequence(samples, covered_frames(w)))
            } else {
                before
            },
            None => before,
        }
    }
}

pub open spec fn seq_views(vs: Seq<Vec<u8>>) -> Seq<Seq<u8>> {
    vs.map_values(|v: Vec<u8>| v@)
}

/// The summary is exactly what the kickoffs `ws` say of the player.
pub open spec fn summarizes(s: KickoffPlayerSummary, ws: Seq<WindowModel>, player: u64) -> bool {
    &&& s.player_id == player
    &&& s.reaction_frames@ == reactions(ws, player)
    &&& s.pre_hold_count == pre_hold_total(ws, player)
    &&& seq_views(s.steer_sequences@) == player_sequences(ws, player, true)
    &&& seq_views(s.throttle_sequences@) == player_sequences(ws, player, false)
}

proof fn lemma_pre_hold_total_le(ws: Seq<WindowModel>, player: u64)
    ensures
        pre_hold_total(ws, player) <= ws.len(),
    decreases ws.len(),
{
    if ws.len() > 0 {
        lemma_pre_hold_total_le(ws.drop_last(), player);
    }
}

/// The first non-neutral sample of a run.
fn find_first_non_neutral(samples: &Vec<(usize, u8)>) -> (r: Option<(usize, u8)>)
    ensures
        r == first_non_neutral(samples@),
{
    let mut i: usize = 0;
    assert(samples@.skip(0) =~= samples@);
    while i < samples.len()
        invariant
            i <= samples@.len(),
            first_non_neutral(samples@) == first_non_neutral(samples@.skip(i as int)),
        decreases samples@.len() - i,
    {
        assert(samples@.skip(i as int).drop_first() =~= samples@.skip(i + 1));
        if samples[i].1 != NEUTRAL_INPUT {
            return Some(samples[i]);
        }
        i = i + 1;
    }
    None
}

/// Frames covered by a kickoff's per-frame sequences.
fn covered_frame_count(w: &KickoffWindow) -> (n: usize)
    ensures
        n as nat == covered_frames(w@),
{
    let until_hit = match w.ball_hit_frame_idx {
        Some(h) => h.saturating_sub(w.start_frame_idx),
        None => KICKOFF_WINDOW_FRAMES,
    };
    if until_hit < KICKOFF_WINDOW_FRAMES {
        until_hit
    } else {
        KICKOFF_WINDOW_FRAMES
    }
}

/// What one kickoff says of a player: the reaction, whether the throttle
/// was pre-held, and the per-frame steer and throttle sequences when the
/// player took part and the kickoff covers enough frames.
fn summarize_window(w: &KickoffWindow, player: u64) -> (res: (Option<usize>, bool, Option<(Vec<u8>, Vec<u8>)>))
    ensures
        res.0 == reaction_in(w@, player),
        res.1 == pre_held_in(w@, player),
        match res.2 {
            Some((st, th)) => {
                &&& player_position(w@.inputs, player) matches Some(i)
                &&& covered_frames(w@) >= MIN_SEQUENCE_FRAMES
                &&& st@ == per_frame_sequence(w@.inputs[i].1.steer, covered_frames(w@))
                &&& th@ == per_frame_sequence(w@.inputs[i].1.throttle, covered_frames(w@))
            },
            None => player_position(w@.inputs, player) is None || covered_frames(w@)
                < MIN_SEQUENCE_FRAMES,
        },
{
    match find_player(&w.player_inputs, player) {
        Some(pos) => {
            let inputs = &w.player_inputs[pos].1;
            assert(w@.inputs[pos as int].1 == inputs@);
            let (reaction, pre_held) = match find_first_non_neutral(&inputs.throttle) {
                Some(first) => (Some(first.0), first.0 == 0 && first.1 == FULL_THROTTLE),
                None => (None, false),
            };
            let len = covered_frame_count(w);
            if len >= MIN_SEQUENCE_FRAMES {
                let steer_seq = interpolate(&inputs.steer, len);
                let throttle_seq = interpolate(&inputs.throttle, len);
                (reaction, pre_held, Some((steer_seq, throttle_seq)))
            } else {
                (reaction, pre_held, None)
            }
        },
        None => (None, false, None),
    }
}

/// Summarizes what `player` did in the kickoffs.
#[verifier::spinoff_prover]
#[verifier::rlimit(40)]
pub fn summarize_player(windows: &Vec<KickoffWindow>, player: u64, name: Option<String>) -> (s: KickoffPlayerSummary)
    ensures
        summarizes(s, window_views(windows@), player),
        s.name == name,
{
    let ghost ws = window_views(windows@);
    let mut reaction_frames: Vec<Option<usize>> = Vec::new();
    let mut pre_hold_count: usize = 0;
    let mut steer_sequences: Vec<Vec<u8>> = Vec::new();
    let mut throttle_sequences: Vec<Vec<u8>> = Vec::new();
    for i in 0..windows.len()
        invariant
            ws == window_views(windows@),
            reaction_frames@ == reactions(ws.subrange(0, i as int), player),
            pre_hold_count == pre_hold_total(ws.subrange(0, i as int), player),
            seq_views(steer_sequences@) == player_sequences(ws.subrange(0, i as int), player, true),
            seq_views(throttle_sequences@) == player_sequences(
                ws.subrange(0, i as int),
                player,
                false,
            ),
    {
        let ghost prefix = ws.subrange(0, i as int);
        let ghost next = ws.subrange(0, i + 1);
        assert(next.drop_last() =~= prefix);
        assert(next.last() == windows@[i as int]@);
        proof {
            lemma_pre_hold_total_le(prefix, player);
        }
        let ghost ss_before = steer_sequences@;
        let ghost ts_before = throttle_sequences@;
        let (reaction, pre_held, seqs) = summarize_window(&windows[i], player);
        reaction_frames.push(reaction);
        if pre_held {
            pre_hold_count = pre_hold_count + 1;
        }
        match seqs {
            Some((steer_seq, throttle_seq)) => {
                steer_sequences.push(steer_seq);
                throttle_sequences.push(throttle_seq);
                assert(seq_views(steer_sequences@) =~= seq_views(ss_before).push(steer_seq@));
                assert(seq_views(throttle_sequences@) =~= seq_views(ts_before).push(
                    throttle_seq@,
                ));
            },
            None => {},
        }
        assert(reaction_frames@ =~= reactions(next, player));
    }
    assert(ws.subrange(0, windows@.len() as int) =~= ws);
    KickoffPlayerSummary {
        player_id: player,
        name,
        reaction_frames,
        pre_hold_count,
        steer_sequences,
        throttle_sequences,
    }
}

// ---------------------------------------------------------------------------
// Players, sequence comparison, and the whole analysis
// ---------------------------------------------------------------------------

/// The player took part in some kickoff (has an input recorded in it).
pub open spec fn takes_part(ws: Seq<WindowModel>, player: u64) -> bool {
    exists|i: int, j: int|
        0 <= i < ws.len() && 0 <= j < ws[i].inputs.len() && ws[i].inputs[j].0 == player
}

pub open spec fn strictly_increasing(ids: Seq<u64>) -> bool {
    forall|i: int, j: int| 0 <= i < j < ids.len() ==> ids[i] < ids[j]
}

/// Inserts `p` into the strictly increasing `ids`, unless it is there.
fn insert_sorted(ids: &mut Vec<u64>, p: u64)
    requires
        strictly_increasing(old(ids)@),
    ensures
        strictly_increasing(final(ids)@),
        forall|x: u64| final(ids)@.contains(x) <==> (old(ids)@.contains(x) || x == p),
{
    let mut pos: usize = 0;
    while pos < ids.len() && ids[pos] < p
        invariant
            ids@ == old(ids)@,
            pos <= ids@.len(),
            forall|i: int| 0 <= i < pos ==> ids@[i] < p,
        decreases ids@.len() - pos,
    {
        pos = pos + 1;
    }
    if pos < ids.len() && ids[pos] == p {
        assert(ids@[pos as int] == p);
        return;
    }
    let ghost before = ids@;
    ids.insert(pos, p);
    assert(before == old(ids)@);
    proof {
        assert(ids@ == before.insert(pos as int, p));
        assert forall|x: u64| #[trigger] ids@.contains(x) <==> (before.contains(x) || x == p) by {
            lemma_insert_contains(before, pos as int, p, x);
        }
        assert forall|i: int, j: int| 0 <= i < j < ids@.len() implies ids@[i] < ids@[j] by {
            if pos < before.len() {
                assert(before[pos as int] > p);
            }
            if j < pos {
                assert(ids@[i] == before[i] && ids@[j] == before[j]);
            } else if j == pos {
                assert(ids@[i] == before[i]);
            } else if i < pos {
                assert(ids@[i] == before[i] && ids@[j] == before[j - 1]);
                assert(before[pos as int] <= before[j - 1]);
            } else if i == pos {
                assert(ids@[j] == before[j - 1]);
                assert(before[pos as int] <= before[j - 1]);
            } else {
                assert(ids@[i] == before[i - 1] && ids@[j] == before[j - 1]);
            }
        }
    }
}

proof fn lemma_insert_contains(s: Seq<u64>, pos: int, p: u64, x: u64)
    requires
        0 <= pos <= s.len(),
    ensures
        s.insert(pos, p).contains(x) <==> (s.contains(x) || x == p),
{
    let t = s.insert(pos, p);
    if t.contains(x) {
        let i = choose|i: int| 0 <= i < t.len() && t[i] == x;
        if i < pos {
            assert(s[i] == x);
        } else if i > pos {
            assert(s[i - 1] == x);
        }
    }
    if s.contains(x) {
        let i = choose|i: int| 0 <= i < s.len() && s[i] == x;
        if i < pos {
            assert(t[i] == x);
        } else {
            assert(t[i + 1] == x);
        }
    }
    if x == p {
        assert(t[pos] == p);
    }
}

/// The players that took part in any kickoff, by ascending actor id.
pub fn kickoff_player_ids(windows: &Vec<KickoffWindow>) -> (ids: Vec<u64>)
    ensures
        strictly_increasing(ids@),
        forall|p: u64| ids@.contains(p) <==> takes_part(window_views(windows@), p),
{
    let ghost ws = window_views(windows@);
    let mut ids: Vec<u64> = Vec::new();
    for i in 0..windows.len()
        invariant
            ws == window_views(windows@),
            strictly_increasing(ids@),
            forall|p: u64|
                ids@.contains(p) <==> takes_part(ws.subrange(0, i as int), p),
    {
        let w = &windows[i];
        let ghost before_w = ids@;
        let ghost wv = ws[i as int];
        assert(wv.inputs.len() == w.player_inputs@.len());
        for j in 0..w.player_inputs.len()
            invariant
                ws == window_views(windows@),
                wv == ws[i as int],
                wv.inputs == inputs_views(w.player_inputs@),
                strictly_increasing(ids@),
                forall|p: u64|
                    #[trigger] ids@.contains(p) <==> (before_w.contains(p) || exists|jj: int|
                        0 <= jj < j && #[trigger] wv.inputs[jj].0 == p),
        {
            let p = w.player_inputs[j].0;
            assert(wv.inputs[j as int].0 == p);
            let ghost prev = ids@;
            insert_sorted(&mut ids, p);
            assert forall|q: u64|
                #[trigger] ids@.contains(q) <==> (before_w.contains(q) || exists|jj: int|
                    0 <= jj < j + 1 && #[trigger] wv.inputs[jj].0 == q) by {
                assert(ids@.contains(q) == (prev.contains(q) || q == p));
                assert(prev.contains(q) == (before_w.contains(q) || exists|jj: int|
                    0 <= jj < j && #[trigger] wv.inputs[jj].0 == q));
                if q == p {
                    assert(wv.inputs[j as int].0 == q);
                }
                if exists|jj: int| 0 <= jj < j + 1 && #[trigger] wv.inputs[jj].0 == q {
                    let jj = choose|jj: int| 0 <= jj < j + 1 && #[trigger] wv.inputs[jj].0 == q;
                    if jj < j {
                        assert(exists|jx: int| 0 <= jx < j && #[trigger] wv.inputs[jx].0 == q);
                    }
                }
            }
        }
        proof {
            assert forall|p: u64|
                ids@.contains(p) <==> takes_part(ws.subrange(0, i + 1), p) by {
                let pre = ws.subrange(0, i as int);
                let nxt = ws.subrange(0, i + 1);
                if takes_part(nxt, p) {
                    let (a, b) = choose|a: int, b: int|
                        0 <= a < nxt.len() && 0 <= b < nxt[a].inputs.len() && nxt[a].inputs[b].0
                            == p;
                    if a < i {
                        assert(pre[a] == nxt[a]);
                        assert(takes_part(pre, p));
                    } else {
                        assert(wv.inputs[b].0 == p);
                    }
                }
                if takes_part(pre, p) {
                    let (a, b) = choose|a: int, b: int|
                        0 <= a < pre.len() && 0 <= b < pre[a].inputs.len() && pre[a].inputs[b].0
                            == p;
                    assert(nxt[a] == pre[a]);
                }
                if exists|jj: int| 0 <= jj < wv.inputs.len() && #[trigger] wv.inputs[jj].0 == p {
                    let jj = choose|jj: int| 0 <= jj < wv.inputs.len() && #[trigger] wv.inputs[jj].0 == p;
                    assert(nxt[i as int].inputs[jj].0 == p);
                }
            }
        }
    }
    assert(ws.subrange(0, windows@.len() as int) =~= ws);
    ids
}

/// Sum of `|a[i] - b[i]|` over the first `n` positions.
pub open spec fn abs_diff_total(a: Seq<u8>, b: Seq<u8>, n: nat) -> nat
    decreases n,
{
    if n == 0 {
        0
    } else {
        let i = n - 1;
        abs_diff_total(a, b, (n - 1) as nat) + (if a[i] >= b[i] {
            (a[i] - b[i]) as nat
        } else {
            (b[i] - a[i]) as nat
        })
    }
}

proof fn lemma_abs_diff_total_bound(a: Seq<u8>, b: Seq<u8>, n: nat)
    ensures
        abs_diff_total(a, b, n) <= 255 * n,
    decreases n,
{
    if n > 0 {
        lemma_abs_diff_total_bound(a, b, (n - 1) as nat);
    }
}

/// Compares two input sequences over their common length: the sum of the
/// absolute differences, and that length. Their normalized distance is the
/// sum divided by 255 times the length.
pub fn sequence_difference(a: &[u8], b: &[u8]) -> (res: (u128, usize))
    ensures
        res.1 as nat == (if a@.len() <= b@.len() {
            a@.len()
        } else {
            b@.len()
        }),
        res.0 as nat == abs_diff_total(a@, b@, res.1 as nat),
{
    let len = if a.len() <= b.len() {
        a.len()
    } else {
        b.len()
    };
    let mut sum: u128 = 0;
    for i in 0..len
        invariant
            len <= a@.len(),
            len <= b@.len(),
            sum as nat == abs_diff_total(a@, b@, i as nat),
    {
        proof {
            lemma_abs_diff_total_bound(a@, b@, i as nat);
        }
        let d: u8 = if a[i] >= b[i] {
            a[i] - b[i]
        } else {
            b[i] - a[i]
        };
        sum = sum + d as u128;
    }
    (sum, len)
}

/// The result of kickoff analysis: how many kickoffs there were, and a
/// summary for each player who took part, by ascending player actor id.
#[derive(Debug, Clone)]
pub struct KickoffReport {
    pub kickoff_count: usize,
    pub players: Vec<KickoffPlayerSummary>,
}

/// The object ids the analysis needs, looked up in the order the analysis
/// reports a missing one.
pub open spec fn kickoff_objects_of(objects: Seq<Option<String>>) -> Result<(KickoffObjects, LinkObjects), AnalysisError> {
    let steer = object_id_of(objects, "TAGame.Vehicle_TA:ReplicatedSteer"@);
    let throttle = object_id_of(objects, "TAGame.Vehicle_TA:ReplicatedThrottle"@);
    let countdown = object_id_of(objects, "TAGame.GameEvent_TA:ReplicatedRoundCountDownNumber"@);
    let ball_hit = object_id_of(objects, "TAGame.GameEvent_Soccar_TA:bBallHasBeenHit"@);
    let player_link = object_id_of(objects, "Engine.Pawn:PlayerReplicationInfo"@);
    let name = object_id_of(objects, "Engine.PlayerReplicationInfo:PlayerName"@);
    if steer is None {
        Err(AnalysisError::MissingObject("ReplicatedSteer not found"))
    } else if throttle is None {
        Err(AnalysisError::MissingObject("ReplicatedThrottle not found"))
    } else if countdown is None {
        Err(AnalysisError::MissingObject("CountDown not found"))
    } else if player_link is None {
        Err(AnalysisError::MissingObject("PlayerReplicationInfo not found"))
    } else if name is None {
        Err(AnalysisError::MissingObject("PlayerName not found"))
    } else {
        Ok(
            (
                KickoffObjects {
                    steer: steer.unwrap(),
                    throttle: throttle.unwrap(),
                    countdown: countdown.unwrap(),
                    ball_hit,
                },
                LinkObjects { name: name.unwrap(), player_link: player_link.unwrap() },
            ),
        )
    }
}

fn kickoff_objects(objects: &[Option<String>]) -> (res: Result<(KickoffObjects, LinkObjects), AnalysisError>)
    ensures
        res == kickoff_objects_of(objects@),
{
    let steer = resolve_object_id(objects, "TAGame.Vehicle_TA:ReplicatedSteer");
    let throttle = resolve_object_id(objects, "TAGame.Vehicle_TA:ReplicatedThrottle");
    let countdown = resolve_object_id(objects, "TAGame.GameEvent_TA:ReplicatedRoundCountDownNumber");
    let ball_hit = resolve_object_id(objects, "TAGame.GameEvent_Soccar_TA:bBallHasBeenHit");
    let player_link = resolve_object_id(objects, "Engine.Pawn:PlayerReplicationInfo");
    let name = resolve_object_id(objects, "Engine.PlayerReplicationInfo:PlayerName");
    match (steer, throttle, countdown, player_link, name) {
        (Some(steer), Some(throttle), Some(countdown), Some(player_link), Some(name)) => Ok(
            (
                KickoffObjects { steer, throttle, countdown, ball_hit },
                LinkObjects { name, player_link },
            ),
        ),
        _ => {
            if steer.is_none() {
                Err(AnalysisError::MissingObject("ReplicatedSteer not found"))
            } else if throttle.is_none() {
                Err(AnalysisError::MissingObject("ReplicatedThrottle not found"))
            } else if countdown.is_none() {
                Err(AnalysisError::MissingObject("CountDown not found"))
            } else if player_link.is_none() {
                Err(AnalysisError::MissingObject("PlayerReplicationInfo not found"))
            } else {
                Err(AnalysisError::MissingObject("PlayerName not found"))
            }
        },
    }
}

/// What the analysis of a replay yields: the missing table, property or
/// frames it stops at, or the report over the kickoffs that the scan finds,
/// given the owners of the cars as linked over the whole match.
pub open spec fn kickoff_analysis_of(replay: ReplayData) -> Result<Seq<WindowModel>, AnalysisError> {
    match replay.objects {
        None => Err(AnalysisError::MissingObjects),
        Some(objects) => match kickoff_objects_of(objects@) {
            Err(e) => Err(e),
            Ok((k, l)) => match replay.frames {
                None => Err(AnalysisError::MissingFrames),
                Some(frames) => Ok(
                    scan_frames(
                        frames@,
                        k,
                        link_frames(empty_links(), frames@, l).car_to_player,
                    ).windows,
                ),
            },
        },
    }
}

/// Kickoff analysis: the kickoffs of the match, and for each player who
/// took part in one, their reactions, pre-holds and per-frame input
/// sequences (see `summarizes`), with the name the replay gives them.
pub fn analyze(replay: &ReplayData) -> (res: Result<KickoffReport, AnalysisError>)
    ensures
        match (res, kickoff_analysis_of(*replay)) {
            (Err(e), Err(f)) => e == f,
            (Ok(r), Ok(ws)) => {
                &&& r.kickoff_count == ws.len()
                &&& strictly_increasing(r.players@.map_values(|s: KickoffPlayerSummary| s.player_id))
                &&& forall|p: u64|
                    r.players@.map_values(|s: KickoffPlayerSummary| s.player_id).contains(p)
                        <==> takes_part(ws, p)
                &&& forall|i: int|
                    0 <= i < r.players@.len() ==> summarizes(
                        #[trigger] r.players@[i],
                        ws,
                        r.players@[i].player_id,
                    )
            },
            _ => false,
        },
{
    let objects = match &replay.objects {
        Some(o) => o,
        None => {
            return Err(AnalysisError::MissingObjects);
        },
    };
    let (k, l) = match kickoff_objects(objects.as_slice()) {
        Ok(p) => p,
        Err(e) => {
            return Err(e);
        },
    };
    let frames = match &replay.frames {
        Some(f) => f,
        None => {
            return Err(AnalysisError::MissingFrames);
        },
    };
    let links = link_all_frames(frames.as_slice(), l);
    let windows = scan_kickoffs(frames.as_slice(), k, &links);
    let ghost ws = window_views(windows@);
    let ids = kickoff_player_ids(&windows);
    let mut players: Vec<KickoffPlayerSummary> = Vec::new();
    for i in 0..ids.len()
        invariant
            ws == window_views(windows@),
            players@.len() == i,
            players@.map_values(|s: KickoffPlayerSummary| s.player_id) == ids@.subrange(
                0,
                i as int,
            ),
            forall|j: int|
                0 <= j < players@.len() ==> summarizes(
                    #[trigger] players@[j],
                    ws,
                    players@[j].player_id,
                ),
    {
        let p = ids[i];
        let name = links.name_of(p);
        let summary = summarize_player(&windows, p, name);
        let ghost before = players@;
        players.push(summary);
        assert(players@.map_values(|s: KickoffPlayerSummary| s.player_id) =~= before.map_values(
            |s: KickoffPlayerSummary| s.player_id,
        ).push(p));
        assert(players@.map_values(|s: KickoffPlayerSummary| s.player_id) =~= ids@.subrange(
            0,
            i + 1,
        ));
        assert(players@[players@.len() - 1] == summary);
        assert forall|j: int| 0 <= j < players@.len() implies summarizes(
            #[trigger] players@[j],
            ws,
            players@[j].player_id,
        ) by {
            if j < before.len() {
                assert(players@[j] == before[j]);
            }
        }
    }
    assert(ids@.subrange(0, ids@.len() as int) =~= ids@);
    Ok(KickoffReport { kickoff_count: windows.len(), players })
}

} // verus!

verus! {

// ---------------------------------------------------------------------------
// The kickoff window bounds what is recorded
// ---------------------------------------------------------------------------

/// Every sample of a run was taken within the kickoff window.
pub open spec fn samples_within(samples: Seq<(usize, u8)>) -> bool {
    forall|i: int| 0 <= i < samples.len() ==> #[trigger] samples[i].0 <= KICKOFF_WINDOW_FRAMES
}

/// Every sample of a kickoff was taken within its window.
pub open spec fn window_within(w: WindowModel) -> bool {
    forall|j: int|
        0 <= j < w.inputs.len() ==> samples_within(#[trigger] w.inputs[j].1.steer)
            && samples_within(w.inputs[j].1.throttle)
}

/// The number of updates in the frames.
pub open spec fn updates_in(frames: Seq<Frame>) -> nat
    decreases frames.len(),
{
    if frames.len() == 0 {
        0
    } else {
        updates_in(frames.drop_last()) + match frames.last().updated_actors {
            Some(ups) => ups@.len(),
            None => 0,
        }
    }
}

proof fn lemma_least_position(inputs: Seq<(u64, InputsModel)>, player: u64, w: int)
    requires
        0 <= w < inputs.len(),
        inputs[w].0 == player,
    ensures
        exists|i: int|
            0 <= i <= w && inputs[i].0 == player && forall|j: int|
                0 <= j < i ==> inputs[j].0 != player,
    decreases w,
{
    if exists|j: int| 0 <= j < w && inputs[j].0 == player {
        let j = choose|j: int| 0 <= j < w && inputs[j].0 == player;
        lemma_least_position(inputs, player, j);
    } else {
        assert(forall|j: int| 0 <= j < w ==> inputs[j].0 != player);
    }
}

proof fn lemma_player_position_range(inputs: Seq<(u64, InputsModel)>, player: u64)
    ensures
        player_position(inputs, player) matches Some(i) ==> 0 <= i < inputs.len(),
{
    if exists|i: int| 0 <= i < inputs.len() && inputs[i].0 == player {
        let w = choose|i: int| 0 <= i < inputs.len() && inputs[i].0 == player;
        lemma_least_position(inputs, player, w);
    }
}

spec fn scan_base(s: ScanModel, f: usize) -> bool {
    &&& (s.current matches Some(c) ==> c < s.windows.len())
    &&& forall|i: int|
        0 <= i < s.windows.len() ==> window_within(#[trigger] s.windows[i]) && s.windows[i].start
            <= f
}

spec fn scan_within(s: ScanModel, f: usize) -> bool {
    &&& scan_base(s, f)
    &&& (s.current matches Some(c) ==> f - s.windows[c as int].start <= KICKOFF_WINDOW_FRAMES)
}

proof fn lemma_record_sample_within(w: WindowModel, player: u64, sample: (usize, u8), is_steer: bool)
    requires
        window_within(w),
        sample.0 <= KICKOFF_WINDOW_FRAMES,
    ensures
        window_within(record_sample(w, player, sample, is_steer)),
{
    let r = record_sample(w, player, sample, is_steer);
    lemma_player_position_range(w.inputs, player);
    match player_position(w.inputs, player) {
        Some(i) => {
            assert forall|j: int| 0 <= j < r.inputs.len() implies samples_within(
                #[trigger] r.inputs[j].1.steer,
            ) && samples_within(r.inputs[j].1.throttle) by {
                if j != i {
                    assert(r.inputs[j] == w.inputs[j]);
                } else {
                    let m = w.inputs[i].1;
                    assert(samples_within(m.steer) && samples_within(m.throttle));
                    let n = with_sample(m, sample, is_steer);
                    assert(r.inputs[j].1 == n);
                    if is_steer {
                        assert forall|t: int| 0 <= t < n.steer.len() implies #[trigger] n.steer[t].0
                            <= KICKOFF_WINDOW_FRAMES by {
                            if t < m.steer.len() {
                                assert(n.steer[t] == m.steer[t]);
                            }
                        }
                    } else {
                        assert forall|t: int| 0 <= t < n.throttle.len() implies #[trigger] n.throttle[t].0
                            <= KICKOFF_WINDOW_FRAMES by {
                            if t < m.throttle.len() {
                                assert(n.throttle[t] == m.throttle[t]);
                            }
                        }
                    }
                }
            }
        },
        None => {
            assert forall|j: int| 0 <= j < r.inputs.len() implies samples_within(
                #[trigger] r.inputs[j].1.steer,
            ) && samples_within(r.inputs[j].1.throttle) by {
                if j < w.inputs.len() {
                    assert(r.inputs[j] == w.inputs[j]);
                } else {
                    let n = with_sample(InputsModel { steer: seq![], throttle: seq![] }, sample, is_steer);
                    assert(r.inputs[j].1 == n);
                    assert forall|t: int| 0 <= t < n.steer.len() implies #[trigger] n.steer[t].0
                        <= KICKOFF_WINDOW_FRAMES by {
                        assert(n.steer[t] == sample);
                    }
                    assert forall|t: int| 0 <= t < n.throttle.len() implies #[trigger] n.throttle[t].0
                        <= KICKOFF_WINDOW_FRAMES by {
                        assert(n.throttle[t] == sample);
                    }
                }
            }
        },
    }
}

proof fn lemma_scan_update_within(
    s: ScanModel,
    f: usize,
    u: ActorUpdate,
    k: KickoffObjects,
    c2p: Map<u64, u64>,
)
    requires
        scan_within(s, f),
        s.windows.len() < usize::MAX,
    ensures
        scan_within(scan_update(s, f, u, k, c2p), f),
        scan_update(s, f, u, k, c2p).windows.len() <= s.windows.len() + 1,
{
    let aid = id_or_max(u.actor_id);
    let oid = id_or_max(u.object_id);
    let s1 = if oid == k.countdown && u.attribute.int is Some {
        let val = u.attribute.int.unwrap();
        if val == 0 && (s.last_countdown is None || s.last_countdown.unwrap() != 0) {
            ScanModel {
                windows: s.windows.push(WindowModel { start: f, ball_hit: None, inputs: seq![] }),
                last_countdown: Some(val),
                current: Some(s.windows.len() as usize),
            }
        } else {
            ScanModel { last_countdown: Some(val), ..s }
        }
    } else {
        s
    };
    assert(scan_within(s1, f)) by {
        assert forall|i: int| 0 <= i < s1.windows.len() implies window_within(
            #[trigger] s1.windows[i],
        ) && s1.windows[i].start <= f by {
            if i < s.windows.len() {
                assert(s1.windows[i] == s.windows[i]);
            }
        }
    }
    let s2 = if k.ball_hit == Some(oid) && u.attribute.boolean == Some(true) && s1.current is Some
        && s1.windows[s1.current.unwrap() as int].ball_hit is None {
        let c = s1.current.unwrap() as int;
        ScanModel {
            windows: s1.windows.update(c, WindowModel { ball_hit: Some(f), ..s1.windows[c] }),
            current: None,
            ..s1
        }
    } else {
        s1
    };
    assert(scan_within(s2, f)) by {
        assert forall|i: int| 0 <= i < s2.windows.len() implies window_within(
            #[trigger] s2.windows[i],
        ) && s2.windows[i].start <= f by {
            assert(s2.windows[i].inputs == s1.windows[i].inputs);
            assert(s2.windows[i].start == s1.windows[i].start);
        }
    }
    if s2.current is Some && (oid == k.steer || oid == k.throttle) && u.attribute.byte is Some
        && c2p.contains_key(aid) {
        let c = s2.current.unwrap() as int;
        let sample = ((f - s2.windows[c].start) as usize, u.attribute.byte.unwrap() as u8);
        lemma_record_sample_within(s2.windows[c], c2p[aid], sample, oid == k.steer);
        let s3 = scan_update(s, f, u, k, c2p);
        assert(s3.windows == s2.windows.update(
            c,
            record_sample(s2.windows[c], c2p[aid], sample, oid == k.steer),
        ));
        assert forall|i: int| 0 <= i < s3.windows.len() implies window_within(
            #[trigger] s3.windows[i],
        ) && s3.windows[i].start <= f by {
            if i != c {
                assert(s3.windows[i] == s2.windows[i]);
            }
        }
    }
}

proof fn lemma_scan_updates_within(
    s: ScanModel,
    f: usize,
    ups: Seq<ActorUpdate>,
    k: KickoffObjects,
    c2p: Map<u64, u64>,
)
    requires
        scan_within(s, f),
        s.windows.len() + ups.len() <= usize::MAX,
    ensures
        scan_within(scan_updates(s, f, ups, k, c2p), f),
        scan_updates(s, f, ups, k, c2p).windows.len() <= s.windows.len() + ups.len(),
    decreases ups.len(),
{
    if ups.len() > 0 {
        lemma_scan_updates_within(s, f, ups.drop_last(), k, c2p);
        lemma_scan_update_within(scan_updates(s, f, ups.drop_last(), k, c2p), f, ups.last(), k, c2p);
    }
}

proof fn lemma_scan_frames_base(frames: Seq<Frame>, k: KickoffObjects, c2p: Map<u64, u64>)
    requires
        frames.len() <= usize::MAX,
        updates_in(frames) <= usize::MAX,
    ensures
        scan_frames(frames, k, c2p).windows.len() <= updates_in(frames),
        scan_base(
            scan_frames(frames, k, c2p),
            if frames.len() == 0 {
                0usize
            } else {
                (frames.len() - 1) as usize
            },
        ),
    decreases frames.len(),
{
    if frames.len() > 0 {
        let f = (frames.len() - 1) as usize;
        let prefix = frames.drop_last();
        lemma_scan_frames_base(prefix, k, c2p);
        let s = scan_frames(prefix, k, c2p);
        let closed = close_expired(s, f);
        assert(scan_base(s, f));
        match frames.last().updated_actors {
            Some(ups) => {
                assert(scan_within(closed, f));
                lemma_scan_updates_within(closed, f, ups@, k, c2p);
            },
            None => {},
        }
    }
}

/// Nothing a kickoff records lies beyond its window: every steer and
/// throttle sample of every kickoff the scan finds was taken at most
/// `KICKOFF_WINDOW_FRAMES` frames after the countdown reached 0 (for
/// frames with fewer updates in all than `usize` can count).
pub proof fn law_kickoff_samples_within_window(
    frames: Seq<Frame>,
    k: KickoffObjects,
    c2p: Map<u64, u64>,
)
    requires
        frames.len() <= usize::MAX,
        updates_in(frames) <= usize::MAX,
    ensures
        forall|i: int|
            0 <= i < scan_frames(frames, k, c2p).windows.len() ==> window_within(
                #[trigger] scan_frames(frames, k, c2p).windows[i],
            ),
{
    lemma_scan_frames_base(frames, k, c2p);
}

proof fn lemma_first_non_neutral_is_sample(samples: Seq<(usize, u8)>)
    ensures
        first_non_neutral(samples) matches Some(x) ==> samples.contains(x),
    decreases samples.len(),
{
    if samples.len() > 0 && samples[0].1 == NEUTRAL_INPUT {
        lemma_first_non_neutral_is_sample(samples.drop_first());
        if let Some(x) = first_non_neutral(samples.drop_first()) {
            let i = choose|i: int| 0 <= i < samples.drop_first().len() && samples.drop_first()[i] == x;
            assert(samples[i + 1] == x);
        }
    } else if samples.len() > 0 {
        assert(samples[0] == samples[0]);
    }
}

/// A reaction is at most the window: in every kickoff the scan finds, a
/// player's reaction latency is at most `KICKOFF_WINDOW_FRAMES` frames.
pub proof fn law_reaction_within_window(
    frames: Seq<Frame>,
    k: KickoffObjects,
    c2p: Map<u64, u64>,
    i: int,
    player: u64,
)
    requires
        frames.len() <= usize::MAX,
        updates_in(frames) <= usize::MAX,
        0 <= i < scan_frames(frames, k, c2p).windows.len(),
    ensures
        reaction_in(scan_frames(frames, k, c2p).windows[i], player) matches Some(r)
            ==> r <= KICKOFF_WINDOW_FRAMES,
{
    law_kickoff_samples_within_window(frames, k, c2p);
    let w = scan_frames(frames, k, c2p).windows[i];
    assert(window_within(w));
    lemma_player_position_range(w.inputs, player);
    if let Some(p) = player_position(w.inputs, player) {
        let t = w.inputs[p].1.throttle;
        assert(samples_within(w.inputs[p].1.steer) && samples_within(t));
        lemma_first_non_neutral_is_sample(t);
        if let Some(x) = first_non_neutral(t) {
            let j = choose|j: int| 0 <= j < t.len() && t[j] == x;
            assert(t[j].0 <= KICKOFF_WINDOW_FRAMES);
        }
    }
}

/// A player's summary covers every kickoff: one reaction entry per kickoff,
/// and no more pre-holds than kickoffs.
pub proof fn law_summary_covers_every_kickoff(
    s: KickoffPlayerSummary,
    ws: Seq<WindowModel>,
    player: u64,
)
    requires
        summarizes(s, ws, player),
    ensures
        s.reaction_frames@.len() == ws.len(),
        s.pre_hold_count <= ws.len(),
{
    lemma_pre_hold_total_le(ws, player);
}

} // verus!

verus! {

proof fn lemma_first_non_neutral_is_first(samples: Seq<(usize, u8)>, x: (usize, u8))
    ensures
        first_non_neutral(samples) == Some(x) <==> exists|j: int|
            0 <= j < samples.len() && samples[j] == x && x.1 != NEUTRAL_INPUT && forall|k: int|
                0 <= k < j ==> samples[k].1 == NEUTRAL_INPUT,
    decreases samples.len(),
{
    if samples.len() > 0 {
        let rest = samples.drop_first();
        lemma_first_non_neutral_is_first(rest, x);
        if samples[0].1 == NEUTRAL_INPUT {
            if first_non_neutral(rest) == Some(x) {
                let j = choose|j: int|
                    0 <= j < rest.len() && rest[j] == x && x.1 != NEUTRAL_INPUT && forall|k: int|
                        0 <= k < j ==> rest[k].1 == NEUTRAL_INPUT;
                assert(samples[j + 1] == x);
                assert forall|k: int| 0 <= k < j + 1 implies samples[k].1 == NEUTRAL_INPUT by {
                    if k > 0 {
                        assert(samples[k] == rest[k - 1]);
                    }
                }
            }
            if exists|j: int|
                0 <= j < samples.len() && samples[j] == x && x.1 != NEUTRAL_INPUT && forall|k: int|
                    0 <= k < j ==> samples[k].1 == NEUTRAL_INPUT {
                let j = choose|j: int|
                    0 <= j < samples.len() && samples[j] == x && x.1 != NEUTRAL_INPUT && forall|
                        k: int,
                    | 0 <= k < j ==> samples[k].1 == NEUTRAL_INPUT;
                assert(j > 0);
                assert(rest[j - 1] == x);
                assert forall|k: int| 0 <= k < j - 1 implies rest[k].1 == NEUTRAL_INPUT by {
                    assert(rest[k] == samples[k + 1]);
                }
            }
        } else {
            if exists|j: int|
                0 <= j < samples.len() && samples[j] == x && x.1 != NEUTRAL_INPUT && forall|k: int|
                    0 <= k < j ==> samples[k].1 == NEUTRAL_INPUT {
                let j = choose|j: int|
                    0 <= j < samples.len() && samples[j] == x && x.1 != NEUTRAL_INPUT && forall|
                        k: int,
                    | 0 <= k < j ==> samples[k].1 == NEUTRAL_INPUT;
                if j > 0 {
                    assert(samples[0].1 == NEUTRAL_INPUT);
                }
            }
        }
    }
}

/// A kickoff counts as pre-held for a player exactly when the player's
/// first throttle input in it that is not neutral (128) arrived at offset 0
/// and was full throttle (255); a first input of any other value, or at a
/// later offset, never counts. The reaction is then 0 frames.
pub proof fn law_pre_hold_is_full_throttle_at_the_start(w: WindowModel, player: u64)
    ensures
        pre_held_in(w, player) <==> (player_position(w.inputs, player) matches Some(p) && exists|
            j: int,
        |
            0 <= j < w.inputs[p].1.throttle.len() && w.inputs[p].1.throttle[j] == (0usize, 255u8)
                && forall|k: int|
                0 <= k < j ==> w.inputs[p].1.throttle[k].1 == 128),
        pre_held_in(w, player) ==> reaction_in(w, player) == Some(0usize),
{
    if let Some(p) = player_position(w.inputs, player) {
        lemma_first_non_neutral_is_first(w.inputs[p].1.throttle, (0usize, 255u8));
    }
}

/// A reaction is the offset of the player's first throttle input that is
/// not neutral (128): all inputs before it were neutral.
pub proof fn law_reaction_is_first_non_neutral_throttle(w: WindowModel, player: u64)
    ensures
        reaction_in(w, player) matches Some(r) ==> (player_position(w.inputs, player) matches Some(
            p,
        ) && exists|j: int|
            0 <= j < w.inputs[p].1.throttle.len() && w.inputs[p].1.throttle[j].0 == r
                && w.inputs[p].1.throttle[j].1 != 128 && forall|k: int|
                0 <= k < j ==> w.inputs[p].1.throttle[k].1 == 128),
{
    if let Some(p) = player_position(w.inputs, player) {
        if let Some(x) = first_non_neutral(w.inputs[p].1.throttle) {
            lemma_first_non_neutral_is_first(w.inputs[p].1.throttle, x);
        }
    }
}

} // verus!
