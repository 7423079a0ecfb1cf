//! Input synchrony, the integer side: each player's steer and throttle
//! events by frame, where the value changed, and on how many frames the
//! two channels changed together.
//!
//! Frame times are not held here: a caller turns frame indices into times
//! for rates and hold durations.

use crate::bot::{all_discrete, is_discrete_only, is_discrete_value};
use crate::replay::{
    empty_links, id_or_max, id_or_max_exec, link_update, object_id_of, resolve_object_id,
    ActorUpdate, AnalysisError, Frame, LinkObjects, Links, PlayerLinks, ReplayData,
};
use std::collections::HashMap;
use vstd::prelude::*;

verus! {

/// One steer or throttle update: the frame it arrived in and its value.
#[derive(Debug, Clone, Copy)]
pub struct InputEvent {
    pub frame_idx: usize,
    pub value: u8,
}

/// The values of a run of events.
pub open spec fn event_values(es: Seq<InputEvent>) -> Seq<u8> {
    es.map_values(|e: InputEvent| e.value)
}

/// The value changes of a run of events: for each pair of consecutive
/// events with different values, the frames of the two events.
pub open spec fn change_pairs(es: Seq<InputEvent>) -> Seq<(usize, usize)>
    decreases es.len(),
{
    if es.len() < 2 {
        seq![]
    } else {
        let before = change_pairs(es.drop_last());
        let a = es[es.len() - 2];
        let b = es.last();
        if a.value != b.value {
            before.push((a.frame_idx, b.frame_idx))
        } else {
            before
        }
    }
}

/// The value changes of a run of events, as (frame of the held value,
/// frame of the new value) pairs, in order.
pub fn value_changes(events: &[InputEvent]) -> (changes: Vec<(usize, usize)>)
    ensures
        changes@ == change_pairs(events@),
{
    let mut changes: Vec<(usize, usize)> = Vec::new();
    if events.len() < 2 {
        return changes;
    }
    let mut i: usize = 1;
    assert(events@.subrange(0, 1).len() == 1);
    while i < events.len()
        invariant
            1 <= i <= events@.len(),
            changes@ == change_pairs(events@.subrange(0, i as int)),
        decreases events@.len() - i,
    {
        let ghost next = events@.subrange(0, i + 1);
        assert(next.drop_last() =~= events@.subrange(0, i as int));
        if events[i - 1].value != events[i].value {
            changes.push((events[i - 1].frame_idx, events[i].frame_idx));
        }
        i = i + 1;
    }
    assert(events@.subrange(0, events@.len() as int) =~= events@);
    changes
}

/// Whether every event takes a keyboard value.
pub fn events_discrete_only(events: &[InputEvent]) -> (b: bool)
    ensures
        b == all_discrete(event_values(events@)),
{
    let mut values: Vec<u8> = Vec::with_capacity(events.len());
    for i in 0..events.len()
        invariant
            values@ == event_values(events@).subrange(0, i as int),
    {
        values.push(events[i].value);
        assert(values@ =~= event_values(events@).subrange(0, i + 1));
    }
    assert(values@ =~= event_values(events@));
    is_discrete_only(values.as_slice())
}

/// How many times `f` occurs in `s`.
pub open spec fn occurrences(s: Seq<usize>, f: usize) -> nat
    decreases s.len(),
{
    if s.len() == 0 {
        0
    } else {
        occurrences(s.drop_last(), f) + if s.last() == f {
            1nat
        } else {
            0nat
        }
    }
}

/// The frames on which a run of events changed value (the frame of the new
/// value of each change).
pub open spec fn change_frames(es: Seq<InputEvent>) -> Seq<usize> {
    change_pairs(es).map_values(|p: (usize, usize)| p.1)
}

/// The frames on which steer or throttle changed, each once.
pub open spec fn frames_with_change(steer: Seq<InputEvent>, throttle: Seq<InputEvent>) -> Set<usize> {
    (change_frames(steer) + change_frames(throttle)).to_set()
}

/// The frames on which at least two changes happened (both channels, or
/// one channel twice).
pub open spec fn frames_with_simultaneous_change(steer: Seq<InputEvent>, throttle: Seq<InputEvent>) -> Set<usize> {
    let all = change_frames(steer) + change_frames(throttle);
    all.to_set().filter(repeated_in(all))
}

/// The frames that occur at least twice in `all`.
pub open spec fn repeated_in(all: Seq<usize>) -> spec_fn(usize) -> bool {
    |f: usize| occurrences(all, f) >= 2
}

/// How many indices of `keys` satisfy `p`.
pub open spec fn count_where(keys: Seq<usize>, p: spec_fn(usize) -> bool) -> nat
    decreases keys.len(),
{
    if keys.len() == 0 {
        0
    } else {
        count_where(keys.drop_last(), p) + if p(keys.last()) {
            1nat
        } else {
            0nat
        }
    }
}

proof fn lemma_count_where_is_filter_len(keys: Seq<usize>, p: spec_fn(usize) -> bool)
    requires
        keys.no_duplicates(),
    ensures
        count_where(keys, p) == keys.to_set().filter(p).len(),
        keys.to_set().filter(p).finite(),
    decreases keys.len(),
{
    broadcast use vstd::seq_lib::seq_to_set_is_finite;
    broadcast use vstd::set::group_set_axioms;

    if keys.len() == 0 {
        assert(keys.to_set().filter(p) =~= Set::empty());
    } else {
        let init = keys.drop_last();
        let x = keys.last();
        assert(init.no_duplicates());
        lemma_count_where_is_filter_len(init, p);
        assert(keys =~= init.push(x));
        lemma_push_to_set(init, x);
        assert(!init.to_set().contains(x)) by {
            if init.contains(x) {
                let i = choose|i: int| 0 <= i < init.len() && init[i] == x;
                assert(keys[i] == keys[keys.len() - 1]);
            }
        }
        if p(x) {
            assert(keys.to_set().filter(p) =~= init.to_set().filter(p).insert(x));
        } else {
            assert(keys.to_set().filter(p) =~= init.to_set().filter(p));
        }
    }
}

/// Counts the frames where the inputs changed, and those where at least
/// two changes happened: (simultaneous change frames, change frames).
pub fn compute_synchrony(steer_events: &[InputEvent], throttle_events: &[InputEvent]) -> (res: (usize, usize))
    ensures
        res.0 == frames_with_simultaneous_change(steer_events@, throttle_events@).len(),
        res.1 == frames_with_change(steer_events@, throttle_events@).len(),
{
    broadcast use vstd::std_specs::hash::group_hash_axioms;
    broadcast use vstd::seq_lib::seq_to_set_is_finite;

    let steer_changes = value_changes(steer_events);
    let throttle_changes = value_changes(throttle_events);
    let mut all: Vec<usize> = Vec::new();
    for i in 0..steer_changes.len()
        invariant
            all@ == steer_changes@.map_values(|p: (usize, usize)| p.1).subrange(0, i as int),
    {
        all.push(steer_changes[i].1);
        assert(all@ =~= steer_changes@.map_values(|p: (usize, usize)| p.1).subrange(0, i + 1));
    }
    let ghost steer_frames = all@;
    assert(steer_frames =~= change_frames(steer_events@));
    for i in 0..throttle_changes.len()
        invariant
            all@ == steer_frames + throttle_changes@.map_values(|p: (usize, usize)| p.1).subrange(
                0,
                i as int,
            ),
    {
        all.push(throttle_changes[i].1);
        assert(all@ =~= steer_frames + throttle_changes@.map_values(|p: (usize, usize)| p.1).subrange(
            0,
            i + 1,
        ));
    }
    let ghost allv = all@;
    assert(allv =~= change_frames(steer_events@) + change_frames(throttle_events@));

    // Count changes per frame, remembering each frame once, in order.
    let mut counts: HashMap<usize, usize> = HashMap::new();
    let mut keys: Vec<usize> = Vec::new();
    let mut i: usize = 0;
    while i < all.len()
        invariant
            allv == all@,
            i <= allv.len(),
            keys@.no_duplicates(),
            keys@.to_set() == allv.subrange(0, i as int).to_set(),
            forall|f: usize| #[trigger]
                counts@.contains_key(f) <==> allv.subrange(0, i as int).to_set().contains(f),
            forall|f: usize|
                counts@.contains_key(f) ==> #[trigger] counts@[f] == occurrences(
                    allv.subrange(0, i as int),
                    f,
                ),
        decreases allv.len() - i,
    {
        let f = all[i];
        let ghost pre = allv.subrange(0, i as int);
        let ghost nxt = allv.subrange(0, i + 1);
        assert(nxt =~= pre.push(f));
        assert(nxt.drop_last() =~= pre);
        proof {
            lemma_push_to_set(pre, f);
        }
        proof {
            lemma_occurrences_le_len(pre, f);
        }
        match counts.get(&f) {
            Some(c) => {
                let c = *c;
                counts.insert(f, c + 1);
            },
            None => {
                counts.insert(f, 1);
                let ghost kb = keys@;
                keys.push(f);
                proof {
                    assert(!kb.to_set().contains(f));
                    lemma_push_to_set(kb, f);
                    assert forall|a: int, b: int|
                        0 <= a < keys@.len() && 0 <= b < keys@.len() && a != b implies keys@[a]
                        != keys@[b] by {
                        if a == keys@.len() - 1 {
                            assert(kb.to_set().contains(keys@[b]));
                        } else if b == keys@.len() - 1 {
                            assert(kb.to_set().contains(keys@[a]));
                        }
                    }
                }
            },
        }
        proof {
            assert forall|g: usize|
                counts@.contains_key(g) implies #[trigger] counts@[g] == occurrences(nxt, g) by {
                if g != f {
                    assert(occurrences(nxt, g) == occurrences(pre, g));
                } else {
                    assert(occurrences(nxt, f) == occurrences(pre, f) + 1);
                    if !pre.contains(f) {
                        lemma_occurrences_absent(pre, f);
                    }
                }
            }
        }
        i = i + 1;
    }
    assert(allv.subrange(0, allv.len() as int) =~= allv);

    // Frames with at least two changes.
    let ghost p = repeated_in(allv);
    let mut simultaneous: usize = 0;
    let mut k: usize = 0;
    while k < keys.len()
        invariant
            allv == all@,
            k <= keys@.len(),
            simultaneous <= k,
            keys@.to_set() == allv.to_set(),
            forall|f: usize| #[trigger] counts@.contains_key(f) <==> allv.to_set().contains(f),
            forall|f: usize| counts@.contains_key(f) ==> #[trigger] counts@[f] == occurrences(allv, f),
            p == repeated_in(allv),
            simultaneous == count_where(keys@.subrange(0, k as int), p),
        decreases keys@.len() - k,
    {
        let f = keys[k];
        assert(keys@.subrange(0, k + 1).drop_last() =~= keys@.subrange(0, k as int));
        assert(keys@.to_set().contains(f));
        assert(counts@.contains_key(f));
        let c = match counts.get(&f) {
            Some(c) => *c,
            None => 0,
        };
        assert(c == occurrences(allv, f));
        assert(p(f) == (c >= 2));
        if c >= 2 {
            simultaneous = simultaneous + 1;
        }
        k = k + 1;
    }
    assert(keys@.subrange(0, keys@.len() as int) =~= keys@);
    proof {
        lemma_count_where_is_filter_len(keys@, p);
        keys@.unique_seq_to_set();
        assert(allv.to_set().filter(p) =~= frames_with_simultaneous_change(
            steer_events@,
            throttle_events@,
        ));
    }
    (simultaneous, keys.len())
}

proof fn lemma_push_to_set(s: Seq<usize>, x: usize)
    ensures
        s.push(x).to_set() == s.to_set().insert(x),
{
    assert(s.push(x) =~= s + seq![x]);
    Seq::<usize>::lemma_to_set_insert_commutes(s, x);
}

proof fn lemma_occurrences_absent(s: Seq<usize>, f: usize)
    requires
        !s.contains(f),
    ensures
        occurrences(s, f) == 0,
    decreases s.len(),
{
    if s.len() > 0 {
        assert(!s.drop_last().contains(f)) by {
            if s.drop_last().contains(f) {
                let i = choose|i: int| 0 <= i < s.drop_last().len() && s.drop_last()[i] == f;
                assert(s[i] == f);
            }
        }
        assert(s.last() != f) by {
            if s.last() == f {
                assert(s[s.len() - 1] == f);
            }
        }
        lemma_occurrences_absent(s.drop_last(), f);
    }
}

proof fn lemma_occurrences_le_len(s: Seq<usize>, f: usize)
    ensures
        occurrences(s, f) <= s.len(),
    decreases s.len(),
{
    if s.len() > 0 {
        lemma_occurrences_le_len(s.drop_last(), f);
    }
}


// ---------------------------------------------------------------------------
// Collecting timelines, and the integer analysis
// ---------------------------------------------------------------------------

/// A player's steer and throttle events, in arrival order.
#[derive(Debug, Clone)]
pub struct InputTimeline {
    pub player_id: u64,
    pub steer_events: Vec<InputEvent>,
    pub throttle_events: Vec<InputEvent>,
}

pub struct TimelineModel {
    pub player_id: u64,
    pub steer: Seq<InputEvent>,
    pub throttle: Seq<InputEvent>,
}

impl View for InputTimeline {
    type V = TimelineModel;

    open spec fn view(&self) -> TimelineModel {
        TimelineModel {
            player_id: self.player_id,
            steer: self.steer_events@,
            throttle: self.throttle_events@,
        }
    }
}

pub open spec fn timeline_views(ts: Seq<InputTimeline>) -> Seq<TimelineModel> {
    ts.map_values(|t: InputTimeline| t@)
}

/// The object ids of the two input channels.
#[derive(Debug, Clone, Copy)]
pub struct ChannelObjects {
    pub steer: u64,
    pub throttle: u64,
}

pub struct TimelineScanModel {
    pub links: Links,
    pub timelines: Seq<TimelineModel>,
}

pub open spec fn timeline_position(ts: Seq<TimelineModel>, player: u64) -> Option<int> {
    if exists|i: int| 0 <= i < ts.len() && ts[i].player_id == player {
        Some(
            choose|i: int|
                0 <= i < ts.len() && ts[i].player_id == player && forall|j: int|
                    0 <= j < i ==> ts[j].player_id != player,
        )
    } else {
        None
    }
}

pub open spec fn add_event(ts: Seq<TimelineModel>, player: u64, e: InputEvent, steer: bool) -> Seq<TimelineModel> {
    match timeline_position(ts, player) {
        Some(i) => ts.update(
            i,
            if steer {
                TimelineModel { steer: ts[i].steer.push(e), ..ts[i] }
            } else {
                TimelineModel { throttle: ts[i].throttle.push(e), ..ts[i] }
            },
        ),
        None => ts,
    }
}

/// The scan after one update of frame `f`: a name update names the player
/// and starts their timeline if they have none; owner updates link cars; a
/// steer or throttle byte of a car whose owner has a timeline is added to
/// it with the frame index.
pub open spec fn timeline_update(s: TimelineScanModel, f: usize, u: ActorUpdate, l: LinkObjects, k: ChannelObjects) -> TimelineScanModel {
    let aid = id_or_max(u.actor_id);
    let oid = id_or_max(u.object_id);
    if oid == l.name {
        match u.attribute.string {
            Some(name) => TimelineScanModel {
                links: link_update(s.links, u, l),
                timelines: if timeline_position(s.timelines, aid) is Some {
                    s.timelines
                } else {
                    s.timelines.push(TimelineModel { player_id: aid, steer: seq![], throttle: seq![] })
                },
            },
            None => s,
        }
    } else if oid == l.player_link {
        TimelineScanModel { links: link_update(s.links, u, l), ..s }
    } else if oid == k.steer || oid == k.throttle {
        match u.attribute.byte {
            Some(b) => if s.links.car_to_player.contains_key(aid) {
                TimelineScanModel {
                    timelines: add_event(
                        s.timelines,
                        s.links.car_to_player[aid],
                        InputEvent { frame_idx: f, value: b as u8 },
                        oid == k.steer,
                    ),
                    ..s
                }
            } else {
                s
            },
            None => s,
        }
    } else {
        s
    }
}

pub open spec fn timeline_updates(s: TimelineScanModel, f: usize, ups: Seq<ActorUpdate>, l: LinkObjects, k: ChannelObjects) -> TimelineScanModel
    decreases ups.len(),
{
    if ups.len() == 0 {
        s
    } else {
        timeline_update(timeline_updates(s, f, ups.drop_last(), l, k), f, ups.last(), l, k)
    }
}

pub open spec fn timeline_frames(frames: Seq<Frame>, l: LinkObjects, k: ChannelObjects) -> TimelineScanModel
    decreases frames.len(),
{
    if frames.len() == 0 {
        TimelineScanModel { links: empty_links(), timelines: seq![] }
    } else {
        let before = timeline_frames(frames.drop_last(), l, k);
        match frames.last().updated_actors {
            Some(ups) => timeline_updates(before, (frames.len() - 1) as usize, ups@, l, k),
            None => before,
        }
    }
}

fn find_timeline(ts: &Vec<InputTimeline>, player: u64) -> (pos: Option<usize>)
    ensures
        match pos {
            Some(i) => {
                &&& i < ts@.len()
                &&& timeline_position(timeline_views(ts@), player) == Some(i as int)
            },
            None => timeline_position(timeline_views(ts@), player) is None,
        },
{
    let ghost v = timeline_views(ts@);
    let mut i: usize = 0;
    while i < ts.len()
        invariant
            i <= ts@.len(),
            v == timeline_views(ts@),
            forall|j: int| 0 <= j < i ==> v[j].player_id != player,
        decreases ts@.len() - i,
    {
        if ts[i].player_id == player {
            proof {
                let c = choose|c: int|
                    0 <= c < v.len() && v[c].player_id == player && forall|j: int|
                        0 <= j < c ==> v[j].player_id != player;
                assert(v[i as int].player_id == player);
                if c < i {
                    assert(false);
                }
                if (i as int) < c {
                    assert(v[i as int].player_id != player);
                }
            }
            return Some(i);
        }
        i = i + 1;
    }
    None
}

pub struct TimelineScan {
    pub links: PlayerLinks,
    pub timelines: Vec<InputTimeline>,
}

impl View for TimelineScan {
    type V = TimelineScanModel;

    open spec fn view(&self) -> TimelineScanModel {
        TimelineScanModel { links: self.links@, timelines: timeline_views(self.timelines@) }
    }
}

impl TimelineScan {
    pub fn new() -> (s: Self)
        ensures
            s@ == (TimelineScanModel { links: empty_links(), timelines: seq![] }),
    {
        let s = TimelineScan { links: PlayerLinks::new(), timelines: Vec::new() };
        assert(s@.timelines =~= seq![]);
        s
    }

    pub fn feed_update(&mut self, f: usize, u: &ActorUpdate, l: LinkObjects, k: ChannelObjects)
        ensures
            final(self)@ == timeline_update(old(self)@, f, *u, l, k),
    {
        let aid = id_or_max_exec(u.actor_id);
        let oid = id_or_max_exec(u.object_id);
        let ghost before = self.timelines@;
        if oid == l.name {
            match &u.attribute.string {
                Some(_) => {
                    self.links.observe(u, l);
                    match find_timeline(&self.timelines, aid) {
                        Some(_) => {},
                        None => {
                            let t = InputTimeline {
                                player_id: aid,
                                steer_events: Vec::new(),
                                throttle_events: Vec::new(),
                            };
                            assert(t@.steer =~= seq![]);
                            assert(t@.throttle =~= seq![]);
                            self.timelines.push(t);
                            assert(timeline_views(self.timelines@) =~= timeline_views(before).push(
                                t@,
                            ));
                        },
                    }
                },
                None => {},
            }
        } else if oid == l.player_link {
            self.links.observe(u, l);
        } else if oid == k.steer || oid == k.throttle {
            match u.attribute.byte {
                Some(b) => {
                    match self.links.player_of(aid) {
                        Some(player) => {
                            match find_timeline(&self.timelines, player) {
                                Some(i) => {
                                    let e = InputEvent { frame_idx: f, value: b as u8 };
                                    if oid == k.steer {
                                        self.timelines[i].steer_events.push(e);
                                    } else {
                                        self.timelines[i].throttle_events.push(e);
                                    }
                                    proof {
                                        assert(timeline_views(self.timelines@) =~= add_event(
                                            timeline_views(before),
                                            player,
                                            e,
                                            oid == k.steer,
                                        ));
                                    }
                                },
                                None => {},
                            }
                        },
                        None => {},
                    }
                },
                None => {},
            }
        }
    }
}

/// Collects every named player's input events over the whole match.
pub fn scan_timelines(frames: &[Frame], l: LinkObjects, k: ChannelObjects) -> (scan: TimelineScan)
    ensures
        scan@ == timeline_frames(frames@, l, k),
{
    let mut scan = TimelineScan::new();
    for i in 0..frames.len()
        invariant
            scan@ == timeline_frames(frames@.subrange(0, i as int), l, k),
    {
        assert(frames@.subrange(0, i + 1).drop_last() =~= frames@.subrange(0, i as int));
        match &frames[i].updated_actors {
            Some(ups) => {
                let ghost before = scan@;
                for j in 0..ups.len()
                    invariant
                        scan@ == timeline_updates(before, i, ups@.subrange(0, j as int), l, k),
                {
                    assert(ups@.subrange(0, j + 1).drop_last() =~= ups@.subrange(0, j as int));
                    scan.feed_update(i, &ups[j], l, k);
                }
                assert(ups@.subrange(0, ups@.len() as int) =~= ups@);
            },
            None => {},
        }
    }
    assert(frames@.subrange(0, frames@.len() as int) =~= frames@);
    scan
}

/// Fewer events than this on either channel are too few to judge timing.
pub const MIN_TIMING_EVENTS: usize = 10;

/// The integer facts timing analysis uses about one player.
#[derive(Debug, Clone)]
pub struct SynchronyFacts {
    pub player_id: u64,
    pub name: Option<String>,
    /// Both channels only ever took keyboard values.
    pub is_discrete_only: bool,
    pub steer_events: Vec<InputEvent>,
    pub throttle_events: Vec<InputEvent>,
    pub steer_changes: Vec<(usize, usize)>,
    pub throttle_changes: Vec<(usize, usize)>,
    pub simultaneous_changes: usize,
    pub total_change_frames: usize,
    /// At least `MIN_TIMING_EVENTS` events on each channel.
    pub has_enough_data: bool,
}

/// The facts are those of timeline `t`.
pub open spec fn states_timing(r: SynchronyFacts, t: TimelineModel) -> bool {
    &&& r.player_id == t.player_id
    &&& r.is_discrete_only == (all_discrete(event_values(t.steer)) && all_discrete(
        event_values(t.throttle),
    ))
    &&& r.steer_events@ == t.steer
    &&& r.throttle_events@ == t.throttle
    &&& r.steer_changes@ == change_pairs(t.steer)
    &&& r.throttle_changes@ == change_pairs(t.throttle)
    &&& r.simultaneous_changes == frames_with_simultaneous_change(t.steer, t.throttle).len()
    &&& r.total_change_frames == frames_with_change(t.steer, t.throttle).len()
    &&& r.has_enough_data == (t.steer.len() >= MIN_TIMING_EVENTS && t.throttle.len()
        >= MIN_TIMING_EVENTS)
}

fn timing_facts(t: &InputTimeline, name: Option<String>) -> (r: SynchronyFacts)
    ensures
        states_timing(r, t@),
        r.name == name,
{
    let discrete = events_discrete_only(t.steer_events.as_slice()) && events_discrete_only(
        t.throttle_events.as_slice(),
    );
    let (simultaneous, total) = compute_synchrony(
        t.steer_events.as_slice(),
        t.throttle_events.as_slice(),
    );
    SynchronyFacts {
        player_id: t.player_id,
        name,
        is_discrete_only: discrete,
        steer_events: t.steer_events.clone(),
        throttle_events: t.throttle_events.clone(),
        steer_changes: value_changes(t.steer_events.as_slice()),
        throttle_changes: value_changes(t.throttle_events.as_slice()),
        simultaneous_changes: simultaneous,
        total_change_frames: total,
        has_enough_data: t.steer_events.len() >= MIN_TIMING_EVENTS && t.throttle_events.len()
            >= MIN_TIMING_EVENTS,
    }
}

pub open spec fn channel_objects_of(objects: Seq<Option<String>>) -> Result<(ChannelObjects, LinkObjects), AnalysisError> {
    let steer = object_id_of(objects, "TAGame.Vehicle_TA:ReplicatedSteer"@);
    let throttle = object_id_of(objects, "TAGame.Vehicle_TA:ReplicatedThrottle"@);
    let player_link = object_id_of(objects, "Engine.Pawn:PlayerReplicationInfo"@);
    let name = object_id_of(objects, "Engine.PlayerReplicationInfo:PlayerName"@);
    if steer is None {
        Err(AnalysisError::MissingObject("ReplicatedSteer not found"))
    } else if throttle is None {
        Err(AnalysisError::MissingObject("ReplicatedThrottle not found"))
    } else if player_link is None {
        Err(AnalysisError::MissingObject("PlayerReplicationInfo not found"))
    } else if name is None {
        Err(AnalysisError::MissingObject("PlayerName not found"))
    } else {
        Ok(
            (
                ChannelObjects { steer: steer.unwrap(), throttle: throttle.unwrap() },
                LinkObjects { name: name.unwrap(), player_link: player_link.unwrap() },
            ),
        )
    }
}

fn channel_objects(objects: &[Option<String>]) -> (res: Result<(ChannelObjects, LinkObjects), AnalysisError>)
    ensures
        res == channel_objects_of(objects@),
{
    let steer = match resolve_object_id(objects, "TAGame.Vehicle_TA:ReplicatedSteer") {
        Some(v) => v,
        None => {
            return Err(AnalysisError::MissingObject("ReplicatedSteer not found"));
        },
    };
    let throttle = match resolve_object_id(objects, "TAGame.Vehicle_TA:ReplicatedThrottle") {
        Some(v) => v,
        None => {
            return Err(AnalysisError::MissingObject("ReplicatedThrottle not found"));
        },
    };
    let player_link = match resolve_object_id(objects, "Engine.Pawn:PlayerReplicationInfo") {
        Some(v) => v,
        None => {
            return Err(AnalysisError::MissingObject("PlayerReplicationInfo not found"));
        },
    };
    let name = match resolve_object_id(objects, "Engine.PlayerReplicationInfo:PlayerName") {
        Some(v) => v,
        None => {
            return Err(AnalysisError::MissingObject("PlayerName not found"));
        },
    };
    Ok((ChannelObjects { steer, throttle }, LinkObjects { name, player_link }))
}

pub open spec fn synchrony_analysis_of(replay: ReplayData) -> Result<TimelineScanModel, AnalysisError> {
    match replay.objects {
        None => Err(AnalysisError::MissingObjects),
        Some(objects) => match channel_objects_of(objects@) {
            Err(e) => Err(e),
            Ok((k, l)) => match replay.frames {
                None => Err(AnalysisError::MissingFrames),
                Some(frames) => Ok(timeline_frames(frames@, l, k)),
            },
        },
    }
}

/// Input synchrony analysis, the integer side: the timing facts of every
/// named player, in order of their first name update, with their name.
pub fn analyze(replay: &ReplayData) -> (res: Result<Vec<SynchronyFacts>, AnalysisError>)
    ensures
        match (res, synchrony_analysis_of(*replay)) {
            (Err(e), Err(f)) => e == f,
            (Ok(rs), Ok(scan)) => {
                &&& rs@.len() == scan.timelines.len()
                &&& forall|i: int|
                    0 <= i < rs@.len() ==> states_timing(#[trigger] rs@[i], scan.timelines[i])
                &&& forall|i: int|
                    0 <= i < rs@.len() ==> (#[trigger] rs@[i]).name == (if scan.links.names.contains_key(
                        scan.timelines[i].player_id,
                    ) {
                        Some(scan.links.names[scan.timelines[i].player_id])
                    } else {
                        None
                    })
            },
            _ => false,
        },
{
    let objects = match &replay.objects {
        Some(o) => o,
        None => {
            return Err(AnalysisError::MissingObjects);
        },
    };
    let (k, l) = match channel_objects(objects.as_slice()) {
        Ok(p) => p,
        Err(e) => {
            return Err(e);
        },
    };
    let frames = match &replay.frames {
        Some(f) => f,
        None => {
            return Err(AnalysisError::MissingFrames);
        },
    };
    let scan = scan_timelines(frames.as_slice(), l, k);
    let ghost ts = scan@.timelines;
    let mut results: Vec<SynchronyFacts> = Vec::new();
    for i in 0..scan.timelines.len()
        invariant
            ts == scan@.timelines,
            results@.len() == i,
            forall|j: int| 0 <= j < i ==> states_timing(#[trigger] results@[j], ts[j]),
            forall|j: int|
                0 <= j < i ==> (#[trigger] results@[j]).name == (if scan@.links.names.contains_key(
                    ts[j].player_id,
                ) {
                    Some(scan@.links.names[ts[j].player_id])
                } else {
                    None
                }),
    {
        let t = &scan.timelines[i];
        let name = scan.links.name_of(t.player_id);
        let r = timing_facts(t, name);
        results.push(r);
    }
    Ok(results)
}

} // verus!

verus! {

/// The synchrony rate is a fraction: every frame with simultaneous changes
/// is a frame with a change, so there are no more of the former than of the
/// latter.
pub proof fn law_synchrony_within_changes(steer: Seq<InputEvent>, throttle: Seq<InputEvent>)
    ensures
        frames_with_simultaneous_change(steer, throttle).subset_of(
            frames_with_change(steer, throttle),
        ),
        frames_with_simultaneous_change(steer, throttle).len() <= frames_with_change(
            steer,
            throttle,
        ).len(),
{
    broadcast use vstd::seq_lib::seq_to_set_is_finite;

    let all = change_frames(steer) + change_frames(throttle);
    let sim = frames_with_simultaneous_change(steer, throttle);
    let chg = frames_with_change(steer, throttle);
    assert(sim.subset_of(chg));
    vstd::set_lib::lemma_len_subset(sim, chg);
}

} // verus!

verus! {

/// A player is reported as keyboard-only exactly when every steer event
/// and every throttle event carries one of the keyboard values 0, 128 and
/// 255; one other value on either channel rules it out.
pub proof fn law_keyboard_only_needs_both_channels_discrete(r: SynchronyFacts, t: TimelineModel)
    requires
        states_timing(r, t),
    ensures
        r.is_discrete_only <==> ((forall|i: int|
            0 <= i < t.steer.len() ==> t.steer[i].value == 0 || t.steer[i].value == 128
                || t.steer[i].value == 255) && (forall|i: int|
            0 <= i < t.throttle.len() ==> t.throttle[i].value == 0 || t.throttle[i].value == 128
                || t.throttle[i].value == 255)),
        r.has_enough_data <==> (t.steer.len() >= MIN_TIMING_EVENTS && t.throttle.len()
            >= MIN_TIMING_EVENTS),
{
    lemma_discrete_events(t.steer);
    lemma_discrete_events(t.throttle);
}

proof fn lemma_discrete_events(es: Seq<InputEvent>)
    ensures
        all_discrete(event_values(es)) <==> forall|i: int|
            0 <= i < es.len() ==> es[i].value == 0 || es[i].value == 128 || es[i].value == 255,
{
    let vs = event_values(es);
    assert(vs.len() == es.len());
    if all_discrete(vs) {
        assert forall|i: int| 0 <= i < es.len() implies es[i].value == 0 || es[i].value == 128
            || es[i].value == 255 by {
            assert(vs[i] == es[i].value);
            assert(is_discrete_value(vs[i]));
        }
    }
    if forall|i: int|
        0 <= i < es.len() ==> es[i].value == 0 || es[i].value == 128 || es[i].value == 255 {
        assert forall|i: int| 0 <= i < vs.len() implies is_discrete_value(#[trigger] vs[i]) by {
            assert(vs[i] == es[i].value);
        }
    }
}

} // verus!
