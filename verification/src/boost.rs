//! Boost analysis: each player's boost level over the match, the boost
//! gained and spent, and the pads picked up.
//!
//! Boost components are linked to cars (`TAGame.CarComponent_TA:Vehicle`)
//! and cars to players. Newer replays report `ReplicatedBoost` (amount and
//! grant count), older ones `ReplicatedBoostAmount` (a byte).

use crate::replay::{
    empty_links, id_or_max, id_or_max_exec, link_update, object_id_of, resolve_object_id,
    ActorUpdate, AnalysisError, Frame, LinkObjects, Links, PlayerLinks, ReplayData,
};
use std::collections::HashMap;
use vstd::prelude::*;

verus! {

/// A big pad fills the tank.
pub const BIG_PAD_BOOST: u8 = 255;

/// Small pads grant about 12% (some 30 units); any rise of at least this
/// much with a pickup counts as a small pad.
pub const SMALL_PAD_THRESHOLD: u8 = 10;

/// Without a grant count, a rise to full of at least this much is taken
/// for a big pad.
pub const BIG_PAD_JUMP: u8 = 80;

/// The boost a car starts with, before its first update.
pub const INITIAL_BOOST: u8 = 85;

/// A player's boost history and pickups, as the updates arrive.
#[derive(Debug, Clone)]
pub struct BoostTracker {
    pub samples: Vec<u8>,
    pub last_boost: u8,
    pub last_grant_count: u32,
    pub big_pad_pickups: usize,
    pub small_pad_pickups: usize,
    /// Sum of all rises of the boost level.
    pub boost_collected: u128,
    /// Sum of all falls of the boost level.
    pub boost_consumed: u128,
}

pub struct TrackerModel {
    pub samples: Seq<u8>,
    pub last_boost: u8,
    pub last_grant_count: u32,
    pub big_pad_pickups: nat,
    pub small_pad_pickups: nat,
    pub boost_collected: nat,
    pub boost_consumed: nat,
}

impl View for BoostTracker {
    type V = TrackerModel;

    open spec fn view(&self) -> TrackerModel {
        TrackerModel {
            samples: self.samples@,
            last_boost: self.last_boost,
            last_grant_count: self.last_grant_count,
            big_pad_pickups: self.big_pad_pickups as nat,
            small_pad_pickups: self.small_pad_pickups as nat,
            boost_collected: self.boost_collected as nat,
            boost_consumed: self.boost_consumed as nat,
        }
    }
}

/// A tracker before any update.
pub open spec fn fresh_tracker() -> TrackerModel {
    TrackerModel {
        samples: seq![],
        last_boost: INITIAL_BOOST,
        last_grant_count: 0,
        big_pad_pickups: 0,
        small_pad_pickups: 0,
        boost_collected: 0,
        boost_consumed: 0,
    }
}

/// The tracker after a boost update of `v`, with the grant count when the
/// replay reports one. With a grant count, a pickup happened when the count
/// grew: big if the tank is now full, small if it rose by at least
/// `SMALL_PAD_THRESHOLD`. Without one, a rise to full by at least
/// `BIG_PAD_JUMP` is a big pad, another rise of at least
/// `SMALL_PAD_THRESHOLD` a small one. Rises add to the collected total,
/// falls to the consumed total.
pub open spec fn boost_record(t: TrackerModel, v: u8, grant_count: Option<u32>) -> TrackerModel {
    let rise: int = v - t.last_boost;
    let (big, small, gc) = match grant_count {
        Some(g) => if g > t.last_grant_count {
            if v == BIG_PAD_BOOST {
                (t.big_pad_pickups + 1, t.small_pad_pickups, g)
            } else if rise >= SMALL_PAD_THRESHOLD {
                (t.big_pad_pickups, t.small_pad_pickups + 1, g)
            } else {
                (t.big_pad_pickups, t.small_pad_pickups, g)
            }
        } else {
            (t.big_pad_pickups, t.small_pad_pickups, t.last_grant_count)
        },
        None => if rise > 0 && v == BIG_PAD_BOOST && rise >= BIG_PAD_JUMP {
            (t.big_pad_pickups + 1, t.small_pad_pickups, t.last_grant_count)
        } else if rise > 0 && rise >= SMALL_PAD_THRESHOLD {
            (t.big_pad_pickups, t.small_pad_pickups + 1, t.last_grant_count)
        } else {
            (t.big_pad_pickups, t.small_pad_pickups, t.last_grant_count)
        },
    };
    TrackerModel {
        samples: t.samples.push(v),
        last_boost: v,
        last_grant_count: gc,
        big_pad_pickups: big,
        small_pad_pickups: small,
        boost_collected: if rise > 0 {
            (t.boost_collected + rise) as nat
        } else {
            t.boost_collected
        },
        boost_consumed: if rise < 0 {
            (t.boost_consumed - rise) as nat
        } else {
            t.boost_consumed
        },
    }
}

/// What every tracker keeps: the collected total minus the consumed total
/// is how far the level moved from its start, the totals and the pickups
/// are bounded by what the samples allow.
pub open spec fn tracker_inv(t: TrackerModel) -> bool {
    &&& t.boost_collected - t.boost_consumed == t.last_boost - INITIAL_BOOST
    &&& t.boost_collected <= 255 * t.samples.len()
    &&& t.boost_consumed <= 255 * t.samples.len()
    &&& t.big_pad_pickups + t.small_pad_pickups <= t.samples.len()
    &&& (t.samples.len() > 0 ==> t.last_boost == t.samples.last())
}

impl BoostTracker {
    pub fn new() -> (t: Self)
        ensures
            t@ == fresh_tracker(),
            tracker_inv(t@),
    {
        let t = BoostTracker {
            samples: Vec::new(),
            last_boost: INITIAL_BOOST,
            last_grant_count: 0,
            big_pad_pickups: 0,
            small_pad_pickups: 0,
            boost_collected: 0,
            boost_consumed: 0,
        };
        assert(t@.samples =~= seq![]);
        t
    }

    /// Records a boost update.
    pub fn record(&mut self, v: u8, grant_count: Option<u32>)
        requires
            tracker_inv(old(self)@),
        ensures
            final(self)@ == boost_record(old(self)@, v, grant_count),
            tracker_inv(final(self)@),
    {
        self.samples.push(v);
        let _n = self.samples.len();
        match grant_count {
            Some(gc) => {
                if gc > self.last_grant_count {
                    if v == BIG_PAD_BOOST {
                        self.big_pad_pickups = self.big_pad_pickups + 1;
                    } else if v > self.last_boost && v - self.last_boost >= SMALL_PAD_THRESHOLD {
                        self.small_pad_pickups = self.small_pad_pickups + 1;
                    }
                    self.last_grant_count = gc;
                }
            },
            None => {
                if v > self.last_boost {
                    let jump = v - self.last_boost;
                    if v == BIG_PAD_BOOST && jump >= BIG_PAD_JUMP {
                        self.big_pad_pickups = self.big_pad_pickups + 1;
                    } else if jump >= SMALL_PAD_THRESHOLD {
                        self.small_pad_pickups = self.small_pad_pickups + 1;
                    }
                }
            },
        }
        if v > self.last_boost {
            self.boost_collected = self.boost_collected + (v - self.last_boost) as u128;
        } else if v < self.last_boost {
            self.boost_consumed = self.boost_consumed + (self.last_boost - v) as u128;
        }
        self.last_boost = v;
    }
}


// ---------------------------------------------------------------------------
// Scanning the frames
// ---------------------------------------------------------------------------

/// The object ids the boost scan reads, besides the linkage ones.
#[derive(Debug, Clone, Copy)]
pub struct BoostObjects {
    /// `TAGame.CarComponent_TA:Vehicle`
    pub vehicle: u64,
    /// `TAGame.CarComponent_Boost_TA:ReplicatedBoost`, in newer replays
    pub replicated_boost: Option<u64>,
    /// `TAGame.CarComponent_Boost_TA:ReplicatedBoostAmount`, in older ones
    pub boost_amount: Option<u64>,
}

/// The scan state: who is who, which car each boost component belongs to,
/// and a tracker per player (by player actor id, in order of first update).
pub struct BoostScanModel {
    pub links: Links,
    pub boost_to_car: Map<u64, u64>,
    pub trackers: Seq<(u64, TrackerModel)>,
}

/// The first position of `player` among the trackers.
pub open spec fn tracker_position(ts: Seq<(u64, TrackerModel)>, player: u64) -> Option<int> {
    if exists|i: int| 0 <= i < ts.len() && ts[i].0 == player {
        Some(
            choose|i: int|
                0 <= i < ts.len() && ts[i].0 == player && forall|j: int|
                    0 <= j < i ==> ts[j].0 != player,
        )
    } else {
        None
    }
}

/// Records a boost update for `player`, starting a fresh tracker for a
/// player seen for the first time.
pub open spec fn track(ts: Seq<(u64, TrackerModel)>, player: u64, v: u8, gc: Option<u32>) -> Seq<(u64, TrackerModel)> {
    match tracker_position(ts, player) {
        Some(i) => ts.update(i, (player, boost_record(ts[i].1, v, gc))),
        None => ts.push((player, boost_record(fresh_tracker(), v, gc))),
    }
}

/// The player whose car a boost component belongs to, when both links are
/// known.
pub open spec fn boost_owner(s: BoostScanModel, component: u64) -> Option<u64> {
    if s.boost_to_car.contains_key(component) && s.links.car_to_player.contains_key(
        s.boost_to_car[component],
    ) {
        Some(s.links.car_to_player[s.boost_to_car[component]])
    } else {
        None
    }
}

/// The scan after one update: names and car owners are linked; a vehicle
/// update links a boost component to its car; a boost update of a
/// component whose player is known is recorded for that player (a
/// `ReplicatedBoost` with its grant count, truncated to 32 bits, or 0 when
/// missing; a `ReplicatedBoostAmount` byte without one).
pub open spec fn boost_update(s: BoostScanModel, u: ActorUpdate, l: LinkObjects, k: BoostObjects) -> BoostScanModel {
    let aid = id_or_max(u.actor_id);
    let oid = id_or_max(u.object_id);
    if oid == l.name || oid == l.player_link {
        BoostScanModel { links: link_update(s.links, u, l), ..s }
    } else if oid == k.vehicle {
        match u.attribute.active_actor {
            Some(car) => BoostScanModel { boost_to_car: s.boost_to_car.insert(aid, car), ..s },
            None => s,
        }
    } else if k.replicated_boost == Some(oid) {
        match (u.attribute.boost_amount, boost_owner(s, aid)) {
            (Some(amount), Some(player)) => {
                let gc: u64 = match u.attribute.grant_count {
                    Some(g) => g,
                    None => 0,
                };
                BoostScanModel {
                    trackers: track(s.trackers, player, amount as u8, Some(gc as u32)),
                    ..s
                }
            },
            _ => s,
        }
    } else if k.boost_amount == Some(oid) {
        match (u.attribute.byte, boost_owner(s, aid)) {
            (Some(b), Some(player)) => BoostScanModel {
                trackers: track(s.trackers, player, b as u8, None),
                ..s
            },
            _ => s,
        }
    } else {
        s
    }
}

pub open spec fn boost_updates(s: BoostScanModel, ups: Seq<ActorUpdate>, l: LinkObjects, k: BoostObjects) -> BoostScanModel
    decreases ups.len(),
{
    if ups.len() == 0 {
        s
    } else {
        boost_update(boost_updates(s, ups.drop_last(), l, k), ups.last(), l, k)
    }
}

pub open spec fn boost_frames(frames: Seq<Frame>, l: LinkObjects, k: BoostObjects) -> BoostScanModel
    decreases frames.len(),
{
    if frames.len() == 0 {
        BoostScanModel { links: empty_links(), boost_to_car: Map::empty(), trackers: seq![] }
    } else {
        let before = boost_frames(frames.drop_last(), l, k);
        match frames.last().updated_actors {
            Some(ups) => boost_updates(before, ups@, l, k),
            None => before,
        }
    }
}

pub open spec fn tracker_views(ts: Seq<(u64, BoostTracker)>) -> Seq<(u64, TrackerModel)> {
    ts.map_values(|p: (u64, BoostTracker)| (p.0, p.1@))
}

/// Every tracker keeps its invariant.
pub open spec fn trackers_ok(ts: Seq<(u64, TrackerModel)>) -> bool {
    forall|i: int| 0 <= i < ts.len() ==> tracker_inv(#[trigger] ts[i].1)
}

/// The boost scan state as the analysis keeps it.
pub struct BoostScan {
    pub links: PlayerLinks,
    pub boost_to_car: HashMap<u64, u64>,
    pub trackers: Vec<(u64, BoostTracker)>,
}

impl View for BoostScan {
    type V = BoostScanModel;

    open spec fn view(&self) -> BoostScanModel {
        BoostScanModel {
            links: self.links@,
            boost_to_car: self.boost_to_car@,
            trackers: tracker_views(self.trackers@),
        }
    }
}

fn find_tracker(ts: &Vec<(u64, BoostTracker)>, player: u64) -> (pos: Option<usize>)
    ensures
        match pos {
            Some(i) => {
                &&& i < ts@.len()
                &&& ts@[i as int].0 == player
                &&& tracker_position(tracker_views(ts@), player) == Some(i as int)
            },
            None => tracker_position(tracker_views(ts@), player) is None,
        },
{
    let ghost v = tracker_views(ts@);
    let mut i: usize = 0;
    while i < ts.len()
        invariant
            i <= ts@.len(),
            v == tracker_views(ts@),
            forall|j: int| 0 <= j < i ==> v[j].0 != player,
        decreases ts@.len() - i,
    {
        if ts[i].0 == player {
            proof {
                let c = choose|c: int|
                    0 <= c < v.len() && v[c].0 == player && forall|j: int|
                        0 <= j < c ==> v[j].0 != player;
                assert(v[i as int].0 == player);
                if c < i {
                    assert(false);
                }
                if (i as int) < c {
                    assert(v[i as int].0 != player);
                }
            }
            return Some(i);
        }
        i = i + 1;
    }
    None
}

impl BoostScan {
    pub fn new() -> (s: Self)
        ensures
            s@ == (BoostScanModel {
                links: empty_links(),
                boost_to_car: Map::empty(),
                trackers: seq![],
            }),
            trackers_ok(s@.trackers),
    {
        let s = BoostScan { links: PlayerLinks::new(), boost_to_car: HashMap::new(), trackers: Vec::new() };
        assert(s@.trackers =~= seq![]);
        s
    }

    fn track_boost(&mut self, player: u64, v: u8, gc: Option<u32>)
        requires
            trackers_ok(old(self)@.trackers),
        ensures
            final(self)@ == (BoostScanModel {
                trackers: track(old(self)@.trackers, player, v, gc),
                ..old(self)@
            }),
            trackers_ok(final(self)@.trackers),
    {
        let ghost before = self.trackers@;
        match find_tracker(&self.trackers, player) {
            Some(i) => {
                assert(tracker_views(before)[i as int].1 == before[i as int].1@);
                self.trackers[i].1.record(v, gc);
                proof {
                    assert(tracker_views(self.trackers@) =~= tracker_views(before).update(
                        i as int,
                        (player, boost_record(tracker_views(before)[i as int].1, v, gc)),
                    ));
                }
            },
            None => {
                let mut t = BoostTracker::new();
                t.record(v, gc);
                self.trackers.push((player, t));
                proof {
                    assert(tracker_views(self.trackers@) =~= tracker_views(before).push(
                        (player, boost_record(fresh_tracker(), v, gc)),
                    ));
                }
            },
        }
        proof {
            let ts = self@.trackers;
            assert forall|j: int| 0 <= j < ts.len() implies tracker_inv(#[trigger] ts[j].1) by {
                if j < before.len() {
                    assert(tracker_views(before)[j] == (before[j].0, before[j].1@));
                }
            }
        }
    }

    /// Applies one update to the scan.
    pub fn feed_update(&mut self, u: &ActorUpdate, l: LinkObjects, k: BoostObjects)
        requires
            trackers_ok(old(self)@.trackers),
        ensures
            final(self)@ == boost_update(old(self)@, *u, l, k),
            trackers_ok(final(self)@.trackers),
    {
        broadcast use vstd::std_specs::hash::group_hash_axioms;

        let aid = id_or_max_exec(u.actor_id);
        let oid = id_or_max_exec(u.object_id);
        if oid == l.name || oid == l.player_link {
            self.links.observe(u, l);
            return;
        }
        if oid == k.vehicle {
            match u.attribute.active_actor {
                Some(car) => {
                    self.boost_to_car.insert(aid, car);
                },
                None => {},
            }
            return;
        }
        let is_replicated = match k.replicated_boost {
            Some(r) => r == oid,
            None => false,
        };
        let is_amount = match k.boost_amount {
            Some(a) => a == oid,
            None => false,
        };
        if !is_replicated && !is_amount {
            return;
        }
        let value = if is_replicated {
            u.attribute.boost_amount
        } else {
            u.attribute.byte
        };
        let amount = match value {
            Some(a) => a,
            None => {
                return;
            },
        };
        let car = match self.boost_to_car.get(&aid) {
            Some(c) => *c,
            None => {
                return;
            },
        };
        let player = match self.links.player_of(car) {
            Some(p) => p,
            None => {
                return;
            },
        };
        if is_replicated {
            let gc: u64 = match u.attribute.grant_count {
                Some(g) => g,
                None => 0,
            };
            self.track_boost(player, amount as u8, Some(gc as u32));
        } else {
            self.track_boost(player, amount as u8, None);
        }
    }
}

/// Scans every frame, tracking each player's boost.
pub fn scan_boost(frames: &[Frame], l: LinkObjects, k: BoostObjects) -> (scan: BoostScan)
    ensures
        scan@ == boost_frames(frames@, l, k),
{
    let mut scan = BoostScan::new();
    for i in 0..frames.len()
        invariant
            scan@ == boost_frames(frames@.subrange(0, i as int), l, k),
            trackers_ok(scan@.trackers),
    {
        assert(frames@.subrange(0, i + 1).drop_last() =~= frames@.subrange(0, i as int));
        match &frames[i].updated_actors {
            Some(ups) => {
                let ghost before = scan@;
                for j in 0..ups.len()
                    invariant
                        scan@ == boost_updates(before, ups@.subrange(0, j as int), l, k),
                        trackers_ok(scan@.trackers),
                {
                    assert(ups@.subrange(0, j + 1).drop_last() =~= ups@.subrange(0, j as int));
                    scan.feed_update(&ups[j], l, k);
                }
                assert(ups@.subrange(0, ups@.len() as int) =~= ups@);
            },
            None => {},
        }
    }
    assert(frames@.subrange(0, frames@.len() as int) =~= frames@);
    scan
}


// ---------------------------------------------------------------------------
// Per-player results and the whole analysis
// ---------------------------------------------------------------------------

/// What boost analysis reports of one player, in raw units (0-255 per
/// sample); percentages are these over 255 and over the sample count.
#[derive(Debug, Clone)]
pub struct BoostSummary {
    pub player_id: u64,
    pub name: Option<String>,
    pub total_samples: usize,
    /// Sum of all boost samples.
    pub sample_sum: u128,
    /// Samples at 0.
    pub zero_count: usize,
    /// Samples at 255.
    pub full_count: usize,
    pub boost_collected: u128,
    pub boost_consumed: u128,
    pub big_pad_pickups: usize,
    pub small_pad_pickups: usize,
}

/// Sum of the first `n` samples.
pub open spec fn sample_total(s: Seq<u8>, n: nat) -> nat
    decreases n,
{
    if n == 0 || n > s.len() {
        0
    } else {
        sample_total(s, (n - 1) as nat) + s[n - 1] as nat
    }
}

/// How many of the first `n` samples equal `v`.
pub open spec fn count_value(s: Seq<u8>, v: u8, n: nat) -> nat
    decreases n,
{
    if n == 0 || n > s.len() {
        0
    } else {
        count_value(s, v, (n - 1) as nat) + if s[n - 1] == v {
            1nat
        } else {
            0nat
        }
    }
}

/// The summary reports the tracker of `player` exactly.
pub open spec fn reports(r: BoostSummary, player: u64, t: TrackerModel) -> bool {
    &&& r.player_id == player
    &&& r.total_samples == t.samples.len()
    &&& r.sample_sum == sample_total(t.samples, t.samples.len())
    &&& r.zero_count == count_value(t.samples, 0, t.samples.len())
    &&& r.full_count == count_value(t.samples, 255, t.samples.len())
    &&& r.boost_collected == t.boost_collected
    &&& r.boost_consumed == t.boost_consumed
    &&& r.big_pad_pickups == t.big_pad_pickups
    &&& r.small_pad_pickups == t.small_pad_pickups
}

proof fn lemma_sample_total_bound(s: Seq<u8>, n: nat)
    requires
        n <= s.len(),
    ensures
        sample_total(s, n) <= 255 * n,
    decreases n,
{
    if n > 0 {
        lemma_sample_total_bound(s, (n - 1) as nat);
    }
}

proof fn lemma_count_value_bound(s: Seq<u8>, v: u8, n: nat)
    requires
        n <= s.len(),
    ensures
        count_value(s, v, n) <= n,
    decreases n,
{
    if n > 0 {
        lemma_count_value_bound(s, v, (n - 1) as nat);
    }
}

/// Summarizes one player's tracker.
fn summarize_tracker(player: u64, t: &BoostTracker, name: Option<String>) -> (r: BoostSummary)
    ensures
        reports(r, player, t@),
        r.name == name,
{
    let n = t.samples.len();
    let mut sum: u128 = 0;
    let mut zeros: usize = 0;
    let mut fulls: usize = 0;
    for i in 0..n
        invariant
            n == t.samples@.len(),
            sum == sample_total(t.samples@, i as nat),
            zeros == count_value(t.samples@, 0, i as nat),
            fulls == count_value(t.samples@, 255, i as nat),
    {
        proof {
            lemma_sample_total_bound(t.samples@, i as nat);
            lemma_count_value_bound(t.samples@, 0, i as nat);
            lemma_count_value_bound(t.samples@, 255, i as nat);
        }
        let v = t.samples[i];
        sum = sum + v as u128;
        if v == 0 {
            zeros = zeros + 1;
        }
        if v == 255 {
            fulls = fulls + 1;
        }
    }
    BoostSummary {
        player_id: player,
        name,
        total_samples: n,
        sample_sum: sum,
        zero_count: zeros,
        full_count: fulls,
        boost_collected: t.boost_collected,
        boost_consumed: t.boost_consumed,
        big_pad_pickups: t.big_pad_pickups,
        small_pad_pickups: t.small_pad_pickups,
    }
}

/// The object ids boost analysis needs, in the order it reports a missing
/// one.
pub open spec fn boost_objects_of(objects: Seq<Option<String>>) -> Result<(BoostObjects, LinkObjects), AnalysisError> {
    let rb = object_id_of(objects, "TAGame.CarComponent_Boost_TA:ReplicatedBoost"@);
    let amount = object_id_of(objects, "TAGame.CarComponent_Boost_TA:ReplicatedBoostAmount"@);
    let vehicle = object_id_of(objects, "TAGame.CarComponent_TA:Vehicle"@);
    let player_link = object_id_of(objects, "Engine.Pawn:PlayerReplicationInfo"@);
    let name = object_id_of(objects, "Engine.PlayerReplicationInfo:PlayerName"@);
    if rb is None && amount is None {
        Err(
            AnalysisError::Unsupported(
                "no boost data found (neither ReplicatedBoost nor ReplicatedBoostAmount)",
            ),
        )
    } else if vehicle is None {
        Err(AnalysisError::MissingObject("Vehicle link not found"))
    } else if player_link is None {
        Err(AnalysisError::MissingObject("PlayerReplicationInfo not found"))
    } else if name is None {
        Err(AnalysisError::MissingObject("PlayerName not found"))
    } else {
        Ok(
            (
                BoostObjects { vehicle: vehicle.unwrap(), replicated_boost: rb, boost_amount: amount },
                LinkObjects { name: name.unwrap(), player_link: player_link.unwrap() },
            ),
        )
    }
}

fn boost_objects(objects: &[Option<String>]) -> (res: Result<(BoostObjects, LinkObjects), AnalysisError>)
    ensures
        res == boost_objects_of(objects@),
{
    let rb = resolve_object_id(objects, "TAGame.CarComponent_Boost_TA:ReplicatedBoost");
    let amount = resolve_object_id(objects, "TAGame.CarComponent_Boost_TA:ReplicatedBoostAmount");
    if rb.is_none() && amount.is_none() {
        return Err(
            AnalysisError::Unsupported(
                "no boost data found (neither ReplicatedBoost nor ReplicatedBoostAmount)",
            ),
        );
    }
    let vehicle = match resolve_object_id(objects, "TAGame.CarComponent_TA:Vehicle") {
        Some(v) => v,
        None => {
            return Err(AnalysisError::MissingObject("Vehicle link not found"));
        },
    };
    let player_link = match resolve_object_id(objects, "Engine.Pawn:PlayerReplicationInfo") {
        Some(v) => v,
        None => {
            return Err(AnalysisError::MissingObject("PlayerReplicationInfo not found"));
        },
    };
    let name = match resolve_object_id(objects, "Engine.PlayerReplicationInfo:PlayerName") {
        Some(v) => v,
        None => {
            return Err(AnalysisError::MissingObject("PlayerName not found"));
        },
    };
    Ok(
        (
            BoostObjects { vehicle, replicated_boost: rb, boost_amount: amount },
            LinkObjects { name, player_link },
        ),
    )
}

/// What boost analysis of a replay yields: the missing data it stops at, or
/// the final scan state.
pub open spec fn boost_analysis_of(replay: ReplayData) -> Result<BoostScanModel, AnalysisError> {
    match replay.objects {
        None => Err(AnalysisError::MissingObjects),
        Some(objects) => match boost_objects_of(objects@) {
            Err(e) => Err(e),
            Ok((k, l)) => match replay.frames {
                None => Err(AnalysisError::MissingFrames),
                Some(frames) => Ok(boost_frames(frames@, l, k)),
            },
        },
    }
}

/// Boost analysis: a summary for each player whose boost was updated, in
/// order of their first update, with the name the replay gives them.
pub fn analyze(replay: &ReplayData) -> (res: Result<Vec<BoostSummary>, AnalysisError>)
    ensures
        match (res, boost_analysis_of(*replay)) {
            (Err(e), Err(f)) => e == f,
            (Ok(rs), Ok(scan)) => {
                &&& rs@.len() == scan.trackers.len()
                &&& forall|i: int|
                    0 <= i < rs@.len() ==> reports(
                        #[trigger] rs@[i],
                        scan.trackers[i].0,
                        scan.trackers[i].1,
                    )
                &&& forall|i: int|
                    0 <= i < rs@.len() ==> (#[trigger] rs@[i]).name == (if scan.links.names.contains_key(
                        scan.trackers[i].0,
                    ) {
                        Some(scan.links.names[scan.trackers[i].0])
                    } else {
                        None
                    })
            },
            _ => false,
        },
{
    let objects = match &replay.objects {
        Some(o) => o,
        None => {
            return Err(AnalysisError::MissingObjects);
        },
    };
    let (k, l) = match boost_objects(objects.as_slice()) {
        Ok(p) => p,
        Err(e) => {
            return Err(e);
        },
    };
    let frames = match &replay.frames {
        Some(f) => f,
        None => {
            return Err(AnalysisError::MissingFrames);
        },
    };
    let scan = scan_boost(frames.as_slice(), l, k);
    let ghost ts = scan@.trackers;
    let mut results: Vec<BoostSummary> = Vec::new();
    for i in 0..scan.trackers.len()
        invariant
            ts == scan@.trackers,
            results@.len() == i,
            forall|j: int|
                0 <= j < i ==> reports(#[trigger] results@[j], ts[j].0, ts[j].1),
            forall|j: int|
                0 <= j < i ==> (#[trigger] results@[j]).name == (if scan@.links.names.contains_key(
                    ts[j].0,
                ) {
                    Some(scan@.links.names[ts[j].0])
                } else {
                    None
                }),
    {
        let (player, tracker) = (scan.trackers[i].0, &scan.trackers[i].1);
        assert(ts[i as int] == (player, tracker@));
        let name = scan.links.name_of(player);
        let r = summarize_tracker(player, tracker, name);
        results.push(r);
    }
    Ok(results)
}

} // verus!

verus! {

/// The tracker after the boost updates `updates` (level, grant count), in
/// order, starting from `t`.
pub open spec fn boost_history(t: TrackerModel, updates: Seq<(u8, Option<u32>)>) -> TrackerModel
    decreases updates.len(),
{
    if updates.len() == 0 {
        t
    } else {
        let before = boost_history(t, updates.drop_last());
        boost_record(before, updates.last().0, updates.last().1)
    }
}

proof fn lemma_boost_record_keeps_inv(t: TrackerModel, v: u8, grant_count: Option<u32>)
    requires
        tracker_inv(t),
    ensures
        tracker_inv(boost_record(t, v, grant_count)),
{
}

/// Boost is conserved: from a fresh tracker, whatever the updates, the
/// boost collected minus the boost consumed is how far the level moved
/// from its start, the samples are the levels reported, in order, and
/// there are no more pad pickups than updates.
pub proof fn law_boost_balance(updates: Seq<(u8, Option<u32>)>)
    ensures
        ({
            let t = boost_history(fresh_tracker(), updates);
            &&& t.boost_collected - t.boost_consumed == t.last_boost - INITIAL_BOOST
            &&& t.samples == updates.map_values(|u: (u8, Option<u32>)| u.0)
            &&& t.big_pad_pickups + t.small_pad_pickups <= updates.len()
        }),
    decreases updates.len(),
{
    if updates.len() > 0 {
        law_boost_balance(updates.drop_last());
        lemma_boost_history_inv(updates.drop_last());
        let before = boost_history(fresh_tracker(), updates.drop_last());
        lemma_boost_record_keeps_inv(before, updates.last().0, updates.last().1);
        assert(updates.map_values(|u: (u8, Option<u32>)| u.0) =~= updates.drop_last().map_values(
            |u: (u8, Option<u32>)| u.0,
        ).push(updates.last().0));
    } else {
        assert(updates.map_values(|u: (u8, Option<u32>)| u.0) =~= seq![]);
    }
}

proof fn lemma_boost_history_inv(updates: Seq<(u8, Option<u32>)>)
    ensures
        tracker_inv(boost_history(fresh_tracker(), updates)),
        boost_history(fresh_tracker(), updates).samples.len() == updates.len(),
    decreases updates.len(),
{
    if updates.len() > 0 {
        lemma_boost_history_inv(updates.drop_last());
        lemma_boost_record_keeps_inv(
            boost_history(fresh_tracker(), updates.drop_last()),
            updates.last().0,
            updates.last().1,
        );
    }
}

} // verus!

verus! {

/// Pad pickups in older replays, which report no grant count: a rise to a
/// full tank (255) of at least `BIG_PAD_JUMP` is a big pad; any other rise
/// of at least `SMALL_PAD_THRESHOLD` (a rise to full of less than
/// `BIG_PAD_JUMP` among them) is a small pad; a smaller rise, no change or
/// a fall is no pickup. Exactly one of the two counts moves, by one, or
/// neither does.
pub proof fn law_pickups_without_grant_count(t: TrackerModel, v: u8)
    ensures
        ({
            let r = boost_record(t, v, None);
            let rise: int = v - t.last_boost;
            &&& (v == 255 && rise >= 80) ==> (r.big_pad_pickups == t.big_pad_pickups + 1
                && r.small_pad_pickups == t.small_pad_pickups)
            &&& (v == 255 && 10 <= rise < 80) ==> (r.small_pad_pickups == t.small_pad_pickups + 1
                && r.big_pad_pickups == t.big_pad_pickups)
            &&& (v != 255 && rise >= 10) ==> (r.small_pad_pickups == t.small_pad_pickups + 1
                && r.big_pad_pickups == t.big_pad_pickups)
            &&& rise < 10 ==> (r.small_pad_pickups == t.small_pad_pickups && r.big_pad_pickups
                == t.big_pad_pickups)
            &&& r.last_grant_count == t.last_grant_count
        }),
{
}

/// Pad pickups in newer replays: a pickup happened only when the grant
/// count grew; it was a big pad when the tank is now full (255), a small
/// pad when the level rose by at least `SMALL_PAD_THRESHOLD` without
/// filling it, and otherwise uncounted. The grant count seen last is the
/// larger one.
pub proof fn law_pickups_with_grant_count(t: TrackerModel, v: u8, g: u32)
    ensures
        ({
            let r = boost_record(t, v, Some(g));
            let rise: int = v - t.last_boost;
            &&& g <= t.last_grant_count ==> (r.big_pad_pickups == t.big_pad_pickups
                && r.small_pad_pickups == t.small_pad_pickups && r.last_grant_count
                == t.last_grant_count)
            &&& (g > t.last_grant_count && v == 255) ==> (r.big_pad_pickups == t.big_pad_pickups
                + 1 && r.small_pad_pickups == t.small_pad_pickups)
            &&& (g > t.last_grant_count && v != 255 && rise >= 10) ==> (r.small_pad_pickups
                == t.small_pad_pickups + 1 && r.big_pad_pickups == t.big_pad_pickups)
            &&& (g > t.last_grant_count && v != 255 && rise < 10) ==> (r.small_pad_pickups
                == t.small_pad_pickups && r.big_pad_pickups == t.big_pad_pickups)
            &&& g > t.last_grant_count ==> r.last_grant_count == g
        }),
{
}

/// Every update is a sample: the level becomes the reported value, which
/// is appended to the samples; a rise adds its size to the collected total
/// and a fall its size to the consumed total, the other total unchanged.
pub proof fn law_boost_update_moves_the_level(t: TrackerModel, v: u8, gc: Option<u32>)
    ensures
        ({
            let r = boost_record(t, v, gc);
            &&& r.last_boost == v
            &&& r.samples.len() == t.samples.len() + 1
            &&& r.samples.last() == v
            &&& forall|i: int| 0 <= i < t.samples.len() ==> r.samples[i] == t.samples[i]
            &&& v >= t.last_boost ==> (r.boost_collected == t.boost_collected + (v - t.last_boost)
                && r.boost_consumed == t.boost_consumed)
            &&& v <= t.last_boost ==> (r.boost_consumed == t.boost_consumed + (t.last_boost - v)
                && r.boost_collected == t.boost_collected)
        }),
{
}

} // verus!
