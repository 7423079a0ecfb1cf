//! Bot detection, the input side: every steer and throttle byte each
//! player sent, how many distinct values they used, and whether they only
//! ever used the three keyboard values.

use crate::replay::{
    empty_links, id_or_max, id_or_max_exec, link_update, object_id_of, resolve_object_id,
    ActorUpdate, AnalysisError, Frame, LinkObjects, Links, PlayerLinks, ReplayData,
};
use vstd::prelude::*;

verus! {

/// A keyboard produces only full left/back (0), neutral (128) and full
/// right/forward (255).
pub open spec fn is_discrete_value(v: u8) -> bool {
    v == 0 || v == 128 || v == 255
}

/// Every value is one of the keyboard values.
pub open spec fn all_discrete(values: Seq<u8>) -> bool {
    forall|i: int| 0 <= i < values.len() ==> is_discrete_value(#[trigger] values[i])
}

/// Whether the inputs only ever take the keyboard values 0, 128 and 255
/// (true of no inputs at all).
pub fn is_discrete_only(values: &[u8]) -> (b: bool)
    ensures
        b == all_discrete(values@),
{
    for i in 0..values.len()
        invariant
            forall|j: int| 0 <= j < i ==> is_discrete_value(#[trigger] values@[j]),
    {
        let v = values[i];
        if !(v == 0 || v == 128 || v == 255) {
            return false;
        }
    }
    true
}

/// The number of distinct values among the inputs.
pub open spec fn distinct_count(values: Seq<u8>) -> nat {
    values.to_set().len()
}

/// Counts the distinct values among the inputs.
pub fn count_distinct(values: &[u8]) -> (n: usize)
    ensures
        n == distinct_count(values@),
{
    broadcast use vstd::seq_lib::seq_to_set_is_finite;

    let mut seen: [bool; 256] = [false; 256];
    assert(forall|j: int| 0 <= j < 256 ==> !seen@[j]);
    assert(values@.subrange(0, 0).to_set() =~= Set::<u8>::empty());
    assert forall|v: u8| #[trigger] values@.subrange(0, 0).contains(v) <==> seen@[v as int] by {
        assert(!seen@[v as int]);
    }
    let mut n: usize = 0;
    let mut i: usize = 0;
    while i < values.len()
        invariant
            i <= values@.len(),
            forall|v: u8| #[trigger] values@.subrange(0, i as int).contains(v) <==> seen@[v as int],
            n == values@.subrange(0, i as int).to_set().len(),
            n <= i,
        decreases values@.len() - i,
    {
        let ghost pre = values@.subrange(0, i as int);
        let v = values[i];
        assert(values@.subrange(0, i + 1) =~= pre + seq![v]);
        proof {
            Seq::<u8>::lemma_to_set_insert_commutes(pre, v);
            assert forall|w: u8| #[trigger] (pre + seq![v]).contains(w) <==> (pre.contains(w) || w
                == v) by {
                if (pre + seq![v]).contains(w) {
                    let k = choose|k: int| 0 <= k < pre.len() + 1 && (pre + seq![v])[k] == w;
                    if k < pre.len() {
                        assert(pre[k] == w);
                    }
                }
                if pre.contains(w) {
                    let k = choose|k: int| 0 <= k < pre.len() && pre[k] == w;
                    assert((pre + seq![v])[k] == w);
                }
                if w == v {
                    assert((pre + seq![v])[pre.len() as int] == v);
                }
            }
        }
        let ghost seen_before = seen@;
        assert(values@.subrange(0, i as int).contains(v) == seen@[v as int]);
        assert(pre.contains(v) == seen@[v as int]);
        if !seen[v as usize] {
            assert(!pre.contains(v));
            assert(!pre.to_set().contains(v));
            seen[v as usize] = true;
            n = n + 1;
        } else {
            assert(pre.contains(v));
            assert(pre.to_set().contains(v));
            assert(pre.to_set().insert(v) =~= pre.to_set());
        }
        assert forall|w: u8| #[trigger] values@.subrange(0, i + 1).contains(w) <==> seen@[w as int] by {
            assert(pre.contains(w) == seen_before[w as int]);
            if w != v {
                assert(seen@[w as int] == seen_before[w as int]);
            }
        }
        i = i + 1;
    }
    assert(values@.subrange(0, values@.len() as int) =~= values@);
    n
}


// ---------------------------------------------------------------------------
// Collecting each player's inputs
// ---------------------------------------------------------------------------

/// The inputs a player sent: every steer and throttle byte, in order. A
/// profile starts with the player's first name update and keeps that name.
#[derive(Debug, Clone)]
pub struct InputProfile {
    pub player_id: u64,
    pub name: String,
    pub steer_values: Vec<u8>,
    pub throttle_values: Vec<u8>,
}

pub struct ProfileModel {
    pub player_id: u64,
    pub name: String,
    pub steer: Seq<u8>,
    pub throttle: Seq<u8>,
}

impl View for InputProfile {
    type V = ProfileModel;

    open spec fn view(&self) -> ProfileModel {
        ProfileModel {
            player_id: self.player_id,
            name: self.name,
            steer: self.steer_values@,
            throttle: self.throttle_values@,
        }
    }
}

pub open spec fn profile_views(ps: Seq<InputProfile>) -> Seq<ProfileModel> {
    ps.map_values(|p: InputProfile| p@)
}

/// The object ids the input scan reads, besides the linkage ones.
#[derive(Debug, Clone, Copy)]
pub struct InputObjects {
    /// `TAGame.Vehicle_TA:ReplicatedSteer`
    pub steer: u64,
    /// `TAGame.Vehicle_TA:ReplicatedThrottle`
    pub throttle: u64,
}

/// The scan state: who is who, and a profile per named player (in order of
/// first name update).
pub struct InputScanModel {
    pub links: Links,
    pub profiles: Seq<ProfileModel>,
}

/// The first position of `player`'s profile.
pub open spec fn profile_position(ps: Seq<ProfileModel>, player: u64) -> Option<int> {
    if exists|i: int| 0 <= i < ps.len() && ps[i].player_id == player {
        Some(
            choose|i: int|
                0 <= i < ps.len() && ps[i].player_id == player && forall|j: int|
                    0 <= j < i ==> ps[j].player_id != player,
        )
    } else {
        None
    }
}

/// Appends an input to `player`'s steer or throttle, when the player has a
/// profile.
pub open spec fn add_input(ps: Seq<ProfileModel>, player: u64, v: u8, steer: bool) -> Seq<ProfileModel> {
    match profile_position(ps, player) {
        Some(i) => ps.update(
            i,
            if steer {
                ProfileModel { steer: ps[i].steer.push(v), ..ps[i] }
            } else {
                ProfileModel { throttle: ps[i].throttle.push(v), ..ps[i] }
            },
        ),
        None => ps,
    }
}

/// The scan after one update: a name update names the player and starts
/// their profile if they have none; owner updates link cars; a steer or
/// throttle byte (truncated to 8 bits) of a car whose owner is known goes
/// to the owner's profile.
pub open spec fn input_update(s: InputScanModel, u: ActorUpdate, l: LinkObjects, k: InputObjects) -> InputScanModel {
    let aid = id_or_max(u.actor_id);
    let oid = id_or_max(u.object_id);
    if oid == l.name {
        match u.attribute.string {
            Some(name) => InputScanModel {
                links: link_update(s.links, u, l),
                profiles: if profile_position(s.profiles, aid) is Some {
                    s.profiles
                } else {
                    s.profiles.push(
                        ProfileModel { player_id: aid, name, steer: seq![], throttle: seq![] },
                    )
                },
            },
            None => s,
        }
    } else if oid == l.player_link {
        InputScanModel { links: link_update(s.links, u, l), ..s }
    } else if oid == k.steer || oid == k.throttle {
        match u.attribute.byte {
            Some(b) => if s.links.car_to_player.contains_key(aid) {
                InputScanModel {
                    profiles: add_input(
                        s.profiles,
                        s.links.car_to_player[aid],
                        b as u8,
                        oid == k.steer,
                    ),
                    ..s
                }
            } else {
                s
            },
            None => s,
        }
    } else {
        s
    }
}

pub open spec fn input_updates(s: InputScanModel, ups: Seq<ActorUpdate>, l: LinkObjects, k: InputObjects) -> InputScanModel
    decreases ups.len(),
{
    if ups.len() == 0 {
        s
    } else {
        input_update(input_updates(s, ups.drop_last(), l, k), ups.last(), l, k)
    }
}

pub open spec fn input_frames(frames: Seq<Frame>, l: LinkObjects, k: InputObjects) -> InputScanModel
    decreases frames.len(),
{
    if frames.len() == 0 {
        InputScanModel { links: empty_links(), profiles: seq![] }
    } else {
        let before = input_frames(frames.drop_last(), l, k);
        match frames.last().updated_actors {
            Some(ups) => input_updates(before, ups@, l, k),
            None => before,
        }
    }
}

fn find_profile(ps: &Vec<InputProfile>, player: u64) -> (pos: Option<usize>)
    ensures
        match pos {
            Some(i) => {
                &&& i < ps@.len()
                &&& profile_position(profile_views(ps@), player) == Some(i as int)
            },
            None => profile_position(profile_views(ps@), player) is None,
        },
{
    let ghost v = profile_views(ps@);
    let mut i: usize = 0;
    while i < ps.len()
        invariant
            i <= ps@.len(),
            v == profile_views(ps@),
            forall|j: int| 0 <= j < i ==> v[j].player_id != player,
        decreases ps@.len() - i,
    {
        if ps[i].player_id == player {
            proof {
                let c = choose|c: int|
                    0 <= c < v.len() && v[c].player_id == player && forall|j: int|
                        0 <= j < c ==> v[j].player_id != player;
                assert(v[i as int].player_id == player);
                if c < i {
                    assert(false);
                }
                if (i as int) < c {
                    assert(v[i as int].player_id != player);
                }
            }
            return Some(i);
        }
        i = i + 1;
    }
    None
}

/// The input scan as the analysis keeps it.
pub struct InputScan {
    pub links: PlayerLinks,
    pub profiles: Vec<InputProfile>,
}

impl View for InputScan {
    type V = InputScanModel;

    open spec fn view(&self) -> InputScanModel {
        InputScanModel { links: self.links@, profiles: profile_views(self.profiles@) }
    }
}

impl InputScan {
    pub fn new() -> (s: Self)
        ensures
            s@ == (InputScanModel { links: empty_links(), profiles: seq![] }),
    {
        let s = InputScan { links: PlayerLinks::new(), profiles: Vec::new() };
        assert(s@.profiles =~= seq![]);
        s
    }

    /// Applies one update to the scan.
    pub fn feed_update(&mut self, u: &ActorUpdate, l: LinkObjects, k: InputObjects)
        ensures
            final(self)@ == input_update(old(self)@, *u, l, k),
    {
        let aid = id_or_max_exec(u.actor_id);
        let oid = id_or_max_exec(u.object_id);
        let ghost before = self.profiles@;
        if oid == l.name {
            match &u.attribute.string {
                Some(name) => {
                    self.links.observe(u, l);
                    match find_profile(&self.profiles, aid) {
                        Some(_) => {},
                        None => {
                            let p = InputProfile {
                                player_id: aid,
                                name: name.clone(),
                                steer_values: Vec::new(),
                                throttle_values: Vec::new(),
                            };
                            assert(p@.steer =~= seq![]);
                            assert(p@.throttle =~= seq![]);
                            self.profiles.push(p);
                            assert(profile_views(self.profiles@) =~= profile_views(before).push(p@));
                        },
                    }
                },
                None => {},
            }
        } else if oid == l.player_link {
            self.links.observe(u, l);
        } else if oid == k.steer || oid == k.throttle {
            match u.attribute.byte {
                Some(b) => {
                    match self.links.player_of(aid) {
                        Some(player) => {
                            match find_profile(&self.profiles, player) {
                                Some(i) => {
                                    if oid == k.steer {
                                        self.profiles[i].steer_values.push(b as u8);
                                    } else {
                                        self.profiles[i].throttle_values.push(b as u8);
                                    }
                                    proof {
                                        let pv = profile_views(before);
                                        assert(profile_views(self.profiles@) =~= add_input(
                                            pv,
                                            player,
                                            b as u8,
                                            oid == k.steer,
                                        ));
                                    }
                                },
                                None => {},
                            }
                        },
                        None => {},
                    }
                },
                None => {},
            }
        }
    }
}

/// Collects every player's inputs over the whole match.
pub fn scan_inputs(frames: &[Frame], l: LinkObjects, k: InputObjects) -> (scan: InputScan)
    ensures
        scan@ == input_frames(frames@, l, k),
{
    let mut scan = InputScan::new();
    for i in 0..frames.len()
        invariant
            scan@ == input_frames(frames@.subrange(0, i as int), l, k),
    {
        assert(frames@.subrange(0, i + 1).drop_last() =~= frames@.subrange(0, i as int));
        match &frames[i].updated_actors {
            Some(ups) => {
                let ghost before = scan@;
                for j in 0..ups.len()
                    invariant
                        scan@ == input_updates(before, ups@.subrange(0, j as int), l, k),
                {
                    assert(ups@.subrange(0, j + 1).drop_last() =~= ups@.subrange(0, j as int));
                    scan.feed_update(&ups[j], l, k);
                }
                assert(ups@.subrange(0, ups@.len() as int) =~= ups@);
            },
            None => {},
        }
    }
    assert(frames@.subrange(0, frames@.len() as int) =~= frames@);
    scan
}


// ---------------------------------------------------------------------------
// Per-player input statistics and the input analysis
// ---------------------------------------------------------------------------

/// Fewer steer samples than this are too few to judge input diversity.
pub const MIN_STEER_SAMPLES: usize = 10;

/// What the input-diversity score of a player rests on.
#[derive(Debug, Clone, Copy)]
pub enum InputScoreBasis {
    /// Fewer than `MIN_STEER_SAMPLES` steer samples: no evidence.
    TooFewSamples,
    /// Steer and throttle only ever took keyboard values.
    DiscreteOnly,
    /// The number of distinct steer values plus distinct throttle values;
    /// their average places the player between analog and scripted input.
    Diversity { unique_total: usize },
}

/// The integer facts bot scoring uses about one player's inputs.
#[derive(Debug, Clone)]
pub struct InputStats {
    pub player_id: u64,
    pub name: String,
    pub unique_steer_count: usize,
    pub unique_throttle_count: usize,
    pub total_steer_updates: usize,
    pub total_throttle_updates: usize,
    pub steer_only_discrete: bool,
    pub throttle_only_discrete: bool,
    /// No inputs at all.
    pub is_spectator: bool,
    pub basis: InputScoreBasis,
    /// The larger and the smaller of the two distinct-value counts.
    pub asymmetry_high: usize,
    pub asymmetry_low: usize,
}

/// The statistics are those of profile `p`.
pub open spec fn describes(st: InputStats, p: ProfileModel) -> bool {
    let us = distinct_count(p.steer);
    let ut = distinct_count(p.throttle);
    &&& st.player_id == p.player_id
    &&& st.name == p.name
    &&& st.unique_steer_count == us
    &&& st.unique_throttle_count == ut
    &&& st.total_steer_updates == p.steer.len()
    &&& st.total_throttle_updates == p.throttle.len()
    &&& st.steer_only_discrete == all_discrete(p.steer)
    &&& st.throttle_only_discrete == all_discrete(p.throttle)
    &&& st.is_spectator == (p.steer.len() == 0 && p.throttle.len() == 0)
    &&& st.basis == (if p.steer.len() < MIN_STEER_SAMPLES {
        InputScoreBasis::TooFewSamples
    } else if all_discrete(p.steer) && all_discrete(p.throttle) {
        InputScoreBasis::DiscreteOnly
    } else {
        InputScoreBasis::Diversity { unique_total: (us + ut) as usize }
    })
    &&& st.asymmetry_high == (if us >= ut {
        us
    } else {
        ut
    })
    &&& st.asymmetry_low == (if us >= ut {
        ut
    } else {
        us
    })
}

proof fn lemma_distinct_count_le_256(values: Seq<u8>)
    ensures
        distinct_count(values) <= 256,
{
    broadcast use vstd::set::group_set_axioms;

    let full = Set::<u8>::range_inclusive(0, 255);
    <u8 as vstd::set_lib::FiniteRange>::range_properties(0, 255);
    assert(values.to_set().subset_of(full));
    vstd::set_lib::lemma_len_subset(values.to_set(), full);
}

/// The integer facts about one player's inputs.
pub fn input_stats(p: &InputProfile) -> (st: InputStats)
    ensures
        describes(st, p@),
{
    let us = count_distinct(p.steer_values.as_slice());
    let ut = count_distinct(p.throttle_values.as_slice());
    let steer_only_discrete = is_discrete_only(p.steer_values.as_slice());
    let throttle_only_discrete = is_discrete_only(p.throttle_values.as_slice());
    proof {
        lemma_distinct_count_le_256(p.steer_values@);
        lemma_distinct_count_le_256(p.throttle_values@);
    }
    let basis = if p.steer_values.len() < MIN_STEER_SAMPLES {
        InputScoreBasis::TooFewSamples
    } else if steer_only_discrete && throttle_only_discrete {
        InputScoreBasis::DiscreteOnly
    } else {
        InputScoreBasis::Diversity { unique_total: us + ut }
    };
    let (high, low) = if us >= ut {
        (us, ut)
    } else {
        (ut, us)
    };
    InputStats {
        player_id: p.player_id,
        name: p.name.clone(),
        unique_steer_count: us,
        unique_throttle_count: ut,
        total_steer_updates: p.steer_values.len(),
        total_throttle_updates: p.throttle_values.len(),
        steer_only_discrete,
        throttle_only_discrete,
        is_spectator: p.steer_values.len() == 0 && p.throttle_values.len() == 0,
        basis,
        asymmetry_high: high,
        asymmetry_low: low,
    }
}

/// The object ids input analysis needs, in the order it reports a missing
/// one.
pub open spec fn input_objects_of(objects: Seq<Option<String>>) -> Result<(InputObjects, LinkObjects), AnalysisError> {
    let steer = object_id_of(objects, "TAGame.Vehicle_TA:ReplicatedSteer"@);
    let throttle = object_id_of(objects, "TAGame.Vehicle_TA:ReplicatedThrottle"@);
    let player_link = object_id_of(objects, "Engine.Pawn:PlayerReplicationInfo"@);
    let name = object_id_of(objects, "Engine.PlayerReplicationInfo:PlayerName"@);
    if steer is None {
        Err(AnalysisError::MissingObject("ReplicatedSteer not found in objects"))
    } else if throttle is None {
        Err(AnalysisError::MissingObject("ReplicatedThrottle not found in objects"))
    } else if player_link is None {
        Err(AnalysisError::MissingObject("PlayerReplicationInfo not found in objects"))
    } else if name is None {
        Err(AnalysisError::MissingObject("PlayerName not found in objects"))
    } else {
        Ok(
            (
                InputObjects { steer: steer.unwrap(), throttle: throttle.unwrap() },
                LinkObjects { name: name.unwrap(), player_link: player_link.unwrap() },
            ),
        )
    }
}

fn input_objects(objects: &[Option<String>]) -> (res: Result<(InputObjects, LinkObjects), AnalysisError>)
    ensures
        res == input_objects_of(objects@),
{
    let steer = match resolve_object_id(objects, "TAGame.Vehicle_TA:ReplicatedSteer") {
        Some(v) => v,
        None => {
            return Err(AnalysisError::MissingObject("ReplicatedSteer not found in objects"));
        },
    };
    let throttle = match resolve_object_id(objects, "TAGame.Vehicle_TA:ReplicatedThrottle") {
        Some(v) => v,
        None => {
            return Err(AnalysisError::MissingObject("ReplicatedThrottle not found in objects"));
        },
    };
    let player_link = match resolve_object_id(objects, "Engine.Pawn:PlayerReplicationInfo") {
        Some(v) => v,
        None => {
            return Err(AnalysisError::MissingObject("PlayerReplicationInfo not found in objects"));
        },
    };
    let name = match resolve_object_id(objects, "Engine.PlayerReplicationInfo:PlayerName") {
        Some(v) => v,
        None => {
            return Err(AnalysisError::MissingObject("PlayerName not found in objects"));
        },
    };
    Ok((InputObjects { steer, throttle }, LinkObjects { name, player_link }))
}

/// What input analysis of a replay yields: the missing data it stops at, or
/// the profiles the scan collects.
pub open spec fn input_analysis_of(replay: ReplayData) -> Result<Seq<ProfileModel>, AnalysisError> {
    match replay.objects {
        None => Err(AnalysisError::MissingObjects),
        Some(objects) => match input_objects_of(objects@) {
            Err(e) => Err(e),
            Ok((k, l)) => match replay.frames {
                None => Err(AnalysisError::MissingFrames),
                Some(frames) => Ok(input_frames(frames@, l, k).profiles),
            },
        },
    }
}

/// Input analysis for bot detection: the statistics of every named
/// player's inputs, in order of their first name update.
pub fn analyze_inputs(replay: &ReplayData) -> (res: Result<Vec<InputStats>, AnalysisError>)
    ensures
        match (res, input_analysis_of(*replay)) {
            (Err(e), Err(f)) => e == f,
            (Ok(rs), Ok(ps)) => {
                &&& rs@.len() == ps.len()
                &&& forall|i: int| 0 <= i < rs@.len() ==> describes(#[trigger] rs@[i], ps[i])
            },
            _ => false,
        },
{
    let objects = match &replay.objects {
        Some(o) => o,
        None => {
            return Err(AnalysisError::MissingObjects);
        },
    };
    let (k, l) = match input_objects(objects.as_slice()) {
        Ok(p) => p,
        Err(e) => {
            return Err(e);
        },
    };
    let frames = match &replay.frames {
        Some(f) => f,
        None => {
            return Err(AnalysisError::MissingFrames);
        },
    };
    let scan = scan_inputs(frames.as_slice(), l, k);
    let ghost ps = scan@.profiles;
    let mut results: Vec<InputStats> = Vec::new();
    for i in 0..scan.profiles.len()
        invariant
            ps == scan@.profiles,
            results@.len() == i,
            forall|j: int| 0 <= j < i ==> describes(#[trigger] results@[j], ps[j]),
    {
        let st = input_stats(&scan.profiles[i]);
        results.push(st);
    }
    Ok(results)
}

} // verus!

verus! {

/// Which evidence a player's input score rests on. With fewer than
/// `MIN_STEER_SAMPLES` steer samples there is none. Otherwise the player
/// counts as keyboard-only exactly when every steer value and every throttle
/// value is 0, 128 or 255; a single other value on either channel makes the
/// score rest on input diversity, the distinct steer values plus the
/// distinct throttle values.
pub proof fn law_keyboard_only_needs_both_channels_discrete(st: InputStats, p: ProfileModel)
    requires
        describes(st, p),
    ensures
        p.steer.len() < MIN_STEER_SAMPLES ==> st.basis is TooFewSamples,
        p.steer.len() >= MIN_STEER_SAMPLES ==> (st.basis is DiscreteOnly <==> (
        (forall|i: int|
            0 <= i < p.steer.len() ==> p.steer[i] == 0 || p.steer[i] == 128 || p.steer[i] == 255)
            && (forall|i: int|
            0 <= i < p.throttle.len() ==> p.throttle[i] == 0 || p.throttle[i] == 128
                || p.throttle[i] == 255))),
        p.steer.len() >= MIN_STEER_SAMPLES && !(st.basis is DiscreteOnly) ==> st.basis
            == (InputScoreBasis::Diversity {
            unique_total: (st.unique_steer_count + st.unique_throttle_count) as usize,
        }),
        st.steer_only_discrete <==> forall|i: int|
            0 <= i < p.steer.len() ==> p.steer[i] == 0 || p.steer[i] == 128 || p.steer[i] == 255,
        st.throttle_only_discrete <==> forall|i: int|
            0 <= i < p.throttle.len() ==> p.throttle[i] == 0 || p.throttle[i] == 128
                || p.throttle[i] == 255,
        st.unique_steer_count == p.steer.to_set().len(),
        st.unique_throttle_count == p.throttle.to_set().len(),
        st.is_spectator <==> (p.steer.len() == 0 && p.throttle.len() == 0),
{
    assert(all_discrete(p.steer) <==> forall|i: int|
        0 <= i < p.steer.len() ==> p.steer[i] == 0 || p.steer[i] == 128 || p.steer[i] == 255);
    assert(all_discrete(p.throttle) <==> forall|i: int|
        0 <= i < p.throttle.len() ==> p.throttle[i] == 0 || p.throttle[i] == 128 || p.throttle[i]
            == 255);
}

} // verus!
