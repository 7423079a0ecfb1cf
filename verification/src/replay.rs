//! The parts of a parsed replay that the analyses read, as plain values.
//!
//! A parsed replay names every replicated property in its `objects` table;
//! network frames refer to properties by their index there (the object id).
//! Each frame lists the actors created, deleted and updated in it.

use std::collections::HashMap;
use vstd::prelude::*;

verus! {

/// An actor created in a frame.
#[derive(Debug, Clone)]
pub struct NewActor {
    pub actor_id: Option<u64>,
    pub object_id: Option<u64>,
}

/// The fields of an updated attribute that the analyses look at; each is
/// `None` when the attribute does not carry it.
#[derive(Debug, Clone)]
pub struct Attribute {
    /// `String`
    pub string: Option<String>,
    /// `ActiveActor.actor`
    pub active_actor: Option<u64>,
    /// `Byte`
    pub byte: Option<u64>,
    /// `Int`
    pub int: Option<i64>,
    /// `Boolean`
    pub boolean: Option<bool>,
    /// `FlaggedInt.int`
    pub flagged_int: Option<u64>,
    /// `ReplicatedBoost.boost_amount`
    pub boost_amount: Option<u64>,
    /// `ReplicatedBoost.grant_count`
    pub grant_count: Option<u64>,
}

/// One actor update within a frame.
#[derive(Debug, Clone)]
pub struct ActorUpdate {
    pub actor_id: Option<u64>,
    pub object_id: Option<u64>,
    pub attribute: Attribute,
}

/// One network frame. `updated_actors` is `None` when the frame carries no
/// update list at all.
#[derive(Debug, Clone)]
pub struct Frame {
    pub new_actors: Vec<NewActor>,
    pub deleted_actors: Vec<Option<u64>>,
    pub updated_actors: Option<Vec<ActorUpdate>>,
}

/// The object table and the network frames of a parsed replay; either is
/// `None` when the replay does not carry it.
#[derive(Debug, Clone)]
pub struct ReplayData {
    pub objects: Option<Vec<Option<String>>>,
    pub frames: Option<Vec<Frame>>,
}

/// Why an analysis could not run on a replay.
#[derive(Debug, Clone, Copy)]
pub enum AnalysisError {
    /// The replay has no object table.
    MissingObjects,
    /// The replay has no network frames.
    MissingFrames,
    /// A property the analysis needs is not in the object table; the text
    /// says which.
    MissingObject(&'static str),
    /// Something else about the replay rules the analysis out; the text
    /// says what.
    Unsupported(&'static str),
}

/// A missing id reads as `u64::MAX`, which matches no object and no actor
/// that a replay assigns.
pub open spec fn id_or_max(id: Option<u64>) -> u64 {
    match id {
        Some(v) => v,
        None => u64::MAX,
    }
}

/// `id_or_max` in executable code.
pub fn id_or_max_exec(id: Option<u64>) -> (v: u64)
    ensures
        v == id_or_max(id),
{
    match id {
        Some(v) => v,
        None => u64::MAX,
    }
}

/// Whether object `i` of the table is named `needle`.
pub open spec fn object_is(objects: Seq<Option<String>>, i: int, needle: Seq<char>) -> bool {
    match objects[i] {
        Some(s) => s@ == needle,
        None => false,
    }
}

/// The object id of `needle`: the index of its first occurrence in the
/// table, or `None` when the table does not name it.
pub open spec fn object_id_of(objects: Seq<Option<String>>, needle: Seq<char>) -> Option<u64> {
    if exists|i: int| 0 <= i < objects.len() && object_is(objects, i, needle) {
        let i = choose|i: int|
            0 <= i < objects.len() && object_is(objects, i, needle) && forall|j: int|
                0 <= j < i ==> !object_is(objects, j, needle);
        Some(i as u64)
    } else {
        None
    }
}

/// Looks `needle` up in the object table: the index of its first
/// occurrence, or `None`.
pub fn resolve_object_id(objects: &[Option<String>], needle: &str) -> (id: Option<u64>)
    ensures
        match id {
            Some(i) => {
                &&& i < objects@.len()
                &&& object_is(objects@, i as int, needle@)
                &&& forall|j: int| 0 <= j < i ==> !object_is(objects@, j, needle@)
            },
            None => forall|j: int| 0 <= j < objects@.len() ==> !object_is(objects@, j, needle@),
        },
        id == object_id_of(objects@, needle@),
{
    let target = needle.to_string();
    proof {
        broadcast use vstd::string::group_string_axioms;
    }
    assert(target@ == needle@);
    let mut i: usize = 0;
    while i < objects.len()
        invariant
            i <= objects@.len(),
            target@ == needle@,
            forall|j: int| 0 <= j < i ==> !object_is(objects@, j, needle@),
        decreases objects@.len() - i,
    {
        match &objects[i] {
            Some(s) => {
                if *s == target {
                    proof {
                        let w = i as int;
                        assert(object_is(objects@, w, needle@));
                        let c = choose|k: int|
                            0 <= k < objects@.len() && object_is(objects@, k, needle@) && forall|
                                j: int,
                            | 0 <= j < k ==> !object_is(objects@, j, needle@);
                        if c < w {
                            assert(false);
                        }
                        if w < c {
                            assert(!object_is(objects@, w, needle@));
                        }
                    }
                    return Some(i as u64);
                }
            },
            None => {},
        }
        i = i + 1;
    }
    None
}


// ---------------------------------------------------------------------------
// Player linkage
// ---------------------------------------------------------------------------

/// Who is who: player names by player actor id, and the player actor id
/// that owns each car actor.
pub struct Links {
    pub names: Map<u64, String>,
    pub car_to_player: Map<u64, u64>,
}

/// The linkage maps as the analyses build them.
pub struct PlayerLinks {
    pub names: HashMap<u64, String>,
    pub car_to_player: HashMap<u64, u64>,
}

impl View for PlayerLinks {
    type V = Links;

    open spec fn view(&self) -> Links {
        Links { names: self.names@, car_to_player: self.car_to_player@ }
    }
}

/// The object ids of the two linkage properties: a player's name
/// (`Engine.PlayerReplicationInfo:PlayerName`) and a car's owner
/// (`Engine.Pawn:PlayerReplicationInfo`).
#[derive(Debug, Clone, Copy)]
pub struct LinkObjects {
    pub name: u64,
    pub player_link: u64,
}

/// The linkage after one update: a name update names its actor; an owner
/// update maps its car actor to the player actor it points to.
pub open spec fn link_update(l: Links, u: ActorUpdate, k: LinkObjects) -> Links {
    let aid = id_or_max(u.actor_id);
    let oid = id_or_max(u.object_id);
    if oid == k.name {
        match u.attribute.string {
            Some(name) => Links { names: l.names.insert(aid, name), ..l },
            None => l,
        }
    } else if oid == k.player_link {
        match u.attribute.active_actor {
            Some(p) => Links { car_to_player: l.car_to_player.insert(aid, p), ..l },
            None => l,
        }
    } else {
        l
    }
}

/// The linkage after a run of updates, in order.
pub open spec fn link_updates(l: Links, ups: Seq<ActorUpdate>, k: LinkObjects) -> Links
    decreases ups.len(),
{
    if ups.len() == 0 {
        l
    } else {
        link_update(link_updates(l, ups.drop_last(), k), ups.last(), k)
    }
}

/// The linkage after a run of frames, in order.
pub open spec fn link_frames(l: Links, frames: Seq<Frame>, k: LinkObjects) -> Links
    decreases frames.len(),
{
    if frames.len() == 0 {
        l
    } else {
        let before = link_frames(l, frames.drop_last(), k);
        match frames.last().updated_actors {
            Some(ups) => link_updates(before, ups@, k),
            None => before,
        }
    }
}

/// No names and no cars.
pub open spec fn empty_links() -> Links {
    Links { names: Map::empty(), car_to_player: Map::empty() }
}

impl PlayerLinks {
    pub fn new() -> (l: Self)
        ensures
            l@ == empty_links(),
    {
        PlayerLinks { names: HashMap::new(), car_to_player: HashMap::new() }
    }

    /// Applies one update to the linkage.
    pub fn observe(&mut self, u: &ActorUpdate, k: LinkObjects)
        ensures
            final(self)@ == link_update(old(self)@, *u, k),
    {
        broadcast use vstd::std_specs::hash::group_hash_axioms;

        let aid = id_or_max_exec(u.actor_id);
        let oid = id_or_max_exec(u.object_id);
        if oid == k.name {
            match &u.attribute.string {
                Some(name) => {
                    self.names.insert(aid, name.clone());
                },
                None => {},
            }
        } else if oid == k.player_link {
            match u.attribute.active_actor {
                Some(p) => {
                    self.car_to_player.insert(aid, p);
                },
                None => {},
            }
        }
    }

    /// The player that owns car `car`, if known.
    pub fn player_of(&self, car: u64) -> (p: Option<u64>)
        ensures
            p == (if self@.car_to_player.contains_key(car) {
                Some(self@.car_to_player[car])
            } else {
                None
            }),
    {
        broadcast use vstd::std_specs::hash::group_hash_axioms;

        match self.car_to_player.get(&car) {
            Some(p) => Some(*p),
            None => None,
        }
    }

    /// The name of player `player`, if known.
    pub fn name_of(&self, player: u64) -> (n: Option<String>)
        ensures
            n == (if self@.names.contains_key(player) {
                Some(self@.names[player])
            } else {
                None
            }),
    {
        broadcast use vstd::std_specs::hash::group_hash_axioms;

        match self.names.get(&player) {
            Some(n) => Some(n.clone()),
            None => None,
        }
    }
}

/// Builds the linkage from every update of every frame.
pub fn link_all_frames(frames: &[Frame], k: LinkObjects) -> (l: PlayerLinks)
    ensures
        l@ == link_frames(empty_links(), frames@, k),
{
    let mut links = PlayerLinks::new();
    for i in 0..frames.len()
        invariant
            links@ == link_frames(empty_links(), frames@.subrange(0, i as int), k),
    {
        assert(frames@.subrange(0, i + 1).drop_last() =~= frames@.subrange(0, i as int));
        match &frames[i].updated_actors {
            Some(ups) => {
                let ghost before = links@;
                for j in 0..ups.len()
                    invariant
                        links@ == link_updates(before, ups@.subrange(0, j as int), k),
                {
                    assert(ups@.subrange(0, j + 1).drop_last() =~= ups@.subrange(0, j as int));
                    links.observe(&ups[j], k);
                }
                assert(ups@.subrange(0, ups@.len() as int) =~= ups@);
            },
            None => {},
        }
    }
    assert(frames@.subrange(0, frames@.len() as int) =~= frames@);
    links
}

} // verus!

verus! {

/// The latest link wins: after an owner update that points car `car` to
/// player `player`, the car belongs to that player, whoever it belonged to
/// before, and every other car keeps its owner; names are untouched.
pub proof fn law_latest_owner_link_wins(l: Links, u: ActorUpdate, k: LinkObjects, car: u64, player: u64)
    requires
        u.actor_id == Some(car),
        u.object_id == Some(k.player_link),
        k.player_link != k.name,
        u.attribute.active_actor == Some(player),
    ensures
        link_update(l, u, k).car_to_player.contains_key(car),
        link_update(l, u, k).car_to_player[car] == player,
        forall|c: u64|
            c != car ==> (link_update(l, u, k).car_to_player.contains_key(c)
                == l.car_to_player.contains_key(c) && link_update(l, u, k).car_to_player[c]
                == l.car_to_player[c]),
        link_update(l, u, k).names == l.names,
{
}

/// The latest name wins: after a name update naming actor `actor`, the
/// actor has that name, whatever it was called before, and every other
/// actor keeps its name; car owners are untouched.
pub proof fn law_latest_name_wins(l: Links, u: ActorUpdate, k: LinkObjects, actor: u64, name: String)
    requires
        u.actor_id == Some(actor),
        u.object_id == Some(k.name),
        u.attribute.string == Some(name),
    ensures
        link_update(l, u, k).names.contains_key(actor),
        link_update(l, u, k).names[actor] == name,
        forall|a: u64|
            a != actor ==> (link_update(l, u, k).names.contains_key(a) == l.names.contains_key(a)
                && link_update(l, u, k).names[a] == l.names[a]),
        link_update(l, u, k).car_to_player == l.car_to_player,
{
}

} // verus!
