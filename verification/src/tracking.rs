//! Which actors are the ball, the cars and the teams, who plays for which
//! team, and each car's last steer: the bookkeeping that the dribble and
//! rotation analyses keep as they walk the frames.

use std::collections::{HashMap, HashSet};
use vstd::prelude::*;

use crate::replay::{
    empty_links, id_or_max, id_or_max_exec, link_update, ActorUpdate, LinkObjects, Links, NewActor,
    PlayerLinks,
};

verus! {

/// Steer at rest, for a car whose steer was never reported.
pub const RESTING_STEER: u8 = 128;

/// The archetype object ids that identify new actors, each when the
/// replay has it: `Archetypes.Ball.Ball_Default`,
/// `Archetypes.Car.Car_Default`, `Archetypes.Teams.Team0` and
/// `Archetypes.Teams.Team1`.
#[derive(Debug, Clone, Copy)]
pub struct ArchetypeObjects {
    pub ball: Option<u64>,
    pub car: Option<u64>,
    pub team0: Option<u64>,
    pub team1: Option<u64>,
}

/// The property object ids the tracker reads: the linkage ones,
/// `Engine.PlayerReplicationInfo:Team`, and
/// `TAGame.Vehicle_TA:ReplicatedSteer` when steer is tracked.
#[derive(Debug, Clone, Copy)]
pub struct TrackedObjects {
    pub links: LinkObjects,
    pub team: u64,
    pub steer: Option<u64>,
}

pub struct ActorsModel {
    pub ball: Option<u64>,
    pub cars: Set<u64>,
    pub team_actors: Map<u64, usize>,
    pub player_teams: Map<u64, usize>,
    pub steer: Map<u64, u8>,
    pub links: Links,
}

/// The actors of a match as seen so far: the current ball, the cars in
/// play, the team actors with their team index, each player's team, each
/// car's last steer, and who is who.
pub struct ActorTracker {
    pub ball: Option<u64>,
    pub cars: HashSet<u64>,
    pub team_actors: HashMap<u64, usize>,
    pub player_teams: HashMap<u64, usize>,
    pub steer: HashMap<u64, u8>,
    pub links: PlayerLinks,
}

impl View for ActorTracker {
    type V = ActorsModel;

    open spec fn view(&self) -> ActorsModel {
        ActorsModel {
            ball: self.ball,
            cars: self.cars@,
            team_actors: self.team_actors@,
            player_teams: self.player_teams@,
            steer: self.steer@,
            links: self.links@,
        }
    }
}

/// Nothing seen yet.
pub open spec fn no_actors() -> ActorsModel {
    ActorsModel {
        ball: None,
        cars: Set::empty(),
        team_actors: Map::empty(),
        player_teams: Map::empty(),
        steer: Map::empty(),
        links: empty_links(),
    }
}

/// After a new actor: a ball becomes the ball (the ball is replaced when it
/// respawns), a car joins the cars, a team actor is indexed 0 or 1.
pub open spec fn actor_created(t: ActorsModel, a: NewActor, k: ArchetypeObjects) -> ActorsModel {
    let aid = id_or_max(a.actor_id);
    let oid = id_or_max(a.object_id);
    if k.ball == Some(oid) {
        ActorsModel { ball: Some(aid), ..t }
    } else if k.car == Some(oid) {
        ActorsModel { cars: t.cars.insert(aid), ..t }
    } else if k.team0 == Some(oid) {
        ActorsModel { team_actors: t.team_actors.insert(aid, 0), ..t }
    } else if k.team1 == Some(oid) {
        ActorsModel { team_actors: t.team_actors.insert(aid, 1), ..t }
    } else {
        t
    }
}

/// After an update: names and car owners are linked; a team update puts
/// the player on the team of the team actor it points to (when that actor
/// is known) and then on the team its flagged integer names (when it has
/// one); a steer byte (truncated to 8 bits) becomes the car's last steer.
pub open spec fn actor_updated(t: ActorsModel, u: ActorUpdate, k: TrackedObjects) -> ActorsModel {
    let aid = id_or_max(u.actor_id);
    let oid = id_or_max(u.object_id);
    if oid == k.links.name || oid == k.links.player_link {
        ActorsModel { links: link_update(t.links, u, k.links), ..t }
    } else if oid == k.team {
        let by_actor = match u.attribute.active_actor {
            Some(ta) => if t.team_actors.contains_key(ta) {
                t.player_teams.insert(aid, t.team_actors[ta])
            } else {
                t.player_teams
            },
            None => t.player_teams,
        };
        let teams = match u.attribute.flagged_int {
            Some(i) => by_actor.insert(aid, i as usize),
            None => by_actor,
        };
        ActorsModel { player_teams: teams, ..t }
    } else if k.steer == Some(oid) {
        match u.attribute.byte {
            Some(b) => ActorsModel { steer: t.steer.insert(aid, b as u8), ..t },
            None => t,
        }
    } else {
        t
    }
}

/// After a deleted actor: a car leaves the cars and its steer is
/// forgotten; any other actor changes nothing.
pub open spec fn car_removed(t: ActorsModel, car: u64) -> ActorsModel {
    if t.cars.contains(car) {
        ActorsModel { cars: t.cars.remove(car), steer: t.steer.remove(car), ..t }
    } else {
        t
    }
}

impl ActorTracker {
    pub fn new() -> (t: Self)
        ensures
            t@ == no_actors(),
    {
        ActorTracker {
            ball: None,
            cars: HashSet::new(),
            team_actors: HashMap::new(),
            player_teams: HashMap::new(),
            steer: HashMap::new(),
            links: PlayerLinks::new(),
        }
    }

    /// Takes note of a new actor.
    pub fn observe_new_actor(&mut self, a: &NewActor, k: ArchetypeObjects)
        ensures
            final(self)@ == actor_created(old(self)@, *a, k),
    {
        broadcast use vstd::std_specs::hash::group_hash_axioms;

        let aid = id_or_max_exec(a.actor_id);
        let oid = id_or_max_exec(a.object_id);
        if k.ball == Some(oid) {
            self.ball = Some(aid);
        } else if k.car == Some(oid) {
            self.cars.insert(aid);
        } else if k.team0 == Some(oid) {
            self.team_actors.insert(aid, 0);
        } else if k.team1 == Some(oid) {
            self.team_actors.insert(aid, 1);
        }
    }

    /// Takes note of an actor update.
    pub fn observe_update(&mut self, u: &ActorUpdate, k: TrackedObjects)
        ensures
            final(self)@ == actor_updated(old(self)@, *u, k),
    {
        broadcast use vstd::std_specs::hash::group_hash_axioms;

        let aid = id_or_max_exec(u.actor_id);
        let oid = id_or_max_exec(u.object_id);
        if oid == k.links.name || oid == k.links.player_link {
            self.links.observe(u, k.links);
        } else if oid == k.team {
            match u.attribute.active_actor {
                Some(ta) => match self.team_actors.get(&ta) {
                    Some(team) => {
                        let team = *team;
                        self.player_teams.insert(aid, team);
                    },
                    None => {},
                },
                None => {},
            }
            match u.attribute.flagged_int {
                Some(i) => {
                    self.player_teams.insert(aid, i as usize);
                },
                None => {},
            }
        } else if k.steer == Some(oid) {
            match u.attribute.byte {
                Some(b) => {
                    self.steer.insert(aid, b as u8);
                },
                None => {},
            }
        }
    }

    /// Takes a deleted actor out of play; returns whether it was a car.
    pub fn remove_car(&mut self, car: u64) -> (was_car: bool)
        ensures
            was_car == old(self)@.cars.contains(car),
            final(self)@ == car_removed(old(self)@, car),
    {
        broadcast use vstd::std_specs::hash::group_hash_axioms;

        let was_car = self.cars.remove(&car);
        assert(self.cars@ == old(self).cars@.remove(car));
        if was_car {
            self.steer.remove(&car);
            assert(self.steer@ == old(self).steer@.remove(car));
        } else {
            assert(self.cars@ =~= old(self).cars@);
        }
        was_car
    }

    /// The car's last steer, or the resting steer when none was reported.
    pub fn steer_of(&self, car: u64) -> (s: u8)
        ensures
            s == (if self@.steer.contains_key(car) {
                self@.steer[car]
            } else {
                RESTING_STEER
            }),
    {
        broadcast use vstd::std_specs::hash::group_hash_axioms;

        match self.steer.get(&car) {
            Some(s) => *s,
            None => RESTING_STEER,
        }
    }

    /// The player driving the car and that player's team, when both are
    /// known.
    pub fn car_team(&self, car: u64) -> (r: Option<(u64, usize)>)
        ensures
            r == (if self@.links.car_to_player.contains_key(car)
                && self@.player_teams.contains_key(self@.links.car_to_player[car]) {
                Some(
                    (
                        self@.links.car_to_player[car],
                        self@.player_teams[self@.links.car_to_player[car]],
                    ),
                )
            } else {
                None
            }),
    {
        broadcast use vstd::std_specs::hash::group_hash_axioms;

        match self.links.player_of(car) {
            Some(player) => match self.player_teams.get(&player) {
                Some(team) => Some((player, *team)),
                None => None,
            },
            None => None,
        }
    }
}

} // verus!
