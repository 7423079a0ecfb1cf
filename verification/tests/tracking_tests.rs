use rlr_tools::replay::{ActorUpdate, Attribute, LinkObjects, NewActor};
use rlr_tools::tracking::{ActorTracker, ArchetypeObjects, TrackedObjects, RESTING_STEER};

const NAME: u64 = 1;
const OWNER: u64 = 2;
const TEAM: u64 = 3;
const STEER: u64 = 4;

fn archetypes() -> ArchetypeObjects {
    ArchetypeObjects { ball: Some(10), car: Some(11), team0: Some(12), team1: Some(13) }
}

fn watched() -> TrackedObjects {
    TrackedObjects {
        links: LinkObjects { name: NAME, player_link: OWNER },
        team: TEAM,
        steer: Some(STEER),
    }
}

fn none() -> Attribute {
    Attribute {
        string: None,
        active_actor: None,
        byte: None,
        int: None,
        boolean: None,
        flagged_int: None,
        boost_amount: None,
        grant_count: None,
    }
}

fn new_actor(actor: u64, object: u64) -> NewActor {
    NewActor { actor_id: Some(actor), object_id: Some(object) }
}

fn upd(actor: u64, object: u64, attribute: Attribute) -> ActorUpdate {
    ActorUpdate { actor_id: Some(actor), object_id: Some(object), attribute }
}

#[test]
fn new_actors_are_sorted_by_archetype() {
    let mut t = ActorTracker::new();
    t.observe_new_actor(&new_actor(100, 10), archetypes());
    t.observe_new_actor(&new_actor(200, 11), archetypes());
    t.observe_new_actor(&new_actor(300, 12), archetypes());
    t.observe_new_actor(&new_actor(301, 13), archetypes());
    t.observe_new_actor(&new_actor(400, 99), archetypes());
    assert_eq!(t.ball, Some(100));
    assert!(t.cars.contains(&200));
    assert_eq!(t.cars.len(), 1);
    assert_eq!(t.team_actors.get(&300), Some(&0));
    assert_eq!(t.team_actors.get(&301), Some(&1));
    // a respawned ball replaces the old one
    t.observe_new_actor(&new_actor(101, 10), archetypes());
    assert_eq!(t.ball, Some(101));
}

#[test]
fn team_follows_team_actor_then_flagged_int() {
    let mut t = ActorTracker::new();
    t.observe_new_actor(&new_actor(301, 13), archetypes());
    t.observe_update(&upd(50, TEAM, Attribute { active_actor: Some(301), ..none() }), watched());
    assert_eq!(t.player_teams.get(&50), Some(&1));
    // an unknown team actor leaves the team as it was
    t.observe_update(&upd(50, TEAM, Attribute { active_actor: Some(999), ..none() }), watched());
    assert_eq!(t.player_teams.get(&50), Some(&1));
    // the flagged integer wins when both are present
    t.observe_update(
        &upd(50, TEAM, Attribute { active_actor: Some(301), flagged_int: Some(0), ..none() }),
        watched(),
    );
    assert_eq!(t.player_teams.get(&50), Some(&0));
}

#[test]
fn car_team_needs_owner_and_team() {
    let mut t = ActorTracker::new();
    t.observe_update(&upd(200, OWNER, Attribute { active_actor: Some(50), ..none() }), watched());
    assert_eq!(t.car_team(200), None);
    t.observe_update(&upd(50, TEAM, Attribute { flagged_int: Some(1), ..none() }), watched());
    assert_eq!(t.car_team(200), Some((50, 1)));
    t.observe_update(&upd(50, NAME, Attribute { string: Some("Ann".to_string()), ..none() }), watched());
    assert_eq!(t.links.names.get(&50).map(|s| s.as_str()), Some("Ann"));
}

#[test]
fn steer_is_remembered_until_the_car_leaves() {
    let mut t = ActorTracker::new();
    t.observe_new_actor(&new_actor(200, 11), archetypes());
    assert_eq!(t.steer_of(200), RESTING_STEER);
    t.observe_update(&upd(200, STEER, Attribute { byte: Some(300), ..none() }), watched());
    // bytes are read as 8 bits
    assert_eq!(t.steer_of(200), 44);
    assert!(t.remove_car(200));
    assert_eq!(t.steer_of(200), RESTING_STEER);
    assert!(!t.cars.contains(&200));
    assert!(!t.remove_car(200));
}

#[test]
fn steer_is_ignored_when_not_tracked() {
    let mut t = ActorTracker::new();
    let mut objects = watched();
    objects.steer = None;
    t.observe_update(&upd(200, STEER, Attribute { byte: Some(10), ..none() }), objects);
    assert_eq!(t.steer_of(200), RESTING_STEER);
}
