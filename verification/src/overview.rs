//! The facts of a match as the overview shows them: the game mode's name,
//! who forfeited, the players' platforms and the two team rosters.

use vstd::prelude::*;

verus! {

fn text_eq(a: &str, b: &str) -> (r: bool)
    ensures
        r == (a@ == b@),
{
    let n = a.unicode_len();
    if n != b.unicode_len() {
        return false;
    }
    let mut i: usize = 0;
    while i < n
        invariant
            n == a@.len(),
            n == b@.len(),
            i <= n,
            forall|j: int| 0 <= j < i ==> a@[j] == b@[j],
        decreases n - i,
    {
        if a.get_char(i) != b.get_char(i) {
            return false;
        }
        i = i + 1;
    }
    assert(a@ =~= b@);
    true
}

/// The display name of a replay's game type; an unknown type is shown as
/// it is.
pub open spec fn game_type_name(raw: Seq<char>) -> Seq<char> {
    if raw == "TAGame.Replay_Soccar_TA"@ {
        "Soccar"@
    } else if raw == "TAGame.Replay_Hoops_TA"@ {
        "Hoops"@
    } else if raw == "TAGame.Replay_Rumble_TA"@ {
        "Rumble"@
    } else if raw == "TAGame.Replay_Breakout_TA"@ {
        "Dropshot"@
    } else if raw == "TAGame.Replay_Snowday_TA"@ {
        "Snow Day"@
    } else {
        raw
    }
}

/// The display name of a game type.
pub fn game_type_label(raw: &str) -> (label: String)
    ensures
        label@ == game_type_name(raw@),
{
    proof {
        broadcast use vstd::string::group_string_axioms;
    }
    if text_eq(raw, "TAGame.Replay_Soccar_TA") {
        "Soccar".to_string()
    } else if text_eq(raw, "TAGame.Replay_Hoops_TA") {
        "Hoops".to_string()
    } else if text_eq(raw, "TAGame.Replay_Rumble_TA") {
        "Rumble".to_string()
    } else if text_eq(raw, "TAGame.Replay_Breakout_TA") {
        "Dropshot".to_string()
    } else if text_eq(raw, "TAGame.Replay_Snowday_TA") {
        "Snow Day".to_string()
    } else {
        raw.to_string()
    }
}

/// In a forfeited match, the team that forfeited: the one behind, and team
/// 1 when the score is level.
pub fn forfeit_losing_team(team0_score: u64, team1_score: u64) -> (team: u64)
    ensures
        team == (if team0_score < team1_score {
            0u64
        } else {
            1u64
        }),
{
    if team0_score < team1_score {
        0
    } else {
        1
    }
}

/// What the overview of a match states.
#[derive(Debug, Clone)]
pub struct GameOverview {
    /// The game mode's display name.
    pub game_type: String,
    pub team_size: u64,
    pub team0_score: u64,
    pub team1_score: u64,
    /// The team that forfeited, when the match was forfeited.
    pub forfeited_by: Option<u64>,
    /// The unfair-team-size flag, when it is set (not 0).
    pub unfair_team_size: Option<u64>,
}

/// The overview of a match from the replay's game type, team size, scores,
/// forfeit flag and unfair-team-size value.
pub fn game_overview(
    game_type_raw: &str,
    team_size: u64,
    team0_score: u64,
    team1_score: u64,
    forfeit: bool,
    unfair: u64,
) -> (o: GameOverview)
    ensures
        o.game_type@ == game_type_name(game_type_raw@),
        o.team_size == team_size,
        o.team0_score == team0_score,
        o.team1_score == team1_score,
        o.forfeited_by == (if forfeit {
            Some(
                if team0_score < team1_score {
                    0u64
                } else {
                    1u64
                },
            )
        } else {
            None
        }),
        o.unfair_team_size == (if unfair != 0 {
            Some(unfair)
        } else {
            None
        }),
{
    GameOverview {
        game_type: game_type_label(game_type_raw),
        team_size,
        team0_score,
        team1_score,
        forfeited_by: if forfeit {
            Some(forfeit_losing_team(team0_score, team1_score))
        } else {
            None
        },
        unfair_team_size: if unfair != 0 {
            Some(unfair)
        } else {
            None
        },
    }
}

/// A platform's name without the `OnlinePlatform_` prefix (when it has
/// it).
pub open spec fn platform_name_of(raw: Seq<char>) -> Seq<char> {
    let prefix = "OnlinePlatform_"@;
    if raw.len() >= prefix.len() && raw.subrange(0, prefix.len() as int) == prefix {
        raw.subrange(prefix.len() as int, raw.len() as int)
    } else {
        raw
    }
}

/// The short name of a player's platform.
pub fn platform_name(raw: &str) -> (name: String)
    ensures
        name@ == platform_name_of(raw@),
{
    proof {
        broadcast use vstd::string::group_string_axioms;
    }
    let prefix = "OnlinePlatform_";
    let plen = prefix.unicode_len();
    let rlen = raw.unicode_len();
    if rlen >= plen {
        let head = raw.substring_char(0, plen);
        if text_eq(head, prefix) {
            let rest = raw.substring_char(plen, rlen);
            return rest.to_string();
        }
    }
    raw.to_string()
}

/// The team a roster entry counts under: its team, or 0 when it has none.
pub open spec fn team_or_blue(team: Option<u64>) -> u64 {
    match team {
        Some(t) => t,
        None => 0,
    }
}

/// The positions, among the first `n` roster entries, of those on the
/// blue side (team 0) when `blue`, or on the other side otherwise, in
/// order.
pub open spec fn side_members(teams: Seq<Option<u64>>, blue: bool, n: nat) -> Seq<usize>
    decreases n,
{
    if n == 0 || n > teams.len() {
        seq![]
    } else {
        let before = side_members(teams, blue, (n - 1) as nat);
        if (team_or_blue(teams[n - 1]) == 0) == blue {
            before.push((n - 1) as usize)
        } else {
            before
        }
    }
}

/// Splits a roster by team: the positions of the team-0 (blue) players and
/// of the others, each in roster order.
pub fn split_by_team(teams: &Vec<Option<u64>>) -> (sides: (Vec<usize>, Vec<usize>))
    ensures
        sides.0@ == side_members(teams@, true, teams@.len()),
        sides.1@ == side_members(teams@, false, teams@.len()),
{
    let mut blue: Vec<usize> = Vec::new();
    let mut orange: Vec<usize> = Vec::new();
    for i in 0..teams.len()
        invariant
            blue@ == side_members(teams@, true, i as nat),
            orange@ == side_members(teams@, false, i as nat),
    {
        let t: u64 = match teams[i] {
            Some(t) => t,
            None => 0,
        };
        if t == 0 {
            blue.push(i);
        } else {
            orange.push(i);
        }
    }
    (blue, orange)
}

} // verus!
