use rlr_tools::cache::{
    cache_path_from_stem, check_upload, get_cache_path, get_sidecar_path, is_replay_file_name,
    replay_name, UploadError, MAX_UPLOAD_SIZE,
};
use rlr_tools::parser::{parsed_replay_text, ReplayTextError};
use rlr_tools::overview::{
    forfeit_losing_team, game_overview, game_type_label, platform_name, split_by_team,
};

#[test]
fn known_game_types_get_display_names() {
    assert_eq!(game_type_label("TAGame.Replay_Soccar_TA"), "Soccar");
    assert_eq!(game_type_label("TAGame.Replay_Hoops_TA"), "Hoops");
    assert_eq!(game_type_label("TAGame.Replay_Rumble_TA"), "Rumble");
    assert_eq!(game_type_label("TAGame.Replay_Breakout_TA"), "Dropshot");
    assert_eq!(game_type_label("TAGame.Replay_Snowday_TA"), "Snow Day");
}

#[test]
fn unknown_game_type_is_shown_as_is() {
    assert_eq!(game_type_label("TAGame.Replay_Heatseeker_TA"), "TAGame.Replay_Heatseeker_TA");
    assert_eq!(game_type_label("Unknown"), "Unknown");
    assert_eq!(game_type_label(""), "");
}

#[test]
fn forfeit_loser_is_the_team_behind() {
    assert_eq!(forfeit_losing_team(0, 3), 0);
    assert_eq!(forfeit_losing_team(4, 1), 1);
    assert_eq!(forfeit_losing_team(2, 2), 1);
}

#[test]
fn overview_reports_forfeit_and_unfair_size() {
    let o = game_overview("TAGame.Replay_Soccar_TA", 2, 1, 3, true, 1);
    assert_eq!(o.game_type, "Soccar");
    assert_eq!(o.team_size, 2);
    assert_eq!(o.team0_score, 1);
    assert_eq!(o.team1_score, 3);
    assert_eq!(o.forfeited_by, Some(0));
    assert_eq!(o.unfair_team_size, Some(1));
}

#[test]
fn overview_without_forfeit() {
    let o = game_overview("TAGame.Replay_Hoops_TA", 3, 5, 2, false, 0);
    assert_eq!(o.game_type, "Hoops");
    assert_eq!(o.forfeited_by, None);
    assert_eq!(o.unfair_team_size, None);
}

#[test]
fn platform_prefix_is_stripped() {
    assert_eq!(platform_name("OnlinePlatform_Steam"), "Steam");
    assert_eq!(platform_name("OnlinePlatform_Epic"), "Epic");
    assert_eq!(platform_name("OnlinePlatform_"), "");
}

#[test]
fn platform_without_prefix_is_kept() {
    assert_eq!(platform_name("Unknown"), "Unknown");
    assert_eq!(platform_name("Online"), "Online");
    assert_eq!(platform_name("XOnlinePlatform_Steam"), "XOnlinePlatform_Steam");
}

#[test]
fn roster_splits_by_team_with_missing_team_as_blue() {
    let teams = vec![Some(0), Some(1), None, Some(1), Some(0), Some(7)];
    let (blue, orange) = split_by_team(&teams);
    assert_eq!(blue, vec![0, 2, 4]);
    assert_eq!(orange, vec![1, 3, 5]);
}

#[test]
fn empty_roster_splits_into_empty_teams() {
    let (blue, orange) = split_by_team(&Vec::new());
    assert!(blue.is_empty());
    assert!(orange.is_empty());
}

#[test]
fn cache_path_uses_the_replay_stem() {
    assert_eq!(get_cache_path("assets/replays/good/match1.replay"), "parsed_games/match1.json");
    assert_eq!(get_cache_path("game.replay"), "parsed_games/game.json");
    assert_eq!(get_cache_path("dir/archive.tar.replay"), "parsed_games/archive.tar.json");
}

#[test]
fn cache_path_without_stem_is_unknown() {
    assert_eq!(get_cache_path(""), "parsed_games/unknown.json");
    assert_eq!(get_cache_path("/"), "parsed_games/unknown.json");
}

#[test]
fn cache_path_from_given_stem() {
    assert_eq!(cache_path_from_stem(Some("abc")), "parsed_games/abc.json");
    assert_eq!(cache_path_from_stem(None), "parsed_games/unknown.json");
}

#[test]
fn bytes_that_are_no_replay_fail_to_parse() {
    assert!(matches!(parsed_replay_text(&[]), Err(ReplayTextError::Parse(_))));
    assert!(matches!(parsed_replay_text(b"not a replay"), Err(ReplayTextError::Parse(_))));
}

#[test]
fn replay_name_and_sidecar_path_follow_the_stem() {
    assert_eq!(replay_name("assets/replays/good/match1.replay"), "match1");
    assert_eq!(replay_name(""), "unknown");
    assert_eq!(get_sidecar_path("assets/replays/good/match1.replay"), "parsed_games/match1.sig");
    assert_eq!(get_sidecar_path(""), "parsed_games/unknown.sig");
}

#[test]
fn uploads_must_be_replays_of_at_most_twenty_megabytes() {
    assert!(is_replay_file_name("game.replay"));
    assert!(is_replay_file_name(".replay"));
    assert!(!is_replay_file_name("game.replay.txt"));
    assert!(!is_replay_file_name("replay"));
    assert_eq!(MAX_UPLOAD_SIZE, 20 * 1024 * 1024);
    assert_eq!(check_upload("a.replay", MAX_UPLOAD_SIZE), Ok(()));
    assert_eq!(check_upload("a.replay", MAX_UPLOAD_SIZE + 1), Err(UploadError::TooLarge));
    assert_eq!(check_upload("a.json", 10), Err(UploadError::NotAReplay));
    assert_eq!(check_upload("a.json", MAX_UPLOAD_SIZE + 1), Err(UploadError::NotAReplay));
}
