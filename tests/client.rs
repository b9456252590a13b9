use lila_http::arena::{
    ArenaFull, ArenaId, ArenaShared, PauseSeconds, Rank, SheetScores, Team, TeamId, TeamStanding,
    UserId, UserName,
};
use lila_http::client::ClientData;
use lila_http::ongoing::OngoingUserGames;
use lila_http::redis::{ArenaFullRedis, PlayerRedis};
use serde_json::Value;

fn shared_for_view() -> ArenaShared {
    ArenaShared {
        nb_players: 25,
        duels: Value::Array(vec![]),
        seconds_to_finish: Some(600),
        seconds_to_start: None,
        is_started: Some(true),
        is_finished: None,
        is_recently_finished: None,
        featured: None,
        podium: None,
        pairings_closed: None,
        stats: None,
        duel_teams: None,
    }
}

fn player_named(i: usize, team: Option<String>) -> PlayerRedis {
    PlayerRedis {
        name: UserName(format!("Player{}", i)),
        withdraw: i == 3,
        sheet: SheetScores(String::new()),
        fire: false,
        team: team.map(TeamId),
        pause: if i == 3 { Some(PauseSeconds(42)) } else { None },
        rest: Value::Null,
    }
}

/// A snapshot of `n` players "Player1".."PlayerN", where the player at rank
/// `i` is in team "t{i % teams}" when there are teams.
fn snapshot(n: usize, teams: usize) -> ArenaFull {
    let standing = (1..=n)
        .map(|i| player_named(i, if teams > 0 { Some(format!("t{}", i % teams)) } else { None }))
        .collect();
    let team_standing = if teams > 0 {
        Some(TeamStanding(
            (1..=teams)
                .map(|r| Team { id: TeamId(format!("t{}", r % teams)), rank: Rank(r), rest: Value::Null })
                .collect(),
        ))
    } else {
        None
    };
    ArenaFullRedis {
        id: ArenaId("abcdefgh".to_string()),
        shared: shared_for_view(),
        ongoing_user_games: OngoingUserGames::parse("player3&player4/game0001").unwrap(),
        standing,
        team_standing,
    }
    .expand()
}

fn viewer(name: &str) -> UserId {
    UserName(name.to_string()).into_id()
}

fn ranks(view: &ClientData) -> Vec<usize> {
    view.standing.players.iter().map(|p| p.rank.0).collect()
}

#[test]
fn default_page_is_viewers_page() {
    let full = snapshot(25, 0);
    let me = viewer("Player14");
    let view = ClientData::new(&full, None, Some(&me));
    assert_eq!(view.standing.page, 2);
    assert_eq!(ranks(&view), (11..=20).collect::<Vec<_>>());
    assert_eq!(view.me.as_ref().unwrap().rank.0, 14);
}

#[test]
fn requested_page_wins_over_viewer() {
    let full = snapshot(25, 0);
    let me = viewer("Player14");
    let view = ClientData::new(&full, Some(1), Some(&me));
    assert_eq!(view.standing.page, 1);
    assert_eq!(ranks(&view), (1..=10).collect::<Vec<_>>());
}

#[test]
fn out_of_range_page_is_empty() {
    let full = snapshot(25, 0);
    let view = ClientData::new(&full, Some(99), None);
    assert_eq!(view.standing.page, 99);
    assert!(view.standing.players.is_empty());
}

#[test]
fn last_page_is_short() {
    let full = snapshot(25, 0);
    let view = ClientData::new(&full, Some(3), None);
    assert_eq!(ranks(&view), (21..=25).collect::<Vec<_>>());
    let view = ClientData::new(&full, Some(4), None);
    assert!(view.standing.players.is_empty());
}

#[test]
fn page_zero_shows_first_window() {
    let full = snapshot(25, 0);
    let view = ClientData::new(&full, Some(0), None);
    assert_eq!(view.standing.page, 0);
    assert_eq!(ranks(&view), (1..=10).collect::<Vec<_>>());
}

#[test]
fn viewer_on_page_boundary() {
    let full = snapshot(25, 0);
    let me = viewer("player20");
    let view = ClientData::new(&full, None, Some(&me));
    assert_eq!(view.standing.page, 2);
    let me = viewer("player21");
    let view = ClientData::new(&full, None, Some(&me));
    assert_eq!(view.standing.page, 3);
}

#[test]
fn unknown_viewer_gets_first_page() {
    let full = snapshot(25, 0);
    let me = viewer("stranger");
    let view = ClientData::new(&full, None, Some(&me));
    assert!(view.me.is_none());
    assert_eq!(view.standing.page, 1);
    assert_eq!(ranks(&view), (1..=10).collect::<Vec<_>>());
    assert!(view.my_team.is_none());
}

#[test]
fn no_viewer_gets_first_page() {
    let full = snapshot(25, 0);
    let view = ClientData::new(&full, None, None);
    assert!(view.me.is_none());
    assert_eq!(view.standing.page, 1);
    assert_eq!(view.shared.nb_players, 25);
    assert!(view.team_standing.is_none());
}

#[test]
fn me_block_of_a_player() {
    let full = snapshot(25, 0);
    let me = viewer("Player3");
    let view = ClientData::new(&full, None, Some(&me));
    let block = view.me.unwrap();
    assert_eq!(block.rank.0, 3);
    assert!(block.withdraw);
    assert_eq!(block.game_id.map(|g| g.0), Some("game0001".to_string()));
    assert_eq!(block.pause_delay.map(|p| p.0), Some(42));
    let me = viewer("Player5");
    let block = ClientData::new(&full, None, Some(&me)).me.unwrap();
    assert!(!block.withdraw);
    assert!(block.game_id.is_none());
    assert!(block.pause_delay.is_none());
}

#[test]
fn team_standing_truncated_with_my_team() {
    // 15 teams; "Player12" is in team "t12", ranked 12th.
    let full = snapshot(25, 15);
    let me = viewer("Player12");
    let view = ClientData::new(&full, None, Some(&me));
    let teams = view.team_standing.unwrap();
    assert_eq!(teams.len(), 10);
    assert_eq!(teams.iter().map(|t| t.rank.0).collect::<Vec<_>>(), (1..=10).collect::<Vec<_>>());
    let mine = view.my_team.unwrap();
    assert_eq!(mine.rank.0, 12);
    assert_eq!(mine.id.0, "t12");
}

#[test]
fn my_team_absent_inside_window() {
    // "Player5" is in team "t5", ranked 5th.
    let full = snapshot(25, 15);
    let me = viewer("Player5");
    let view = ClientData::new(&full, None, Some(&me));
    assert_eq!(view.team_standing.unwrap().len(), 10);
    assert!(view.my_team.is_none());
}

#[test]
fn my_team_absent_when_not_truncated() {
    // 10 teams only: nothing is cut, so no separate entry.
    let full = snapshot(25, 10);
    let me = viewer("Player9");
    let view = ClientData::new(&full, None, Some(&me));
    assert_eq!(view.team_standing.unwrap().len(), 10);
    assert!(view.my_team.is_none());
}

#[test]
fn my_team_absent_without_team() {
    let full = snapshot(25, 0);
    let me = viewer("Player12");
    assert!(ClientData::new(&full, None, Some(&me)).my_team.is_none());
}

#[test]
fn small_team_standing_shown_whole() {
    let full = snapshot(25, 4);
    let view = ClientData::new(&full, None, None);
    assert_eq!(view.team_standing.unwrap().len(), 4);
}

#[test]
fn empty_team_standing_not_shown() {
    let mut full = snapshot(25, 0);
    full.team_standing = Some(TeamStanding(vec![]));
    let view = ClientData::new(&full, None, None);
    assert!(view.team_standing.is_none());
}

#[test]
fn largest_page_is_empty() {
    let full = snapshot(25, 0);
    let view = ClientData::new(&full, Some(usize::MAX), None);
    assert_eq!(view.standing.page, usize::MAX);
    assert!(view.standing.players.is_empty());
}

#[test]
fn viewer_at_rank_ten_stays_on_first_page() {
    let full = snapshot(25, 0);
    let me = viewer("PLAYER10");
    let view = ClientData::new(&full, None, Some(&me));
    assert_eq!(view.standing.page, 1);
    assert_eq!(ranks(&view).last(), Some(&10));
}

#[test]
fn empty_snapshot_view() {
    let full = snapshot(0, 0);
    let view = ClientData::new(&full, None, None);
    assert_eq!(view.standing.page, 1);
    assert!(view.standing.players.is_empty());
}
