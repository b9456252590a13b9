use std::time::{Duration, Instant};

use lila_http::arena::{ArenaFull, ArenaId, ArenaShared, UserName};
use lila_http::ongoing::OngoingUserGames;
use lila_http::redis::{ArenaFullRedis, PlayerRedis};
use lila_http::arena::SheetScores;
use lila_http::repo::{only_of_arena, Repo};
use std::sync::Arc;
use serde_json::Value;

fn arena(id: &str, nb_players: u32) -> ArenaFull {
    ArenaFullRedis {
        id: ArenaId(id.to_string()),
        shared: ArenaShared {
            nb_players,
            duels: Value::Null,
            seconds_to_finish: None,
            seconds_to_start: None,
            is_started: None,
            is_finished: None,
            is_recently_finished: None,
            featured: None,
            podium: None,
            pairings_closed: None,
            stats: None,
            duel_teams: None,
        },
        ongoing_user_games: OngoingUserGames::parse("").unwrap(),
        standing: vec![PlayerRedis {
            name: UserName("thibault".to_string()),
            withdraw: false,
            sheet: SheetScores(String::new()),
            fire: false,
            team: None,
            pause: None,
            rest: Value::Null,
        }],
        team_standing: None,
    }
    .expand()
}

#[test]
fn repo_get_after_put() {
    let repo = Repo::new();
    repo.put(arena("arena001", 7));
    let full = repo.get(ArenaId("arena001".to_string())).unwrap();
    assert_eq!(full.id.0, "arena001");
    assert_eq!(full.shared.nb_players, 7);
    assert!(repo.get(ArenaId("arena002".to_string())).is_none());
}

#[test]
fn repo_last_write_wins() {
    let repo = Repo::new();
    repo.put(arena("arena001", 7));
    repo.put(arena("arena001", 8));
    let full = repo.get(ArenaId("arena001".to_string())).unwrap();
    assert_eq!(full.shared.nb_players, 8);
}

#[test]
fn repo_entries_expire() {
    let repo = Repo::with_limits(16, 200);
    repo.put(arena("arena001", 7));
    assert!(repo.get(ArenaId("arena001".to_string())).is_some());
    let start = Instant::now();
    while start.elapsed() < Duration::from_millis(500) {}
    assert!(repo.get(ArenaId("arena001".to_string())).is_none());
}

#[test]
fn repo_unknown_arena_not_found() {
    let repo = Repo::new();
    assert!(repo.get(ArenaId("nothing1".to_string())).is_none());
    assert_eq!(repo.entry_count(), 0);
}

#[test]
fn lookup_keeps_only_snapshot_of_arena() {
    let id = ArenaId("arena001".to_string());
    assert!(only_of_arena(None, &id).is_none());
    let other = Arc::new(arena("arena002", 3));
    assert!(only_of_arena(Some(other), &id).is_none());
    let own = Arc::new(arena("arena001", 5));
    let kept = only_of_arena(Some(own), &id).unwrap();
    assert_eq!(kept.shared.nb_players, 5);
}
