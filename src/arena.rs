//! The data model of an arena tournament: identities, players, teams and
//! the full snapshot of one arena as it is held in memory.

use vstd::hash_map::StringHashMap;
use vstd::hash_set::StringHashSet;
use vstd::prelude::*;

use crate::ongoing::OngoingUserGames;

verus! {

/// `serde_json::Value`, a JSON document: this library only carries such
/// documents through, and never looks inside one.
#[verifier::external_type_specification]
#[verifier::external_body]
pub struct ExJsValue(serde_json::Value);

/// The ASCII lower case of one character; every other character is kept.
pub open spec fn ascii_lower(c: char) -> char {
    if 'A' <= c && c <= 'Z' {
        ((c as u8) + 32u8) as char
    } else {
        c
    }
}

/// The ASCII lower case of a text, character by character.
pub open spec fn ascii_lowercase(s: Seq<char>) -> Seq<char> {
    s.map_values(|c: char| ascii_lower(c))
}

/// Relies on `String::push`: the character is appended at the end.
#[verifier::external_body]
pub(crate) fn push_char(s: &mut String, c: char)
    ensures
        final(s)@ == old(s)@.push(c),
{
    s.push(c)
}

/// The ASCII lower case of `c`.
fn lower_char(c: char) -> (r: char)
    ensures
        r == ascii_lower(c),
{
    if 'A' <= c && c <= 'Z' {
        ((c as u8) + 32u8) as char
    } else {
        c
    }
}

/// The identity of one arena tournament.
#[derive(Debug, Clone, PartialEq, Eq, Hash)]
pub struct ArenaId(pub String);

/// Tournament-wide attributes that are passed on to clients as they came.
#[derive(Debug)]
pub struct ArenaShared {
    pub nb_players: u32,
    pub duels: serde_json::Value,
    pub seconds_to_finish: Option<u32>,
    pub seconds_to_start: Option<u32>,
    pub is_started: Option<bool>,
    pub is_finished: Option<bool>,
    pub is_recently_finished: Option<bool>,
    pub featured: Option<serde_json::Value>,
    pub podium: Option<serde_json::Value>,
    pub pairings_closed: Option<bool>,
    pub stats: Option<serde_json::Value>,
    pub duel_teams: Option<serde_json::Value>,
}

/// The teams of a team battle, best first.
#[derive(Debug)]
pub struct TeamStanding(pub Vec<Team>);

/// One team of a team battle, with its rank and the fields clients see.
#[derive(Debug)]
pub struct Team {
    pub id: TeamId,
    pub rank: Rank,
    pub rest: serde_json::Value,
}

/// The identity of a user: the case-folded form of a [`UserName`].
#[derive(Debug, Clone, PartialEq, Eq, Hash)]
pub struct UserId(pub String);

/// A user name as it is displayed.
#[derive(Debug, Clone)]
pub struct UserName(pub String);

impl UserName {
    /// The identity of this user: the name in ASCII lower case.
    pub fn into_id(self) -> (id: UserId)
        ensures
            id.0@ == ascii_lowercase(self.0@),
    {
        let mut id = String::new();
        for c in it: self.0.as_str().chars()
            invariant
                id@ == ascii_lowercase(it.seq().take(it.index() as int)),
        {
            proof {
                assert(it.seq().take(it.index() + 1) =~= it.seq().take(it.index() as int).push(c));
            }
            push_char(&mut id, lower_char(c));
            assert(id@ =~= ascii_lowercase(it.seq().take(it.index() + 1)));
        }
        UserId(id)
    }
}

/// The identity of one game.
#[derive(Debug, Clone)]
pub struct GameId(pub String);

/// The identity of a team.
#[derive(Debug, Clone, PartialEq, Eq)]
pub struct TeamId(pub String);

/// A 1-based position in a standing.
#[derive(Debug, Copy, Clone, PartialEq, Eq, Structural)]
pub struct Rank(pub usize);

/// How long a player is paused, in seconds.
#[derive(Debug, Copy, Clone, PartialEq, Eq, Structural)]
pub struct PauseSeconds(pub u32);

/// One player of the standing, as clients see it.
#[derive(Debug)]
pub struct Player {
    pub name: UserName,
    pub withdraw: bool,
    pub sheet: Sheet,
    pub rank: Rank,
    pub team: Option<TeamId>,
    pub rest: serde_json::Value,
}

/// What is looked up of a player by identity.
#[derive(Debug)]
pub struct PlayerMapEntry {
    pub rank: Rank,
    pub team: Option<TeamId>,
}

/// A player's score sheet.
#[derive(Debug, Clone)]
pub struct Sheet {
    pub scores: SheetScores,
    pub fire: bool,
}

/// The compact encoding of a player's scores, passed on as it came.
#[derive(Debug, Clone)]
pub struct SheetScores(pub String);

/// The identity under which a player is looked up.
pub open spec fn user_id_of(name: UserName) -> Seq<char> {
    ascii_lowercase(name.0@)
}

/// The lookup entry of each player; of two players with one identity, the
/// later one is kept.
pub open spec fn player_map_of(players: Seq<Player>) -> Map<Seq<char>, PlayerMapEntry>
    decreases players.len(),
{
    if players.len() == 0 {
        Map::empty()
    } else {
        let p = players.last();
        player_map_of(players.drop_last()).insert(
            user_id_of(p.name),
            PlayerMapEntry { rank: p.rank, team: p.team },
        )
    }
}

/// The identities of the withdrawn players.
pub open spec fn withdrawn_players(players: Seq<Player>) -> Set<Seq<char>> {
    Set::new(
        |id: Seq<char>|
            exists|i: int|
                0 <= i < players.len() && #[trigger] players[i].withdraw && user_id_of(
                    players[i].name,
                ) == id,
    )
}

/// The identities of all players.
pub open spec fn player_ids(players: Seq<Player>) -> Set<Seq<char>> {
    Set::new(
        |id: Seq<char>| exists|i: int| 0 <= i < players.len() && user_id_of(#[trigger] players[i].name) == id,
    )
}

/// The full state of one arena at the moment it was last pushed.
pub struct ArenaFull {
    pub id: ArenaId,
    pub shared: ArenaShared,
    pub ongoing_user_games: OngoingUserGames,
    pub player_vec: Vec<Player>,
    pub player_map: StringHashMap<PlayerMapEntry>,
    pub withdrawn: StringHashSet,
    pub team_standing: Option<TeamStanding>,
    pub pauses: StringHashMap<PauseSeconds>,
}

impl ArenaFull {
    /// Ranks follow positions, and the lookups agree with the players they
    /// were derived from.
    pub open spec fn wf(&self) -> bool {
        &&& forall|i: int|
            0 <= i < self.player_vec@.len() ==> #[trigger] self.player_vec@[i].rank.0 == i + 1
        &&& self.player_map@ == player_map_of(self.player_vec@)
        &&& self.withdrawn@ == withdrawn_players(self.player_vec@)
        &&& self.pauses@.dom().subset_of(player_ids(self.player_vec@))
    }
}

/// No two players of `players` share an identity.
pub open spec fn distinct_ids(players: Seq<Player>) -> bool {
    forall|i: int, j: int|
        0 <= i < players.len() && 0 <= j < players.len() && i != j ==> user_id_of(
            #[trigger] players[i].name,
        ) != user_id_of(#[trigger] players[j].name)
}

/// Among players of distinct identities, each one is found under its own
/// identity with its own rank and team.
pub proof fn lemma_player_map_finds(players: Seq<Player>, i: int)
    requires
        distinct_ids(players),
        0 <= i < players.len(),
    ensures
        player_map_of(players).contains_key(user_id_of(players[i].name)),
        player_map_of(players)[user_id_of(players[i].name)] == (PlayerMapEntry {
            rank: players[i].rank,
            team: players[i].team,
        }),
    decreases players.len(),
{
    let last = players.len() - 1;
    if i < last {
        let before = players.drop_last();
        assert(before[i] == players[i]);
        assert forall|a: int, b: int|
            0 <= a < before.len() && 0 <= b < before.len() && a != b implies user_id_of(
            #[trigger] before[a].name,
        ) != user_id_of(#[trigger] before[b].name) by {
            assert(before[a] == players[a] && before[b] == players[b]);
        }
        lemma_player_map_finds(before, i);
        assert(user_id_of(players[last].name) != user_id_of(players[i].name));
    }
}

/// The lookup holds an entry for exactly the identities of the players.
pub proof fn lemma_player_map_keys(players: Seq<Player>)
    ensures
        player_map_of(players).dom() == player_ids(players),
    decreases players.len(),
{
    if players.len() > 0 {
        let before = players.drop_last();
        lemma_player_map_keys(before);
        assert forall|id: Seq<char>| #[trigger] player_ids(players).contains(id)
            == player_map_of(players).dom().contains(id) by {
            if player_ids(players).contains(id) {
                let i = choose|i: int| 0 <= i < players.len() && user_id_of(#[trigger] players[i].name) == id;
                if i < players.len() - 1 {
                    assert(before[i] == players[i]);
                    assert(player_ids(before).contains(id));
                }
            }
            if player_ids(before).contains(id) {
                let i = choose|i: int| 0 <= i < before.len() && user_id_of(#[trigger] before[i].name) == id;
                assert(players[i] == before[i]);
            }
            assert(user_id_of(players[players.len() - 1].name) == user_id_of(players.last().name));
        }
        assert(player_map_of(players).dom() =~= player_ids(players));
    } else {
        assert(player_ids(players) =~= Set::empty());
    }
}

/// Rank follows order: in a well-formed snapshot, the player at position `i`
/// has rank `i + 1`; when no two players share an identity, the lookup under
/// the player's identity gives that same rank.
pub proof fn lemma_rank_from_order(full: &ArenaFull, i: int)
    requires
        full.wf(),
        0 <= i < full.player_vec@.len(),
        distinct_ids(full.player_vec@),
    ensures
        full.player_vec@[i].rank.0 == i + 1,
        full.player_map@.contains_key(user_id_of(full.player_vec@[i].name)),
        full.player_map@[user_id_of(full.player_vec@[i].name)].rank == full.player_vec@[i].rank,
{
    lemma_player_map_finds(full.player_vec@, i);
}

/// The derived sets agree with the players: the withdrawn identities are
/// exactly those of the withdrawn players, and every paused identity is the
/// identity of a player.
pub proof fn lemma_derived_sets(full: &ArenaFull)
    requires
        full.wf(),
    ensures
        full.withdrawn@ == withdrawn_players(full.player_vec@),
        full.pauses@.dom().subset_of(player_ids(full.player_vec@)),
{
}

} // verus!
