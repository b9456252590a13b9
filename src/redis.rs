//! Snapshots as they arrive on the update stream, their expansion into the
//! in-memory [`ArenaFull`], and the decisions of the ingestion loop.

use std::sync::atomic::AtomicU64;

use vstd::hash_map::StringHashMap;
use vstd::hash_set::StringHashSet;
use vstd::prelude::*;

use crate::arena::{
    player_ids, player_map_of, user_id_of, withdrawn_players, ArenaFull, ArenaId, ArenaShared,
    PauseSeconds, Player, PlayerMapEntry, Rank, Sheet, SheetScores, TeamId, TeamStanding, UserName,
};
use crate::ongoing::OngoingUserGames;

verus! {

/// Counters of the ingestion loop, for health reporting.
#[derive(Default)]
pub struct RedisStats {
    pub messages: AtomicU64,
}

/// One player as the update stream sends it: in standing order, without a
/// rank.
pub struct PlayerRedis {
    pub name: UserName,
    pub withdraw: bool,
    pub sheet: SheetScores,
    pub fire: bool,
    pub team: Option<TeamId>,
    pub pause: Option<PauseSeconds>,
    pub rest: serde_json::Value,
}

/// One arena as the update stream sends it.
pub struct ArenaFullRedis {
    pub id: ArenaId,
    pub shared: ArenaShared,
    pub ongoing_user_games: OngoingUserGames,
    pub standing: Vec<PlayerRedis>,
    pub team_standing: Option<TeamStanding>,
}

/// The player that the record `p` becomes at `rank`.
pub open spec fn expanded(p: PlayerRedis, rank: Rank) -> Player {
    Player {
        name: p.name,
        withdraw: p.withdraw,
        sheet: Sheet { scores: p.sheet, fire: p.fire },
        rank,
        team: p.team,
        rest: p.rest,
    }
}

/// The identities of the withdrawn records of a standing.
pub open spec fn withdrawn_of(standing: Seq<PlayerRedis>) -> Set<Seq<char>> {
    Set::new(
        |id: Seq<char>|
            exists|i: int|
                0 <= i < standing.len() && #[trigger] standing[i].withdraw && user_id_of(
                    standing[i].name,
                ) == id,
    )
}

/// The pause of each paused record of a standing; of two records with one
/// identity, the later one is kept.
pub open spec fn pauses_of(standing: Seq<PlayerRedis>) -> Map<Seq<char>, PauseSeconds>
    decreases standing.len(),
{
    if standing.len() == 0 {
        Map::empty()
    } else {
        let p = standing.last();
        let before = pauses_of(standing.drop_last());
        match p.pause {
            Some(s) => before.insert(user_id_of(p.name), s),
            None => before,
        }
    }
}

/// Every paused identity is the identity of a record of the standing.
proof fn lemma_pauses_of_records(standing: Seq<PlayerRedis>)
    ensures
        forall|id: Seq<char>|
            #[trigger] pauses_of(standing).contains_key(id) ==> exists|i: int|
                0 <= i < standing.len() && user_id_of(#[trigger] standing[i].name) == id,
    decreases standing.len(),
{
    if standing.len() > 0 {
        let before = standing.drop_last();
        lemma_pauses_of_records(before);
        assert forall|id: Seq<char>| #[trigger] pauses_of(standing).contains_key(id) implies exists|i: int|
            0 <= i < standing.len() && user_id_of(#[trigger] standing[i].name) == id by {
            if pauses_of(before).contains_key(id) {
                let i = choose|i: int| 0 <= i < before.len() && user_id_of(#[trigger] before[i].name) == id;
                assert(standing[i] == before[i]);
            } else {
                assert(user_id_of(standing[standing.len() - 1].name) == id);
            }
        }
    }
}

impl PlayerRedis {
    /// The player this record becomes at `rank`.
    fn expand(self, rank: Rank) -> (p: Player)
        ensures
            p == expanded(self, rank),
    {
        Player {
            name: self.name,
            withdraw: self.withdraw,
            sheet: Sheet { fire: self.fire, scores: self.sheet },
            rank,
            team: self.team,
            rest: self.rest,
        }
    }
}

/// A copy of a team identity.
fn copy_team(team: &Option<TeamId>) -> (r: Option<TeamId>)
    ensures
        r == *team,
{
    match team {
        Some(t) => Some(TeamId(t.0.clone())),
        None => None,
    }
}

/// The identity of a player.
fn id_of(name: &UserName) -> (id: String)
    ensures
        id@ == user_id_of(*name),
{
    UserName(name.0.clone()).into_id().0
}

/// The lookup entry of each player of `standing`.
fn make_player_map(standing: &[Player]) -> (m: StringHashMap<PlayerMapEntry>)
    ensures
        m@ == player_map_of(standing@),
{
    let mut m = StringHashMap::new();
    let mut i: usize = 0;
    while i < standing.len()
        invariant
            i <= standing@.len(),
            m@ == player_map_of(standing@.take(i as int)),
        decreases standing.len() - i,
    {
        let player = &standing[i];
        m.insert(id_of(&player.name), PlayerMapEntry { rank: player.rank, team: copy_team(&player.team) });
        assert(standing@.take(i + 1).drop_last() =~= standing@.take(i as int));
        i += 1;
    }
    assert(standing@.take(standing@.len() as int) =~= standing@);
    m
}

/// The identities of the withdrawn records of `standing`.
fn standing_to_withdrawn(standing: &[PlayerRedis]) -> (w: StringHashSet)
    ensures
        w@ == withdrawn_of(standing@),
{
    let mut w = StringHashSet::new();
    let mut i: usize = 0;
    while i < standing.len()
        invariant
            i <= standing@.len(),
            w@ == withdrawn_of(standing@.take(i as int)),
        decreases standing.len() - i,
    {
        let ghost before = standing@.take(i as int);
        let ghost after = standing@.take(i + 1);
        let ghost old_w = w@;
        if standing[i].withdraw {
            w.insert(id_of(&standing[i].name));
        }
        proof {
            let last = standing@[i as int];
            assert(after[i as int] == last);
            assert forall|id: Seq<char>| #[trigger] withdrawn_of(after).contains(id) == w@.contains(id) by {
                if withdrawn_of(after).contains(id) {
                    let j = choose|j: int| 0 <= j < after.len() && #[trigger] after[j].withdraw && user_id_of(after[j].name) == id;
                    if j < i {
                        assert(before[j] == after[j]);
                        assert(withdrawn_of(before).contains(id));
                    }
                }
                if w@.contains(id) {
                    if old_w.contains(id) {
                        let j = choose|j: int| 0 <= j < before.len() && #[trigger] before[j].withdraw && user_id_of(before[j].name) == id;
                        assert(after[j] == before[j]);
                    } else {
                        assert(after[i as int].withdraw);
                    }
                }
            }
            assert(w@ =~= withdrawn_of(after));
        }
        i += 1;
    }
    assert(standing@.take(standing@.len() as int) =~= standing@);
    w
}

/// The pause of each paused record of `standing`.
fn standing_to_pauses(standing: &[PlayerRedis]) -> (m: StringHashMap<PauseSeconds>)
    ensures
        m@ == pauses_of(standing@),
{
    let mut m = StringHashMap::new();
    let mut i: usize = 0;
    while i < standing.len()
        invariant
            i <= standing@.len(),
            m@ == pauses_of(standing@.take(i as int)),
        decreases standing.len() - i,
    {
        let player = &standing[i];
        match player.pause {
            Some(pause) => m.insert(id_of(&player.name), pause),
            None => {},
        }
        assert(standing@.take(i + 1).drop_last() =~= standing@.take(i as int));
        i += 1;
    }
    assert(standing@.take(standing@.len() as int) =~= standing@);
    m
}

impl ArenaFullRedis {
    /// The snapshot in memory: players ranked by their position (1-based),
    /// the lookup of each player, the withdrawn players and the pauses, all
    /// derived from the standing in one pass each.
    pub fn expand(self) -> (full: ArenaFull)
        ensures
            full.id == self.id,
            full.shared == self.shared,
            full.ongoing_user_games == self.ongoing_user_games,
            full.team_standing == self.team_standing,
            full.player_vec@.len() == self.standing@.len(),
            forall|i: int|
                0 <= i < self.standing@.len() ==> #[trigger] full.player_vec@[i] == expanded(
                    self.standing@[i],
                    full.player_vec@[i].rank,
                ) && full.player_vec@[i].rank.0 == i + 1,
            full.player_map@ == player_map_of(full.player_vec@),
            full.withdrawn@ == withdrawn_of(self.standing@),
            full.pauses@ == pauses_of(self.standing@),
            full.wf(),
    {
        let withdrawn = standing_to_withdrawn(&self.standing);
        let pauses = standing_to_pauses(&self.standing);
        let ghost standing = self.standing@;
        let n = self.standing.len();
        let mut player_vec: Vec<Player> = Vec::new();
        for player in it: self.standing.into_iter()
            invariant
                it.seq() == standing,
                standing.len() == n,
                player_vec@.len() == it.index(),
                forall|i: int|
                    0 <= i < it.index() ==> #[trigger] player_vec@[i] == expanded(
                        standing[i],
                        player_vec@[i].rank,
                    ) && player_vec@[i].rank.0 == i + 1,
        {
            let rank = Rank(player_vec.len() + 1);
            player_vec.push(player.expand(rank));
        }
        let player_map = make_player_map(&player_vec);
        proof {
            let players = player_vec@;
            assert(withdrawn_of(standing) =~= withdrawn_players(players)) by {
                assert forall|id: Seq<char>| #[trigger] withdrawn_of(standing).contains(id)
                    == withdrawn_players(players).contains(id) by {
                    if withdrawn_of(standing).contains(id) {
                        let i = choose|i: int| 0 <= i < standing.len() && #[trigger] standing[i].withdraw && user_id_of(standing[i].name) == id;
                        assert(players[i].withdraw);
                    }
                    if withdrawn_players(players).contains(id) {
                        let i = choose|i: int| 0 <= i < players.len() && #[trigger] players[i].withdraw && user_id_of(players[i].name) == id;
                        assert(standing[i].withdraw);
                    }
                }
            }
            lemma_pauses_of_records(standing);
            assert forall|id: Seq<char>| pauses_of(standing).contains_key(id) implies #[trigger] player_ids(players).contains(id) by {
                let i = choose|i: int| 0 <= i < standing.len() && user_id_of(#[trigger] standing[i].name) == id;
                assert(players[i].name == standing[i].name);
            }
        }
        ArenaFull {
            id: self.id,
            ongoing_user_games: self.ongoing_user_games,
            withdrawn,
            player_map,
            player_vec,
            team_standing: self.team_standing,
            shared: self.shared,
            pauses,
        }
    }
}

/// How long the ingestion loop pauses before it connects again, in seconds.
pub const RECONNECT_DELAY_SECONDS: u64 = 1;

/// Where the ingestion of the update stream stands.
#[derive(Debug, Clone, Copy, PartialEq, Eq, Structural)]
pub enum Link {
    /// No connection: one is made once the driver is ready.
    Disconnected,
    /// A connection and subscription have been asked for.
    Connecting,
    /// Messages are being received.
    Subscribed,
}

/// What the driver of the stream observed.
#[derive(Debug, Clone, Copy, PartialEq, Eq, Structural)]
pub enum LinkEvent {
    /// Ready to connect: at start-up, or when a pause is over.
    Ready,
    /// The connection and the subscription were made.
    Connected,
    /// The connection or the subscription failed.
    ConnectFailed,
    /// A message arrived and decoded into a snapshot.
    Decoded,
    /// A message arrived that could not be decoded.
    Malformed,
    /// The stream failed.
    StreamFailed,
    /// The stream ended.
    StreamEnded,
}

/// What the driver of the stream does next.
#[derive(Debug, Clone, Copy, PartialEq, Eq, Structural)]
pub enum LinkAction {
    /// Connect and subscribe.
    Connect,
    /// Wait for the next message.
    Receive,
    /// Put the decoded snapshot into the cache, count it, then wait for the
    /// next message.
    Store,
    /// Report the message that could not be decoded, then wait for the next
    /// one.
    Report,
    /// Pause this many seconds, then be ready to connect.
    Pause(u64),
    /// The event does not belong to the state; nothing changes.
    Ignore,
}

/// `event` is one that `link` waits for.
pub open spec fn awaits(link: Link, event: LinkEvent) -> bool {
    match link {
        Link::Disconnected => event == LinkEvent::Ready,
        Link::Connecting => event == LinkEvent::Connected || event == LinkEvent::ConnectFailed,
        Link::Subscribed => event == LinkEvent::Decoded || event == LinkEvent::Malformed || event
            == LinkEvent::StreamFailed || event == LinkEvent::StreamEnded,
    }
}

/// One decision of the ingestion loop: from where it stands and what was
/// observed, where it stands next and what it does. It never stops: a failed
/// connection or stream leads to a pause and a new connection, and a message
/// that cannot be decoded is reported and skipped.
pub fn next_step(link: Link, event: LinkEvent) -> (r: (Link, LinkAction))
    ensures
        link == Link::Disconnected && event == LinkEvent::Ready
            ==> r == (Link::Connecting, LinkAction::Connect),
        link == Link::Connecting && event == LinkEvent::Connected
            ==> r == (Link::Subscribed, LinkAction::Receive),
        link == Link::Connecting && event == LinkEvent::ConnectFailed
            ==> r == (Link::Disconnected, LinkAction::Pause(RECONNECT_DELAY_SECONDS)),
        link == Link::Subscribed && event == LinkEvent::Decoded
            ==> r == (Link::Subscribed, LinkAction::Store),
        link == Link::Subscribed && event == LinkEvent::Malformed
            ==> r == (Link::Subscribed, LinkAction::Report),
        link == Link::Subscribed && (event == LinkEvent::StreamFailed || event
            == LinkEvent::StreamEnded)
            ==> r == (Link::Disconnected, LinkAction::Pause(RECONNECT_DELAY_SECONDS)),
        !awaits(link, event) ==> r == (link, LinkAction::Ignore),
        awaits(link, event) ==> r.1 != LinkAction::Ignore,
{
    match (link, event) {
        (Link::Disconnected, LinkEvent::Ready) => (Link::Connecting, LinkAction::Connect),
        (Link::Connecting, LinkEvent::Connected) => (Link::Subscribed, LinkAction::Receive),
        (Link::Connecting, LinkEvent::ConnectFailed) => (
            Link::Disconnected,
            LinkAction::Pause(RECONNECT_DELAY_SECONDS),
        ),
        (Link::Subscribed, LinkEvent::Decoded) => (Link::Subscribed, LinkAction::Store),
        (Link::Subscribed, LinkEvent::Malformed) => (Link::Subscribed, LinkAction::Report),
        (Link::Subscribed, LinkEvent::StreamFailed) | (Link::Subscribed, LinkEvent::StreamEnded) => (
            Link::Disconnected,
            LinkAction::Pause(RECONNECT_DELAY_SECONDS),
        ),
        _ => (link, LinkAction::Ignore),
    }
}

} // verus!
