//! The personalised, paginated view of one arena that a reader is sent.

use vstd::prelude::*;
use vstd::slice::slice_subrange;

use crate::arena::{
    distinct_ids, lemma_player_map_finds, lemma_player_map_keys, player_ids, user_id_of, ArenaFull,
    ArenaShared, GameId, PauseSeconds, Player, Rank, Team, UserId,
};

verus! {

/// How many players one page of the standing holds.
pub const PAGE_SIZE: usize = 10;

/// How many teams the team standing of a view holds at most.
pub const TEAMS_SHOWN: usize = 10;

/// What a viewer who plays in the arena learns of themself.
#[derive(Debug, Clone)]
pub struct ClientMe {
    pub rank: Rank,
    pub withdraw: bool,
    pub game_id: Option<GameId>,
    pub pause_delay: Option<PauseSeconds>,
}

/// One page of the standing.
#[derive(Debug, Clone)]
pub struct ClientStanding<'a> {
    pub page: usize,
    pub players: &'a [Player],
}

/// The view of an arena sent to one reader. It borrows what it shows from
/// the snapshot and owns only what was derived for this reader.
#[derive(Debug, Clone)]
pub struct ClientData<'a> {
    pub shared: &'a ArenaShared,
    pub me: Option<ClientMe>,
    pub standing: ClientStanding<'a>,
    pub team_standing: Option<&'a [Team]>,
    /// The viewer's team, when a large team standing is cut before it.
    pub my_team: Option<&'a Team>,
}

/// What the viewer `uid` learns of themself in `full`: present exactly when
/// they are one of its players.
pub open spec fn me_of(full: ArenaFull, uid: Seq<char>) -> Option<ClientMe> {
    if full.player_map@.contains_key(uid) {
        Some(
            ClientMe {
                rank: full.player_map@[uid].rank,
                withdraw: full.withdrawn@.contains(uid),
                game_id: if full.ongoing_user_games.0@.contains_key(uid) {
                    Some(full.ongoing_user_games.0@[uid])
                } else {
                    None
                },
                pause_delay: if full.pauses@.contains_key(uid) {
                    Some(full.pauses@[uid])
                } else {
                    None
                },
            },
        )
    } else {
        None
    }
}

/// The viewer's own block, for an optional viewer.
pub open spec fn viewer_me(full: ArenaFull, user_id: Option<&UserId>) -> Option<ClientMe> {
    match user_id {
        Some(uid) => me_of(full, uid.0@),
        None => None,
    }
}

/// The page that holds `rank`: `ceil(rank / PAGE_SIZE)`.
pub open spec fn page_of_rank(rank: int) -> int {
    (rank + PAGE_SIZE - 1) / PAGE_SIZE as int
}

/// The page shown: the one asked for, else the viewer's own page, else 1.
pub open spec fn page_shown(req_page: Option<usize>, me: Option<ClientMe>) -> int {
    match req_page {
        Some(p) => p as int,
        None => match me {
            Some(m) => page_of_rank(m.rank.0 as int),
            None => 1,
        },
    }
}

/// The players on `page`, in windows of `PAGE_SIZE` (page 0 is taken as page
/// 1); empty past the last window.
pub open spec fn page_players(players: Seq<Player>, page: int) -> Seq<Player> {
    let window = if page >= 1 {
        page - 1
    } else {
        0
    };
    let start = window * PAGE_SIZE;
    if start < players.len() {
        let end = if start + PAGE_SIZE < players.len() {
            start + PAGE_SIZE
        } else {
            players.len() as int
        };
        players.subrange(start, end)
    } else {
        Seq::empty()
    }
}

/// The teams shown: the first `TEAMS_SHOWN` of a team standing that has any.
pub open spec fn teams_shown(full: ArenaFull) -> Option<Seq<Team>> {
    match full.team_standing {
        Some(ts) => if ts.0@.len() > 0 {
            Some(
                ts.0@.subrange(
                    0,
                    if ts.0@.len() > TEAMS_SHOWN {
                        TEAMS_SHOWN as int
                    } else {
                        ts.0@.len() as int
                    },
                ),
            )
        } else {
            None
        },
        None => None,
    }
}

/// `j` is the first position of the team `id` in `teams`.
pub open spec fn is_first_team(teams: Seq<Team>, id: Seq<char>, j: int) -> bool {
    &&& 0 <= j < teams.len()
    &&& teams[j].id.0@ == id
    &&& forall|k: int| 0 <= k < j ==> teams[k].id.0@ != id
}

/// The position of the viewer's team in a team standing of more than
/// `TEAMS_SHOWN` teams, when the team is ranked past `TEAMS_SHOWN`.
pub open spec fn my_team_index(full: ArenaFull, uid: Seq<char>) -> Option<int> {
    if full.player_map@.contains_key(uid) {
        match full.player_map@[uid].team {
            Some(tid) => match full.team_standing {
                Some(ts) => if ts.0@.len() > TEAMS_SHOWN && exists|j: int|
                    is_first_team(ts.0@, tid.0@, j) {
                    let j = choose|j: int| is_first_team(ts.0@, tid.0@, j);
                    if ts.0@[j].rank.0 > TEAMS_SHOWN {
                        Some(j)
                    } else {
                        None
                    }
                } else {
                    None
                },
                None => None,
            },
            None => None,
        }
    } else {
        None
    }
}

/// The team that `my_team_index` points at, if any.
pub open spec fn my_team_of(full: ArenaFull, user_id: Option<&UserId>) -> Option<Team> {
    match user_id {
        Some(uid) => match my_team_index(full, uid.0@) {
            Some(j) => Some((full.team_standing->0).0@[j]),
            None => None,
        },
        None => None,
    }
}

/// The teams an optional slice holds.
pub open spec fn slice_view(teams: Option<&[Team]>) -> Option<Seq<Team>> {
    match teams {
        Some(t) => Some(t@),
        None => None,
    }
}

/// The team an optional reference points at.
pub open spec fn deref_team(team: Option<&Team>) -> Option<Team> {
    match team {
        Some(t) => Some(*t),
        None => None,
    }
}

/// A viewer who is not one of the players learns nothing of themself, and
/// when they ask for no page they are shown the first one.
pub proof fn lemma_unknown_viewer(full: ArenaFull, uid: Seq<char>)
    requires
        full.wf(),
        !player_ids(full.player_vec@).contains(uid),
    ensures
        me_of(full, uid) is None,
        page_shown(None, me_of(full, uid)) == 1,
{
    lemma_player_map_keys(full.player_vec@);
}

/// A page that starts past the last player is empty.
pub proof fn lemma_page_past_end(players: Seq<Player>, page: int)
    requires
        page >= 1,
        (page - 1) * PAGE_SIZE >= players.len(),
    ensures
        page_players(players, page) == Seq::<Player>::empty(),
{
}

/// The page a viewer is shown by default lists them: in a well-formed
/// snapshot whose players have distinct identities, a viewer who plays and
/// asks for no page is shown the page of their rank, and it holds them.
pub proof fn lemma_default_page_holds_viewer(full: ArenaFull, uid: Seq<char>)
    requires
        full.wf(),
        distinct_ids(full.player_vec@),
        player_ids(full.player_vec@).contains(uid),
    ensures
        me_of(full, uid) is Some,
        exists|i: int|
            0 <= i < full.player_vec@.len() && user_id_of(#[trigger] full.player_vec@[i].name) == uid
                && me_of(full, uid)->0.rank.0 == i + 1 && page_players(
                full.player_vec@,
                page_shown(None, me_of(full, uid)),
            ).contains(full.player_vec@[i]),
{
    let players = full.player_vec@;
    lemma_player_map_keys(players);
    let i = choose|i: int| 0 <= i < players.len() && user_id_of(#[trigger] players[i].name) == uid;
    lemma_player_map_finds(players, i);
    let page = page_shown(None, me_of(full, uid));
    assert(page == (i + 10) / 10);
    let window = i / 10;
    assert(page - 1 == window && window * 10 <= i < window * 10 + 10) by (nonlinear_arith)
        requires
            page == (i + 10) / 10,
            window == i / 10,
            i >= 0,
    ;
    let start = window * 10;
    let end = if start + 10 < players.len() {
        start + 10
    } else {
        players.len() as int
    };
    let shown = page_players(players, page);
    assert(shown == players.subrange(start, end));
    assert(shown[i - start] == players[i]);
}

impl<'a> ClientData<'a> {
    /// The view of `full` for an optional viewer, on the page asked for or,
    /// when none is, on the viewer's own page.
    pub fn new(full: &'a ArenaFull, req_page: Option<usize>, user_id: Option<&UserId>) -> (r:
        ClientData<'a>)
        ensures
            *r.shared == full.shared,
            r.me == viewer_me(*full, user_id),
            r.standing.page == page_shown(req_page, r.me),
            r.standing.players@ == page_players(full.player_vec@, r.standing.page as int),
            slice_view(r.team_standing) == teams_shown(*full),
            deref_team(r.my_team) == my_team_of(*full, user_id),
    {
        let me = match user_id {
            Some(uid) => match full.player_map.get(uid.0.as_str()) {
                Some(player) => Some(
                    ClientMe {
                        rank: player.rank,
                        withdraw: full.withdrawn.contains(uid.0.as_str()),
                        game_id: match full.ongoing_user_games.0.get(uid.0.as_str()) {
                            Some(g) => Some(GameId(g.0.clone())),
                            None => None,
                        },
                        pause_delay: match full.pauses.get(uid.0.as_str()) {
                            Some(p) => Some(*p),
                            None => None,
                        },
                    },
                ),
                None => None,
            },
            None => None,
        };
        let page = match req_page {
            Some(p) => p,
            None => match &me {
                Some(m) => page_holding(m.rank.0),
                None => 1,
            },
        };
        let players = page_window(full.player_vec.as_slice(), page);
        let team_standing = match &full.team_standing {
            Some(ts) => if ts.0.len() > 0 {
                let end = if ts.0.len() > TEAMS_SHOWN {
                    TEAMS_SHOWN
                } else {
                    ts.0.len()
                };
                Some(slice_subrange(ts.0.as_slice(), 0, end))
            } else {
                None
            },
            None => None,
        };
        let my_team = match user_id {
            Some(uid) => ClientData::get_my_team_if_not_included(full, uid),
            None => None,
        };
        ClientData {
            shared: &full.shared,
            me,
            standing: ClientStanding { page, players },
            team_standing,
            my_team,
        }
    }

    /// The viewer's team, only for a standing of more than `TEAMS_SHOWN`
    /// teams in which the team is ranked past `TEAMS_SHOWN`.
    #[verifier::loop_isolation(false)]
    fn get_my_team_if_not_included(full: &'a ArenaFull, user_id: &UserId) -> (r: Option<&'a Team>)
        ensures
            deref_team(r) == my_team_of(*full, Some(user_id)),
    {
        let player = match full.player_map.get(user_id.0.as_str()) {
            Some(p) => p,
            None => return None,
        };
        let team_id = match &player.team {
            Some(t) => t,
            None => return None,
        };
        let teams = match &full.team_standing {
            Some(ts) => &ts.0,
            None => return None,
        };
        if teams.len() <= TEAMS_SHOWN {
            return None;
        }
        let mut j: usize = 0;
        while j < teams.len()
            invariant
                j <= teams.len(),
                forall|k: int| 0 <= k < j ==> teams@[k].id.0@ != team_id.0@,
            decreases teams.len() - j,
        {
            if teams[j].id.0 == team_id.0 {
                proof {
                    assert(is_first_team(teams@, team_id.0@, j as int));
                    let first = choose|i: int| is_first_team(teams@, team_id.0@, i);
                    assert(first == j);
                }
                if teams[j].rank.0 > TEAMS_SHOWN {
                    return Some(&teams[j]);
                } else {
                    return None;
                }
            }
            j += 1;
        }
        None
    }
}

/// `ceil(rank / PAGE_SIZE)`, free of overflow.
fn page_holding(rank: usize) -> (page: usize)
    ensures
        page == page_of_rank(rank as int),
{
    if rank % PAGE_SIZE == 0 {
        rank / PAGE_SIZE
    } else {
        rank / PAGE_SIZE + 1
    }
}

/// The window of `players` shown on `page`.
fn page_window(players: &[Player], page: usize) -> (r: &[Player])
    ensures
        r@ == page_players(players@, page as int),
{
    let len = players.len();
    let window = if page >= 1 {
        page - 1
    } else {
        0
    };
    if window > len / PAGE_SIZE {
        assert(window * PAGE_SIZE >= len) by (nonlinear_arith)
            requires
                window > len / PAGE_SIZE,
                PAGE_SIZE == 10,
        ;
        return slice_subrange(players, 0, 0);
    }
    assert(window * PAGE_SIZE <= len) by (nonlinear_arith)
        requires
            window <= len / PAGE_SIZE,
            PAGE_SIZE == 10,
    ;
    let start = window * PAGE_SIZE;
    if start < len {
        let end = if len - start > PAGE_SIZE {
            start + PAGE_SIZE
        } else {
            len
        };
        slice_subrange(players, start, end)
    } else {
        slice_subrange(players, 0, 0)
    }
}

} // verus!
