//! The games that are being played in an arena, decoded from their compact
//! text form `"user1&user2/game,user1&user2/game,..."`.

use vstd::hash_map::StringHashMap;
use vstd::prelude::*;
use vstd::utf8::encode_utf8;

use crate::arena::{push_char, GameId};

verus! {

/// The longest game id, in bytes of UTF-8.
pub const GAME_ID_MAX_BYTES: usize = 8;

/// The games being played, keyed by the identity of each of the two players.
pub struct OngoingUserGames(pub StringHashMap<GameId>);

/// The text could not be decoded as ongoing games.
#[derive(Debug, Clone, Copy, PartialEq, Eq, Structural)]
pub struct InvalidOngoingGames;

/// The game of each player, as text.
pub open spec fn games_view(m: Map<Seq<char>, GameId>) -> Map<Seq<char>, Seq<char>> {
    m.map_values(|g: GameId| g.0@)
}

impl View for OngoingUserGames {
    type V = Map<Seq<char>, Seq<char>>;

    open spec fn view(&self) -> Map<Seq<char>, Seq<char>> {
        games_view(self.0@)
    }
}

/// The records of an encoding: the pieces of text between commas.
pub open spec fn split_records(s: Seq<char>) -> Seq<Seq<char>>
    decreases s.len(),
    via split_records_decreases
{
    match s.index_of_first(',') {
        Some(k) => seq![s.take(k)] + split_records(s.skip(k + 1)),
        None => seq![s],
    }
}

#[via_fn]
proof fn split_records_decreases(s: Seq<char>) {
    s.index_of_first_ensures(',');
}

/// One record `p1&p2/game`, split at its first `/` and, before that, at its
/// first `&`: the two players and the game. `None` when either separator is
/// missing or the game id is longer than `GAME_ID_MAX_BYTES`.
pub open spec fn parse_record(r: Seq<char>) -> Option<(Seq<char>, Seq<char>, Seq<char>)> {
    match r.index_of_first('/') {
        None => None,
        Some(k) => {
            let players = r.take(k);
            let game = r.skip(k + 1);
            match players.index_of_first('&') {
                None => None,
                Some(m) => if encode_utf8(game).len() <= GAME_ID_MAX_BYTES {
                    Some((players.take(m), players.skip(m + 1), game))
                } else {
                    None
                },
            }
        },
    }
}

/// The games of `recs`, taken in order over the games `acc` found before
/// them: each record gives its game to both of its players, a later record
/// overrides an earlier one, an empty record is skipped, and one record that
/// cannot be parsed makes the whole `None`.
pub open spec fn decode_records(recs: Seq<Seq<char>>, acc: Map<Seq<char>, Seq<char>>) -> Option<
    Map<Seq<char>, Seq<char>>,
>
    decreases recs.len(),
{
    if recs.len() == 0 {
        Some(acc)
    } else if recs[0].len() == 0 {
        decode_records(recs.drop_first(), acc)
    } else {
        match parse_record(recs[0]) {
            None => None,
            Some((p1, p2, game)) => decode_records(recs.drop_first(), acc.insert(p1, game).insert(p2, game)),
        }
    }
}

/// The games that the encoding `s` describes, or `None` when it is malformed.
pub open spec fn ongoing_games(s: Seq<char>) -> Option<Map<Seq<char>, Seq<char>>> {
    decode_records(split_records(s), Map::empty())
}

/// `k` is where the first `c` of `s` stands, or the length of `s` when it
/// holds none: then this is what `index_of_first` says.
proof fn lemma_first_index(s: Seq<char>, c: char, k: int)
    requires
        0 <= k <= s.len(),
        forall|t: int| 0 <= t < k ==> s[t] != c,
        k < s.len() ==> s[k] == c,
    ensures
        s.index_of_first(c) == (if k < s.len() {
            Some(k)
        } else {
            None::<int>
        }),
{
    s.index_of_first_ensures(c);
    match s.index_of_first(c) {
        Some(idx) => {
            assert(s[idx] == c);
        },
        None => {
            if k < s.len() {
                assert(s.contains(c));
            }
        },
    }
}

/// A text takes at least one byte and at most four per character in UTF-8.
proof fn lemma_utf8_len_bounds(cs: Seq<char>)
    ensures
        cs.len() <= encode_utf8(cs).len() <= 4 * cs.len(),
    decreases cs.len(),
{
    if cs.len() > 0 {
        lemma_utf8_len_bounds(cs.drop_first());
    }
}

/// The characters of `s`, in order.
fn chars_of(s: &str) -> (cs: Vec<char>)
    ensures
        cs@ == s@,
{
    let mut cs: Vec<char> = Vec::new();
    for c in it: s.chars()
        invariant
            cs@ == it.seq().take(it.index() as int),
    {
        cs.push(c);
    }
    cs
}

/// The text of `cs[from..to]`.
fn text_of(cs: &Vec<char>, from: usize, to: usize) -> (r: String)
    requires
        from <= to <= cs@.len(),
    ensures
        r@ == cs@.subrange(from as int, to as int),
{
    let mut r = String::new();
    let mut i = from;
    while i < to
        invariant
            from <= i <= to <= cs@.len(),
            r@ == cs@.subrange(from as int, i as int),
        decreases to - i,
    {
        push_char(&mut r, cs[i]);
        i += 1;
        assert(r@ =~= cs@.subrange(from as int, i as int));
    }
    r
}

/// The first position of `c` in `cs[from..to]`, or `to` when it holds none.
fn find_char(cs: &Vec<char>, c: char, from: usize, to: usize) -> (k: usize)
    requires
        from <= to <= cs@.len(),
    ensures
        from <= k <= to,
        cs@.subrange(from as int, to as int).index_of_first(c) == (if k < to {
            Some(k - from)
        } else {
            None::<int>
        }),
{
    let mut k = from;
    while k < to && cs[k] != c
        invariant
            from <= k <= to <= cs@.len(),
            forall|t: int| from <= t < k ==> cs@[t] != c,
        decreases to - k,
    {
        k += 1;
    }
    proof {
        lemma_first_index(cs@.subrange(from as int, to as int), c, k - from);
    }
    k
}

/// The record `cs[from..to]`, parsed as `parse_record` says.
fn parse_record_at(cs: &Vec<char>, from: usize, to: usize) -> (r: Option<(String, String, String)>)
    requires
        from <= to <= cs@.len(),
    ensures
        match r {
            Some((p1, p2, game)) => parse_record(cs@.subrange(from as int, to as int)) == Some(
                (p1@, p2@, game@),
            ),
            None => parse_record(cs@.subrange(from as int, to as int)) is None,
        },
{
    let ghost rec = cs@.subrange(from as int, to as int);
    let slash = find_char(cs, '/', from, to);
    if slash == to {
        return None;
    }
    let amp = find_char(cs, '&', from, slash);
    assert(rec.take(slash - from) =~= cs@.subrange(from as int, slash as int));
    if amp == slash {
        return None;
    }
    let game = text_of(cs, slash + 1, to);
    assert(rec.skip(slash - from + 1) =~= game@);
    proof {
        lemma_utf8_len_bounds(game@);
    }
    if to - slash - 1 > GAME_ID_MAX_BYTES || game.as_str().len() > GAME_ID_MAX_BYTES {
        return None;
    }
    let p1 = text_of(cs, from, amp);
    let p2 = text_of(cs, amp + 1, slash);
    assert(rec.take(slash - from).take(amp - from) =~= p1@);
    assert(rec.take(slash - from).skip(amp - from + 1) =~= p2@);
    Some((p1, p2, game))
}

impl OngoingUserGames {
    /// Decodes `"user1&user2/game,user1&user2/game,..."`: each record gives
    /// its game to both players; empty records are skipped; the whole text is
    /// refused when a record lacks its `/` or its `&`, or names a game id
    /// longer than `GAME_ID_MAX_BYTES`.
    pub fn parse(encoded: &str) -> (r: Result<OngoingUserGames, InvalidOngoingGames>)
        ensures
            match r {
                Ok(games) => ongoing_games(encoded@) == Some(games@),
                Err(_) => ongoing_games(encoded@) is None,
            },
    {
        let cs = chars_of(encoded);
        let n = cs.len();
        let ghost s = encoded@;
        let mut games: StringHashMap<GameId> = StringHashMap::new();
        let mut i: usize = 0;
        assert(s.skip(0) =~= s);
        assert(games_view(games@) =~= Map::empty());
        loop
            invariant
                i <= n == cs@.len(),
                cs@ == s,
                s == encoded@,
                ongoing_games(s) == decode_records(split_records(s.skip(i as int)), games_view(games@)),
            decreases n - i,
        {
            let j = find_char(&cs, ',', i, n);
            let ghost rest = s.skip(i as int);
            proof {
                assert(cs@.subrange(i as int, n as int) =~= rest);
                if j < n {
                    assert(rest.skip(j - i + 1) =~= s.skip(j + 1));
                }
                assert(rest.take(j - i) =~= cs@.subrange(i as int, j as int));
                let recs = split_records(rest);
                assert(recs[0] == rest.take(j - i));
                if j < n {
                    assert(recs.drop_first() =~= split_records(s.skip(j + 1)));
                } else {
                    assert(recs.drop_first() =~= Seq::<Seq<char>>::empty());
                }
            }
            if j > i {
                match parse_record_at(&cs, i, j) {
                    None => return Err(InvalidOngoingGames),
                    Some((p1, p2, game)) => {
                        let ghost before = games_view(games@);
                        games.insert(p1, GameId(game.clone()));
                        games.insert(p2, GameId(game));
                        assert(games_view(games@) =~= before.insert(p1@, game@).insert(p2@, game@));
                    },
                }
            }
            if j == n {
                assert(decode_records(Seq::<Seq<char>>::empty(), games_view(games@)) == Some(
                    games_view(games@),
                ));
                return Ok(OngoingUserGames(games));
            }
            i = j + 1;
        }
    }
}

impl std::str::FromStr for OngoingUserGames {
    type Err = InvalidOngoingGames;

    fn from_str(encoded: &str) -> (r: Result<OngoingUserGames, InvalidOngoingGames>)
        ensures
            match r {
                Ok(games) => ongoing_games(encoded@) == Some(games@),
                Err(_) => ongoing_games(encoded@) is None,
            },
    {
        OngoingUserGames::parse(encoded)
    }
}

} // verus!
