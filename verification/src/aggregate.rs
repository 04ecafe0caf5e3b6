//! The read aggregator: rebuilds nested game views from normalized rows.
//!
//! The storage layer hands over one row per participation, each carrying
//! its game's id and time window together with the player's name and
//! rank, plus a separate list of commander rows keyed by participation
//! id.  Aggregation groups the rows by game id, keeping the order in
//! which game ids first appear, and within a game keeps the rows' own
//! order; it is pure data reshaping with no validation of its own.

use vstd::prelude::*;

use crate::messages::Game;
use crate::messages::Player;
use crate::validate::EntryView;
use crate::validate::entry_view;
use crate::validate::entry_views;

verus! {

/// Mathematical model of one participation row of the join.
#[verifier::ext_equal]
pub ghost struct RowV {
    pub game_id: int,
    pub participation_id: int,
    pub start_time: int,
    pub end_time: int,
    pub player_name: Seq<char>,
    pub rank: int,
}

/// Mathematical model of one commander row.
#[verifier::ext_equal]
pub ghost struct CRowV {
    pub participation_id: int,
    pub commander: Seq<char>,
}

/// Mathematical model of one rebuilt game.
#[verifier::ext_equal]
pub ghost struct GameV {
    pub start_time: int,
    pub end_time: int,
    pub players: Seq<EntryView>,
}

/// One participation row, as the storage layer's join produces it.
pub struct ParticipationRow {
    pub game_id: i64,
    pub participation_id: i64,
    pub start_time: i64,
    pub end_time: i64,
    pub player_name: String,
    pub rank: usize,
}

/// One commander row.
pub struct CommanderRow {
    pub participation_id: i64,
    pub commander: String,
}

/// The model of one participation row.
pub open spec fn row_view(r: ParticipationRow) -> RowV {
    RowV {
        game_id: r.game_id as int,
        participation_id: r.participation_id as int,
        start_time: r.start_time as int,
        end_time: r.end_time as int,
        player_name: r.player_name@,
        rank: r.rank as int,
    }
}

/// The model of a participation row list.
pub open spec fn row_views(rs: Seq<ParticipationRow>) -> Seq<RowV> {
    rs.map_values(|r: ParticipationRow| row_view(r))
}

/// The model of one commander row.
pub open spec fn crow_view(c: CommanderRow) -> CRowV {
    CRowV { participation_id: c.participation_id as int, commander: c.commander@ }
}

/// The model of a commander row list.
pub open spec fn crow_views(cs: Seq<CommanderRow>) -> Seq<CRowV> {
    cs.map_values(|c: CommanderRow| crow_view(c))
}

/// The model of one rebuilt game.
pub open spec fn game_view(g: Game) -> GameV {
    GameV {
        start_time: g.start_datetime as int,
        end_time: g.end_datetime as int,
        players: entry_views(g.players@),
    }
}

/// The model of a rebuilt game list.
pub open spec fn game_views(gs: Seq<Game>) -> Seq<GameV> {
    gs.map_values(|g: Game| game_view(g))
}

/// The game id of every row, in row order.
pub open spec fn row_ids(rows: Seq<RowV>) -> Seq<int> {
    rows.map_values(|r: RowV| r.game_id)
}

/// The distinct values of `s` in order of first appearance.
pub open spec fn first_occurrences(s: Seq<int>) -> Seq<int>
    decreases s.len(),
{
    if s.len() == 0 {
        Seq::empty()
    } else {
        let rest = first_occurrences(s.drop_last());
        if rest.contains(s.last()) {
            rest
        } else {
            rest.push(s.last())
        }
    }
}

/// The rows of one game, in row order.
pub open spec fn rows_with_id(rows: Seq<RowV>, id: int) -> Seq<RowV> {
    rows.filter(|r: RowV| r.game_id == id)
}

/// The commanders of one participation, in row order.
pub open spec fn commanders_of(crows: Seq<CRowV>, pid: int) -> Seq<Seq<char>> {
    crows.filter(|c: CRowV| c.participation_id == pid).map_values(|c: CRowV| c.commander)
}

/// One row's contribution to its game's player list.
pub open spec fn row_player(crows: Seq<CRowV>, r: RowV) -> EntryView {
    EntryView { name: r.player_name, rank: r.rank, commanders: commanders_of(crows, r.participation_id) }
}

/// The rebuilt view of the game with id `id`.
pub open spec fn game_group(rows: Seq<RowV>, crows: Seq<CRowV>, id: int) -> GameV {
    let grows = rows_with_id(rows, id);
    GameV {
        start_time: grows[0].start_time,
        end_time: grows[0].end_time,
        players: grows.map_values(|r: RowV| row_player(crows, r)),
    }
}

/// What aggregation returns: one game per distinct game id, in order of
/// first appearance, each holding its own rows' players.
pub open spec fn aggregate_spec(rows: Seq<RowV>, crows: Seq<CRowV>) -> Seq<GameV> {
    first_occurrences(row_ids(rows)).map_values(|id: int| game_group(rows, crows, id))
}

/// Filtering a one-longer prefix extends the filtered sequence by the
/// new element exactly when it satisfies the predicate.
pub(crate) proof fn lemma_filter_take_step<A>(s: Seq<A>, pred: spec_fn(A) -> bool, j: int)
    requires
        0 <= j < s.len(),
    ensures
        s.take(j + 1).filter(pred) == if pred(s[j]) {
            s.take(j).filter(pred).push(s[j])
        } else {
            s.take(j).filter(pred)
        },
{
    reveal(Seq::filter);
    assert(s.take(j + 1).drop_last() =~= s.take(j));
    assert(s.take(j + 1).last() == s[j]);
}

/// Whether a game id already occurs in the list collected so far.
fn contains_id(ids: &Vec<i64>, id: i64) -> (r: bool)
    ensures
        r == ids@.map_values(|x: i64| x as int).contains(id as int),
{
    let n = ids.len();
    let ghost ids_v = ids@.map_values(|x: i64| x as int);
    let mut i: usize = 0;
    while i < n
        invariant
            n == ids.len(),
            i <= n,
            forall|k: int| 0 <= k < i ==> #[trigger] ids_v[k] != id as int,
        decreases n - i,
    {
        if ids[i] == id {
            assert(ids_v[i as int] == id as int);
            return true;
        }
        i = i + 1;
    }
    false
}

/// Collects the commanders of one participation, in row order.
fn collect_commanders(commander_rows: &Vec<CommanderRow>, pid: i64) -> (r: Vec<String>)
    ensures
        r@.map_values(|s: String| s@) == commanders_of(crow_views(commander_rows@), pid as int),
{
    let ghost crows = crow_views(commander_rows@);
    let ghost pred = |c: CRowV| c.participation_id == pid as int;
    let n = commander_rows.len();
    let mut out: Vec<String> = Vec::new();
    let mut j: usize = 0;
    while j < n
        invariant
            n == commander_rows.len(),
            j <= n,
            out@.map_values(|s: String| s@) =~= crows.take(j as int).filter(pred).map_values(
                |c: CRowV| c.commander,
            ),
        decreases n - j,
    {
        proof {
            lemma_filter_take_step(crows, pred, j as int);
            assert(crows[j as int] == crow_view(commander_rows@[j as int]));
        }
        if commander_rows[j].participation_id == pid {
            out.push(commander_rows[j].commander.clone());
            assert(out@.map_values(|s: String| s@) =~= crows.take(j as int).filter(pred).map_values(
                |c: CRowV| c.commander,
            ).push(crows[j as int].commander));
        }
        j = j + 1;
    }
    proof {
        assert(crows.take(n as int) =~= crows);
    }
    out
}

/// Rebuilds the nested game views from the normalized rows: one game per
/// distinct game id in order of first appearance, each with its own
/// rows' players in row order and each player's commanders in commander
/// row order.
pub fn aggregate_games(rows: &Vec<ParticipationRow>, commander_rows: &Vec<CommanderRow>) -> (r: Vec<
    Game,
>)
    ensures
        game_views(r@) == aggregate_spec(row_views(rows@), crow_views(commander_rows@)),
{
    let ghost rvs = row_views(rows@);
    let ghost crows = crow_views(commander_rows@);
    let ghost ids = row_ids(rvs);
    let n = rows.len();

    let mut uids: Vec<i64> = Vec::new();
    let mut i: usize = 0;
    while i < n
        invariant
            n == rows.len(),
            i <= n,
            uids@.map_values(|x: i64| x as int) =~= first_occurrences(ids.take(i as int)),
        decreases n - i,
    {
        proof {
            assert(ids.take(i + 1).drop_last() =~= ids.take(i as int));
            assert(ids.take(i + 1).last() == ids[i as int]);
            assert(ids[i as int] == rvs[i as int].game_id);
            assert(rvs[i as int] == row_view(rows@[i as int]));
        }
        let id = rows[i].game_id;
        if !contains_id(&uids, id) {
            uids.push(id);
            assert(uids@.map_values(|x: i64| x as int) =~= first_occurrences(ids.take(i as int)).push(
                id as int,
            ));
        }
        i = i + 1;
    }
    proof {
        assert(ids.take(n as int) =~= ids);
    }

    let m = uids.len();
    let mut out: Vec<Game> = Vec::new();
    let mut u: usize = 0;
    while u < m
        invariant
            n == rows.len(),
            m == uids.len(),
            u <= m,
            uids@.map_values(|x: i64| x as int) =~= first_occurrences(ids),
            game_views(out@) =~= first_occurrences(ids).take(u as int).map_values(
                |id: int| game_group(rvs, crows, id),
            ),
        decreases m - u,
    {
        let id = uids[u];
        let ghost pred = |r: RowV| r.game_id == id as int;
        let ghost grows = rows_with_id(rvs, id as int);

        let mut players: Vec<Player> = Vec::new();
        let mut start_datetime: i64 = 0;
        let mut end_datetime: i64 = 0;
        let mut found = false;
        let mut j: usize = 0;
        while j < n
            invariant
                n == rows.len(),
                j <= n,
                entry_views(players@) =~= rvs.take(j as int).filter(pred).map_values(
                    |r: RowV| row_player(crows, r),
                ),
                found == (rvs.take(j as int).filter(pred).len() > 0),
                found ==> rvs.take(j as int).filter(pred)[0].start_time == start_datetime as int
                    && rvs.take(j as int).filter(pred)[0].end_time == end_datetime as int,
            decreases n - j,
        {
            proof {
                lemma_filter_take_step(rvs, pred, j as int);
                assert(rvs[j as int] == row_view(rows@[j as int]));
            }
            if rows[j].game_id == id {
                if !found {
                    start_datetime = rows[j].start_time;
                    end_datetime = rows[j].end_time;
                    found = true;
                }
                let commanders = collect_commanders(commander_rows, rows[j].participation_id);
                let name = rows[j].player_name.clone();
                let rank = rows[j].rank;
                players.push(Player { name, commanders, rank });
                proof {
                    assert(entry_view(players@.last()) =~= row_player(crows, rvs[j as int]));
                    assert(entry_views(players@) =~= rvs.take(j as int).filter(pred).map_values(
                        |r: RowV| row_player(crows, r),
                    ).push(row_player(crows, rvs[j as int])));
                }
            }
            j = j + 1;
        }
        proof {
            assert(rvs.take(n as int) =~= rvs);
        }
        let game = Game { start_datetime, end_datetime, players };
        proof {
            let uid = uids@.map_values(|x: i64| x as int)[u as int];
            assert(uid == id as int);
            lemma_first_occurrences_members(ids);
            assert(first_occurrences(ids).contains(uid)) by {
                assert(first_occurrences(ids)[u as int] == uid);
            }
            assert(ids.contains(uid));
            let w = choose|w: int| 0 <= w < ids.len() && ids[w] == uid;
            assert(rvs[w].game_id == uid);
            assert(pred(rvs[w]));
            assert(grows.len() > 0) by {
                Seq::lemma_filter_contains(rvs, pred, w);
            }
            assert(game_view(game) =~= game_group(rvs, crows, id as int));
            assert(game_views(out@.push(game)) =~= game_views(out@).push(game_view(game)));
            assert(first_occurrences(ids).take(u + 1) =~= first_occurrences(ids).take(
                u as int,
            ).push(uid));
        }
        out.push(game);
        u = u + 1;
    }
    proof {
        assert(first_occurrences(ids).take(m as int) =~= first_occurrences(ids));
    }
    out
}

/// Every value that `first_occurrences` keeps occurs in the original
/// sequence, and conversely.
pub proof fn lemma_first_occurrences_members(s: Seq<int>)
    ensures
        forall|x: int| first_occurrences(s).contains(x) <==> s.contains(x),
    decreases s.len(),
{
    if s.len() > 0 {
        lemma_first_occurrences_members(s.drop_last());
        assert forall|x: int| first_occurrences(s).contains(x) implies s.contains(x) by {
            if first_occurrences(s.drop_last()).contains(x) {
                assert(s.drop_last().contains(x));
                let w = choose|w: int| 0 <= w < s.drop_last().len() && s.drop_last()[w] == x;
                assert(s[w] == x);
            } else {
                assert(x == s.last());
                assert(s[s.len() - 1] == x);
            }
        }
        assert forall|x: int| s.contains(x) implies first_occurrences(s).contains(x) by {
            let w = choose|w: int| 0 <= w < s.len() && s[w] == x;
            if w < s.len() - 1 {
                assert(s.drop_last()[w] == x);
                assert(s.drop_last().contains(x));
                let fo = first_occurrences(s.drop_last());
                assert(fo.contains(x));
                let v = choose|v: int| 0 <= v < fo.len() && fo[v] == x;
                assert(first_occurrences(s)[v] == x);
            } else {
                if first_occurrences(s.drop_last()).contains(s.last()) {
                    let fo = first_occurrences(s.drop_last());
                    let v = choose|v: int| 0 <= v < fo.len() && fo[v] == x;
                    assert(first_occurrences(s)[v] == x);
                } else {
                    assert(first_occurrences(s).last() == x);
                }
            }
        }
    }
}

} // verus!
