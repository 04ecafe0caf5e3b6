//! The persistence writer: applies an accepted game result to the
//! relational model as one atomic unit.
//!
//! A submission becomes one game record, one participation record per
//! entry and one commander record per commander name.  Player names are
//! resolved against the player directory at write time; an unknown name
//! aborts the whole write with no partial rows left behind.  The store
//! here is the in-memory model of the relational schema; the transport
//! layer executes the same `WritePlan` against the backing store inside
//! a transaction.

use vstd::prelude::*;

use crate::aggregate::CRowV;
use crate::aggregate::GameV;
use crate::aggregate::RowV;
use crate::aggregate::aggregate_spec;
use crate::aggregate::commanders_of;
use crate::aggregate::first_occurrences;
use crate::aggregate::game_group;
use crate::aggregate::lemma_first_occurrences_members;
use crate::aggregate::row_ids;
use crate::aggregate::row_player;
use crate::aggregate::rows_with_id;
use crate::directory::PlayerDirectory;
use crate::validate::EntryView;
use crate::validate::entry_views;
use crate::validate::valid_result;
use crate::wire::GameSubmission;

verus! {

/// One game row: an id and the game's time window.
pub struct GameRecord {
    pub id: i64,
    pub start_time: i64,
    pub end_time: i64,
}

/// One participation row: a player's appearance in one game.
pub struct ParticipationRecord {
    pub id: i64,
    pub game_id: i64,
    pub player_id: i64,
    pub rank: usize,
}

/// One commander row: a commander played in one participation.
pub struct CommanderRecord {
    pub participation_id: i64,
    pub commander: String,
}

/// A write-time failure.  This is a data error, distinct from a
/// validation rejection: the submission was acceptable but the directory
/// has no such player right now.
#[derive(Debug, PartialEq, Eq)]
pub enum WriteError {
    UnknownPlayer { player_name: String },
}

impl WriteError {
    /// The human-readable reason reported to the submitting client.
    pub fn message(&self) -> (r: String)
        ensures
            self matches WriteError::UnknownPlayer { player_name } ==> r@ == "unknown player "@
                + player_name@,
    {
        match self {
            WriteError::UnknownPlayer { player_name } => {
                let mut s = String::from_str("unknown player ");
                s.append(player_name.as_str());
                s
            },
        }
    }
}

/// One entry of a write plan: the resolved player and what to record
/// for them.
pub struct PlannedParticipation {
    pub player_id: i64,
    pub rank: usize,
    pub commanders: Vec<String>,
}

/// Everything the write of one submission inserts, with player names
/// already resolved to ids.
pub struct WritePlan {
    pub start_time: i64,
    pub end_time: i64,
    pub participations: Vec<PlannedParticipation>,
}

/// Clones a list of names.
fn clone_strings(v: &Vec<String>) -> (r: Vec<String>)
    ensures
        r@ == v@,
{
    let n = v.len();
    let mut out: Vec<String> = Vec::new();
    let mut i: usize = 0;
    while i < n
        invariant
            n == v.len(),
            i <= n,
            out@ =~= v@.take(i as int),
        decreases n - i,
    {
        out.push(v[i].clone());
        i = i + 1;
    }
    proof {
        assert(v@.take(n as int) =~= v@);
    }
    out
}

/// Resolves every entry of a submission against the player directory,
/// producing the full set of rows to insert, or the first unknown
/// player name.
pub fn build_write_plan(directory: &PlayerDirectory, sub: &GameSubmission) -> (r: Result<
    WritePlan,
    WriteError,
>)
    ensures
        r is Err <==> exists|i: int|
            0 <= i < sub.players@.len() && !directory.has_name(#[trigger] sub.players@[i].name@),
        r matches Err(WriteError::UnknownPlayer { player_name }) ==> !directory.has_name(
            player_name@,
        ) && exists|i: int|
            0 <= i < sub.players@.len() && #[trigger] sub.players@[i].name@ == player_name@,
        r matches Ok(p) ==> {
            &&& p.start_time == sub.start_time
            &&& p.end_time == sub.end_time
            &&& p.participations@.len() == sub.players@.len()
            &&& forall|k: int|
                0 <= k < sub.players@.len() ==> directory.resolves(
                    sub.players@[k].name@,
                    #[trigger] p.participations@[k].player_id as int,
                )
            &&& forall|k: int|
                0 <= k < sub.players@.len() ==> #[trigger] p.participations@[k].rank
                    == sub.players@[k].rank
            &&& forall|k: int|
                0 <= k < sub.players@.len() ==> #[trigger] p.participations@[k].commanders@
                    == sub.players@[k].commanders@
        },
{
    let n = sub.players.len();
    let mut participations: Vec<PlannedParticipation> = Vec::new();
    let mut i: usize = 0;
    while i < n
        invariant
            n == sub.players@.len(),
            i <= n,
            participations@.len() == i,
            forall|k: int|
                0 <= k < i ==> directory.resolves(
                    sub.players@[k].name@,
                    #[trigger] participations@[k].player_id as int,
                ),
            forall|k: int|
                0 <= k < i ==> #[trigger] participations@[k].rank == sub.players@[k].rank,
            forall|k: int|
                0 <= k < i ==> #[trigger] participations@[k].commanders@
                    == sub.players@[k].commanders@,
        decreases n - i,
    {
        let player_id = match directory.lookup(&sub.players[i].name) {
            Some(id) => id,
            None => {
                return Err(
                    WriteError::UnknownPlayer { player_name: sub.players[i].name.clone() },
                );
            },
        };
        let commanders = clone_strings(&sub.players[i].commanders);
        participations.push(
            PlannedParticipation { player_id, rank: sub.players[i].rank, commanders },
        );
        i = i + 1;
    }
    proof {
        assert forall|k: int|
            0 <= k < sub.players@.len() implies directory.has_name(
            #[trigger] sub.players@[k].name@,
        ) by {
            assert(directory.resolves(
                sub.players@[k].name@,
                participations@[k].player_id as int,
            ));
        }
    }
    Ok(WritePlan { start_time: sub.start_time, end_time: sub.end_time, participations })
}

/// The participation rows that recording one submission adds: the k-th
/// entry becomes a row of the fresh game `gid` under participation id
/// `pid0 + k`.
pub open spec fn submission_rows(
    start_time: int,
    end_time: int,
    es: Seq<EntryView>,
    gid: int,
    pid0: int,
) -> Seq<RowV> {
    Seq::new(
        es.len(),
        |k: int|
            RowV {
                game_id: gid,
                participation_id: pid0 + k,
                start_time,
                end_time,
                player_name: es[k].name,
                rank: es[k].rank,
            },
    )
}

/// The commander rows of one entry.
pub open spec fn entry_crows(pid: int, commanders: Seq<Seq<char>>) -> Seq<CRowV> {
    commanders.map_values(|c: Seq<char>| CRowV { participation_id: pid, commander: c })
}

/// The commander rows that recording one submission adds, entry by
/// entry in order.
pub open spec fn submission_crows(es: Seq<EntryView>, pid0: int) -> Seq<CRowV>
    decreases es.len(),
{
    if es.len() == 0 {
        Seq::empty()
    } else {
        submission_crows(es.drop_last(), pid0) + entry_crows(
            pid0 + es.len() - 1,
            es.last().commanders,
        )
    }
}

/// Whether some game row carries the id.
pub open spec fn has_game_with_id(games: Seq<GameRecord>, id: int) -> bool {
    exists|g: int| 0 <= g < games.len() && (#[trigger] games[g]).id == id
}

/// Whether some participation row carries the id.
pub open spec fn has_participation_with_id(parts: Seq<ParticipationRecord>, id: int) -> bool {
    exists|p: int| 0 <= p < parts.len() && (#[trigger] parts[p]).id == id
}

/// The in-memory model of the relational store's game-side tables.
pub struct GameStore {
    games: Vec<GameRecord>,
    participations: Vec<ParticipationRecord>,
    choices: Vec<CommanderRecord>,
    next_game_id: i64,
    next_participation_id: i64,
}

impl GameStore {
    /// The game table's content.
    pub closed spec fn games_seq(self) -> Seq<GameRecord> {
        self.games@
    }

    /// The participation table's content.
    pub closed spec fn participations_seq(self) -> Seq<ParticipationRecord> {
        self.participations@
    }

    /// The commander table's content, as row models.
    pub closed spec fn choices_seq(self) -> Seq<CRowV> {
        self.choices@.map_values(
            |c: CommanderRecord| CRowV { participation_id: c.participation_id as int, commander: c.commander@ },
        )
    }

    /// The id the next recorded game will get.
    pub closed spec fn spec_next_game_id(self) -> int {
        self.next_game_id as int
    }

    /// The id the next inserted participation will get.
    pub closed spec fn spec_next_participation_id(self) -> int {
        self.next_participation_id as int
    }

    /// Well-formedness: ids are non-negative, unique and below their
    /// counters, and the foreign keys of participations and commander
    /// rows point at existing rows.
    pub open spec fn wf(self) -> bool {
        &&& 0 <= self.spec_next_game_id()
        &&& 0 <= self.spec_next_participation_id()
        &&& forall|i: int|
            0 <= i < self.games_seq().len() ==> 0 <= #[trigger] self.games_seq()[i].id
                < self.spec_next_game_id()
        &&& forall|i: int, j: int|
            #![trigger self.games_seq()[i], self.games_seq()[j]]
            0 <= i < j < self.games_seq().len() ==> self.games_seq()[i].id
                != self.games_seq()[j].id
        &&& forall|i: int|
            0 <= i < self.participations_seq().len() ==> 0
                <= #[trigger] self.participations_seq()[i].id < self.spec_next_participation_id()
        &&& forall|i: int, j: int|
            #![trigger self.participations_seq()[i], self.participations_seq()[j]]
            0 <= i < j < self.participations_seq().len() ==> self.participations_seq()[i].id
                != self.participations_seq()[j].id
        &&& forall|i: int|
            0 <= i < self.participations_seq().len() ==> has_game_with_id(
                self.games_seq(),
                (#[trigger] self.participations_seq()[i]).game_id as int,
            )
        &&& forall|i: int|
            0 <= i < self.choices_seq().len() ==> has_participation_with_id(
                self.participations_seq(),
                (#[trigger] self.choices_seq()[i]).participation_id,
            )
    }

    /// An empty store.
    pub fn new() -> (r: GameStore)
        ensures
            r.wf(),
            r.games_seq() =~= Seq::<GameRecord>::empty(),
            r.participations_seq() =~= Seq::<ParticipationRecord>::empty(),
            r.choices_seq() =~= Seq::<CRowV>::empty(),
            r.spec_next_game_id() == 0,
            r.spec_next_participation_id() == 0,
    {
        GameStore {
            games: Vec::new(),
            participations: Vec::new(),
            choices: Vec::new(),
            next_game_id: 0,
            next_participation_id: 0,
        }
    }

    /// The game table's rows.
    pub fn games(&self) -> (r: &Vec<GameRecord>)
        ensures
            r@ == self.games_seq(),
    {
        &self.games
    }

    /// The participation table's rows.
    pub fn participations(&self) -> (r: &Vec<ParticipationRecord>)
        ensures
            r@ == self.participations_seq(),
    {
        &self.participations
    }

    /// The commander table's rows.
    pub fn choices(&self) -> (r: &Vec<CommanderRecord>)
        ensures
            r@.map_values(
                |c: CommanderRecord| CRowV {
                    participation_id: c.participation_id as int,
                    commander: c.commander@,
                },
            ) == self.choices_seq(),
    {
        &self.choices
    }

    /// Records an accepted submission as one atomic unit: either every
    /// row of the game is inserted, or — on an unknown player name —
    /// nothing is.
    pub fn record_result(&mut self, directory: &PlayerDirectory, sub: &GameSubmission) -> (r:
        Result<i64, WriteError>)
        requires
            old(self).wf(),
            directory.wf(),
            valid_result(sub.start_time as int, sub.end_time as int, entry_views(sub.players@)),
            old(self).spec_next_game_id() < i64::MAX,
            old(self).spec_next_participation_id() + sub.players@.len() <= i64::MAX,
        ensures
            final(self).wf(),
            r is Err <==> exists|i: int|
                0 <= i < sub.players@.len() && !directory.has_name(
                    #[trigger] sub.players@[i].name@,
                ),
            r matches Err(WriteError::UnknownPlayer { player_name }) ==> !directory.has_name(
                player_name@,
            ) && exists|i: int|
                0 <= i < sub.players@.len() && #[trigger] sub.players@[i].name@ == player_name@,
            r is Err ==> *final(self) == *old(self),
            r matches Ok(gid) ==> {
                &&& gid as int == old(self).spec_next_game_id()
                &&& final(self).games_seq() == old(self).games_seq().push(
                    GameRecord { id: gid, start_time: sub.start_time, end_time: sub.end_time },
                )
                &&& final(self).participations_seq().len() == old(self).participations_seq().len()
                    + sub.players@.len()
                &&& forall|k: int|
                    0 <= k < old(self).participations_seq().len()
                        ==> #[trigger] final(self).participations_seq()[k] == old(
                        self,
                    ).participations_seq()[k]
                &&& forall|k: int|
                    0 <= k < sub.players@.len() ==> {
                        let p = #[trigger] final(self).participations_seq()[old(
                            self,
                        ).participations_seq().len() + k];
                        &&& p.id as int == old(self).spec_next_participation_id() + k
                        &&& p.game_id == gid
                        &&& directory.resolves(sub.players@[k].name@, p.player_id as int)
                        &&& p.rank == sub.players@[k].rank
                    }
                &&& final(self).choices_seq() == old(self).choices_seq() + submission_crows(
                    entry_views(sub.players@),
                    old(self).spec_next_participation_id(),
                )
                &&& final(self).spec_next_game_id() == old(self).spec_next_game_id() + 1
                &&& final(self).spec_next_participation_id() == old(
                    self,
                ).spec_next_participation_id() + sub.players@.len()
            },
    {
        let plan = match build_write_plan(directory, sub) {
            Ok(p) => p,
            Err(e) => {
                return Err(e);
            },
        };
        let ghost es = entry_views(sub.players@);
        let ghost pid0 = self.next_participation_id as int;
        let ghost games0 = self.games@;
        let ghost parts0 = self.participations@;
        let ghost choices0 = self.choices_seq();
        let gid = self.next_game_id;
        self.games.push(GameRecord { id: gid, start_time: plan.start_time, end_time: plan.end_time });
        let n = plan.participations.len();
        let mut k: usize = 0;
        while k < n
            invariant
                n == sub.players@.len(),
                k <= n,
                self.games@ == games0.push(
                    GameRecord { id: gid, start_time: sub.start_time, end_time: sub.end_time },
                ),
                self.next_game_id == gid,
                self.next_participation_id as int == pid0 + k,
                self.participations@.len() == parts0.len() + k,
                forall|t: int| 0 <= t < parts0.len() ==> #[trigger] self.participations@[t]
                    == parts0[t],
                forall|t: int|
                    0 <= t < k ==> {
                        let p = #[trigger] self.participations@[parts0.len() + t];
                        &&& p.id as int == pid0 + t
                        &&& p.game_id == gid
                        &&& directory.resolves(sub.players@[t].name@, p.player_id as int)
                        &&& p.rank == sub.players@[t].rank
                    },
                self.choices_seq() =~= choices0 + submission_crows(es.take(k as int), pid0),
            decreases n - k,
        {
            let pid = self.next_participation_id;
            let planned = &plan.participations[k];
            self.participations.push(
                ParticipationRecord {
                    id: pid,
                    game_id: gid,
                    player_id: planned.player_id,
                    rank: planned.rank,
                },
            );
            let m = planned.commanders.len();
            let mut batch: Vec<CommanderRecord> = Vec::new();
            let mut c: usize = 0;
            while c < m
                invariant
                    m == planned.commanders@.len(),
                    c <= m,
                    k < n,
                    n == sub.players@.len(),
                    *planned == plan.participations@[k as int],
                    plan.participations@[k as int].commanders@ == sub.players@[k as int].commanders@,
                    pid as int == pid0 + k,
                    batch@.map_values(
                        |r: CommanderRecord| CRowV {
                            participation_id: r.participation_id as int,
                            commander: r.commander@,
                        },
                    ) =~= entry_crows(pid0 + k, es[k as int].commanders.take(c as int)),
                decreases m - c,
            {
                batch.push(
                    CommanderRecord {
                        participation_id: pid,
                        commander: planned.commanders[c].clone(),
                    },
                );
                proof {
                    assert(es[k as int].commanders =~= sub.players@[k as int].commanders@.map_values(
                        |s: String| s@,
                    ));
                    assert(es[k as int].commanders[c as int] == planned.commanders@[c as int]@);
                    assert(es[k as int].commanders.take(c + 1) =~= es[k as int].commanders.take(
                        c as int,
                    ).push(es[k as int].commanders[c as int]));
                    assert(entry_crows(pid0 + k, es[k as int].commanders.take(c + 1)) =~= entry_crows(
                        pid0 + k,
                        es[k as int].commanders.take(c as int),
                    ).push(CRowV { participation_id: pid0 + k, commander: es[k as int].commanders[c as int] }));
                }
                c = c + 1;
            }
            let ghost choices_k = self.choices_seq();
            self.choices.append(&mut batch);
            self.next_participation_id = pid + 1;
            proof {
                assert(es[k as int].commanders.take(m as int) =~= es[k as int].commanders);
                assert(self.choices_seq() =~= choices_k + entry_crows(
                    pid0 + k,
                    es[k as int].commanders,
                ));
                assert(es.take(k + 1).drop_last() =~= es.take(k as int));
                assert(es.take(k + 1).last() == es[k as int]);
                assert(submission_crows(es.take(k + 1), pid0) == submission_crows(
                    es.take(k as int),
                    pid0,
                ) + entry_crows(pid0 + k, es[k as int].commanders));
                assert(self.choices_seq() =~= choices0 + submission_crows(es.take(k + 1), pid0));
            }
            k = k + 1;
        }
        self.next_game_id = gid + 1;
        proof {
            assert(es.take(n as int) =~= es);
            lemma_submission_crows_pids(es, pid0);
            let crows = submission_crows(es, pid0);
            assert forall|t: int|
                choices0.len() <= t < self.choices_seq().len() implies pid0
                <= #[trigger] self.choices_seq()[t].participation_id < pid0 + n by {
                assert(self.choices_seq()[t] == crows[t - choices0.len()]);
            }
            lemma_store_wf_after_write(*old(self), *self, gid as int, pid0, n as int);
        }
        Ok(gid)
    }
}

/// Filtering rows by game id distributes over concatenation.
proof fn lemma_rows_with_id_add(a: Seq<RowV>, b: Seq<RowV>, id: int)
    ensures
        rows_with_id(a + b, id) == rows_with_id(a, id) + rows_with_id(b, id),
    decreases b.len(),
{
    reveal(Seq::filter);
    if b.len() == 0 {
        assert(a + b =~= a);
        assert(rows_with_id(b, id) =~= Seq::<RowV>::empty());
        assert(rows_with_id(a, id) + rows_with_id(b, id) =~= rows_with_id(a, id));
    } else {
        lemma_rows_with_id_add(a, b.drop_last(), id);
        assert((a + b).drop_last() =~= a + b.drop_last());
        assert((a + b).last() == b.last());
        if b.last().game_id == id {
            assert(rows_with_id(a + b, id) =~= rows_with_id(a, id) + rows_with_id(b, id));
        } else {
            assert(rows_with_id(a + b, id) =~= rows_with_id(a, id) + rows_with_id(b, id));
        }
    }
}

/// A row list holding no row of the game filters to nothing.
proof fn lemma_rows_with_id_none(s: Seq<RowV>, id: int)
    requires
        forall|t: int| 0 <= t < s.len() ==> (#[trigger] s[t]).game_id != id,
    ensures
        rows_with_id(s, id) == Seq::<RowV>::empty(),
    decreases s.len(),
{
    reveal(Seq::filter);
    if s.len() > 0 {
        assert forall|t: int| 0 <= t < s.drop_last().len() implies (#[trigger] s.drop_last()[t]).game_id
            != id by {
            assert(s.drop_last()[t] == s[t]);
        }
        lemma_rows_with_id_none(s.drop_last(), id);
    }
}

/// A row list holding only rows of the game filters to itself.
proof fn lemma_rows_with_id_all(s: Seq<RowV>, id: int)
    requires
        forall|t: int| 0 <= t < s.len() ==> (#[trigger] s[t]).game_id == id,
    ensures
        rows_with_id(s, id) == s,
    decreases s.len(),
{
    reveal(Seq::filter);
    if s.len() > 0 {
        assert forall|t: int| 0 <= t < s.drop_last().len() implies (#[trigger] s.drop_last()[t]).game_id
            == id by {
            assert(s.drop_last()[t] == s[t]);
        }
        lemma_rows_with_id_all(s.drop_last(), id);
        assert(rows_with_id(s, id) =~= s.drop_last().push(s.last()));
        assert(s =~= s.drop_last().push(s.last()));
    }
}

/// Every filtered row comes from the original list.
proof fn lemma_rows_with_id_elements(s: Seq<RowV>, id: int)
    ensures
        forall|t: int|
            0 <= t < rows_with_id(s, id).len() ==> s.contains(#[trigger] rows_with_id(s, id)[t]),
    decreases s.len(),
{
    reveal(Seq::filter);
    if s.len() > 0 {
        lemma_rows_with_id_elements(s.drop_last(), id);
        assert forall|t: int|
            0 <= t < rows_with_id(s, id).len() implies s.contains(
            #[trigger] rows_with_id(s, id)[t],
        ) by {
            let pre = rows_with_id(s.drop_last(), id);
            if t < pre.len() {
                assert(s.drop_last().contains(pre[t]));
                let w = choose|w: int| 0 <= w < s.drop_last().len() && s.drop_last()[w] == pre[t];
                assert(s[w] == pre[t]);
            } else {
                assert(rows_with_id(s, id)[t] == s.last());
                assert(s[s.len() - 1] == s.last());
            }
        }
    }
}

/// Filtering commander rows by participation id distributes over
/// concatenation.
proof fn lemma_commanders_of_add(a: Seq<CRowV>, b: Seq<CRowV>, pid: int)
    ensures
        commanders_of(a + b, pid) == commanders_of(a, pid) + commanders_of(b, pid),
    decreases b.len(),
{
    reveal(Seq::filter);
    if b.len() == 0 {
        assert(a + b =~= a);
        assert(commanders_of(b, pid) =~= Seq::<Seq<char>>::empty());
        assert(commanders_of(a, pid) + commanders_of(b, pid) =~= commanders_of(a, pid));
    } else {
        lemma_commanders_of_add(a, b.drop_last(), pid);
        assert((a + b).drop_last() =~= a + b.drop_last());
        assert((a + b).last() == b.last());
        assert(commanders_of(a + b, pid) =~= commanders_of(a, pid) + commanders_of(b, pid));
    }
}

/// A commander row list with no row of the participation filters to
/// nothing.
proof fn lemma_commanders_of_none(s: Seq<CRowV>, pid: int)
    requires
        forall|t: int| 0 <= t < s.len() ==> (#[trigger] s[t]).participation_id != pid,
    ensures
        commanders_of(s, pid) == Seq::<Seq<char>>::empty(),
    decreases s.len(),
{
    reveal(Seq::filter);
    if s.len() > 0 {
        assert forall|t: int|
            0 <= t < s.drop_last().len() implies (#[trigger] s.drop_last()[t]).participation_id
            != pid by {
            assert(s.drop_last()[t] == s[t]);
        }
        lemma_commanders_of_none(s.drop_last(), pid);
    }
}

/// One entry's own commander rows filter back to exactly its
/// commanders.
proof fn lemma_entry_crows_of(pid: int, cs: Seq<Seq<char>>)
    ensures
        commanders_of(entry_crows(pid, cs), pid) == cs,
    decreases cs.len(),
{
    reveal(Seq::filter);
    if cs.len() == 0 {
        assert(commanders_of(entry_crows(pid, cs), pid) =~= cs);
    } else {
        lemma_entry_crows_of(pid, cs.drop_last());
        let x = entry_crows(pid, cs);
        let y = entry_crows(pid, cs.drop_last());
        assert(x.drop_last() =~= y);
        assert(x.last() == CRowV { participation_id: pid, commander: cs.last() });
        assert(x.last().participation_id == pid);
        assert(commanders_of(x, pid) =~= commanders_of(y, pid).push(cs.last()));
        assert(commanders_of(y, pid).push(cs.last()) =~= cs.drop_last().push(cs.last()));
        assert(cs.drop_last().push(cs.last()) =~= cs);
    }
}

/// Within one submission's commander rows, filtering by the k-th fresh
/// participation id yields exactly the k-th entry's commanders.
proof fn lemma_submission_crows_filter(es: Seq<EntryView>, pid0: int, k: int)
    requires
        0 <= k < es.len(),
    ensures
        commanders_of(submission_crows(es, pid0), pid0 + k) == es[k].commanders,
    decreases es.len(),
{
    let tail = entry_crows(pid0 + es.len() - 1, es.last().commanders);
    lemma_commanders_of_add(submission_crows(es.drop_last(), pid0), tail, pid0 + k);
    lemma_submission_crows_pids(es.drop_last(), pid0);
    if k == es.len() - 1 {
        assert forall|t: int|
            0 <= t < submission_crows(es.drop_last(), pid0).len() implies (
        #[trigger] submission_crows(es.drop_last(), pid0)[t]).participation_id != pid0 + k by {}
        lemma_commanders_of_none(submission_crows(es.drop_last(), pid0), pid0 + k);
        lemma_entry_crows_of(pid0 + k, es.last().commanders);
        assert(commanders_of(submission_crows(es, pid0), pid0 + k) =~= es[k].commanders);
    } else {
        lemma_submission_crows_filter(es.drop_last(), pid0, k);
        assert(es.drop_last()[k] == es[k]);
        assert forall|t: int|
            0 <= t < tail.len() implies (#[trigger] tail[t]).participation_id != pid0 + k by {}
        lemma_commanders_of_none(tail, pid0 + k);
        assert(commanders_of(submission_crows(es, pid0), pid0 + k) =~= es[k].commanders);
    }
}

/// The distinct values of a list extended by a run of one fresh value:
/// the fresh value lands at the end, once.
proof fn lemma_first_occurrences_append_constant(ids0: Seq<int>, idsn: Seq<int>, gid: int)
    requires
        idsn.len() > 0,
        forall|t: int| 0 <= t < idsn.len() ==> #[trigger] idsn[t] == gid,
        !ids0.contains(gid),
    ensures
        first_occurrences(ids0 + idsn) == first_occurrences(ids0).push(gid),
    decreases idsn.len(),
{
    let s = ids0 + idsn;
    assert(s.len() == ids0.len() + idsn.len());
    assert(s.last() == idsn.last());
    assert(s.last() == gid);
    if idsn.len() == 1 {
        assert(s.drop_last() =~= ids0);
        lemma_first_occurrences_members(ids0);
        assert(!first_occurrences(ids0).contains(gid));
        assert(first_occurrences(s) == first_occurrences(ids0).push(gid));
    } else {
        assert forall|t: int| 0 <= t < idsn.drop_last().len() implies #[trigger] idsn.drop_last()[t]
            == gid by {
            assert(idsn.drop_last()[t] == idsn[t]);
        }
        lemma_first_occurrences_append_constant(ids0, idsn.drop_last(), gid);
        assert(s.drop_last() =~= ids0 + idsn.drop_last());
        assert(first_occurrences(s.drop_last()) == first_occurrences(ids0).push(gid));
        assert(first_occurrences(ids0).push(gid).contains(gid)) by {
            assert(first_occurrences(ids0).push(gid).last() == gid);
            assert(first_occurrences(ids0).push(gid)[first_occurrences(ids0).len() as int] == gid);
        }
        assert(first_occurrences(s) == first_occurrences(ids0).push(gid));
    }
}

/// The round trip of one accepted submission: write it with fresh ids,
/// read everything back through the aggregator, and the output is the
/// previous output plus exactly one game whose time window, players,
/// ranks and commander lists are the submission's own.  The fresh ids
/// are exactly what `record_result` hands out: a game id no existing
/// row carries, and consecutive participation ids above every id in
/// use.
pub proof fn lemma_round_trip(
    rows0: Seq<RowV>,
    crows0: Seq<CRowV>,
    start_time: int,
    end_time: int,
    es: Seq<EntryView>,
    gid: int,
    pid0: int,
)
    requires
        es.len() > 0,
        !row_ids(rows0).contains(gid),
        forall|t: int| 0 <= t < rows0.len() ==> (#[trigger] rows0[t]).participation_id < pid0,
        forall|t: int| 0 <= t < crows0.len() ==> (#[trigger] crows0[t]).participation_id < pid0,
    ensures
        aggregate_spec(
            rows0 + submission_rows(start_time, end_time, es, gid, pid0),
            crows0 + submission_crows(es, pid0),
        ) == aggregate_spec(rows0, crows0).push(GameV { start_time, end_time, players: es }),
{
    let subr = submission_rows(start_time, end_time, es, gid, pid0);
    let subc = submission_crows(es, pid0);
    let rows1 = rows0 + subr;
    let crows1 = crows0 + subc;
    let fo0 = first_occurrences(row_ids(rows0));

    assert(row_ids(rows1) =~= row_ids(rows0) + row_ids(subr));
    assert forall|t: int| 0 <= t < row_ids(subr).len() implies #[trigger] row_ids(subr)[t]
        == gid by {
        assert(row_ids(subr)[t] == subr[t].game_id);
    }
    lemma_first_occurrences_append_constant(row_ids(rows0), row_ids(subr), gid);
    assert(first_occurrences(row_ids(rows1)) == fo0.push(gid));

    // The fresh game's group is exactly the submission.
    assert forall|t: int| 0 <= t < rows0.len() implies (#[trigger] rows0[t]).game_id != gid by {
        if rows0[t].game_id == gid {
            assert(row_ids(rows0)[t] == gid);
            assert(row_ids(rows0).contains(gid));
        }
    }
    lemma_rows_with_id_none(rows0, gid);
    lemma_rows_with_id_all(subr, gid);
    lemma_rows_with_id_add(rows0, subr, gid);
    assert(rows_with_id(rows1, gid) =~= subr);
    lemma_submission_crows_pids(es, pid0);
    assert forall|k: int| 0 <= k < es.len() implies commanders_of(crows1, pid0 + k) == (
    #[trigger] es[k]).commanders by {
        lemma_commanders_of_add(crows0, subc, pid0 + k);
        assert forall|t: int|
            0 <= t < crows0.len() implies (#[trigger] crows0[t]).participation_id != pid0 + k by {}
        lemma_commanders_of_none(crows0, pid0 + k);
        lemma_submission_crows_filter(es, pid0, k);
        assert(commanders_of(crows1, pid0 + k) =~= es[k].commanders);
    }
    let new_game = GameV { start_time, end_time, players: es };
    assert(game_group(rows1, crows1, gid) == new_game) by {
        assert(rows_with_id(rows1, gid) == subr);
        assert(subr[0].start_time == start_time);
        assert(subr[0].end_time == end_time);
        assert(subr.map_values(|r: RowV| row_player(crows1, r)) =~= es) by {
            assert forall|k: int|
                0 <= k < es.len() implies subr.map_values(|r: RowV| row_player(crows1, r))[k]
                =~= es[k] by {
                assert(subr[k].participation_id == pid0 + k);
                assert(subr[k].player_name == es[k].name);
                assert(subr[k].rank == es[k].rank);
                assert(commanders_of(crows1, pid0 + k) == es[k].commanders);
                assert(row_player(crows1, subr[k]) =~= es[k]);
                assert(subr.map_values(|r: RowV| row_player(crows1, r))[k] == row_player(
                    crows1,
                    subr[k],
                ));
            }
        }
        assert(game_group(rows1, crows1, gid) =~= new_game);
    }

    // Every previously aggregated game is untouched.
    assert forall|u: int|
        0 <= u < fo0.len() implies game_group(rows1, crows1, #[trigger] fo0[u]) == game_group(
        rows0,
        crows0,
        fo0[u],
    ) by {
        let id = fo0[u];
        assert(fo0.contains(id));
        lemma_first_occurrences_members(row_ids(rows0));
        assert(row_ids(rows0).contains(id));
        assert(id != gid);
        assert forall|t: int| 0 <= t < subr.len() implies (#[trigger] subr[t]).game_id != id by {}
        lemma_rows_with_id_none(subr, id);
        lemma_rows_with_id_add(rows0, subr, id);
        assert(rows_with_id(rows1, id) =~= rows_with_id(rows0, id));
        let grows = rows_with_id(rows0, id);
        lemma_rows_with_id_elements(rows0, id);
        assert forall|t: int|
            0 <= t < grows.len() implies row_player(crows1, #[trigger] grows[t]) == row_player(
            crows0,
            grows[t],
        ) by {
            assert(rows0.contains(grows[t]));
            let w = choose|w: int| 0 <= w < rows0.len() && rows0[w] == grows[t];
            assert(rows0[w].participation_id < pid0);
            let pid = grows[t].participation_id;
            lemma_commanders_of_add(crows0, subc, pid);
            assert forall|t2: int|
                0 <= t2 < subc.len() implies (#[trigger] subc[t2]).participation_id != pid by {}
            lemma_commanders_of_none(subc, pid);
            assert(commanders_of(crows1, pid) =~= commanders_of(crows0, pid));
            assert(row_player(crows1, grows[t]) =~= row_player(crows0, grows[t]));
        }
        assert(grows.map_values(|r: RowV| row_player(crows1, r)) =~= grows.map_values(
            |r: RowV| row_player(crows0, r),
        ));
        assert(game_group(rows1, crows1, id) =~= game_group(rows0, crows0, id));
    }

    assert(aggregate_spec(rows1, crows1) =~= aggregate_spec(rows0, crows0).push(new_game));
}

/// Every commander row a submission adds carries one of the freshly
/// assigned participation ids.
proof fn lemma_submission_crows_pids(es: Seq<EntryView>, pid0: int)
    ensures
        forall|t: int|
            0 <= t < submission_crows(es, pid0).len() ==> pid0 <= #[trigger] submission_crows(
                es,
                pid0,
            )[t].participation_id < pid0 + es.len(),
    decreases es.len(),
{
    if es.len() > 0 {
        lemma_submission_crows_pids(es.drop_last(), pid0);
        let pre = submission_crows(es.drop_last(), pid0);
        let tail = entry_crows(pid0 + es.len() - 1, es.last().commanders);
        assert forall|t: int|
            0 <= t < submission_crows(es, pid0).len() implies pid0 <= #[trigger] submission_crows(
            es,
            pid0,
        )[t].participation_id < pid0 + es.len() by {
            if t < pre.len() {
                assert(submission_crows(es, pid0)[t] == pre[t]);
            } else {
                assert(submission_crows(es, pid0)[t] == tail[t - pre.len()]);
            }
        }
    }
}

/// After a successful write the store is still well-formed: the fresh
/// game id and the fresh, consecutive participation ids collide with
/// nothing older, and every new row's foreign key points at a row
/// inserted in the same write.
proof fn lemma_store_wf_after_write(s0: GameStore, s1: GameStore, gid: int, pid0: int, n: int)
    requires
        s0.wf(),
        n >= 0,
        gid == s0.spec_next_game_id(),
        pid0 == s0.spec_next_participation_id(),
        s1.spec_next_game_id() == gid + 1,
        s1.spec_next_participation_id() == pid0 + n,
        s1.games_seq().len() == s0.games_seq().len() + 1,
        forall|t: int| 0 <= t < s0.games_seq().len() ==> #[trigger] s1.games_seq()[t]
            == s0.games_seq()[t],
        s1.games_seq().last().id == gid,
        s1.participations_seq().len() == s0.participations_seq().len() + n,
        forall|t: int|
            0 <= t < s0.participations_seq().len() ==> #[trigger] s1.participations_seq()[t]
                == s0.participations_seq()[t],
        forall|t: int|
            0 <= t < n ==> #[trigger] s1.participations_seq()[s0.participations_seq().len()
                + t].id as int == pid0 + t,
        forall|t: int|
            0 <= t < n ==> #[trigger] s1.participations_seq()[s0.participations_seq().len()
                + t].game_id as int == gid,
        s0.choices_seq().len() <= s1.choices_seq().len(),
        forall|t: int| 0 <= t < s0.choices_seq().len() ==> #[trigger] s1.choices_seq()[t]
            == s0.choices_seq()[t],
        forall|t: int|
            s0.choices_seq().len() <= t < s1.choices_seq().len() ==> pid0
                <= #[trigger] s1.choices_seq()[t].participation_id < pid0 + n,
    ensures
        s1.wf(),
{
    let g0 = s0.games_seq().len() as int;
    let p0 = s0.participations_seq().len() as int;
    assert forall|i: int|
        0 <= i < s1.games_seq().len() implies 0 <= #[trigger] s1.games_seq()[i].id
        < s1.spec_next_game_id() by {
        if i < g0 {
            assert(s1.games_seq()[i] == s0.games_seq()[i]);
        }
    }
    assert forall|i: int, j: int|
        0 <= i < j < s1.games_seq().len() implies #[trigger] s1.games_seq()[i].id
        != #[trigger] s1.games_seq()[j].id by {
        if j < g0 {
        } else {
            assert(s1.games_seq()[j].id == gid);
            assert(s1.games_seq()[i] == s0.games_seq()[i]);
        }
    }
    assert forall|i: int|
        0 <= i < s1.participations_seq().len() implies 0
        <= #[trigger] s1.participations_seq()[i].id < s1.spec_next_participation_id() by {
        if i < p0 {
            assert(s1.participations_seq()[i] == s0.participations_seq()[i]);
        } else {
            let t = i - p0;
            assert(s1.participations_seq()[p0 + t].id as int == pid0 + t);
        }
    }
    assert forall|i: int, j: int|
        0 <= i < j < s1.participations_seq().len() implies #[trigger] s1.participations_seq()[i].id
        != #[trigger] s1.participations_seq()[j].id by {
        if j < p0 {
        } else {
            let tj = j - p0;
            assert(s1.participations_seq()[p0 + tj].id as int == pid0 + tj);
            if i < p0 {
                assert(s1.participations_seq()[i] == s0.participations_seq()[i]);
            } else {
                let ti = i - p0;
                assert(s1.participations_seq()[p0 + ti].id as int == pid0 + ti);
            }
        }
    }
    assert forall|i: int|
        0 <= i < s1.participations_seq().len() implies has_game_with_id(
        s1.games_seq(),
        (#[trigger] s1.participations_seq()[i]).game_id as int,
    ) by {
        if i < p0 {
            assert(s1.participations_seq()[i] == s0.participations_seq()[i]);
            let g = choose|g: int|
                0 <= g < s0.games_seq().len() && (#[trigger] s0.games_seq()[g]).id
                    == s0.participations_seq()[i].game_id as int;
            assert(s1.games_seq()[g] == s0.games_seq()[g]);
        } else {
            let t = i - p0;
            assert(s1.participations_seq()[p0 + t].game_id as int == gid);
            let g = s1.games_seq().len() - 1;
            assert(s1.games_seq()[g].id == gid);
        }
    }
    assert forall|i: int|
        0 <= i < s1.choices_seq().len() implies has_participation_with_id(
        s1.participations_seq(),
        (#[trigger] s1.choices_seq()[i]).participation_id,
    ) by {
        if i < s0.choices_seq().len() {
            assert(s1.choices_seq()[i] == s0.choices_seq()[i]);
            let p = choose|p: int|
                0 <= p < s0.participations_seq().len() && (#[trigger] s0.participations_seq()[p]).id
                    == s0.choices_seq()[i].participation_id;
            assert(s1.participations_seq()[p] == s0.participations_seq()[p]);
        } else {
            let t = s1.choices_seq()[i].participation_id - pid0;
            assert(0 <= t < n);
            assert(s1.participations_seq()[p0 + t].id as int == pid0 + t);
        }
    }
}

} // verus!
