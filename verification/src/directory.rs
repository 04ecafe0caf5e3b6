//! The player directory: an append-only registry of known player names.
//!
//! Names are unique and case-sensitive; a record is never changed or
//! removed once created.  The directory here is the in-memory model of
//! the registry; the backing store enforces the same uniqueness with a
//! constraint, and `registration_response` turns the store's verdict into
//! the wire-level reply.

use vstd::prelude::*;

use crate::messages::PostResponse;

verus! {

/// One registered player.
pub struct PlayerRecord {
    pub id: i64,
    pub name: String,
}

/// The append-only registry of players.
pub struct PlayerDirectory {
    players: Vec<PlayerRecord>,
    next_id: i64,
}

/// What a persisted row set must satisfy to rebuild a directory: every
/// id is non-negative with room above it for fresh ids, and no name or
/// id occurs twice.
pub open spec fn rows_consistent(rows: Seq<(i64, String)>) -> bool {
    &&& forall|i: int| 0 <= i < rows.len() ==> 0 <= (#[trigger] rows[i]).0 < i64::MAX
    &&& forall|i: int, j: int|
        #![trigger rows[i], rows[j]]
        0 <= i < j < rows.len() ==> rows[i].1@ != rows[j].1@ && rows[i].0 != rows[j].0
}

/// Registration of a name that is already taken.
#[derive(Debug, PartialEq, Eq)]
pub enum RegisterError {
    AlreadyExists,
}

impl PlayerDirectory {
    /// The records, as the directory's abstract content.
    pub closed spec fn records(self) -> Seq<PlayerRecord> {
        self.players@
    }

    /// The registered names, in registration order.
    pub open spec fn names(self) -> Seq<Seq<char>> {
        self.records().map_values(|p: PlayerRecord| p.name@)
    }

    /// The id that the next successful registration will be given.
    pub closed spec fn spec_next_id(self) -> int {
        self.next_id as int
    }

    /// Whether `name` is registered.
    pub open spec fn has_name(self, name: Seq<char>) -> bool {
        exists|i: int| 0 <= i < self.records().len() && #[trigger] self.records()[i].name@ == name
    }

    /// Whether `name` is registered under `id`.
    pub open spec fn resolves(self, name: Seq<char>, id: int) -> bool {
        exists|i: int|
            0 <= i < self.records().len() && #[trigger] self.records()[i].name@ == name
                && self.records()[i].id == id
    }

    /// Well-formedness: names are unique, ids are unique and below the
    /// next id to be handed out.
    pub open spec fn wf(self) -> bool {
        &&& 0 <= self.spec_next_id()
        &&& forall|i: int, j: int|
            #![trigger self.records()[i], self.records()[j]]
            0 <= i < j < self.records().len() ==> self.records()[i].name@
                != self.records()[j].name@
        &&& forall|i: int, j: int|
            #![trigger self.records()[i], self.records()[j]]
            0 <= i < j < self.records().len() ==> self.records()[i].id != self.records()[j].id
        &&& forall|i: int|
            0 <= i < self.records().len() ==> 0 <= #[trigger] self.records()[i].id
                < self.spec_next_id()
    }

    /// An empty directory.
    pub fn new() -> (r: PlayerDirectory)
        ensures
            r.wf(),
            r.records() =~= Seq::<PlayerRecord>::empty(),
            r.spec_next_id() == 0,
    {
        PlayerDirectory { players: Vec::new(), next_id: 0 }
    }

    /// Registers a new player name; rejects a name that is already
    /// present and leaves the directory unchanged in that case.
    pub fn register(&mut self, name: String) -> (r: Result<i64, RegisterError>)
        requires
            old(self).wf(),
            old(self).spec_next_id() < i64::MAX,
        ensures
            final(self).wf(),
            (r matches Err(RegisterError::AlreadyExists)) <==> old(self).has_name(name@),
            r is Err ==> *final(self) == *old(self),
            r matches Ok(id) ==> {
                &&& !old(self).has_name(name@)
                &&& id == old(self).spec_next_id()
                &&& final(self).records() == old(self).records().push(
                    PlayerRecord { id, name },
                )
                &&& final(self).spec_next_id() == old(self).spec_next_id() + 1
            },
            r matches Ok(id) ==> final(self).names() =~= old(self).names().push(name@),
    {
        let n = self.players.len();
        let mut i: usize = 0;
        while i < n
            invariant
                n == self.players.len(),
                i <= n,
                forall|k: int| 0 <= k < i ==> #[trigger] self.players@[k].name@ != name@,
            decreases n - i,
        {
            if self.players[i].name == name {
                assert(self.records()[i as int].name@ == name@);
                return Err(RegisterError::AlreadyExists);
            }
            i = i + 1;
        }
        let id = self.next_id;
        self.players.push(PlayerRecord { id, name });
        self.next_id = self.next_id + 1;
        proof {
            let rs0 = old(self).records();
            let rs1 = self.records();
            assert(rs1 =~= rs0.push(rs1.last()));
            assert forall|a: int, b: int|
                0 <= a < b < rs1.len() implies rs1[a].name@ != rs1[b].name@ && rs1[a].id
                != rs1[b].id by {
                if b == rs0.len() {
                    assert(rs1[a] == rs0[a]);
                }
            }
        }
        Ok(id)
    }

    /// Looks a name up, returning the id it was registered under.
    pub fn lookup(&self, name: &String) -> (r: Option<i64>)
        ensures
            r is Some <==> self.has_name(name@),
            r matches Some(id) ==> self.resolves(name@, id as int),
    {
        let n = self.players.len();
        let mut i: usize = 0;
        while i < n
            invariant
                n == self.players.len(),
                i <= n,
                forall|k: int| 0 <= k < i ==> #[trigger] self.players@[k].name@ != name@,
            decreases n - i,
        {
            if self.players[i].name == *name {
                assert(self.records()[i as int].name@ == name@);
                return Some(self.players[i].id);
            }
            i = i + 1;
        }
        None
    }

    /// All registered names, in registration order.
    pub fn list(&self) -> (r: Vec<String>)
        ensures
            r@.map_values(|s: String| s@) =~= self.names(),
    {
        let n = self.players.len();
        let mut out: Vec<String> = Vec::new();
        let mut i: usize = 0;
        while i < n
            invariant
                n == self.players.len(),
                i <= n,
                out@.len() == i,
                forall|k: int| 0 <= k < i ==> #[trigger] out@[k]@ == self.players@[k].name@,
            decreases n - i,
        {
            out.push(self.players[i].name.clone());
            i = i + 1;
        }
        out
    }

    /// Rebuilds a directory from persisted `(id, name)` rows; succeeds
    /// exactly on a consistent row set and rejects one that breaks the
    /// registry's uniqueness guarantees.
    pub fn from_rows(rows: Vec<(i64, String)>) -> (r: Option<PlayerDirectory>)
        ensures
            r is Some <==> rows_consistent(rows@),
            r matches Some(d) ==> {
                &&& d.wf()
                &&& d.records().len() == rows@.len()
                &&& forall|i: int|
                    0 <= i < rows@.len() ==> #[trigger] d.records()[i].id == rows@[i].0
                        && d.records()[i].name@ == rows@[i].1@
            },
    {
        let n = rows.len();
        let mut players: Vec<PlayerRecord> = Vec::new();
        let mut max_id: i64 = -1;
        for idx in 0..n
            invariant
                n == rows.len(),
                players@.len() == idx,
                forall|i: int|
                    0 <= i < idx ==> #[trigger] players@[i].id == rows@[i].0
                        && players@[i].name@ == rows@[i].1@,
                forall|i: int, j: int|
                    #![trigger players@[i], players@[j]]
                    0 <= i < j < idx ==> players@[i].name@ != players@[j].name@,
                forall|i: int, j: int|
                    #![trigger players@[i], players@[j]]
                    0 <= i < j < idx ==> players@[i].id != players@[j].id,
                forall|i: int| 0 <= i < idx ==> 0 <= #[trigger] players@[i].id <= max_id,
                -1 <= max_id < i64::MAX,
        {
            let (id, name) = (rows[idx].0, rows[idx].1.clone());
            if id < 0 || id == i64::MAX {
                proof {
                    assert(!(0 <= rows@[idx as int].0 < i64::MAX));
                    assert(!rows_consistent(rows@));
                }
                return None;
            }
            let mut k: usize = 0;
            while k < idx
                invariant
                    idx < n,
                    n == rows.len(),
                    players@.len() == idx,
                    k <= idx,
                    forall|i: int|
                        0 <= i < idx ==> #[trigger] players@[i].id == rows@[i].0
                            && players@[i].name@ == rows@[i].1@,
                    forall|i: int|
                        0 <= i < k ==> #[trigger] players@[i].name@ != name@ && players@[i].id
                            != id,
                decreases idx - k,
            {
                if players[k].name == name || players[k].id == id {
                    proof {
                        assert(players@[k as int].id == rows@[k as int].0);
                        assert(players@[k as int].name@ == rows@[k as int].1@);
                        if players@[k as int].name@ == name@ {
                            assert(rows@[k as int].1@ == rows@[idx as int].1@);
                        } else {
                            assert(players@[k as int].id == id);
                            assert(rows@[k as int].0 == rows@[idx as int].0);
                        }
                        assert(!rows_consistent(rows@));
                    }
                    return None;
                }
                k = k + 1;
            }
            if id > max_id {
                max_id = id;
            }
            players.push(PlayerRecord { id, name });
        }
        proof {
            assert forall|i: int, j: int|
                #![trigger rows@[i], rows@[j]]
                0 <= i < j < rows@.len() implies rows@[i].1@ != rows@[j].1@ && rows@[i].0
                != rows@[j].0 by {
                assert(players@[i].id == rows@[i].0);
                assert(players@[i].name@ == rows@[i].1@);
                assert(players@[j].id == rows@[j].0);
                assert(players@[j].name@ == rows@[j].1@);
            }
            assert forall|i: int| 0 <= i < rows@.len() implies 0 <= (#[trigger] rows@[i]).0
                < i64::MAX by {
                assert(players@[i].id == rows@[i].0);
                assert(0 <= players@[i].id <= max_id);
            }
            assert(rows_consistent(rows@));
        }
        let next_id = if max_id == -1 {
            0
        } else {
            max_id + 1
        };
        Some(PlayerDirectory { players, next_id })
    }
}

/// Two racing registrations of the same new name resolve to exactly one
/// winner.  `d0` is a directory that does not know the name, `d1` the
/// directory after the first registration succeeded — which, by
/// `register`'s contract, appends exactly that one name.  Then the name
/// is present in `d1`, so by the same contract the second registration
/// returns `AlreadyExists` and leaves `d1` unchanged, and the name list
/// still holds no duplicate.
pub proof fn lemma_second_registration_loses(
    d0: PlayerDirectory,
    d1: PlayerDirectory,
    name: Seq<char>,
)
    requires
        d0.wf(),
        !d0.has_name(name),
        d1.names() == d0.names().push(name),
    ensures
        d1.has_name(name),
        d1.names().no_duplicates(),
{
    let n0 = d0.records().len() as int;
    assert(d1.names().len() == n0 + 1);
    assert(d1.records().len() == n0 + 1);
    assert(d1.records()[n0].name@ == name) by {
        assert(d1.names()[n0] == name);
    }
    assert forall|i: int, j: int| 0 <= i < j < d1.names().len() implies d1.names()[i]
        != d1.names()[j] by {
        if j < n0 {
            assert(d1.names()[i] == d0.names()[i]);
            assert(d1.names()[j] == d0.names()[j]);
            assert(d0.records()[i].name@ != d0.records()[j].name@);
        } else {
            assert(d1.names()[j] == name);
            assert(d1.names()[i] == d0.names()[i]);
            assert(d0.records()[i].name@ == d0.names()[i]);
            if d0.names()[i] == name {
                assert(d0.has_name(name));
            }
        }
    }
}

/// The store's verdict on an attempted registration, as classified by
/// the transport layer from the database's reply.
pub enum RegistrationOutcome {
    /// The row was inserted.
    Accepted,
    /// The uniqueness constraint on names turned the insert away.
    AlreadyExists,
    /// Any other storage failure, with the store's own description.
    Failure { detail: String },
}

/// Builds the wire-level reply for an attempted registration.
pub fn registration_response(outcome: RegistrationOutcome) -> (r: PostResponse)
    ensures
        (outcome matches RegistrationOutcome::Accepted) ==> r.success && r.error is None,
        (outcome matches RegistrationOutcome::AlreadyExists) ==> !r.success && (r.error
            matches Some(e) && e@ == "Player already exists"@),
        outcome matches RegistrationOutcome::Failure { detail } ==> !r.success && (r.error
            matches Some(e) && e == detail),
{
    match outcome {
        RegistrationOutcome::Accepted => PostResponse { success: true, error: None },
        RegistrationOutcome::AlreadyExists => PostResponse {
            success: false,
            error: Some(String::from_str("Player already exists")),
        },
        RegistrationOutcome::Failure { detail } => PostResponse {
            success: false,
            error: Some(detail),
        },
    }
}

/// Whether a database error code is the standard unique-violation code,
/// which signals a lost registration race rather than a storage fault.
pub fn is_unique_violation_code(code: &str) -> (r: bool)
    ensures
        r == (code@ == "23505"@),
{
    proof {
        reveal_strlit("23505");
    }
    if code.unicode_len() != 5 {
        return false;
    }
    let r = code.get_char(0) == '2' && code.get_char(1) == '3' && code.get_char(2) == '5'
        && code.get_char(3) == '0' && code.get_char(4) == '5';
    if r {
        assert(code@ =~= "23505"@);
    }
    r
}

} // verus!
