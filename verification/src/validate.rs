//! The ranking validator: decides whether a submitted game result is
//! internally consistent, and if not, with which precise reason.
//!
//! A result carries a time window and one entry per player, each entry
//! holding a name, a finishing rank and the commander cards played.  Rank
//! `0` denotes a draw and is only allowed when every entry holds it.  A
//! non-draw result must be densely ranked: ties share a rank value, the
//! next distinct rank continues right after the tied group, and no rank
//! value is skipped.  Equivalently, every rank present must equal one plus
//! the number of strictly lower ranks in the result, which is the form the
//! specifications below take.

use vstd::prelude::*;

use crate::messages::Player;

verus! {

/// Mathematical model of one submitted entry.
#[verifier::ext_equal]
pub ghost struct EntryView {
    pub name: Seq<char>,
    pub rank: int,
    pub commanders: Seq<Seq<char>>,
}

/// The model of a single wire-level entry.
pub open spec fn entry_view(p: Player) -> EntryView {
    EntryView {
        name: p.name@,
        rank: p.rank as int,
        commanders: p.commanders@.map_values(|c: String| c@),
    }
}

/// The model of a whole entry list.
pub open spec fn entry_views(ps: Seq<Player>) -> Seq<EntryView> {
    ps.map_values(|p: Player| entry_view(p))
}

/// At least two players take part.
pub open spec fn enough_players(es: Seq<EntryView>) -> bool {
    es.len() >= 2
}

/// No player name occurs twice among the entries.
pub open spec fn names_distinct(es: Seq<EntryView>) -> bool {
    forall|i: int, j: int| #![trigger es[i], es[j]] 0 <= i < j < es.len() ==> es[i].name != es[j].name
}

/// The game ends strictly after it starts.
pub open spec fn window_ok(start_time: int, end_time: int) -> bool {
    end_time > start_time
}

/// Every entry declares a draw.
pub open spec fn all_draw(es: Seq<EntryView>) -> bool {
    forall|i: int| #![trigger es[i]] 0 <= i < es.len() ==> es[i].rank == 0
}

/// No entry declares a draw.
pub open spec fn no_draw(es: Seq<EntryView>) -> bool {
    forall|i: int| #![trigger es[i]] 0 <= i < es.len() ==> es[i].rank != 0
}

/// Every rank lies in `[1, N]` where `N` is the number of entries.
pub open spec fn ranks_in_bounds(es: Seq<EntryView>) -> bool {
    forall|i: int| #![trigger es[i]] 0 <= i < es.len() ==> 1 <= es[i].rank <= es.len()
}

/// Every entry claims first place.
pub open spec fn all_first(es: Seq<EntryView>) -> bool {
    forall|i: int| #![trigger es[i]] 0 <= i < es.len() ==> es[i].rank == 1
}

/// How many entries hold a rank strictly below `v`.
pub open spec fn ranks_below(es: Seq<EntryView>, v: int) -> int
    decreases es.len(),
{
    if es.len() == 0 {
        0
    } else {
        ranks_below(es.drop_last(), v) + if es.last().rank < v {
            1int
        } else {
            0int
        }
    }
}

/// Dense ranking at one entry: its rank continues directly after the
/// group of strictly lower ranks.
pub open spec fn dense_at(es: Seq<EntryView>, i: int) -> bool {
    es[i].rank == 1 + ranks_below(es, es[i].rank)
}

/// Dense ranking for the whole result: ties share a value, no value is
/// skipped.
pub open spec fn dense_ranking(es: Seq<EntryView>) -> bool {
    forall|i: int| 0 <= i < es.len() ==> #[trigger] dense_at(es, i)
}

/// The ranks form a legal outcome: either a full draw, or a dense
/// non-draw ranking that is not everybody tied for first.
pub open spec fn ranks_valid(es: Seq<EntryView>) -> bool {
    all_draw(es) || (no_draw(es) && ranks_in_bounds(es) && !all_first(es) && dense_ranking(es))
}

/// One entry's commander list is well-formed: non-empty, no empty name.
pub open spec fn commanders_ok_at(e: EntryView) -> bool {
    &&& e.commanders.len() > 0
    &&& forall|j: int| #![trigger e.commanders[j]] 0 <= j < e.commanders.len() ==> e.commanders[j].len() > 0
}

/// Every entry's commander list is well-formed.
pub open spec fn commanders_ok(es: Seq<EntryView>) -> bool {
    forall|i: int| 0 <= i < es.len() ==> #[trigger] commanders_ok_at(es[i])
}

/// The whole acceptance condition of the ranking validator.
pub open spec fn valid_result(start_time: int, end_time: int, es: Seq<EntryView>) -> bool {
    &&& enough_players(es)
    &&& names_distinct(es)
    &&& window_ok(start_time, end_time)
    &&& ranks_valid(es)
    &&& commanders_ok(es)
}

/// The ranks of the entries, in entry order.
pub open spec fn ranks_of(es: Seq<EntryView>) -> Seq<int> {
    es.map_values(|e: EntryView| e.rank)
}

/// How many values of the sequence lie strictly below `v`.
pub open spec fn ints_below(rs: Seq<int>, v: int) -> int
    decreases rs.len(),
{
    if rs.len() == 0 {
        0
    } else {
        ints_below(rs.drop_last(), v) + if rs.last() < v {
            1int
        } else {
            0int
        }
    }
}

/// The sequence never decreases.
pub open spec fn sorted_ascending(rs: Seq<int>) -> bool {
    forall|i: int, j: int| #![trigger rs[i], rs[j]] 0 <= i <= j < rs.len() ==> rs[i] <= rs[j]
}

/// The pairwise scan over a rank sequence in ascending order: the first
/// rank is 1, and every later rank either ties the one before it or
/// equals its own one-based position.
pub open spec fn scan_ok(rs: Seq<int>) -> bool {
    &&& rs[0] == 1
    &&& forall|i: int| 1 <= i < rs.len() ==> #[trigger] rs[i] == i + 1 || rs[i] == rs[i - 1]
}

/// Counting below `v` looks through one removed position.
proof fn lemma_ints_below_remove(rs: Seq<int>, i: int, v: int)
    requires
        0 <= i < rs.len(),
    ensures
        ints_below(rs, v) == ints_below(rs.remove(i), v) + if rs[i] < v {
            1int
        } else {
            0int
        },
    decreases rs.len(),
{
    if i == rs.len() - 1 {
        assert(rs.remove(i) =~= rs.drop_last());
    } else {
        assert(rs.remove(i).drop_last() =~= rs.drop_last().remove(i));
        assert(rs.remove(i).last() == rs.last());
        lemma_ints_below_remove(rs.drop_last(), i, v);
    }
}

/// Counting below `v` depends only on which values occur how often,
/// not on their order.
proof fn lemma_ints_below_permutation(a: Seq<int>, b: Seq<int>, v: int)
    requires
        a.to_multiset() == b.to_multiset(),
    ensures
        ints_below(a, v) == ints_below(b, v),
    decreases a.len(),
{
    broadcast use vstd::seq_lib::group_to_multiset_ensures;

    if a.len() == 0 {
        assert(a.to_multiset().len() == 0);
        assert(b.to_multiset().len() == b.len());
        assert(b.len() == 0);
    } else {
        let x = a.last();
        let a2 = a.drop_last();
        assert(a =~= a2.push(x));
        assert(a.to_multiset() =~= a2.to_multiset().insert(x));
        assert(b.to_multiset().count(x) > 0);
        assert(b.contains(x));
        let idx = choose|i: int| 0 <= i < b.len() && b[i] == x;
        let b2 = b.remove(idx);
        assert(b2.to_multiset() =~= b.to_multiset().remove(x));
        assert(a2.to_multiset() =~= b2.to_multiset());
        lemma_ints_below_permutation(a2, b2, v);
        lemma_ints_below_remove(b, idx, v);
    }
}

/// Counting from the model entries equals counting from the bare
/// ranks.
proof fn lemma_ranks_below_is_ints_below(es: Seq<EntryView>, v: int)
    ensures
        ranks_below(es, v) == ints_below(ranks_of(es), v),
    decreases es.len(),
{
    if es.len() > 0 {
        assert(ranks_of(es).drop_last() =~= ranks_of(es.drop_last()));
        assert(ranks_of(es).last() == es.last().rank);
        lemma_ranks_below_is_ints_below(es.drop_last(), v);
    }
}

/// Where everything before position `i` lies below `v` and everything
/// from `i` on does not, exactly `i` values lie below `v`.
proof fn lemma_ints_below_split(rs: Seq<int>, v: int, i: int)
    requires
        0 <= i <= rs.len(),
        forall|j: int| 0 <= j < i ==> #[trigger] rs[j] < v,
        forall|j: int| i <= j < rs.len() ==> #[trigger] rs[j] >= v,
    ensures
        ints_below(rs, v) == i,
    decreases rs.len(),
{
    if rs.len() > 0 {
        let rs2 = rs.drop_last();
        if i == rs.len() {
            lemma_ints_below_split(rs2, v, i - 1);
        } else {
            lemma_ints_below_split(rs2, v, i);
        }
    }
}

/// In a sorted rank sequence that passes the scan, every rank continues
/// directly after the group of strictly lower ranks.
proof fn lemma_scan_gives_dense_at(ss: Seq<int>, j: int)
    requires
        sorted_ascending(ss),
        scan_ok(ss),
        0 <= j < ss.len(),
    ensures
        ss[j] == 1 + ints_below(ss, ss[j]),
    decreases j,
{
    if j == 0 {
        lemma_ints_below_split(ss, ss[0], 0);
    } else if ss[j] == ss[j - 1] {
        lemma_scan_gives_dense_at(ss, j - 1);
        lemma_ints_below_permutation(ss, ss, ss[j]);
    } else {
        assert(ss[j] == j + 1);
        assert forall|k: int| 0 <= k < j implies #[trigger] ss[k] < ss[j] by {
            assert(ss[k] <= ss[j - 1]);
        }
        lemma_ints_below_split(ss, ss[j], j);
    }
}

/// The dense-ranking rule coincides with the pairwise scan over the
/// ranks taken in ascending order: the lowest rank must be 1, and every
/// later sorted rank either ties the rank before it or equals its own
/// one-based position.  `ss` is any ascending rearrangement of the
/// entries' ranks.
pub proof fn lemma_dense_ranking_is_sorted_scan(es: Seq<EntryView>, ss: Seq<int>)
    requires
        es.len() > 0,
        ss.to_multiset() == ranks_of(es).to_multiset(),
        sorted_ascending(ss),
    ensures
        dense_ranking(es) <==> scan_ok(ss),
{
    broadcast use vstd::seq_lib::group_to_multiset_ensures;

    let rs = ranks_of(es);
    assert(ss.to_multiset().len() == ss.len());
    assert(rs.to_multiset().len() == rs.len());
    assert(ss.len() == es.len());
    assert forall|v: int| ss.contains(v) implies rs.contains(v) by {
        assert(ss.to_multiset().count(v) > 0);
    }
    assert forall|v: int| rs.contains(v) implies ss.contains(v) by {
        assert(rs.to_multiset().count(v) > 0);
    }

    if dense_ranking(es) {
        assert(ss[0] == 1) by {
            assert(ss.contains(ss[0]));
            let w = choose|w: int| 0 <= w < rs.len() && rs[w] == ss[0];
            assert(dense_at(es, w));
            lemma_ranks_below_is_ints_below(es, ss[0]);
            lemma_ints_below_permutation(rs, ss, ss[0]);
            lemma_ints_below_split(ss, ss[0], 0);
        }
        assert forall|i: int| 1 <= i < ss.len() implies #[trigger] ss[i] == i + 1 || ss[i] == ss[i
            - 1] by {
            if ss[i] != ss[i - 1] {
                assert(ss.contains(ss[i]));
                let w = choose|w: int| 0 <= w < rs.len() && rs[w] == ss[i];
                assert(dense_at(es, w));
                lemma_ranks_below_is_ints_below(es, ss[i]);
                lemma_ints_below_permutation(rs, ss, ss[i]);
                assert forall|k: int| 0 <= k < i implies #[trigger] ss[k] < ss[i] by {
                    assert(ss[k] <= ss[i - 1]);
                    assert(ss[i - 1] <= ss[i]);
                }
                lemma_ints_below_split(ss, ss[i], i);
            }
        }
    }

    if scan_ok(ss) {
        assert forall|w: int| 0 <= w < es.len() implies #[trigger] dense_at(es, w) by {
            let v = es[w].rank;
            assert(rs[w] == v);
            assert(rs.contains(v));
            assert(ss.contains(v));
            let j = choose|j: int| 0 <= j < ss.len() && ss[j] == v;
            lemma_scan_gives_dense_at(ss, j);
            lemma_ints_below_permutation(ss, rs, v);
            lemma_ranks_below_is_ints_below(es, v);
        }
    }
}

/// The decimal digit character for one value below ten.
pub open spec fn dec_digit(d: int) -> char {
    if d == 0 {
        '0'
    } else if d == 1 {
        '1'
    } else if d == 2 {
        '2'
    } else if d == 3 {
        '3'
    } else if d == 4 {
        '4'
    } else if d == 5 {
        '5'
    } else if d == 6 {
        '6'
    } else if d == 7 {
        '7'
    } else if d == 8 {
        '8'
    } else {
        '9'
    }
}

/// The decimal rendering of a non-negative integer.
pub open spec fn dec_str(n: int) -> Seq<char>
    decreases n,
{
    if n < 10 {
        seq![dec_digit(n)]
    } else {
        dec_str(n / 10).push(dec_digit(n % 10))
    }
}

/// One decimal digit as text.
fn digit_str(d: usize) -> (r: &'static str)
    requires
        d < 10,
    ensures
        r@ == seq![dec_digit(d as int)],
{
    proof {
        reveal_strlit("0");
        reveal_strlit("1");
        reveal_strlit("2");
        reveal_strlit("3");
        reveal_strlit("4");
        reveal_strlit("5");
        reveal_strlit("6");
        reveal_strlit("7");
        reveal_strlit("8");
        reveal_strlit("9");
    }
    match d {
        0 => "0",
        1 => "1",
        2 => "2",
        3 => "3",
        4 => "4",
        5 => "5",
        6 => "6",
        7 => "7",
        8 => "8",
        _ => "9",
    }
}

/// Appends the decimal rendering of `n`.
fn push_decimal(n: usize, out: &mut String)
    ensures
        final(out)@ == old(out)@ + dec_str(n as int),
    decreases n,
{
    if n >= 10 {
        push_decimal(n / 10, out);
        out.append(digit_str(n % 10));
        proof {
            assert(n as int / 10 == (n / 10) as int);
            assert(n as int % 10 == (n % 10) as int);
            assert(dec_str(n as int) =~= dec_str(n as int / 10) + seq![dec_digit(n as int % 10)]);
            assert(final(out)@ =~= old(out)@ + dec_str(n as int));
        }
    } else {
        out.append(digit_str(n));
        assert(final(out)@ =~= old(out)@ + dec_str(n as int));
    }
}

/// The decimal rendering of `n`.
fn decimal_string(n: usize) -> (r: String)
    ensures
        r@ == dec_str(n as int),
{
    let mut out = String::new();
    push_decimal(n, &mut out);
    proof {
        assert(Seq::<char>::empty() + dec_str(n as int) =~= dec_str(n as int));
    }
    out
}

/// Why a submitted result was turned away.  Validation rejections are
/// client-caused and deliberately distinct from persistence failures.
#[derive(Debug)]
pub enum Rejection {
    /// Fewer than two entries.
    TooFewPlayers,
    /// The same player name occurs twice.
    DuplicatePlayer,
    /// The end of the time window does not lie after its start.
    EndNotAfterStart,
    /// Some but not all entries declare a draw.
    PartialDraw,
    /// A rank lies outside `[1, N]`.
    RankOutOfBounds { player_name: String, rank: usize },
    /// Every entry claims first place in a non-draw result.
    AllTiedForFirst,
    /// A rank skips over unused values.
    RankGap { player_name: String, rank: usize, expected: usize },
    /// An entry has an empty commander list.
    NoCommanders { player_name: String },
    /// An entry names a commander with the empty string.
    EmptyCommanderName { player_name: String },
}

impl Rejection {
    /// The human-readable reason reported to the submitting client.
    pub fn message(&self) -> (r: String)
        ensures
            (self matches Rejection::TooFewPlayers) ==> r@ == "too few players."@,
            (self matches Rejection::DuplicatePlayer) ==> r@ == "duplicate player."@,
            (self matches Rejection::EndNotAfterStart) ==> r@ == "end not after start."@,
            (self matches Rejection::PartialDraw) ==> r@ == "partial draw not allowed."@,
            self matches Rejection::RankOutOfBounds { player_name, .. } ==> r@
                == "rank out of bounds for player "@ + player_name@ + "."@,
            (self matches Rejection::AllTiedForFirst) ==> r@
                == "all tied for first is not a valid non-draw result; use draw."@,
            self matches Rejection::RankGap { player_name, rank, expected } ==> r@
                == "invalid rank "@ + dec_str(rank as int) + " for player "@ + player_name@
                + ": expected "@ + dec_str(expected as int) + " or a tie with a lower rank."@,
            self matches Rejection::NoCommanders { player_name } ==> r@ == "player "@
                + player_name@ + " has no commanders."@,
            self matches Rejection::EmptyCommanderName { player_name } ==> r@ == "player "@
                + player_name@ + " has an empty commander name."@,
    {
        match self {
            Rejection::TooFewPlayers => String::from_str("too few players."),
            Rejection::DuplicatePlayer => String::from_str("duplicate player."),
            Rejection::EndNotAfterStart => String::from_str("end not after start."),
            Rejection::PartialDraw => String::from_str("partial draw not allowed."),
            Rejection::RankOutOfBounds { player_name, .. } => {
                let mut s = String::from_str("rank out of bounds for player ");
                s.append(player_name.as_str());
                s.append(".");
                s
            },
            Rejection::AllTiedForFirst => String::from_str(
                "all tied for first is not a valid non-draw result; use draw.",
            ),
            Rejection::RankGap { player_name, rank, expected } => {
                let mut s = String::from_str("invalid rank ");
                s.append(decimal_string(*rank).as_str());
                s.append(" for player ");
                s.append(player_name.as_str());
                s.append(": expected ");
                s.append(decimal_string(*expected).as_str());
                s.append(" or a tie with a lower rank.");
                s
            },
            Rejection::NoCommanders { player_name } => {
                let mut s = String::from_str("player ");
                s.append(player_name.as_str());
                s.append(" has no commanders.");
                s
            },
            Rejection::EmptyCommanderName { player_name } => {
                let mut s = String::from_str("player ");
                s.append(player_name.as_str());
                s.append(" has an empty commander name.");
                s
            },
        }
    }
}

/// True when some player name occurs twice among the entries.
fn has_duplicate_name(players: &Vec<Player>) -> (r: bool)
    ensures
        r == !names_distinct(entry_views(players@)),
{
    let ghost es = entry_views(players@);
    let n = players.len();
    let mut i: usize = 0;
    while i < n
        invariant
            n == players.len(),
            es == entry_views(players@),
            i <= n,
            forall|a: int, b: int| #![trigger es[a], es[b]] 0 <= a < b < es.len() && a < i ==> es[a].name != es[b].name,
        decreases n - i,
    {
        let mut j: usize = i + 1;
        while j < n
            invariant
                n == players.len(),
                es == entry_views(players@),
                i < j <= n,
                forall|b: int| #![trigger es[b]] i < b < j ==> es[i as int].name != es[b].name,
            decreases n - j,
        {
            if players[i].name == players[j].name {
                assert(es[i as int].name == es[j as int].name);
                return true;
            }
            j = j + 1;
        }
        i = i + 1;
    }
    false
}

/// Counts the entries that declare a draw (rank `0`).
fn count_draws(players: &Vec<Player>) -> (r: usize)
    ensures
        r as int == ranks_below(entry_views(players@), 1),
        all_draw(entry_views(players@)) <==> r == players.len(),
        (r == 0) <==> no_draw(entry_views(players@)),
{
    let ghost es = entry_views(players@);
    let n = players.len();
    let mut count: usize = 0;
    let mut i: usize = 0;
    while i < n
        invariant
            n == players.len(),
            es == entry_views(players@),
            i <= n,
            count as int == ranks_below(es.take(i as int), 1),
            count <= i,
            (count == i) <==> (forall|k: int| #![trigger es[k]] 0 <= k < i ==> es[k].rank == 0),
            (count == 0) <==> (forall|k: int| #![trigger es[k]] 0 <= k < i ==> es[k].rank != 0),
        decreases n - i,
    {
        proof {
            assert(es.take(i + 1).drop_last() =~= es.take(i as int));
            assert(es.take(i + 1).last() == es[i as int]);
        }
        if players[i].rank == 0 {
            assert(es[i as int].rank == 0);
            count = count + 1;
        } else {
            assert(es[i as int].rank != 0);
        }
        i = i + 1;
    }
    proof {
        assert(es.take(n as int) =~= es);
    }
    count
}

/// Finds the first entry whose rank lies outside `[1, N]`, if any.
fn find_rank_out_of_bounds(players: &Vec<Player>) -> (r: Option<usize>)
    ensures
        r is None <==> ranks_in_bounds(entry_views(players@)),
        r matches Some(i) ==> i < players.len() && !(1 <= players@[i as int].rank
            <= players.len()),
{
    let ghost es = entry_views(players@);
    let n = players.len();
    let mut i: usize = 0;
    while i < n
        invariant
            n == players.len(),
            es == entry_views(players@),
            i <= n,
            forall|k: int| #![trigger es[k]] 0 <= k < i ==> 1 <= es[k].rank <= n,
        decreases n - i,
    {
        let rank = players[i].rank;
        if rank < 1 || rank > n {
            assert(!(1 <= es[i as int].rank <= es.len()));
            return Some(i);
        }
        i = i + 1;
    }
    None
}

/// True when every entry claims first place.
fn all_ranked_first(players: &Vec<Player>) -> (r: bool)
    ensures
        r == all_first(entry_views(players@)),
{
    let ghost es = entry_views(players@);
    let n = players.len();
    let mut i: usize = 0;
    while i < n
        invariant
            n == players.len(),
            es == entry_views(players@),
            i <= n,
            forall|k: int| #![trigger es[k]] 0 <= k < i ==> es[k].rank == 1,
        decreases n - i,
    {
        if players[i].rank != 1 {
            assert(es[i as int].rank != 1);
            return false;
        }
        i = i + 1;
    }
    true
}

proof fn lemma_ranks_below_bound(es: Seq<EntryView>, v: int)
    ensures
        0 <= ranks_below(es, v) <= es.len(),
    decreases es.len(),
{
    if es.len() > 0 {
        lemma_ranks_below_bound(es.drop_last(), v);
    }
}

/// An entry whose own rank is `v` never counts towards `ranks_below(es, v)`,
/// so the count stays strictly under the number of entries.
proof fn lemma_ranks_below_skip(es: Seq<EntryView>, v: int, i: int)
    requires
        0 <= i < es.len(),
        !(es[i].rank < v),
    ensures
        ranks_below(es, v) < es.len(),
    decreases es.len(),
{
    lemma_ranks_below_bound(es.drop_last(), v);
    if i == es.len() - 1 {
    } else {
        lemma_ranks_below_skip(es.drop_last(), v, i);
    }
}

/// Counts the entries with a rank strictly below `v`.
fn count_ranks_below(players: &Vec<Player>, v: usize) -> (r: usize)
    ensures
        r as int == ranks_below(entry_views(players@), v as int),
{
    let ghost es = entry_views(players@);
    let n = players.len();
    let mut count: usize = 0;
    let mut i: usize = 0;
    while i < n
        invariant
            n == players.len(),
            es == entry_views(players@),
            i <= n,
            count as int == ranks_below(es.take(i as int), v as int),
            count <= i,
        decreases n - i,
    {
        proof {
            assert(es.take(i + 1).drop_last() =~= es.take(i as int));
            assert(es.take(i + 1).last() == es[i as int]);
        }
        if players[i].rank < v {
            assert(es[i as int].rank < v);
            count = count + 1;
        } else {
            assert(!(es[i as int].rank < v));
        }
        i = i + 1;
    }
    proof {
        assert(es.take(n as int) =~= es);
    }
    count
}

/// Finds the first entry whose rank breaks the dense-ranking rule, and
/// the rank that its group should have carried instead.
fn find_rank_gap(players: &Vec<Player>) -> (r: Option<(usize, usize)>)
    ensures
        r is None <==> dense_ranking(entry_views(players@)),
        r matches Some((i, expected)) ==> {
            let es = entry_views(players@);
            &&& i < players.len()
            &&& !dense_at(es, i as int)
            &&& expected as int == 1 + ranks_below(es, es[i as int].rank)
        },
{
    let ghost es = entry_views(players@);
    let n = players.len();
    let mut i: usize = 0;
    while i < n
        invariant
            n == players.len(),
            es == entry_views(players@),
            i <= n,
            forall|k: int| 0 <= k < i ==> #[trigger] dense_at(es, k),
        decreases n - i,
    {
        let rank = players[i].rank;
        let below = count_ranks_below(players, rank);
        proof {
            lemma_ranks_below_skip(es, rank as int, i as int);
        }
        let expected = below + 1;
        if rank != expected {
            assert(!dense_at(es, i as int));
            return Some((i, expected));
        }
        assert(dense_at(es, i as int));
        i = i + 1;
    }
    None
}

/// Finds the first entry whose commander list is empty or contains an
/// empty name; reports which of the two failures applies.
fn find_commander_fault(players: &Vec<Player>) -> (r: Option<(usize, bool)>)
    ensures
        r is None <==> commanders_ok(entry_views(players@)),
        r matches Some((i, empty_list)) ==> {
            let es = entry_views(players@);
            &&& i < players.len()
            &&& !commanders_ok_at(es[i as int])
            &&& empty_list == (es[i as int].commanders.len() == 0)
        },
{
    let ghost es = entry_views(players@);
    let n = players.len();
    let mut i: usize = 0;
    while i < n
        invariant
            n == players.len(),
            es == entry_views(players@),
            i <= n,
            forall|k: int| 0 <= k < i ==> #[trigger] commanders_ok_at(es[k]),
        decreases n - i,
    {
        let m = players[i].commanders.len();
        if m == 0 {
            assert(es[i as int].commanders.len() == 0);
            assert(!commanders_ok_at(es[i as int]));
            return Some((i, true));
        }
        let mut j: usize = 0;
        while j < m
            invariant
                n == players.len(),
                es == entry_views(players@),
                i < n,
                m == players@[i as int].commanders.len(),
                j <= m,
                forall|k: int| #![trigger es[i as int].commanders[k]] 0 <= k < j ==> es[i as int].commanders[k].len() > 0,
            decreases m - j,
        {
            if players[i].commanders[j].as_str().is_empty() {
                assert(es[i as int].commanders[j as int].len() == 0);
                assert(!commanders_ok_at(es[i as int]));
                return Some((i, false));
            }
            assert(es[i as int].commanders[j as int].len() > 0);
            j = j + 1;
        }
        assert(commanders_ok_at(es[i as int]));
        i = i + 1;
    }
    None
}

/// Decides whether a candidate result is acceptable, and if not returns
/// the first failing check's rejection, in the fixed order: player count,
/// duplicate names, time window, draw consistency, rank bounds, everybody
/// tied for first, dense ranking, commander lists.
pub fn validate(start_time: i64, end_time: i64, players: &Vec<Player>) -> (r: Result<
    (),
    Rejection,
>)
    ensures
        r is Ok <==> valid_result(start_time as int, end_time as int, entry_views(players@)),
        (r matches Err(Rejection::TooFewPlayers)) <==> !enough_players(entry_views(players@)),
        (r matches Err(Rejection::DuplicatePlayer)) <==> (enough_players(entry_views(players@))
            && !names_distinct(entry_views(players@))),
        (r matches Err(Rejection::EndNotAfterStart)) <==> (enough_players(entry_views(players@))
            && names_distinct(entry_views(players@)) && !window_ok(
            start_time as int,
            end_time as int,
        )),
        (r matches Err(Rejection::PartialDraw)) <==> (enough_players(entry_views(players@))
            && names_distinct(entry_views(players@)) && window_ok(
            start_time as int,
            end_time as int,
        ) && !all_draw(entry_views(players@)) && !no_draw(entry_views(players@))),
        (r matches Err(Rejection::RankOutOfBounds { .. })) <==> (enough_players(
            entry_views(players@),
        ) && names_distinct(entry_views(players@)) && window_ok(start_time as int, end_time as int)
            && no_draw(entry_views(players@)) && !ranks_in_bounds(entry_views(players@))),
        r matches Err(Rejection::RankOutOfBounds { player_name, rank }) ==> exists|i: int|
            0 <= i < players@.len() && players@[i].name@ == player_name@ && players@[i].rank == rank
                && !(1 <= rank <= players@.len()),
        (r matches Err(Rejection::AllTiedForFirst)) <==> (enough_players(entry_views(players@))
            && names_distinct(entry_views(players@)) && window_ok(start_time as int, end_time as int)
            && no_draw(entry_views(players@)) && ranks_in_bounds(entry_views(players@)) && all_first(
            entry_views(players@),
        )),
        (r matches Err(Rejection::RankGap { .. })) <==> (enough_players(entry_views(players@))
            && names_distinct(entry_views(players@)) && window_ok(start_time as int, end_time as int)
            && no_draw(entry_views(players@)) && ranks_in_bounds(entry_views(players@)) && !all_first(
            entry_views(players@),
        ) && !dense_ranking(entry_views(players@))),
        r matches Err(Rejection::RankGap { player_name, rank, expected }) ==> exists|i: int|
            0 <= i < players@.len() && players@[i].name@ == player_name@ && players@[i].rank == rank
                && expected as int == 1 + ranks_below(entry_views(players@), rank as int) && rank
                != expected,
        ((r matches Err(Rejection::NoCommanders { .. })) || (r matches Err(
            Rejection::EmptyCommanderName { .. },
        ))) <==> (enough_players(entry_views(players@)) && names_distinct(entry_views(players@))
            && window_ok(start_time as int, end_time as int) && ranks_valid(entry_views(players@))
            && !commanders_ok(entry_views(players@))),
        r matches Err(Rejection::NoCommanders { player_name }) ==> exists|i: int|
            0 <= i < players@.len() && players@[i].name@ == player_name@
                && players@[i].commanders@.len() == 0,
        r matches Err(Rejection::EmptyCommanderName { player_name }) ==> exists|i: int|
            0 <= i < players@.len() && players@[i].name@ == player_name@ && exists|j: int|
                0 <= j < players@[i].commanders@.len() && players@[i].commanders@[j]@.len() == 0,
{
    let ghost es = entry_views(players@);
    let n = players.len();
    if n < 2 {
        return Err(Rejection::TooFewPlayers);
    }
    if has_duplicate_name(players) {
        return Err(Rejection::DuplicatePlayer);
    }
    if end_time <= start_time {
        return Err(Rejection::EndNotAfterStart);
    }
    let draws = count_draws(players);
    if draws == n {
        // A full draw: no further rank checks apply.
    } else {
        if draws != 0 {
            assert(!all_draw(es) && !no_draw(es));
            return Err(Rejection::PartialDraw);
        }
        if let Some(i) = find_rank_out_of_bounds(players) {
            return Err(
                Rejection::RankOutOfBounds {
                    player_name: players[i].name.clone(),
                    rank: players[i].rank,
                },
            );
        }
        if all_ranked_first(players) {
            return Err(Rejection::AllTiedForFirst);
        }
        if let Some((i, expected)) = find_rank_gap(players) {
            return Err(
                Rejection::RankGap {
                    player_name: players[i].name.clone(),
                    rank: players[i].rank,
                    expected,
                },
            );
        }
    }
    assert(ranks_valid(es));
    if let Some((i, empty_list)) = find_commander_fault(players) {
        if empty_list {
            return Err(Rejection::NoCommanders { player_name: players[i].name.clone() });
        } else {
            return Err(Rejection::EmptyCommanderName { player_name: players[i].name.clone() });
        }
    }
    Ok(())
}

} // verus!
