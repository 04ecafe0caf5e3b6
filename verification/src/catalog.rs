//! The commander catalog filter: turns a raw card dataset into the
//! sorted, deduplicated list of names that may be chosen as a commander.
//!
//! A card qualifies when it is legal in the target format, exists in a
//! paper printing, is not the part of a meld pair that merely names its
//! combined result, and — after resolving multi-face cards to their
//! first face — is a legendary creature, a background, a fixed
//! exception, or carries the rules text that grants commander
//! eligibility.  The first occurrence of a name wins; the output is
//! sorted lexicographically.

use vstd::prelude::*;

verus! {

/// One related part of a card (for example a meld pair's result).
pub struct CardPart {
    pub component: String,
    pub name: String,
}

/// One face of a multi-face card.
pub struct CardFace {
    pub name: String,
    pub type_line: Option<String>,
}

/// One card record of the external dataset, reduced to the fields the
/// filter reads.  Absent optional fields are a normal case.
pub struct Card {
    pub name: String,
    pub type_line: Option<String>,
    pub commander_legality: String,
    pub games: Vec<String>,
    pub oracle_text: Option<String>,
    pub all_parts: Option<Vec<CardPart>>,
    pub card_faces: Option<Vec<CardFace>>,
}

/// Whether `needle` occurs contiguously inside `hay`.
pub open spec fn contains_seq(hay: Seq<char>, needle: Seq<char>) -> bool {
    exists|i: int|
        0 <= i <= hay.len() - needle.len() && #[trigger] hay.subrange(i, i + needle.len())
            == needle
}

/// Lexicographic order on character sequences, by code point.
pub open spec fn char_seq_le(a: Seq<char>, b: Seq<char>) -> bool
    decreases a.len(),
{
    if a.len() == 0 {
        true
    } else if b.len() == 0 {
        false
    } else if a[0] == b[0] {
        char_seq_le(a.drop_first(), b.drop_first())
    } else {
        (a[0] as int) < (b[0] as int)
    }
}

/// Position `w` holds the first meld-result part of the list.
pub open spec fn is_first_meld_result(ps: Seq<CardPart>, w: int) -> bool {
    &&& 0 <= w < ps.len()
    &&& ps[w].component@ == "meld_result"@
    &&& forall|t: int| 0 <= t < w ==> #[trigger] ps[t].component@ != "meld_result"@
}

/// The card is one part of a meld pair and carries the name of the
/// meld's combined result, so it cannot itself be chosen.
pub open spec fn meld_result_duplicate(c: Card) -> bool {
    c.all_parts matches Some(parts) && exists|w: int|
        #[trigger] is_first_meld_result(parts@, w) && parts@[w].name@ == c.name@
}

/// Whether the card has at least one alternate face to resolve to.
pub open spec fn has_faces(c: Card) -> bool {
    c.card_faces matches Some(faces) && faces@.len() > 0
}

/// The name the card is listed under: its first face's name where faces
/// exist, else its own.
pub open spec fn effective_name(c: Card) -> Seq<char> {
    if has_faces(c) {
        c.card_faces->0[0].name@
    } else {
        c.name@
    }
}

/// The type classification consulted for the card: the first face's own
/// classification where it has one, else the root card's.
pub open spec fn effective_type_line(c: Card) -> Option<Seq<char>> {
    if has_faces(c) && c.card_faces->0[0].type_line is Some {
        Some(c.card_faces->0[0].type_line->0@)
    } else if c.type_line is Some {
        Some(c.type_line->0@)
    } else {
        None
    }
}

/// The card is available in a paper printing.
pub open spec fn in_paper(c: Card) -> bool {
    exists|i: int| 0 <= i < c.games@.len() && #[trigger] c.games@[i]@ == "paper"@
}

/// The whole qualification rule for one card.
pub open spec fn card_qualifies(c: Card) -> bool {
    &&& c.commander_legality@ == "legal"@
    &&& in_paper(c)
    &&& !meld_result_duplicate(c)
    &&& effective_type_line(c) matches Some(t) && {
        ||| contains_seq(t, "Creature"@) && contains_seq(t, "Legendary"@)
        ||| contains_seq(t, "Background"@)
        ||| effective_name(c) == "Grist, the Hunger Tide"@
        ||| c.oracle_text matches Some(o) && contains_seq(o@, "can be your commander"@)
    }
}

/// Some String of the list reads as `name`.
pub open spec fn lists_name(ss: Seq<String>, name: Seq<char>) -> bool {
    exists|t: int| 0 <= t < ss.len() && #[trigger] ss[t]@ == name
}

/// Some card of the list qualifies and is listed under `name`.
pub open spec fn some_card_yields(cards: Seq<Card>, name: Seq<char>) -> bool {
    exists|i: int|
        0 <= i < cards.len() && card_qualifies(#[trigger] cards[i]) && effective_name(cards[i])
            == name
}

/// Whether one String equals a literal.
fn str_is(a: &String, lit: &str) -> (r: bool)
    ensures
        r == (a@ == lit@),
{
    *a == String::from_str(lit)
}

/// Whether the characters `hay[at .. at + needle.len()]` spell `needle`.
fn match_at(hay: &str, needle: &str, at: usize) -> (r: bool)
    requires
        at + needle@.len() <= hay@.len(),
    ensures
        r == (hay@.subrange(at as int, at as int + needle@.len()) == needle@),
{
    let hn = hay.unicode_len();
    let m = needle.unicode_len();
    let mut j: usize = 0;
    while j < m
        invariant
            hn == hay@.len(),
            m == needle@.len(),
            j <= m,
            at + m <= hay@.len(),
            forall|k: int| 0 <= k < j ==> #[trigger] hay@[at + k] == needle@[k],
        decreases m - j,
    {
        if hay.get_char(at + j) != needle.get_char(j) {
            assert(hay@.subrange(at as int, at as int + m) != needle@) by {
                assert(hay@.subrange(at as int, at as int + m as int)[j as int] == hay@[at + j]);
            }
            return false;
        }
        j = j + 1;
    }
    assert(hay@.subrange(at as int, at as int + m as int) =~= needle@) by {
        assert forall|k: int|
            0 <= k < m implies hay@.subrange(at as int, at as int + m as int)[k]
            == needle@[k] by {
            assert(hay@[at + k] == needle@[k]);
        }
    }
    true
}

/// Whether `needle` occurs contiguously inside `hay`.
fn str_contains(hay: &str, needle: &str) -> (r: bool)
    ensures
        r == contains_seq(hay@, needle@),
{
    let n = hay.unicode_len();
    let m = needle.unicode_len();
    if m > n {
        assert(!contains_seq(hay@, needle@));
        return false;
    }
    if m == 0 {
        assert(hay@.subrange(0, 0 + needle@.len() as int) =~= needle@);
        assert(contains_seq(hay@, needle@));
        return true;
    }
    let mut i: usize = 0;
    while i <= n - m
        invariant
            n == hay@.len(),
            m == needle@.len(),
            0 < m <= n,
            i <= n - m + 1,
            forall|k: int| 0 <= k < i ==> #[trigger] hay@.subrange(k, k + m as int) != needle@,
        decreases n - m + 1 - i,
    {
        if match_at(hay, needle, i) {
            assert(hay@.subrange(i as int, i as int + needle@.len()) == needle@);
            assert(contains_seq(hay@, needle@));
            return true;
        }
        i = i + 1;
    }
    false
}

/// Whether the card is available in a paper printing.
fn card_in_paper(c: &Card) -> (r: bool)
    ensures
        r == in_paper(*c),
{
    let n = c.games.len();
    let mut i: usize = 0;
    while i < n
        invariant
            n == c.games@.len(),
            i <= n,
            forall|k: int| 0 <= k < i ==> #[trigger] c.games@[k]@ != "paper"@,
        decreases n - i,
    {
        if str_is(&c.games[i], "paper") {
            return true;
        }
        i = i + 1;
    }
    false
}

/// Whether the card is a meld part that names its combined result.
fn card_is_meld_duplicate(c: &Card) -> (r: bool)
    ensures
        r == meld_result_duplicate(*c),
{
    let parts = match &c.all_parts {
        Some(parts) => parts,
        None => {
            return false;
        },
    };
    let n = parts.len();
    let mut i: usize = 0;
    while i < n
        invariant
            n == parts@.len(),
            i <= n,
            forall|k: int| 0 <= k < i ==> #[trigger] parts@[k].component@ != "meld_result"@,
        decreases n - i,
    {
        if str_is(&parts[i].component, "meld_result") {
            assert(is_first_meld_result(parts@, i as int));
            let r = parts[i].name == c.name;
            proof {
                if !r {
                    assert forall|w: int|
                        is_first_meld_result(parts@, w) implies parts@[w].name@ != c.name@ by {
                        assert(w == i);
                    }
                }
            }
            return r;
        }
        i = i + 1;
    }
    proof {
        assert forall|w: int| !is_first_meld_result(parts@, w) by {
            if 0 <= w < parts@.len() {
                assert(parts@[w].component@ != "meld_result"@);
            }
        }
    }
    false
}

/// Whether the card qualifies as a commander, per the whole rule.
fn card_qualifies_exec(c: &Card) -> (r: bool)
    ensures
        r == card_qualifies(*c),
{
    if !str_is(&c.commander_legality, "legal") {
        return false;
    }
    if !card_in_paper(c) {
        return false;
    }
    if card_is_meld_duplicate(c) {
        return false;
    }
    let type_line: &Option<String> = match &c.card_faces {
        Some(faces) => {
            if faces.len() > 0 {
                if faces[0].type_line.is_some() {
                    &faces[0].type_line
                } else {
                    &c.type_line
                }
            } else {
                &c.type_line
            }
        },
        None => &c.type_line,
    };
    let tl = match type_line {
        Some(t) => t,
        None => {
            return false;
        },
    };
    assert(effective_type_line(*c) == Some(tl@));
    if str_contains(tl.as_str(), "Creature") && str_contains(tl.as_str(), "Legendary") {
        return true;
    }
    if str_contains(tl.as_str(), "Background") {
        return true;
    }
    let name_matches = match &c.card_faces {
        Some(faces) => {
            if faces.len() > 0 {
                str_is(&faces[0].name, "Grist, the Hunger Tide")
            } else {
                str_is(&c.name, "Grist, the Hunger Tide")
            }
        },
        None => str_is(&c.name, "Grist, the Hunger Tide"),
    };
    if name_matches {
        return true;
    }
    match &c.oracle_text {
        Some(o) => str_contains(o.as_str(), "can be your commander"),
        None => false,
    }
}

/// The name the card is listed under.
fn effective_name_exec(c: &Card) -> (r: String)
    ensures
        r@ == effective_name(*c),
{
    match &c.card_faces {
        Some(faces) => {
            if faces.len() > 0 {
                faces[0].name.clone()
            } else {
                c.name.clone()
            }
        },
        None => c.name.clone(),
    }
}

/// Relies on itertools' `sorted`: it returns the same elements in
/// ascending `Ord` order, and `String`'s order is lexicographic over
/// its characters.
#[verifier::external_body]
fn sorted_strings(v: Vec<String>) -> (r: Vec<String>)
    ensures
        r@.map_values(|s: String| s@).to_multiset() == v@.map_values(|s: String| s@).to_multiset(),
        forall|a: int, b: int|
            0 <= a < b < r@.len() ==> char_seq_le(#[trigger] r@[a]@, #[trigger] r@[b]@),
{
    itertools::Itertools::sorted(v.into_iter()).collect()
}

/// Produces the catalog: the name of every qualifying card, first
/// occurrence winning, deduplicated and sorted lexicographically.
pub fn commander_names(cards: &Vec<Card>) -> (r: Vec<String>)
    ensures
        forall|a: int, b: int|
            0 <= a < b < r@.len() ==> char_seq_le(#[trigger] r@[a]@, #[trigger] r@[b]@),
        forall|a: int, b: int| 0 <= a < b < r@.len() ==> #[trigger] r@[a]@ != #[trigger] r@[b]@,
        forall|name: Seq<char>| #![trigger lists_name(r@, name)]
            lists_name(r@, name) <==> some_card_yields(cards@, name),
{
    let n = cards.len();
    let mut picked: Vec<String> = Vec::new();
    let mut i: usize = 0;
    while i < n
        invariant
            n == cards@.len(),
            i <= n,
            forall|a: int, b: int|
                0 <= a < b < picked@.len() ==> #[trigger] picked@[a]@ != #[trigger] picked@[b]@,
            forall|name: Seq<char>| #![trigger lists_name(picked@, name)]
                lists_name(picked@, name) <==> some_card_yields(cards@.take(i as int), name),
        decreases n - i,
    {
        let ghost pre = picked@;
        if card_qualifies_exec(&cards[i]) {
            let name = effective_name_exec(&cards[i]);
            if !contains_string(&picked, &name) {
                picked.push(name);
            }
        }
        proof {
            assert(cards@.take(i + 1).drop_last() =~= cards@.take(i as int));
            assert(cards@.take(i + 1).last() == cards@[i as int]);
            assert forall|name: Seq<char>| #![trigger lists_name(picked@, name)]
                lists_name(picked@, name) <==> some_card_yields(cards@.take(i + 1), name) by {
                if lists_name(picked@, name) {
                    let t = choose|t: int| 0 <= t < picked@.len() && #[trigger] picked@[t]@ == name;
                    if t < pre.len() {
                        assert(lists_name(pre, name));
                        let w = choose|w: int|
                            0 <= w < cards@.take(i as int).len() && card_qualifies(
                                #[trigger] cards@.take(i as int)[w],
                            ) && effective_name(cards@.take(i as int)[w]) == name;
                        assert(cards@.take(i + 1)[w] == cards@.take(i as int)[w]);
                        assert(some_card_yields(cards@.take(i + 1), name));
                    } else {
                        assert(card_qualifies(cards@.take(i + 1)[i as int]));
                        assert(effective_name(cards@.take(i + 1)[i as int]) == name);
                        assert(some_card_yields(cards@.take(i + 1), name));
                    }
                }
                if some_card_yields(cards@.take(i + 1), name) {
                    let w = choose|w: int|
                        0 <= w < cards@.take(i + 1).len() && card_qualifies(
                            #[trigger] cards@.take(i + 1)[w],
                        ) && effective_name(cards@.take(i + 1)[w]) == name;
                    if w < i {
                        assert(cards@.take(i as int)[w] == cards@.take(i + 1)[w]);
                        assert(some_card_yields(cards@.take(i as int), name));
                        assert(lists_name(pre, name));
                        let t = choose|t: int| 0 <= t < pre.len() && #[trigger] pre[t]@ == name;
                        assert(picked@[t]@ == name);
                        assert(lists_name(picked@, name));
                    } else {
                        assert(cards@.take(i + 1)[w] == cards@[i as int]);
                        if lists_name(pre, name) {
                            let t = choose|t: int| 0 <= t < pre.len() && #[trigger] pre[t]@ == name;
                            assert(picked@[t]@ == name);
                            assert(lists_name(picked@, name));
                        } else {
                            assert(picked@.last()@ == name);
                            assert(lists_name(picked@, name));
                        }
                    }
                }
            }
        }
        i = i + 1;
    }
    proof {
        assert(cards@.take(n as int) =~= cards@);
    }
    let r = sorted_strings(picked);
    proof {
        let pv = picked@.map_values(|s: String| s@);
        let rv = r@.map_values(|s: String| s@);
        broadcast use vstd::seq_lib::group_to_multiset_ensures;

        assert(pv.no_duplicates()) by {
            assert forall|a: int, b: int|
                0 <= a < pv.len() && 0 <= b < pv.len() && a != b implies pv[a] != pv[b] by {
                assert(pv[a] == picked@[a]@);
                assert(pv[b] == picked@[b]@);
            }
        }
        pv.lemma_multiset_has_no_duplicates();
        rv.lemma_multiset_has_no_duplicates_conv();
        assert forall|a: int, b: int|
            0 <= a < b < r@.len() implies #[trigger] r@[a]@ != #[trigger] r@[b]@ by {
            assert(rv[a] == r@[a]@);
            assert(rv[b] == r@[b]@);
        }
        assert forall|name: Seq<char>| #![trigger lists_name(r@, name)]
            lists_name(r@, name) <==> lists_name(picked@, name) by {
            if lists_name(r@, name) {
                let t = choose|t: int| 0 <= t < r@.len() && #[trigger] r@[t]@ == name;
                assert(rv[t] == name);
                assert(rv.contains(name));
                assert(rv.to_multiset().contains(name));
                assert(pv.to_multiset().contains(name));
                assert(pv.contains(name));
                let u = choose|u: int| 0 <= u < pv.len() && pv[u] == name;
                assert(picked@[u]@ == name);
            }
            if lists_name(picked@, name) {
                let t = choose|t: int| 0 <= t < picked@.len() && #[trigger] picked@[t]@ == name;
                assert(pv[t] == name);
                assert(pv.contains(name));
                assert(pv.to_multiset().contains(name));
                assert(rv.to_multiset().contains(name));
                assert(rv.contains(name));
                let u = choose|u: int| 0 <= u < rv.len() && rv[u] == name;
                assert(r@[u]@ == name);
            }
        }
    }
    r
}

/// Whether the list already holds this name.
fn contains_string(ss: &Vec<String>, name: &String) -> (r: bool)
    ensures
        r == lists_name(ss@, name@),
{
    let n = ss.len();
    let mut i: usize = 0;
    while i < n
        invariant
            n == ss@.len(),
            i <= n,
            forall|k: int| 0 <= k < i ==> #[trigger] ss@[k]@ != name@,
        decreases n - i,
    {
        if ss[i] == *name {
            assert(ss@[i as int]@ == name@);
            return true;
        }
        i = i + 1;
    }
    false
}

} // verus!
