//! Ranking for the searchable key picker: given the vocabulary and a query, the best
//! matches.

use crate::order;
use crate::strings;
use crate::text;
use vstd::prelude::*;

verus! {

/// How many results the picker shows at once.
pub const RESULT_CAP: usize = 80;

/// How well a name, made small, matches the query: exactly, at its front, or inside.
pub open spec fn tier(name: Seq<char>, q: Seq<char>) -> Option<nat> {
    if name == q {
        Some(0)
    } else if text::starts_with(name, q) {
        Some(1)
    } else if text::has_part(name, q) {
        Some(2)
    } else {
        None
    }
}

/// A match: how well, and the name as it stands in the vocabulary.
pub struct MatchView {
    pub tier: nat,
    pub name: Seq<char>,
}

/// `a` is shown before or with `b`: the better match first, then the shorter name (in
/// bytes), then the order of the alphabet.
pub open spec fn match_le(a: MatchView, b: MatchView) -> bool {
    let m = text::bytes(a.name).len();
    let n = text::bytes(b.name).len();
    a.tier < b.tier || (a.tier == b.tier && (m < n || (m == n && text::text_le(a.name, b.name))))
}

/// The matches with one more, behind those that are shown before or with it.
pub open spec fn match_in(list: Seq<MatchView>, one: MatchView) -> Seq<MatchView>
    decreases list.len(),
{
    if list.len() == 0 || match_le(list.last(), one) {
        list.push(one)
    } else {
        match_in(list.drop_last(), one).push(list.last())
    }
}

/// The names that match the query, best first. Case is disregarded.
pub open spec fn matches_of(keys: Seq<Seq<char>>, q: Seq<char>) -> Seq<MatchView>
    decreases keys.len(),
{
    if keys.len() == 0 {
        Seq::empty()
    } else {
        let before = matches_of(keys.drop_last(), q);
        match tier(strings::lowercase_text(keys.last()), q) {
            Some(t) => match_in(before, MatchView { tier: t, name: keys.last() }),
            None => before,
        }
    }
}

/// The names of the matches.
pub open spec fn names_of(list: Seq<MatchView>) -> Seq<Seq<char>> {
    Seq::new(list.len(), |i: int| list[i].name)
}

/// At most the first `cap`.
pub open spec fn first_of(list: Seq<Seq<char>>, cap: nat) -> Seq<Seq<char>> {
    if list.len() > cap {
        list.subrange(0, cap as int)
    } else {
        list
    }
}

/// How many are beyond the first `cap`.
pub open spec fn dropped(list: Seq<Seq<char>>, cap: nat) -> nat {
    if list.len() > cap {
        (list.len() - cap) as nat
    } else {
        0
    }
}

/// What is ranked: the vocabulary as it is for an empty query, else its matches, best
/// first.
pub open spec fn ranked_by(keys: Seq<Seq<char>>, q: Seq<char>) -> Seq<Seq<char>> {
    if q.len() == 0 {
        keys
    } else {
        names_of(matches_of(keys, q))
    }
}

/// The query that is matched: without white space at its ends, and made small.
pub open spec fn query_of(query: Seq<char>) -> Seq<char> {
    strings::lowercase_text(text::trim(query))
}

struct Match {
    tier: u8,
    name: String,
}

impl View for Match {
    type V = MatchView;

    closed spec fn view(&self) -> MatchView {
        MatchView { tier: self.tier as nat, name: self.name@ }
    }
}

/// How well a name matches the query.
fn tier_of(name: &str, q: &str) -> (r: Option<u8>)
    ensures
        match r {
            Some(t) => tier(name@, q@) == Some(t as nat),
            None => tier(name@, q@) is None,
        },
{
    if strings::same(name, q) {
        Some(0)
    } else if strings::starts_with(name, q) {
        Some(1)
    } else if strings::has_part(name, q) {
        Some(2)
    } else {
        None
    }
}

/// Whether `a` is shown before or with `b`.
fn shown_before(a: &Match, b: &Match) -> (r: bool)
    ensures
        r == match_le(a@, b@),
{
    let m: usize = a.name.as_str().as_bytes().len();
    let n: usize = b.name.as_str().as_bytes().len();
    a.tier < b.tier || (a.tier == b.tier && (m < n || (m == n && order::text_le(
        a.name.as_str(),
        b.name.as_str(),
    ))))
}

proof fn match_in_is_insert(list: Seq<MatchView>, one: MatchView, pos: int)
    requires
        0 <= pos <= list.len(),
        pos > 0 ==> match_le(list[pos - 1], one),
        forall|i: int| pos <= i < list.len() ==> !match_le(#[trigger] list[i], one),
    ensures
        match_in(list, one) == list.insert(pos, one),
    decreases list.len(),
{
    if pos == list.len() {
        assert(list.insert(pos, one) =~= list.push(one));
    } else {
        let t = list.drop_last();
        assert forall|i: int| pos <= i < t.len() implies !match_le(#[trigger] t[i], one) by {
            assert(t[i] == list[i]);
        }
        assert(!match_le(list[list.len() - 1], one));
        match_in_is_insert(t, one, pos);
        assert(t.insert(pos, one).push(list.last()) =~= list.insert(pos, one));
    }
}

/// Rank the names in the vocabulary against a query that is already made small, which is
/// the empty one for the vocabulary as it is, and keep the best `cap`. Says how many were
/// dropped.
pub fn rank_lowered(keys: &Vec<String>, q: &str, cap: usize) -> (r: (Vec<String>, usize))
    ensures
        text::texts(r.0@) == first_of(ranked_by(text::texts(keys@), q@), cap as nat),
        r.1 == dropped(ranked_by(text::texts(keys@), q@), cap as nat),
{
    let ghost all = text::texts(keys@);
    if q.is_empty() {
        let r = take(keys, cap);
        let n: usize = keys.len();
        return (r, if n > cap { n - cap } else { 0 });
    }
    let mut list: Vec<Match> = Vec::new();
    let mut i: usize = 0;
    assert(text::views(list@) =~= Seq::<MatchView>::empty());
    while i < keys.len()
        invariant
            i <= keys@.len(),
            all == text::texts(keys@),
            text::views(list@) == matches_of(all.subrange(0, i as int), q@),
        decreases keys.len() - i,
    {
        let ghost next = all.subrange(0, i + 1);
        assert(next.drop_last() =~= all.subrange(0, i as int));
        assert(next.last() == keys@[i as int]@);
        let low = strings::to_lowercase(keys[i].as_str());
        if let Some(t) = tier_of(low.as_str(), q) {
            let ghost before = text::views(list@);
            let one = Match { tier: t, name: strings::copy(keys[i].as_str()) };
            let ghost onev = one@;
            let mut pos: usize = list.len();
            while pos > 0 && !shown_before(&list[pos - 1], &one)
                invariant
                    pos <= list@.len(),
                    before == text::views(list@),
                    onev == one@,
                    forall|k: int|
                        pos <= k < list@.len() ==> !match_le(#[trigger] before[k], onev),
                decreases pos,
            {
                assert(before[pos - 1] == list@[pos - 1]@);
                pos = pos - 1;
            }
            assert(pos > 0 ==> before[pos - 1] == list@[pos - 1]@);
            proof {
                match_in_is_insert(before, onev, pos as int);
            }
            list.insert(pos, one);
            assert(text::views(list@) =~= before.insert(pos as int, onev));
        }
        i = i + 1;
    }
    assert(all.subrange(0, i as int) =~= all);
    let ghost found = text::views(list@);
    let mut names: Vec<String> = Vec::new();
    let mut k: usize = 0;
    while k < list.len()
        invariant
            k <= list@.len(),
            found == text::views(list@),
            names@.len() == k,
            forall|j: int| 0 <= j < k ==> #[trigger] names@[j]@ == found[j].name,
        decreases list.len() - k,
    {
        assert(found[k as int] == list@[k as int]@);
        names.push(strings::copy(list[k].name.as_str()));
        k = k + 1;
    }
    assert(text::texts(names@) =~= names_of(found));
    let r = take(&names, cap);
    let n: usize = names.len();
    (r, if n > cap { n - cap } else { 0 })
}

/// At most the first `cap`.
fn take(list: &Vec<String>, cap: usize) -> (r: Vec<String>)
    ensures
        text::texts(r@) == first_of(text::texts(list@), cap as nat),
{
    let mut r: Vec<String> = Vec::new();
    let mut i: usize = 0;
    while i < list.len() && i < cap
        invariant
            i <= list@.len(),
            i <= cap,
            r@.len() == i,
            forall|j: int| 0 <= j < i ==> #[trigger] r@[j]@ == list@[j]@,
        decreases list.len() - i,
    {
        r.push(strings::copy(list[i].as_str()));
        i = i + 1;
    }
    assert(text::texts(r@) =~= first_of(text::texts(list@), cap as nat));
    r
}

/// Rank `keys` against `query` and keep the best `cap`; the second part is how many
/// matches were dropped. Case is disregarded. An empty query gives the vocabulary in its
/// own order; another keeps only matches, ordered by how well they match, then by length,
/// then alphabetically. The cap is applied after ranking.
pub fn rank_keys(keys: &Vec<String>, query: &str, cap: usize) -> (r: (Vec<String>, usize))
    ensures
        text::texts(r.0@) == first_of(
            ranked_by(text::texts(keys@), query_of(query@)),
            cap as nat,
        ),
        r.1 == dropped(ranked_by(text::texts(keys@), query_of(query@)), cap as nat),
{
    let q = strings::to_lowercase(strings::trim(query).as_str());
    rank_lowered(keys, q.as_str(), cap)
}

/// What the picker says of where its vocabulary comes from.
pub open spec fn source_line(probed: nat) -> Seq<char> {
    if probed == 0 {
        "built-in list"@
    } else {
        "keyd list-keys ("@ + text::decimal(probed) + ")"@
    }
}

/// What the picker says of where its vocabulary comes from.
pub fn picker_source(probed: usize) -> (r: String)
    ensures
        r@ == source_line(probed as nat),
{
    if probed == 0 {
        strings::copy("built-in list")
    } else {
        strings::cat3("keyd list-keys (", strings::decimal(probed as u64).as_str(), ")")
    }
}

// ---------------------------------------------------------------------------
// What holds of every ranking
// ---------------------------------------------------------------------------

/// Best first.
pub open spec fn best_first(list: Seq<MatchView>) -> bool {
    forall|i: int, j: int|
        0 <= i < j < list.len() ==> match_le(#[trigger] list[i], #[trigger] list[j])
}

proof fn match_order_is_total(a: MatchView, b: MatchView)
    ensures
        match_le(a, b) || match_le(b, a),
{
    order::text_order_is_total(a.name, b.name);
}

proof fn match_order_is_transitive(a: MatchView, b: MatchView, c: MatchView)
    requires
        match_le(a, b),
        match_le(b, c),
    ensures
        match_le(a, c),
{
    if text::text_le(a.name, b.name) && text::text_le(b.name, c.name) {
        order::text_order_is_transitive(a.name, b.name, c.name);
    }
}

proof fn match_in_keeps_order(list: Seq<MatchView>, one: MatchView)
    requires
        best_first(list),
    ensures
        best_first(match_in(list, one)),
        forall|x: MatchView| #[trigger]
            match_in(list, one).contains(x) <==> list.contains(x) || x == one,
    decreases list.len(),
{
    let out = match_in(list, one);
    if list.len() == 0 || match_le(list.last(), one) {
        assert forall|i: int, j: int| 0 <= i < j < out.len() implies match_le(
            #[trigger] out[i],
            #[trigger] out[j],
        ) by {
            if j == list.len() && i < list.len() - 1 {
                assert(match_le(list[i], list[list.len() - 1]));
                match_order_is_transitive(list[i], list.last(), one);
            }
        }
        assert forall|x: MatchView| #[trigger] out.contains(x) <==> list.contains(x) || x == one by {
            assert(out[list.len() as int] == one);
            if list.contains(x) {
                let i = choose|i: int| 0 <= i < list.len() && list[i] == x;
                assert(out[i] == x);
            }
            if out.contains(x) {
                let i = choose|i: int| 0 <= i < out.len() && out[i] == x;
                if i < list.len() {
                    assert(list[i] == x);
                }
            }
        }
    } else {
        let t = list.drop_last();
        let last = list.last();
        assert forall|i: int, j: int| 0 <= i < j < t.len() implies match_le(
            #[trigger] t[i],
            #[trigger] t[j],
        ) by {
            assert(match_le(list[i], list[j]));
        }
        match_in_keeps_order(t, one);
        let u = match_in(t, one);
        assert(out == u.push(last));
        match_order_is_total(one, last);
        assert forall|i: int, j: int| 0 <= i < j < out.len() implies match_le(
            #[trigger] out[i],
            #[trigger] out[j],
        ) by {
            if j < u.len() {
                assert(match_le(u[i], u[j]));
            } else {
                assert(u.contains(u[i]));
                if t.contains(u[i]) {
                    let k = choose|k: int| 0 <= k < t.len() && t[k] == u[i];
                    assert(match_le(list[k], list[list.len() - 1]));
                }
            }
        }
        assert forall|x: MatchView| #[trigger] out.contains(x) <==> list.contains(x) || x == one by {
            if out.contains(x) {
                let i = choose|i: int| 0 <= i < out.len() && out[i] == x;
                if i < u.len() {
                    assert(u[i] == x);
                    assert(u.contains(x));
                    if t.contains(x) {
                        let k = choose|k: int| 0 <= k < t.len() && t[k] == x;
                        assert(list[k] == x);
                    }
                } else {
                    assert(list[list.len() - 1] == x);
                }
            }
            if list.contains(x) {
                let i = choose|i: int| 0 <= i < list.len() && list[i] == x;
                if i < t.len() {
                    assert(t[i] == x);
                } else {
                    assert(out[out.len() - 1] == x);
                }
            }
            if x == one || t.contains(x) {
                assert(u.contains(x));
                let k = choose|k: int| 0 <= k < u.len() && u[k] == x;
                assert(out[k] == x);
            }
        }
    }
}

/// The ranking is in order and complete: the best match first, and exactly the names of
/// the vocabulary that match. Since the cap comes after it, what is shown is never worse
/// than what was dropped.
pub proof fn ranking_is_ordered_and_complete(keys: Seq<Seq<char>>, q: Seq<char>)
    ensures
        best_first(matches_of(keys, q)),
        forall|x: MatchView| #[trigger]
            matches_of(keys, q).contains(x) <==> keys.contains(x.name) && tier(
                strings::lowercase_text(x.name),
                q,
            ) == Some(x.tier),
    decreases keys.len(),
{
    if keys.len() > 0 {
        let t = keys.drop_last();
        let last = keys.last();
        ranking_is_ordered_and_complete(t, q);
        let before = matches_of(t, q);
        let how = tier(strings::lowercase_text(last), q);
        if how is Some {
            match_in_keeps_order(before, MatchView { tier: how->0, name: last });
        }
        assert forall|x: MatchView| #[trigger]
            matches_of(keys, q).contains(x) <==> keys.contains(x.name) && tier(
                strings::lowercase_text(x.name),
                q,
            ) == Some(x.tier) by {
            assert(keys[keys.len() - 1] == last);
            assert(before.contains(x) <==> t.contains(x.name) && tier(
                strings::lowercase_text(x.name),
                q,
            ) == Some(x.tier));
            if keys.contains(x.name) {
                let i = choose|i: int| 0 <= i < keys.len() && keys[i] == x.name;
                if i < t.len() {
                    assert(t[i] == x.name);
                }
            }
            if t.contains(x.name) {
                let i = choose|i: int| 0 <= i < t.len() && t[i] == x.name;
                assert(keys[i] == x.name);
            }
        }
    }
}

/// What is listed for a query: a name is there exactly where the vocabulary has it and the
/// query, in whatever case, stands in it. A name that is the query comes before one that
/// only starts with it, that before one that only holds it; of those that match alike the
/// shorter comes first, and of those that are as long the one that is first by the alphabet.
pub proof fn the_best_match_is_listed_first(
    keys: Seq<Seq<char>>,
    q: Seq<char>,
    i: int,
    j: int,
    x: Seq<char>,
)
    requires
        q.len() > 0,
        0 <= i < j < ranked_by(keys, q).len(),
    ensures
        ({
            let list = ranked_by(keys, q);
            let a = strings::lowercase_text(list[i]);
            let b = strings::lowercase_text(list[j]);
            let short = text::bytes(list[i]).len();
            let long = text::bytes(list[j]).len();
            &&& b == q ==> a == q
            &&& text::starts_with(b, q) ==> text::starts_with(a, q)
            &&& (a == q <==> b == q) && (text::starts_with(a, q) <==> text::starts_with(b, q))
                ==> short < long || (short == long && text::text_le(list[i], list[j]))
        }),
        ranked_by(keys, q).contains(x) <==> keys.contains(x) && text::has_part(
            strings::lowercase_text(x),
            q,
        ),
{
    let found = matches_of(keys, q);
    let list = ranked_by(keys, q);
    ranking_is_ordered_and_complete(keys, q);
    let m = found[i];
    let n = found[j];
    assert(found.contains(m) && found.contains(n));
    assert(match_le(m, n));
    whole_is_part(q, q);
    listing_is_complete(keys, q, x);
}

proof fn whole_is_part(s: Seq<char>, q: Seq<char>)
    ensures
        text::starts_with(s, q) ==> text::has_part(s, q),
        s == q ==> text::starts_with(s, q),
{
    assert(s.subrange(0, s.len() as int) =~= s);
    if text::starts_with(s, q) {
        assert(text::occurs_at(s, q, 0));
    }
}

proof fn listing_is_complete(keys: Seq<Seq<char>>, q: Seq<char>, x: Seq<char>)
    requires
        q.len() > 0,
    ensures
        ranked_by(keys, q).contains(x) <==> keys.contains(x) && text::has_part(
            strings::lowercase_text(x),
            q,
        ),
{
    let found = matches_of(keys, q);
    let list = ranked_by(keys, q);
    ranking_is_ordered_and_complete(keys, q);
    whole_is_part(strings::lowercase_text(x), q);
    if list.contains(x) {
        let k = choose|k: int| 0 <= k < list.len() && list[k] == x;
        assert(found.contains(found[k]));
        assert(found[k].name == x);
    }
    if keys.contains(x) && text::has_part(strings::lowercase_text(x), q) {
        let t = tier(strings::lowercase_text(x), q);
        let one = MatchView { tier: t->0, name: x };
        assert(found.contains(one));
        let k = choose|k: int| 0 <= k < found.len() && found[k] == one;
        assert(list[k] == x);
    }
}

/// Without a query the whole vocabulary is listed in its own order. What is shown is the
/// front of the ranking, as much of it as there is room for, and what is said to be left out
/// is the rest.
pub proof fn the_cap_cuts_off_the_end(keys: Seq<Seq<char>>, list: Seq<Seq<char>>, cap: nat)
    ensures
        ranked_by(keys, Seq::empty()) == keys,
        first_of(list, cap).len() + dropped(list, cap) == list.len(),
        first_of(list, cap).len() <= cap,
        dropped(list, cap) > 0 ==> first_of(list, cap).len() == cap,
        forall|i: int|
            0 <= i < first_of(list, cap).len() ==> #[trigger] first_of(list, cap)[i] == list[i],
{
}

/// White space around a query is nothing.
pub proof fn spaces_around_a_query_are_nothing(query: Seq<char>)
    ensures
        query_of(query.push(' ')) == query_of(query),
        query_of(text::trim(query)) == query_of(query),
{
    text::trailing_white_is_nothing(query, ' ');
    text::trim_is_tight(query);
}

/// The picker says that keyd itself gave the names, and how many, where it did.
pub proof fn the_source_is_told(probed: nat)
    ensures
        probed == 0 ==> source_line(probed) == "built-in list"@,
        probed > 0 ==> source_line(probed) == "keyd list-keys ("@ + text::decimal(probed) + ")"@,
{
}

} // verus!
