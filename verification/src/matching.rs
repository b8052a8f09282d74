//! Exact matching of normalized titles against Radarr lookup results.
use vstd::prelude::*;

use crate::radarr::SearchResult;
use crate::text::{lowercase, to_lowercase};
use crate::titles::MovieTitle;
use std::collections::HashMap;

verus! {

/// Whether the primary or an alternative title of `r` equals `term`, ignoring case.
pub open spec fn title_matches(term: Seq<char>, r: SearchResult) -> bool {
    ||| lowercase(r.title@) == lowercase(term)
    ||| exists|j: int|
        0 <= j < r.alternate_titles@.len() && lowercase(#[trigger] r.alternate_titles@[j].title@)
            == lowercase(term)
}

/// Whether `r` matches `term` by title and, when `term` has a year, by release year.
pub open spec fn result_matches(term: (Seq<char>, Option<u32>), r: SearchResult) -> bool {
    &&& title_matches(term.0, r)
    &&& (term.1 matches Some(y) ==> r.year == y)
}

/// Whether `rs[i]` matches `term` and no earlier matching result has the same TMDB identifier.
pub open spec fn first_of_movie(term: (Seq<char>, Option<u32>), rs: Seq<SearchResult>, i: int) -> bool {
    &&& 0 <= i < rs.len()
    &&& result_matches(term, rs[i])
    &&& forall|j: int|
        0 <= j < i && result_matches(term, #[trigger] rs[j]) ==> rs[j].tmdb_id != rs[i].tmdb_id
}

/// Whether `a` comes before `b` by release year, then by TMDB identifier.
pub open spec fn ordered_before(a: SearchResult, b: SearchResult) -> bool {
    a.year < b.year || (a.year == b.year && a.tmdb_id < b.tmdb_id)
}

/// Whether `ix` lists, sorted by year and TMDB identifier, the index of the first
/// matching result of every distinct movie in `rs`.
pub open spec fn is_match_order(
    term: (Seq<char>, Option<u32>),
    rs: Seq<SearchResult>,
    ix: Seq<usize>,
) -> bool {
    &&& forall|k: int| 0 <= k < ix.len() ==> first_of_movie(term, rs, #[trigger] ix[k] as int)
    &&& forall|i: int| first_of_movie(term, rs, i) ==> ix.contains(i as usize)
    &&& forall|k1: int, k2: int|
        0 <= k1 < k2 < ix.len() ==> ordered_before(
            rs[#[trigger] ix[k1] as int],
            rs[#[trigger] ix[k2] as int],
        )
}

/// Whether the alternative titles of `r` hold `lower`, once lower-cased.
fn alternate_title_matches(r: &SearchResult, lower: &String) -> (b: bool)
    ensures
        b == exists|j: int|
            0 <= j < r.alternate_titles@.len() && lowercase(#[trigger] r.alternate_titles@[j].title@)
                == lower@,
{
    let mut j: usize = 0;
    while j < r.alternate_titles.len()
        invariant
            j <= r.alternate_titles@.len(),
            forall|m: int|
                0 <= m < j ==> lowercase(#[trigger] r.alternate_titles@[m].title@) != lower@,
        decreases r.alternate_titles.len() - j,
    {
        let alt = to_lowercase(r.alternate_titles[j].title.as_str());
        if alt == *lower {
            assert(lowercase(r.alternate_titles@[j as int].title@) == lower@);
            return true;
        }
        j = j + 1;
    }
    false
}

/// Whether `r` matches `term`, given the lower-cased title of `term`.
fn result_matches_exec(term: &MovieTitle, lower: &String, r: &SearchResult) -> (b: bool)
    requires
        lower@ == lowercase(term.title@),
    ensures
        b == result_matches(term@, *r),
{
    let year_ok = match term.year {
        Some(y) => r.year == y,
        None => true,
    };
    if !year_ok {
        return false;
    }
    let primary = to_lowercase(r.title.as_str());
    primary == *lower || alternate_title_matches(r, lower)
}

/// What holds of the indices kept after `i` of the results `rs` have been looked at.
pub open spec fn kept_inv(
    term: (Seq<char>, Option<u32>),
    rs: Seq<SearchResult>,
    kept: Seq<usize>,
    i: int,
) -> bool {
    &&& 0 <= i <= rs.len()
    &&& forall|k: int|
        0 <= k < kept.len() ==> #[trigger] kept[k] < i && first_of_movie(term, rs, kept[k] as int)
    &&& forall|j: int| 0 <= j < i && first_of_movie(term, rs, j) ==> kept.contains(j as usize)
    &&& forall|j: int|
        0 <= j < i && result_matches(term, #[trigger] rs[j]) ==> exists|k: int|
            0 <= k < kept.len() && rs[kept[k] as int].tmdb_id == rs[j].tmdb_id
    &&& forall|k1: int, k2: int|
        0 <= k1 < k2 < kept.len() ==> ordered_before(
            rs[#[trigger] kept[k1] as int],
            rs[#[trigger] kept[k2] as int],
        )
}

/// Whether a kept result is the same movie as `r`.
pub open spec fn has_same_movie(rs: Seq<SearchResult>, kept: Seq<usize>, r: SearchResult) -> bool {
    exists|m: int| 0 <= m < kept.len() && rs[#[trigger] kept[m] as int].tmdb_id == r.tmdb_id
}

/// A matching result whose movie is not yet kept is the first result of its movie.
proof fn lemma_new_movie_is_first(
    term: (Seq<char>, Option<u32>),
    rs: Seq<SearchResult>,
    kept: Seq<usize>,
    i: int,
)
    requires
        kept_inv(term, rs, kept, i),
        i < rs.len(),
        result_matches(term, rs[i]),
        !has_same_movie(rs, kept, rs[i]),
    ensures
        first_of_movie(term, rs, i),
{
    assert forall|j: int| 0 <= j < i && result_matches(term, #[trigger] rs[j]) implies rs[j].tmdb_id
        != rs[i].tmdb_id by {
        let m = choose|m: int| 0 <= m < kept.len() && rs[kept[m] as int].tmdb_id == rs[j].tmdb_id;
        assert(rs[kept[m] as int].tmdb_id == rs[j].tmdb_id);
    }
}

/// Passing over a result that starts no new movie keeps the invariant.
proof fn lemma_skip_result(
    term: (Seq<char>, Option<u32>),
    rs: Seq<SearchResult>,
    kept: Seq<usize>,
    i: int,
)
    requires
        kept_inv(term, rs, kept, i),
        i < rs.len(),
        result_matches(term, rs[i]) ==> has_same_movie(rs, kept, rs[i]),
    ensures
        kept_inv(term, rs, kept, i + 1),
{
    if result_matches(term, rs[i]) {
        let m = choose|m: int| 0 <= m < kept.len() && rs[#[trigger] kept[m] as int].tmdb_id == rs[i].tmdb_id;
        assert(kept[m] < i);
        assert(!first_of_movie(term, rs, i));
    } else {
        assert(!first_of_movie(term, rs, i));
    }
}

/// Inserting a new movie at its place in year and TMDB order keeps the invariant.
#[verifier::rlimit(40)]
proof fn lemma_insert_result(
    term: (Seq<char>, Option<u32>),
    rs: Seq<SearchResult>,
    kept: Seq<usize>,
    iu: usize,
    pos: int,
)
    requires
        kept_inv(term, rs, kept, iu as int),
        iu < rs.len(),
        first_of_movie(term, rs, iu as int),
        !has_same_movie(rs, kept, rs[iu as int]),
        0 <= pos <= kept.len(),
        forall|m: int| 0 <= m < pos ==> ordered_before(rs[#[trigger] kept[m] as int], rs[iu as int]),
        pos < kept.len() ==> !ordered_before(rs[kept[pos] as int], rs[iu as int]),
    ensures
        kept_inv(term, rs, kept.insert(pos, iu), iu + 1),
{
    let i = iu as int;
    let nk = kept.insert(pos, iu);
    kept.insert_ensures(pos, iu);
    assert(forall|k: int| pos < k < nk.len() ==> #[trigger] nk[k] == kept[k - 1]) by {
        assert forall|k: int| pos < k < nk.len() implies #[trigger] nk[k] == kept[k - 1] by {
            assert(nk[(k - 1) + 1] == kept[k - 1]);
        }
    }
    assert forall|m: int| pos <= m < kept.len() implies ordered_before(
        rs[i],
        rs[#[trigger] kept[m] as int],
    ) by {
        if m > pos {
            assert(ordered_before(rs[kept[pos] as int], rs[kept[m] as int]));
        }
        assert(rs[kept[m] as int].tmdb_id != rs[i].tmdb_id);
    }
    assert forall|k1: int, k2: int| 0 <= k1 < k2 < nk.len() implies ordered_before(
        rs[#[trigger] nk[k1] as int],
        rs[#[trigger] nk[k2] as int],
    ) by {
        if k2 < pos {
            assert(nk[k1] == kept[k1] && nk[k2] == kept[k2]);
        } else if k2 == pos {
            assert(nk[k1] == kept[k1]);
        } else if k1 < pos {
            assert(nk[k1] == kept[k1] && nk[k2] == kept[k2 - 1]);
        } else if k1 == pos {
            assert(nk[k2] == kept[k2 - 1]);
        } else {
            assert(nk[k1] == kept[k1 - 1] && nk[k2] == kept[k2 - 1]);
        }
    }
    assert forall|k: int| 0 <= k < nk.len() implies #[trigger] nk[k] < i + 1 && first_of_movie(
        term,
        rs,
        nk[k] as int,
    ) by {
        if k < pos {
            assert(nk[k] == kept[k]);
        } else if k > pos {
            assert(nk[k] == kept[k - 1]);
        }
    }
    assert forall|j: int| 0 <= j < i + 1 && first_of_movie(term, rs, j) implies nk.contains(
        j as usize,
    ) by {
        if j < i {
            let m = choose|m: int| 0 <= m < kept.len() && kept[m] == j as usize;
            if m < pos {
                assert(nk[m] == kept[m]);
            } else {
                assert(nk[m + 1] == kept[m]);
            }
        } else {
            assert(nk[pos] == iu);
        }
    }
    assert forall|j: int| 0 <= j < i + 1 && result_matches(term, #[trigger] rs[j]) implies exists|
        k: int,
    | 0 <= k < nk.len() && rs[nk[k] as int].tmdb_id == rs[j].tmdb_id by {
        if j < i {
            let m = choose|m: int|
                0 <= m < kept.len() && rs[kept[m] as int].tmdb_id == rs[j].tmdb_id;
            if m < pos {
                assert(nk[m] == kept[m]);
            } else {
                assert(nk[m + 1] == kept[m]);
            }
        } else {
            assert(nk[pos] == iu);
        }
    }
}

/// The place of `r` among kept results sorted by year and TMDB identifier.
fn insertion_position(results: &[SearchResult], kept: &Vec<usize>, r: &SearchResult) -> (pos: usize)
    requires
        forall|m: int| 0 <= m < kept@.len() ==> #[trigger] kept@[m] < results@.len(),
    ensures
        pos <= kept@.len(),
        forall|m: int| 0 <= m < pos ==> ordered_before(results@[#[trigger] kept@[m] as int], *r),
        pos < kept@.len() ==> !ordered_before(results@[kept@[pos as int] as int], *r),
{
    let mut pos: usize = 0;
    while pos < kept.len() && (results[kept[pos]].year < r.year || (results[kept[pos]].year
        == r.year && results[kept[pos]].tmdb_id < r.tmdb_id))
        invariant
            forall|m: int| 0 <= m < kept@.len() ==> #[trigger] kept@[m] < results@.len(),
            pos <= kept@.len(),
            forall|m: int| 0 <= m < pos ==> ordered_before(results@[#[trigger] kept@[m] as int], *r),
        decreases kept.len() - pos,
    {
        pos = pos + 1;
    }
    pos
}

/// The indices of the first matching result of each distinct movie, sorted by release year
/// and TMDB identifier.
pub fn match_indices(term: &MovieTitle, results: &[SearchResult]) -> (ix: Vec<usize>)
    ensures
        is_match_order(term@, results@, ix@),
        ix@ == match_order(term@, results@),
{
    broadcast use vstd::std_specs::hash::group_hash_axioms;

    let lower = to_lowercase(term.title.as_str());
    let mut kept: Vec<usize> = Vec::new();
    // The first matching result of each TMDB movie seen so far.
    let mut by_tmdb_id: HashMap<u32, usize> = HashMap::new();
    let mut i: usize = 0;
    while i < results.len()
        invariant
            lower@ == lowercase(term.title@),
            kept_inv(term@, results@, kept@, i as int),
            forall|id: u32|
                #[trigger] by_tmdb_id@.contains_key(id) <==> has_same_id(results@, kept@, id),
            forall|id: u32|
                #[trigger] by_tmdb_id@.contains_key(id) ==> by_tmdb_id@[id] < i && first_of_movie(
                    term@,
                    results@,
                    by_tmdb_id@[id] as int,
                ) && results@[by_tmdb_id@[id] as int].tmdb_id == id,
        decreases results.len() - i,
    {
        let r = &results[i];
        if result_matches_exec(term, &lower, r) && !by_tmdb_id.contains_key(&r.tmdb_id) {
            proof {
                lemma_new_movie_is_first(term@, results@, kept@, i as int);
            }
            let pos = insertion_position(results, &kept, r);
            proof {
                lemma_insert_result(term@, results@, kept@, i, pos as int);
                lemma_insert_same_id(results@, kept@, i, pos as int);
            }
            by_tmdb_id.insert(r.tmdb_id, i);
            kept.insert(pos, i);
        } else {
            proof {
                lemma_skip_result(term@, results@, kept@, i as int);
            }
        }
        i = i + 1;
    }
    proof {
        lemma_match_order_is(term@, results@, kept@);
    }
    kept
}

/// Whether a kept result has the TMDB identifier `id`.
pub open spec fn has_same_id(rs: Seq<SearchResult>, kept: Seq<usize>, id: u32) -> bool {
    exists|m: int| 0 <= m < kept.len() && rs[#[trigger] kept[m] as int].tmdb_id == id
}

/// Keeping one more result adds its TMDB identifier, and no other, to those kept.
proof fn lemma_insert_same_id(rs: Seq<SearchResult>, kept: Seq<usize>, iu: usize, pos: int)
    requires
        0 <= pos <= kept.len(),
    ensures
        forall|id: u32|
            #[trigger] has_same_id(rs, kept.insert(pos, iu), id) <==> (has_same_id(rs, kept, id)
                || id == rs[iu as int].tmdb_id),
{
    let nk = kept.insert(pos, iu);
    assert forall|id: u32| #[trigger] has_same_id(rs, nk, id) <==> (has_same_id(rs, kept, id)
        || id == rs[iu as int].tmdb_id) by {
        if has_same_id(rs, nk, id) {
            let m = choose|m: int| 0 <= m < nk.len() && rs[#[trigger] nk[m] as int].tmdb_id == id;
            if m < pos {
                assert(nk[m] == kept[m]);
            } else if m > pos {
                assert(nk[m] == kept[m - 1]);
            }
        }
        if has_same_id(rs, kept, id) {
            let m = choose|m: int| 0 <= m < kept.len() && rs[#[trigger] kept[m] as int].tmdb_id == id;
            if m < pos {
                assert(nk[m] == kept[m]);
            } else {
                assert(nk[m + 1] == kept[m]);
            }
        }
        if id == rs[iu as int].tmdb_id {
            assert(nk[pos] == iu);
        }
    }
}

} // verus!

verus! {

/// Whether `ix` is strictly sorted by year and TMDB identifier of the results it points to.
pub open spec fn strictly_sorted(rs: Seq<SearchResult>, ix: Seq<usize>) -> bool {
    forall|k1: int, k2: int|
        0 <= k1 < k2 < ix.len() ==> ordered_before(
            rs[#[trigger] ix[k1] as int],
            rs[#[trigger] ix[k2] as int],
        )
}

/// Two strictly sorted index sequences that hold the same indices are equal.
proof fn lemma_sorted_same_elements_equal(rs: Seq<SearchResult>, a: Seq<usize>, b: Seq<usize>)
    requires
        strictly_sorted(rs, a),
        strictly_sorted(rs, b),
        forall|x: usize| a.contains(x) <==> b.contains(x),
        forall|k: int| 0 <= k < a.len() ==> (#[trigger] a[k] as int) < rs.len(),
        forall|k: int| 0 <= k < b.len() ==> (#[trigger] b[k] as int) < rs.len(),
    ensures
        a == b,
    decreases a.len(),
{
    if a.len() == 0 {
        if b.len() > 0 {
            assert(b.contains(b[0]));
        }
        assert(b.len() == 0);
        assert(a =~= b);
    } else {
        assert(a.contains(a[0]));
        assert(b.len() > 0);
        assert(b.contains(b[0]));
        let ka = choose|k: int| 0 <= k < b.len() && b[k] == a[0];
        let kb = choose|k: int| 0 <= k < a.len() && a[k] == b[0];
        if a[0] != b[0] {
            assert(kb > 0 && ka > 0);
            assert(ordered_before(rs[a[0] as int], rs[a[kb] as int]));
            assert(ordered_before(rs[b[0] as int], rs[b[ka] as int]));
            assert(false);
        }
        let ta = a.drop_first();
        let tb = b.drop_first();
        assert forall|x: usize| ta.contains(x) <==> tb.contains(x) by {
            if ta.contains(x) {
                let k = choose|k: int| 0 <= k < ta.len() && ta[k] == x;
                assert(a[k + 1] == x);
                assert(a.contains(x));
                let m = choose|m: int| 0 <= m < b.len() && b[m] == x;
                if m == 0 {
                    assert(ordered_before(rs[a[0] as int], rs[a[k + 1] as int]));
                    assert(false);
                }
                assert(tb[m - 1] == x);
            }
            if tb.contains(x) {
                let k = choose|k: int| 0 <= k < tb.len() && tb[k] == x;
                assert(b[k + 1] == x);
                assert(b.contains(x));
                let m = choose|m: int| 0 <= m < a.len() && a[m] == x;
                if m == 0 {
                    assert(ordered_before(rs[b[0] as int], rs[b[k + 1] as int]));
                    assert(false);
                }
                assert(ta[m - 1] == x);
            }
        }
        assert forall|k1: int, k2: int| 0 <= k1 < k2 < ta.len() implies ordered_before(
            rs[#[trigger] ta[k1] as int],
            rs[#[trigger] ta[k2] as int],
        ) by {
            assert(ta[k1] == a[k1 + 1] && ta[k2] == a[k2 + 1]);
        }
        assert forall|k1: int, k2: int| 0 <= k1 < k2 < tb.len() implies ordered_before(
            rs[#[trigger] tb[k1] as int],
            rs[#[trigger] tb[k2] as int],
        ) by {
            assert(tb[k1] == b[k1 + 1] && tb[k2] == b[k2 + 1]);
        }
        assert forall|k: int| 0 <= k < ta.len() implies (#[trigger] ta[k] as int) < rs.len() by {
            assert(ta[k] == a[k + 1]);
        }
        assert forall|k: int| 0 <= k < tb.len() implies (#[trigger] tb[k] as int) < rs.len() by {
            assert(tb[k] == b[k + 1]);
        }
        lemma_sorted_same_elements_equal(rs, ta, tb);
        assert(a =~= seq![a[0]] + ta);
        assert(b =~= seq![b[0]] + tb);
    }
}

/// The match order of `term` in `rs` is unique: two sequences that both list the first
/// matching result of every distinct movie, sorted by year and TMDB identifier, are equal.
pub proof fn lemma_match_order_unique(
    term: (Seq<char>, Option<u32>),
    rs: Seq<SearchResult>,
    a: Seq<usize>,
    b: Seq<usize>,
)
    requires
        is_match_order(term, rs, a),
        is_match_order(term, rs, b),
    ensures
        a == b,
{
    assert forall|x: usize| a.contains(x) <==> b.contains(x) by {
        if a.contains(x) {
            let k = choose|k: int| 0 <= k < a.len() && a[k] == x;
            assert(first_of_movie(term, rs, a[k] as int));
        }
        if b.contains(x) {
            let k = choose|k: int| 0 <= k < b.len() && b[k] == x;
            assert(first_of_movie(term, rs, b[k] as int));
        }
    }
    assert forall|k: int| 0 <= k < a.len() implies (#[trigger] a[k] as int) < rs.len() by {
        assert(first_of_movie(term, rs, a[k] as int));
    }
    assert forall|k: int| 0 <= k < b.len() implies (#[trigger] b[k] as int) < rs.len() by {
        assert(first_of_movie(term, rs, b[k] as int));
    }
    lemma_sorted_same_elements_equal(rs, a, b);
}

/// The indices, sorted by release year and TMDB identifier, of the first matching result
/// of each distinct movie that matches `term` in `rs`.
pub open spec fn match_order(term: (Seq<char>, Option<u32>), rs: Seq<SearchResult>) -> Seq<usize> {
    choose|ix: Seq<usize>| is_match_order(term, rs, ix)
}

/// A sequence with the properties of the match order is the match order.
pub proof fn lemma_match_order_is(
    term: (Seq<char>, Option<u32>),
    rs: Seq<SearchResult>,
    ix: Seq<usize>,
)
    requires
        is_match_order(term, rs, ix),
    ensures
        match_order(term, rs) == ix,
        is_match_order(term, rs, match_order(term, rs)),
{
    lemma_match_order_unique(term, rs, match_order(term, rs), ix);
}

} // verus!

verus! {

/// The exact-match outcome for a normalized title and Radarr lookup response.
#[derive(Debug, PartialEq)]
pub enum Match<'a> {
    /// No Radarr result had an exact primary or alternative title match.
    NoMatch,
    /// Exactly one distinct TMDB movie matched.
    Unique(&'a SearchResult),
    /// Multiple distinct TMDB movies matched and require manual disambiguation.
    Ambiguous(Vec<&'a SearchResult>),
}

/// The results that a match outcome names, in order.
pub open spec fn matched_results(m: Match) -> Seq<SearchResult> {
    match m {
        Match::NoMatch => Seq::empty(),
        Match::Unique(r) => seq![*r],
        Match::Ambiguous(v) => v@.map_values(|r: &SearchResult| *r),
    }
}

/// The results that `match_order` points to.
pub open spec fn ordered_matches(term: (Seq<char>, Option<u32>), rs: Seq<SearchResult>) -> Seq<
    SearchResult,
> {
    match_order(term, rs).map_values(|i: usize| rs[i as int])
}

/// Selects exact primary or alternative title matches, constrained by year when known.
pub fn best_match<'a>(term: &MovieTitle, results: &'a [SearchResult]) -> (m: Match<'a>)
    ensures
        matched_results(m) == ordered_matches(term@, results@),
        m is NoMatch <==> ordered_matches(term@, results@).len() == 0,
        m is Unique <==> ordered_matches(term@, results@).len() == 1,
        m is Ambiguous <==> ordered_matches(term@, results@).len() >= 2,
{
    let ix = match_indices(term, results);
    proof {
        assert forall|k: int| 0 <= k < ix@.len() implies (#[trigger] ix@[k] as int) < results@.len() by {
            assert(first_of_movie(term@, results@, ix@[k] as int));
        }
    }
    if ix.len() == 0 {
        assert(matched_results(Match::NoMatch) =~= ordered_matches(term@, results@));
        Match::NoMatch
    } else if ix.len() == 1 {
        let m = Match::Unique(&results[ix[0]]);
        assert(matched_results(m) =~= ordered_matches(term@, results@));
        m
    } else {
        let mut v: Vec<&'a SearchResult> = Vec::new();
        let mut k: usize = 0;
        while k < ix.len()
            invariant
                k <= ix@.len(),
                ix@ == match_order(term@, results@),
                forall|j: int| 0 <= j < ix@.len() ==> (#[trigger] ix@[j] as int) < results@.len(),
                v@.len() == k,
                forall|j: int| 0 <= j < k ==> *v@[j] == results@[#[trigger] ix@[j] as int],
            decreases ix.len() - k,
        {
            v.push(&results[ix[k]]);
            k = k + 1;
        }
        let m = Match::Ambiguous(v);
        assert(matched_results(m) =~= ordered_matches(term@, results@));
        m
    }
}

} // verus!

verus! {

/// What `best_match` promises of the movies it returns: each one matches the title exactly
/// (ignoring case), and the year when the title has one; no two are the same TMDB movie; they
/// come in year and TMDB order; and every matching result's movie is among them.
pub proof fn lemma_best_match_laws(term: (Seq<char>, Option<u32>), rs: Seq<SearchResult>)
    requires
        rs.len() <= usize::MAX,
    ensures
        ({
            let ms = ordered_matches(term, rs);
            &&& forall|k: int| 0 <= k < ms.len() ==> result_matches(term, #[trigger] ms[k])
            &&& forall|k: int|
                0 <= k < ms.len() ==> (term.1 matches Some(y) ==> (#[trigger] ms[k]).year == y)
            &&& forall|k1: int, k2: int|
                0 <= k1 < k2 < ms.len() ==> (#[trigger] ms[k1]).tmdb_id != (#[trigger] ms[k2]).tmdb_id
            &&& forall|k1: int, k2: int|
                0 <= k1 < k2 < ms.len() ==> ordered_before(#[trigger] ms[k1], #[trigger] ms[k2])
            &&& forall|i: int|
                0 <= i < rs.len() && result_matches(term, #[trigger] rs[i]) ==> exists|k: int|
                    0 <= k < ms.len() && ms[k].tmdb_id == rs[i].tmdb_id
        }),
{
    let ix = match_order(term, rs);
    let ms = ordered_matches(term, rs);
    lemma_match_order_exists(term, rs);
    assert forall|k: int| 0 <= k < ms.len() implies result_matches(term, #[trigger] ms[k]) by {
        assert(first_of_movie(term, rs, ix[k] as int));
    }
    assert forall|k1: int, k2: int| 0 <= k1 < k2 < ms.len() implies (#[trigger] ms[k1]).tmdb_id
        != (#[trigger] ms[k2]).tmdb_id by {
        assert(ordered_before(rs[ix[k1] as int], rs[ix[k2] as int]));
    }
    assert forall|k1: int, k2: int| 0 <= k1 < k2 < ms.len() implies ordered_before(
        #[trigger] ms[k1],
        #[trigger] ms[k2],
    ) by {
        assert(ordered_before(rs[ix[k1] as int], rs[ix[k2] as int]));
    }
    assert forall|i: int| 0 <= i < rs.len() && result_matches(term, #[trigger] rs[i]) implies exists|
        k: int,
    | 0 <= k < ms.len() && ms[k].tmdb_id == rs[i].tmdb_id by {
        lemma_first_of_movie_exists(term, rs, i);
        let f = choose|f: int|
            0 <= f <= i && first_of_movie(term, rs, f) && rs[f].tmdb_id == rs[i].tmdb_id;
        assert(ix.contains(f as usize));
        let k = choose|k: int| 0 <= k < ix.len() && ix[k] == f as usize;
        assert(ms[k] == rs[f]);
    }
}

/// Every matching result has a first matching result of the same movie at or before it.
pub proof fn lemma_first_of_movie_exists(
    term: (Seq<char>, Option<u32>),
    rs: Seq<SearchResult>,
    i: int,
)
    requires
        0 <= i < rs.len(),
        result_matches(term, rs[i]),
    ensures
        exists|f: int| 0 <= f <= i && first_of_movie(term, rs, f) && rs[f].tmdb_id == rs[i].tmdb_id,
    decreases i,
{
    if first_of_movie(term, rs, i) {
        assert(rs[i].tmdb_id == rs[i].tmdb_id);
    } else {
        let j = choose|j: int|
            0 <= j < i && result_matches(term, #[trigger] rs[j]) && rs[j].tmdb_id == rs[i].tmdb_id;
        lemma_first_of_movie_exists(term, rs, j);
        let f = choose|f: int| 0 <= f <= j && first_of_movie(term, rs, f) && rs[f].tmdb_id == rs[j].tmdb_id;
        assert(0 <= f <= i && first_of_movie(term, rs, f) && rs[f].tmdb_id == rs[i].tmdb_id);
    }
}

/// The first place at or after `m` where `r` is not after the kept result.
pub open spec fn place_from(rs: Seq<SearchResult>, kept: Seq<usize>, r: SearchResult, m: int) -> int
    decreases kept.len() - m,
{
    if m >= kept.len() || m < 0 || !ordered_before(rs[kept[m] as int], r) {
        m
    } else {
        place_from(rs, kept, r, m + 1)
    }
}

proof fn lemma_place_from(rs: Seq<SearchResult>, kept: Seq<usize>, r: SearchResult, m: int)
    requires
        0 <= m <= kept.len(),
    ensures
        m <= place_from(rs, kept, r, m) <= kept.len(),
        forall|q: int|
            m <= q < place_from(rs, kept, r, m) ==> ordered_before(rs[#[trigger] kept[q] as int], r),
        place_from(rs, kept, r, m) < kept.len() ==> !ordered_before(
            rs[kept[place_from(rs, kept, r, m)] as int],
            r,
        ),
    decreases kept.len() - m,
{
    if m < kept.len() && ordered_before(rs[kept[m] as int], r) {
        lemma_place_from(rs, kept, r, m + 1);
    }
}

/// A kept sequence exists for the first `n` results: insertion builds one.
#[verifier::rlimit(40)]
proof fn lemma_kept_exists(term: (Seq<char>, Option<u32>), rs: Seq<SearchResult>, n: int)
    requires
        0 <= n <= rs.len() <= usize::MAX,
    ensures
        exists|kept: Seq<usize>| #[trigger] kept_inv(term, rs, kept, n),
    decreases n,
{
    if n == 0 {
        assert(kept_inv(term, rs, Seq::<usize>::empty(), 0));
    } else {
        lemma_kept_exists(term, rs, n - 1);
        let kept = choose|kept: Seq<usize>| #[trigger] kept_inv(term, rs, kept, n - 1);
        let i = n - 1;
        if result_matches(term, rs[i]) && !has_same_movie(rs, kept, rs[i]) {
            lemma_new_movie_is_first(term, rs, kept, i);
            lemma_place_from(rs, kept, rs[i], 0);
            let pos = place_from(rs, kept, rs[i], 0);
            lemma_insert_result(term, rs, kept, i as usize, pos);
            assert(kept_inv(term, rs, kept.insert(pos, i as usize), n));
        } else {
            lemma_skip_result(term, rs, kept, i);
        }
    }
}

/// A match order exists for results that can be indexed by `usize`.
pub proof fn lemma_match_order_exists(term: (Seq<char>, Option<u32>), rs: Seq<SearchResult>)
    requires
        rs.len() <= usize::MAX,
    ensures
        is_match_order(term, rs, match_order(term, rs)),
{
    lemma_kept_exists(term, rs, rs.len() as int);
    let kept = choose|kept: Seq<usize>| #[trigger] kept_inv(term, rs, kept, rs.len() as int);
    assert(is_match_order(term, rs, kept));
}

} // verus!

verus! {

/// The TMDB identifiers of the results in `rs` that match `term`.
pub open spec fn matching_ids(term: (Seq<char>, Option<u32>), rs: Seq<SearchResult>) -> Set<u32> {
    Set::new(
        |id: u32|
            exists|i: int| 0 <= i < rs.len() && result_matches(term, #[trigger] rs[i]) && rs[i].tmdb_id == id,
    )
}

/// `best_match` returns one result for each distinct matching movie: as many results as there
/// are distinct matching TMDB identifiers, each the first matching result of its movie; and a
/// unique match is the first result that matches at all.
pub proof fn lemma_best_match_movies(term: (Seq<char>, Option<u32>), rs: Seq<SearchResult>)
    requires
        rs.len() <= usize::MAX,
    ensures
        ({
            let ix = match_order(term, rs);
            let ms = ordered_matches(term, rs);
            &&& matching_ids(term, rs).finite()
            &&& ms.len() == matching_ids(term, rs).len()
            &&& forall|k: int|
                0 <= k < ms.len() ==> first_of_movie(term, rs, ix[k] as int) && #[trigger] ms[k]
                    == rs[ix[k] as int]
            &&& ms.len() == 1 ==> exists|i: int|
                0 <= i < rs.len() && result_matches(term, rs[i]) && (forall|j: int|
                    0 <= j < i ==> !result_matches(term, #[trigger] rs[j])) && ms[0] == rs[i]
        }),
{
    broadcast use vstd::seq_lib::seq_to_set_is_finite;

    let ix = match_order(term, rs);
    let ms = ordered_matches(term, rs);
    lemma_match_order_exists(term, rs);
    lemma_best_match_laws(term, rs);
    let ids = ms.map_values(|r: SearchResult| r.tmdb_id);
    assert(ids.no_duplicates()) by {
        assert forall|a: int, b: int| 0 <= a < ids.len() && 0 <= b < ids.len() && a != b implies ids[a]
            != ids[b] by {
            if a < b {
                assert(ms[a].tmdb_id != ms[b].tmdb_id);
            } else {
                assert(ms[b].tmdb_id != ms[a].tmdb_id);
            }
        }
    }
    ids.unique_seq_to_set();
    assert(ids.to_set() =~= matching_ids(term, rs)) by {
        assert forall|id: u32| ids.to_set().contains(id) implies matching_ids(term, rs).contains(id) by {
            let k = choose|k: int| 0 <= k < ids.len() && ids[k] == id;
            assert(first_of_movie(term, rs, ix[k] as int));
            assert(result_matches(term, rs[ix[k] as int]));
        }
        assert forall|id: u32| matching_ids(term, rs).contains(id) implies ids.to_set().contains(id) by {
            let i = choose|i: int|
                0 <= i < rs.len() && result_matches(term, #[trigger] rs[i]) && rs[i].tmdb_id == id;
            let k = choose|k: int| 0 <= k < ms.len() && ms[k].tmdb_id == rs[i].tmdb_id;
            assert(ids[k] == id);
        }
    }
    if ms.len() == 1 {
        let i = ix[0] as int;
        assert(first_of_movie(term, rs, i));
        assert forall|j: int| 0 <= j < i implies !result_matches(term, #[trigger] rs[j]) by {
            if result_matches(term, rs[j]) {
                lemma_first_of_movie_exists(term, rs, j);
                let f = choose|f: int|
                    0 <= f <= j && first_of_movie(term, rs, f) && rs[f].tmdb_id == rs[j].tmdb_id;
                assert(ix.contains(f as usize));
                let k = choose|k: int| 0 <= k < ix.len() && ix[k] == f as usize;
                assert(k == 0);
            }
        }
        assert(ms[0] == rs[i]);
    }
}

} // verus!

verus! {

/// A result whose primary title, or any one of its alternative titles, equals the search title
/// ignoring case, and whose year agrees where the search title has one, has its movie among the
/// movies that `best_match` returns.
pub proof fn lemma_any_title_of_a_result_matches(
    term: (Seq<char>, Option<u32>),
    rs: Seq<SearchResult>,
    i: int,
    j: int,
)
    requires
        rs.len() <= usize::MAX,
        0 <= i < rs.len(),
        lowercase(rs[i].title@) == lowercase(term.0) || (0 <= j < rs[i].alternate_titles@.len()
            && lowercase(rs[i].alternate_titles@[j].title@) == lowercase(term.0)),
        term.1 matches Some(y) ==> rs[i].year == y,
    ensures
        exists|k: int|
            0 <= k < ordered_matches(term, rs).len() && (#[trigger] ordered_matches(term, rs)[k]).tmdb_id
                == rs[i].tmdb_id,
{
    lemma_best_match_laws(term, rs);
    if lowercase(rs[i].title@) != lowercase(term.0) {
        assert(lowercase(rs[i].alternate_titles@[j].title@) == lowercase(term.0));
    }
    assert(result_matches(term, rs[i]));
}

} // verus!
