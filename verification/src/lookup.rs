//! Plain title filtering of schedules and lookup results, without year or movie deduplication.
use vstd::prelude::*;

use crate::alamo_movies::Presentation;
use crate::matching::title_matches;
use crate::radarr::SearchResult;
use crate::text::{lowercase, to_lowercase};
use crate::titles::{is_target, is_target_presentation};

verus! {

/// The results of `rs` whose primary or an alternative title equals `term`, ignoring case,
/// in their order.
pub open spec fn title_matching_results(term: Seq<char>, rs: Seq<SearchResult>) -> Seq<SearchResult>
    decreases rs.len(),
{
    if rs.len() == 0 {
        Seq::empty()
    } else {
        let prev = title_matching_results(term, rs.drop_last());
        if title_matches(term, rs.last()) {
            prev.push(rs.last())
        } else {
            prev
        }
    }
}

/// Whether `r` matches `term` by primary or alternative title, ignoring case.
fn title_matches_exec(lower: &String, r: &SearchResult, term: &str) -> (b: bool)
    requires
        lower@ == lowercase(term@),
    ensures
        b == title_matches(term@, *r),
{
    if to_lowercase(r.title.as_str()) == *lower {
        return true;
    }
    let mut j: usize = 0;
    while j < r.alternate_titles.len()
        invariant
            j <= r.alternate_titles@.len(),
            lower@ == lowercase(term@),
            forall|m: int|
                0 <= m < j ==> lowercase(#[trigger] r.alternate_titles@[m].title@) != lowercase(
                    term@,
                ),
        decreases r.alternate_titles.len() - j,
    {
        if to_lowercase(r.alternate_titles[j].title.as_str()) == *lower {
            assert(lowercase(r.alternate_titles@[j as int].title@) == lowercase(term@));
            return true;
        }
        j = j + 1;
    }
    false
}

/// Keeps the results whose primary or alternative title equals `term`, ignoring case;
/// `None` when there is none.
pub fn best_matches(term: &str, results: Vec<SearchResult>) -> (r: Option<Vec<SearchResult>>)
    ensures
        match r {
            None => title_matching_results(term@, results@).len() == 0,
            Some(v) => v@ == title_matching_results(term@, results@) && v@.len() > 0,
        },
{
    let lower = to_lowercase(term);
    let ghost all = results@;
    let mut kept: Vec<SearchResult> = Vec::new();
    let mut rest = results;
    let mut reversed: Vec<SearchResult> = Vec::new();
    // Move the results out from the back, then take them in their given order.
    while rest.len() > 0
        invariant
            all == rest@ + reversed@.reverse(),
        decreases rest.len(),
    {
        let x = rest.pop().unwrap();
        reversed.push(x);
        assert(all =~= rest@ + reversed@.reverse());
    }
    assert(all =~= reversed@.reverse());
    while reversed.len() > 0
        invariant
            all =~= kept_source(all, reversed@.len()) + reversed@.reverse(),
            lower@ == lowercase(term@),
            kept@ == title_matching_results(term@, kept_source(all, reversed@.len())),
            reversed@.len() <= all.len(),
        decreases reversed.len(),
    {
        let ghost before = reversed@;
        let x = reversed.pop().unwrap();
        let ghost taken = kept_source(all, before.len());
        assert(kept_source(all, reversed@.len()) =~= taken.push(x)) by {
            assert(before.reverse()[0] == x);
            assert(all[taken.len() as int] == x);
        }
        assert(kept_source(all, reversed@.len()).drop_last() =~= taken);
        if title_matches_exec(&lower, &x, term) {
            kept.push(x);
        }
        assert(all =~= kept_source(all, reversed@.len()) + reversed@.reverse());
    }
    assert(kept_source(all, 0) =~= all);
    if kept.len() == 0 {
        None
    } else {
        Some(kept)
    }
}

/// The first results of `all`, up to the point where `remaining` are left.
pub open spec fn kept_source(all: Seq<SearchResult>, remaining: nat) -> Seq<SearchResult> {
    all.take(all.len() - remaining)
}

/// The presentations of `ps` that belong to a target collection, in their order.
pub open spec fn target_only(ps: Seq<Presentation>) -> Seq<Presentation>
    decreases ps.len(),
{
    if ps.len() == 0 {
        Seq::empty()
    } else {
        let prev = target_only(ps.drop_last());
        if is_target(ps.last()) {
            prev.push(ps.last())
        } else {
            prev
        }
    }
}

/// Keeps the presentations that belong to a target collection.
pub fn target_presentations(presentations: Vec<Presentation>) -> (r: Vec<Presentation>)
    ensures
        r@ == target_only(presentations@),
{
    let ghost all = presentations@;
    let mut rest = presentations;
    let mut reversed: Vec<Presentation> = Vec::new();
    while rest.len() > 0
        invariant
            all == rest@ + reversed@.reverse(),
        decreases rest.len(),
    {
        let x = rest.pop().unwrap();
        reversed.push(x);
        assert(all =~= rest@ + reversed@.reverse());
    }
    assert(all =~= reversed@.reverse());
    let mut kept: Vec<Presentation> = Vec::new();
    while reversed.len() > 0
        invariant
            all =~= all.take(all.len() - reversed@.len()) + reversed@.reverse(),
            kept@ == target_only(all.take(all.len() - reversed@.len())),
            reversed@.len() <= all.len(),
        decreases reversed.len(),
    {
        let ghost before = reversed@;
        let x = reversed.pop().unwrap();
        let ghost taken = all.take(all.len() - before.len());
        assert(all.take(all.len() - reversed@.len()) =~= taken.push(x)) by {
            assert(before.reverse()[0] == x);
            assert(all[taken.len() as int] == x);
        }
        assert(all.take(all.len() - reversed@.len()).drop_last() =~= taken);
        if is_target_presentation(&x) {
            kept.push(x);
        }
        assert(all =~= all.take(all.len() - reversed@.len()) + reversed@.reverse());
    }
    assert(all.take(all.len() as int) =~= all);
    kept
}

} // verus!

verus! {

/// A result whose primary title, or any one of its alternative titles, equals `term` ignoring
/// case is kept by `best_matches`.
pub proof fn lemma_any_title_keeps_a_result(term: Seq<char>, rs: Seq<SearchResult>, i: int, j: int)
    requires
        0 <= i < rs.len(),
        lowercase(rs[i].title@) == lowercase(term) || (0 <= j < rs[i].alternate_titles@.len()
            && lowercase(rs[i].alternate_titles@[j].title@) == lowercase(term)),
    ensures
        title_matching_results(term, rs).contains(rs[i]),
    decreases rs.len(),
{
    if lowercase(rs[i].title@) != lowercase(term) {
        assert(lowercase(rs[i].alternate_titles@[j].title@) == lowercase(term));
    }
    assert(title_matches(term, rs[i]));
    if i == rs.len() - 1 {
        let u = title_matching_results(term, rs);
        assert(u[u.len() - 1] == rs.last());
    } else {
        assert(rs.drop_last()[i] == rs[i]);
        lemma_any_title_keeps_a_result(term, rs.drop_last(), i, j);
        let prev = title_matching_results(term, rs.drop_last());
        let u = title_matching_results(term, rs);
        let m = choose|m: int| 0 <= m < prev.len() && prev[m] == rs[i];
        assert(u[m] == prev[m]);
    }
}

} // verus!
