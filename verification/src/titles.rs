//! Normalization of Alamo display titles and selection of eligible presentations.
use vstd::prelude::*;

use crate::alamo_movies::Presentation;
use crate::text::{
    chars_of, is_white_space, lowercase, occurs_at, skip_white_space_backward,
    skip_white_space_forward, to_lowercase, trim, trim_end, trim_start,
};

verus! {

/// A normalized movie title and optional release year parsed from an Alamo title.
#[derive(Clone, Debug, PartialEq, Eq)]
pub struct MovieTitle {
    /// The normalized title used for Radarr searches and comparisons.
    pub title: String,
    /// The release year parsed from the Alamo title, when present.
    pub year: Option<u32>,
}

impl View for MovieTitle {
    type V = (Seq<char>, Option<u32>);

    open spec fn view(&self) -> (Seq<char>, Option<u32>) {
        (self.title@, self.year)
    }
}

/// The Alamo collection slugs whose presentations are eligible for synchronization.
pub open spec fn target_collections() -> Seq<Seq<char>> {
    seq![
        "terror-tuesday"@,
        "weird-wednesday"@,
        "video-vortex"@,
        "horror-show"@,
        "film-club"@,
        "world-of-animation"@,
        "graveyard-shift"@,
        "psycho-cinema"@,
    ]
}

/// Event labels that Alamo puts in front of a title.
pub open spec fn title_prefixes() -> Seq<Seq<char>> {
    seq![
        "TERROR TUESDAY: "@,
        "WEIRD WEDNESDAY: "@,
        "VIDEO VORTEX: "@,
        "HORROR SHOW: "@,
        "FILM CLUB: "@,
        "WORLD OF ANIMATION: "@,
        "GRAVEYARD SHIFT: "@,
        "PSYCHO CINEMA: "@,
    ]
}

/// Language, restoration, cut and anniversary labels that Alamo puts after a title.
pub open spec fn title_suffixes() -> Seq<Seq<char>> {
    seq![
        " (Dubbed)"@,
        " (Subtitled)"@,
        " (4K Restoration)"@,
        " - 4K RESTORATION"@,
        " (Director's Cut)"@,
        ": The Final Cut"@,
        " 35th Anniversary"@,
    ]
}

/// The first of `prefixes` that begins `s`, if any.
pub open spec fn find_prefix(prefixes: Seq<Seq<char>>, s: Seq<char>) -> Option<Seq<char>>
    decreases prefixes.len(),
{
    if prefixes.len() == 0 {
        None
    } else if prefixes[0].is_prefix_of(s) {
        Some(prefixes[0])
    } else {
        find_prefix(prefixes.drop_first(), s)
    }
}

/// The first of `suffixes` that ends `s`, if any.
pub open spec fn find_suffix(suffixes: Seq<Seq<char>>, s: Seq<char>) -> Option<Seq<char>>
    decreases suffixes.len(),
{
    if suffixes.len() == 0 {
        None
    } else if suffixes[0].is_suffix_of(s) {
        Some(suffixes[0])
    } else {
        find_suffix(suffixes.drop_first(), s)
    }
}

/// `s` without the first known event prefix that begins it, and the white space after it.
pub open spec fn strip_event_prefix(s: Seq<char>) -> Seq<char> {
    match find_prefix(title_prefixes(), s) {
        Some(p) => trim_start(s.skip(p.len() as int)),
        None => s,
    }
}

/// `s` after known suffixes are removed, one after another, each with the white space before it.
pub open spec fn strip_known_suffixes(s: Seq<char>) -> Seq<char>
    decreases s.len(),
{
    match find_suffix(title_suffixes(), s) {
        Some(x) => if x.len() > 0 {
            proof {
                lemma_find_suffix_sound(title_suffixes(), s);
                lemma_trim_end_len(s.take(s.len() - x.len()));
            }
            strip_known_suffixes(trim_end(s.take(s.len() - x.len())))
        } else {
            s
        },
        None => s,
    }
}

/// Whether `c` is one of the ASCII digits `0`..`9`.
pub open spec fn is_ascii_digit(c: char) -> bool {
    '0' <= c <= '9'
}

/// The value of an ASCII digit.
pub open spec fn digit_value(c: char) -> int {
    c as int - '0' as int
}

/// Whether `s` ends with a space, `(`, four ASCII digits and `)`: a release-year suffix.
pub open spec fn has_year_suffix(s: Seq<char>) -> bool {
    let n = s.len() as int;
    &&& n >= 7
    &&& s[n - 7] == ' '
    &&& s[n - 6] == '('
    &&& is_ascii_digit(s[n - 5])
    &&& is_ascii_digit(s[n - 4])
    &&& is_ascii_digit(s[n - 3])
    &&& is_ascii_digit(s[n - 2])
    &&& s[n - 1] == ')'
}

/// The year written by the four digits of a release-year suffix of `s`.
pub open spec fn year_suffix_value(s: Seq<char>) -> int {
    let n = s.len() as int;
    1000 * digit_value(s[n - 5]) + 100 * digit_value(s[n - 4]) + 10 * digit_value(s[n - 3])
        + digit_value(s[n - 2])
}

/// Splits a trailing ` (YYYY)` release year off `s`.
pub open spec fn split_year(s: Seq<char>) -> (Seq<char>, Option<u32>) {
    if has_year_suffix(s) {
        (trim_end(s.take(s.len() - 7)), Some(year_suffix_value(s) as u32))
    } else {
        (s, None)
    }
}

/// The normalized title and release year of an Alamo display title: known labels are removed
/// both after the title and in front of its release year.
pub open spec fn parsed_title(s: Seq<char>) -> (Seq<char>, Option<u32>) {
    let (t, year) = split_year(strip_known_suffixes(strip_event_prefix(trim(s))));
    (strip_known_suffixes(t), year)
}

/// Trimming the end never makes a sequence longer.
pub proof fn lemma_trim_end_len(s: Seq<char>)
    ensures
        trim_end(s).len() <= s.len(),
    decreases s.len(),
{
    if s.len() > 0 && is_white_space(s.last()) {
        lemma_trim_end_len(s.drop_last());
    }
}

/// A suffix that `find_suffix` reports does end `s`.
pub proof fn lemma_find_suffix_sound(suffixes: Seq<Seq<char>>, s: Seq<char>)
    ensures
        find_suffix(suffixes, s) matches Some(x) ==> x.is_suffix_of(s),
    decreases suffixes.len(),
{
    if suffixes.len() > 0 && !suffixes[0].is_suffix_of(s) {
        lemma_find_suffix_sound(suffixes.drop_first(), s);
    }
}

/// Every known suffix has at least one character.
pub proof fn lemma_title_suffixes_nonempty()
    ensures
        forall|k: int| 0 <= k < title_suffixes().len() ==> #[trigger] title_suffixes()[k].len() > 0,
{
    reveal_strlit(" (Dubbed)");
    reveal_strlit(" (Subtitled)");
    reveal_strlit(" (4K Restoration)");
    reveal_strlit(" - 4K RESTORATION");
    reveal_strlit(" (Director's Cut)");
    reveal_strlit(": The Final Cut");
    reveal_strlit(" 35th Anniversary");
}

/// The characters of each event prefix, in table order.
fn title_prefix_table() -> (r: Vec<Vec<char>>)
    ensures
        r@.len() == title_prefixes().len(),
        forall|k: int| 0 <= k < r@.len() ==> #[trigger] r@[k]@ == title_prefixes()[k],
{
    let mut r: Vec<Vec<char>> = Vec::new();
    r.push(chars_of("TERROR TUESDAY: "));
    r.push(chars_of("WEIRD WEDNESDAY: "));
    r.push(chars_of("VIDEO VORTEX: "));
    r.push(chars_of("HORROR SHOW: "));
    r.push(chars_of("FILM CLUB: "));
    r.push(chars_of("WORLD OF ANIMATION: "));
    r.push(chars_of("GRAVEYARD SHIFT: "));
    r.push(chars_of("PSYCHO CINEMA: "));
    r
}

/// The characters of each known suffix, in table order.
fn title_suffix_table() -> (r: Vec<Vec<char>>)
    ensures
        r@.len() == title_suffixes().len(),
        forall|k: int| 0 <= k < r@.len() ==> #[trigger] r@[k]@ == title_suffixes()[k],
{
    let mut r: Vec<Vec<char>> = Vec::new();
    r.push(chars_of(" (Dubbed)"));
    r.push(chars_of(" (Subtitled)"));
    r.push(chars_of(" (4K Restoration)"));
    r.push(chars_of(" - 4K RESTORATION"));
    r.push(chars_of(" (Director's Cut)"));
    r.push(chars_of(": The Final Cut"));
    r.push(chars_of(" 35th Anniversary"));
    r
}

/// The length of the first event prefix that begins `chars[lo..hi]`, if any.
fn find_prefix_len(chars: &Vec<char>, lo: usize, hi: usize) -> (r: Option<usize>)
    requires
        lo <= hi <= chars.len(),
    ensures
        match find_prefix(title_prefixes(), chars@.subrange(lo as int, hi as int)) {
            Some(p) => r == Some(p.len() as usize) && lo + p.len() <= hi,
            None => r is None,
        },
{
    let table = title_prefix_table();
    let ghost s = chars@.subrange(lo as int, hi as int);
    let mut k: usize = 0;
    assert(title_prefixes().skip(0) =~= title_prefixes());
    while k < table.len()
        invariant
            lo <= hi <= chars.len(),
            s == chars@.subrange(lo as int, hi as int),
            k <= table@.len() == title_prefixes().len(),
            forall|m: int| 0 <= m < table@.len() ==> #[trigger] table@[m]@ == title_prefixes()[m],
            find_prefix(title_prefixes(), s) == find_prefix(title_prefixes().skip(k as int), s),
        decreases table.len() - k,
    {
        let ghost rest = title_prefixes().skip(k as int);
        assert(rest[0] == title_prefixes()[k as int]);
        assert(rest.drop_first() =~= title_prefixes().skip(k + 1));
        let p = &table[k];
        if p.len() <= hi - lo && occurs_at(chars, lo, p) {
            assert(chars@.subrange(lo as int, lo + p.len()) =~= s.subrange(0, p.len() as int));
            return Some(p.len());
        }
        assert(!rest[0].is_prefix_of(s)) by {
            if rest[0].is_prefix_of(s) {
                assert(chars@.subrange(lo as int, lo + p.len()) =~= s.subrange(0, p.len() as int));
            }
        }
        k = k + 1;
    }
    assert(title_prefixes().skip(k as int).len() == 0);
    None
}

/// The length of the first known suffix that ends `chars[lo..hi]`, if any.
fn find_suffix_len(chars: &Vec<char>, lo: usize, hi: usize) -> (r: Option<usize>)
    requires
        lo <= hi <= chars.len(),
    ensures
        match find_suffix(title_suffixes(), chars@.subrange(lo as int, hi as int)) {
            Some(x) => r == Some(x.len() as usize) && x.len() > 0 && lo + x.len() <= hi,
            None => r is None,
        },
{
    proof {
        lemma_title_suffixes_nonempty();
    }
    let table = title_suffix_table();
    let ghost s = chars@.subrange(lo as int, hi as int);
    let mut k: usize = 0;
    assert(title_suffixes().skip(0) =~= title_suffixes());
    while k < table.len()
        invariant
            lo <= hi <= chars.len(),
            s == chars@.subrange(lo as int, hi as int),
            k <= table@.len() == title_suffixes().len(),
            forall|m: int| 0 <= m < table@.len() ==> #[trigger] table@[m]@ == title_suffixes()[m],
            forall|m: int|
                0 <= m < title_suffixes().len() ==> #[trigger] title_suffixes()[m].len() > 0,
            find_suffix(title_suffixes(), s) == find_suffix(title_suffixes().skip(k as int), s),
        decreases table.len() - k,
    {
        let ghost rest = title_suffixes().skip(k as int);
        assert(rest[0] == title_suffixes()[k as int]);
        assert(rest.drop_first() =~= title_suffixes().skip(k + 1));
        let x = &table[k];
        if x.len() <= hi - lo && occurs_at(chars, hi - x.len(), x) {
            assert(chars@.subrange(hi - x.len(), hi as int) =~= s.subrange(
                s.len() - x.len(),
                s.len() as int,
            ));
            return Some(x.len());
        }
        assert(!rest[0].is_suffix_of(s)) by {
            if rest[0].is_suffix_of(s) {
                assert(chars@.subrange(hi - x.len(), hi as int) =~= s.subrange(
                    s.len() - x.len(),
                    s.len() as int,
                ));
            }
        }
        k = k + 1;
    }
    assert(title_suffixes().skip(k as int).len() == 0);
    None
}

/// Stripping known suffixes twice gives what stripping them once gives.
pub proof fn lemma_strip_known_suffixes_idempotent(s: Seq<char>)
    ensures
        strip_known_suffixes(strip_known_suffixes(s)) == strip_known_suffixes(s),
    decreases s.len(),
{
    lemma_find_suffix_sound(title_suffixes(), s);
    match find_suffix(title_suffixes(), s) {
        Some(x) => if x.len() > 0 {
            lemma_trim_end_len(s.take(s.len() - x.len()));
            lemma_strip_known_suffixes_idempotent(trim_end(s.take(s.len() - x.len())));
        },
        None => {},
    }
}

/// The end of `chars[lo..hi]` once known suffixes are removed from it.
fn strip_suffixes_in(chars: &Vec<char>, lo: usize, end: usize) -> (r: usize)
    requires
        lo <= end <= chars.len(),
    ensures
        lo <= r <= end,
        chars@.subrange(lo as int, r as int) == strip_known_suffixes(
            chars@.subrange(lo as int, end as int),
        ),
{
    let ghost start = chars@.subrange(lo as int, end as int);
    let mut hi = end;
    loop
        invariant
            lo <= hi <= end <= chars.len(),
            start == chars@.subrange(lo as int, end as int),
            strip_known_suffixes(start) == strip_known_suffixes(
                chars@.subrange(lo as int, hi as int),
            ),
        ensures
            lo <= hi <= end,
            strip_known_suffixes(start) == chars@.subrange(lo as int, hi as int),
        decreases hi,
    {
        match find_suffix_len(chars, lo, hi) {
            Some(n) => {
                let ghost w = chars@.subrange(lo as int, hi as int);
                assert(w.take(w.len() - n) =~= chars@.subrange(lo as int, hi - n));
                hi = skip_white_space_backward(chars, lo, hi - n);
            },
            None => {
                break ;
            },
        }
    }
    hi
}

/// Parses an Alamo display title into a normalized title and optional release year.
#[verifier::rlimit(40)]
pub fn parse_title(title: &str) -> (r: MovieTitle)
    ensures
        r@ == parsed_title(title@),
{
    let chars = chars_of(title);
    let ghost all = chars@;
    // Trim both ends.
    let mut lo = skip_white_space_forward(&chars, 0, chars.len());
    let mut hi = skip_white_space_backward(&chars, lo, chars.len());
    assert(all.subrange(0, all.len() as int) =~= title@);
    assert(chars@.subrange(lo as int, hi as int) == trim(title@));
    // Remove the first matching event prefix.
    match find_prefix_len(&chars, lo, hi) {
        Some(n) => {
            assert(chars@.subrange(lo as int, hi as int).skip(n as int) =~= chars@.subrange(
                lo + n,
                hi as int,
            ));
            lo = skip_white_space_forward(&chars, lo + n, hi);
        },
        None => {},
    }
    assert(chars@.subrange(lo as int, hi as int) == strip_event_prefix(trim(title@)));
    let ghost stripped = strip_event_prefix(trim(title@));
    // Remove known suffixes for as long as one matches.
    hi = strip_suffixes_in(&chars, lo, hi);
    let ghost t = chars@.subrange(lo as int, hi as int);
    // Split off a trailing release year.
    let mut year: Option<u32> = None;
    if hi - lo >= 7 && chars[hi - 7] == ' ' && chars[hi - 6] == '(' && '0' <= chars[hi - 5]
        && chars[hi - 5] <= '9' && '0' <= chars[hi - 4] && chars[hi - 4] <= '9' && '0' <= chars[hi
        - 3] && chars[hi - 3] <= '9' && '0' <= chars[hi - 2] && chars[hi - 2] <= '9' && chars[hi
        - 1] == ')' {
        assert(has_year_suffix(t));
        let d0 = (chars[hi - 5] as u32) - ('0' as u32);
        let d1 = (chars[hi - 4] as u32) - ('0' as u32);
        let d2 = (chars[hi - 3] as u32) - ('0' as u32);
        let d3 = (chars[hi - 2] as u32) - ('0' as u32);
        year = Some(1000 * d0 + 100 * d1 + 10 * d2 + d3);
        assert(t.take(t.len() - 7) =~= chars@.subrange(lo as int, hi - 7));
        hi = skip_white_space_backward(&chars, lo, hi - 7);
        // Remove the known labels in front of the year as well.
        hi = strip_suffixes_in(&chars, lo, hi);
    } else {
        assert(!has_year_suffix(t));
        proof {
            lemma_strip_known_suffixes_idempotent(stripped);
        }
    }
    let s = title.substring_char(lo, hi);
    MovieTitle { title: String::from_str(s), year }
}

/// Removes known Alamo decorations and a trailing release year from `title`.
pub fn clean_title(title: &str) -> (r: String)
    ensures
        r@ == parsed_title(title@).0,
{
    parse_title(title).title
}

} // verus!

verus! {

/// Alamo collection slugs whose presentations are eligible for synchronization.
pub const TARGET_COLLECTIONS: [&'static str; 8] = [
    "terror-tuesday",
    "weird-wednesday",
    "video-vortex",
    "horror-show",
    "film-club",
    "world-of-animation",
    "graveyard-shift",
    "psycho-cinema",
];

/// Whether `p` belongs to one of the target collections.
pub open spec fn is_target(p: Presentation) -> bool {
    match p.primary_collection_slug {
        Some(slug) => target_collections().contains(slug@),
        None => false,
    }
}

/// Returns whether a presentation belongs to one of [`TARGET_COLLECTIONS`].
pub fn is_target_presentation(presentation: &Presentation) -> (r: bool)
    ensures
        r == is_target(*presentation),
        r <==> (presentation.primary_collection_slug matches Some(slug) && alamo_collections().contains(
            slug@,
        )),
{
    proof {
        lemma_target_collections();
    }
    match &presentation.primary_collection_slug {
        None => false,
        Some(slug) => {
            let table = TARGET_COLLECTIONS;
            assert(table@.map_values(|s: &str| s@) =~= target_collections());
            let mut k: usize = 0;
            while k < 8
                invariant
                    presentation.primary_collection_slug == Some(*slug),
                    k <= 8,
                    table@.map_values(|s: &str| s@) == target_collections(),
                    forall|m: int| 0 <= m < k ==> target_collections()[m] != slug@,
                decreases 8 - k,
            {
                if crate::text::same_text(slug.as_str(), table[k]) {
                    assert(target_collections()[k as int] == slug@);
                    assert(target_collections().contains(slug@));
                    return true;
                }
                k = k + 1;
            }
            false
        },
    }
}

} // verus!

verus! {

/// The key by which two normalized titles count as the same movie:
/// the lower-cased title and the release year.
pub open spec fn title_key(t: (Seq<char>, Option<u32>)) -> (Seq<char>, Option<u32>) {
    (lowercase(t.0), t.1)
}

/// The keys of a sequence of normalized titles.
pub open spec fn title_keys(s: Seq<(Seq<char>, Option<u32>)>) -> Seq<(Seq<char>, Option<u32>)> {
    s.map_values(|u: (Seq<char>, Option<u32>)| title_key(u))
}

/// The titles that `unique_titles` keeps from `ps`: each eligible presentation's
/// non-empty normalized title, unless an earlier kept title has the same key.
pub open spec fn unique_title_views(ps: Seq<Presentation>) -> Seq<(Seq<char>, Option<u32>)>
    decreases ps.len(),
{
    if ps.len() == 0 {
        Seq::empty()
    } else {
        let prev = unique_title_views(ps.drop_last());
        let p = ps.last();
        let t = parsed_title(p.show.title@);
        if is_target(p) && t.0.len() > 0 && !title_keys(prev).contains(title_key(t)) {
            prev.push(t)
        } else {
            prev
        }
    }
}

/// Whether two optional years are the same.
fn same_year(a: Option<u32>, b: Option<u32>) -> (r: bool)
    ensures
        r == (a == b),
{
    match (a, b) {
        (Some(x), Some(y)) => x == y,
        (None, None) => true,
        _ => false,
    }
}

/// Filters eligible presentations and returns normalized, deduplicated movie titles.
pub fn unique_titles(presentations: Vec<Presentation>) -> (r: Vec<MovieTitle>)
    ensures
        r@.map_values(|m: MovieTitle| m@) == unique_title_views(presentations@),
{
    let mut r: Vec<MovieTitle> = Vec::new();
    let mut seen: Vec<(String, Option<u32>)> = Vec::new();
    let mut i: usize = 0;
    while i < presentations.len()
        invariant
            i <= presentations@.len(),
            seen@.len() == r@.len(),
            r@.map_values(|m: MovieTitle| m@) == unique_title_views(presentations@.take(i as int)),
            forall|j: int|
                0 <= j < seen@.len() ==> (#[trigger] seen@[j]).0@ == lowercase(r@[j].title@)
                    && seen@[j].1 == r@[j].year,
        decreases presentations.len() - i,
    {
        let ghost prefix = presentations@.take(i as int);
        let ghost prev = unique_title_views(prefix);
        assert(presentations@.take(i + 1).drop_last() =~= prefix);
        assert(presentations@.take(i + 1).last() == presentations@[i as int]);
        let p = &presentations[i];
        if is_target_presentation(p) {
            let movie = parse_title(p.show.title.as_str());
            if movie.title.as_str().unicode_len() > 0 {
                let lower = to_lowercase(movie.title.as_str());
                let mut found = false;
                let mut j: usize = 0;
                while j < seen.len()
                    invariant
                        j <= seen@.len() == r@.len(),
                        r@.map_values(|m: MovieTitle| m@) == prev,
                        forall|k: int|
                            0 <= k < seen@.len() ==> (#[trigger] seen@[k]).0@ == lowercase(
                                r@[k].title@,
                            ) && seen@[k].1 == r@[k].year,
                        found <==> exists|k: int|
                            0 <= k < j && #[trigger] title_key(prev[k]) == title_key(movie@),
                        lower@ == lowercase(movie.title@),
                    decreases seen.len() - j,
                {
                    assert(prev[j as int] == r@[j as int]@);
                    let same = seen[j].0 == lower && same_year(seen[j].1, movie.year);
                    assert(same == (title_key(prev[j as int]) == title_key(movie@)));
                    if same {
                        found = true;
                    }
                    j = j + 1;
                }
                proof {
                    if found {
                        let k = choose|k: int|
                            0 <= k < seen@.len() && #[trigger] title_key(prev[k]) == title_key(
                                movie@,
                            );
                        assert(title_keys(prev)[k] == title_key(movie@));
                    } else {
                        assert forall|k: int| 0 <= k < prev.len() implies #[trigger] title_keys(
                            prev,
                        )[k] != title_key(movie@) by {
                            assert(title_key(prev[k]) != title_key(movie@));
                        }
                    }
                }
                if !found {
                    proof {
                        assert(movie.title@.len() > 0);
                    }
                    seen.push((lower, movie.year));
                    r.push(movie);
                    assert(r@.map_values(|m: MovieTitle| m@) =~= prev.push(movie@));
                }
            }
        }
        i = i + 1;
    }
    assert(presentations@.take(i as int) =~= presentations@);
    r
}

} // verus!

verus! {

/// No two titles that `unique_titles` keeps share a lower-cased title and year:
/// a movie shown in several markets is searched for once.
pub proof fn lemma_unique_titles_distinct(ps: Seq<Presentation>)
    ensures
        forall|i: int, j: int|
            0 <= i < j < unique_title_views(ps).len() ==> title_key(
                #[trigger] unique_title_views(ps)[i],
            ) != title_key(#[trigger] unique_title_views(ps)[j]),
    decreases ps.len(),
{
    if ps.len() > 0 {
        lemma_unique_titles_distinct(ps.drop_last());
        let prev = unique_title_views(ps.drop_last());
        let u = unique_title_views(ps);
        if u.len() > prev.len() {
            assert forall|i: int, j: int| 0 <= i < j < u.len() implies title_key(#[trigger] u[i])
                != title_key(#[trigger] u[j]) by {
                if j == u.len() - 1 {
                    assert(title_keys(prev)[i] == title_key(prev[i]));
                } else {
                    assert(u[i] == prev[i] && u[j] == prev[j]);
                }
            }
        }
    }
}

/// Every title that `unique_titles` keeps is non-empty and is the normalized title of an
/// eligible presentation.
pub proof fn lemma_unique_titles_sound(ps: Seq<Presentation>)
    ensures
        forall|i: int|
            0 <= i < unique_title_views(ps).len() ==> (#[trigger] unique_title_views(ps)[i]).0.len()
                > 0 && exists|k: int|
                0 <= k < ps.len() && is_target(ps[k]) && parsed_title(ps[k].show.title@)
                    == unique_title_views(ps)[i],
    decreases ps.len(),
{
    if ps.len() > 0 {
        lemma_unique_titles_sound(ps.drop_last());
        let prev = unique_title_views(ps.drop_last());
        let u = unique_title_views(ps);
        assert forall|i: int| 0 <= i < u.len() implies (#[trigger] u[i]).0.len() > 0 && exists|
            k: int,
        |
            0 <= k < ps.len() && is_target(ps[k]) && parsed_title(ps[k].show.title@) == u[i] by {
            if i < prev.len() {
                assert(u[i] == prev[i]);
                let k = choose|k: int|
                    0 <= k < ps.drop_last().len() && is_target(ps.drop_last()[k]) && parsed_title(
                        ps.drop_last()[k].show.title@,
                    ) == prev[i];
                assert(ps[k] == ps.drop_last()[k]);
            } else {
                assert(ps[ps.len() - 1] == ps.last());
            }
        }
    }
}

/// Every eligible presentation with a non-empty normalized title is represented, by its key,
/// among the titles that `unique_titles` keeps.
pub proof fn lemma_unique_titles_complete(ps: Seq<Presentation>, k: int)
    requires
        0 <= k < ps.len(),
        is_target(ps[k]),
        parsed_title(ps[k].show.title@).0.len() > 0,
    ensures
        title_keys(unique_title_views(ps)).contains(title_key(parsed_title(ps[k].show.title@))),
    decreases ps.len(),
{
    let prev = unique_title_views(ps.drop_last());
    let u = unique_title_views(ps);
    let key = title_key(parsed_title(ps[k].show.title@));
    if k < ps.len() - 1 {
        assert(ps.drop_last()[k] == ps[k]);
        lemma_unique_titles_complete(ps.drop_last(), k);
        let m = choose|m: int| 0 <= m < title_keys(prev).len() && title_keys(prev)[m] == key;
        assert(u.len() >= prev.len());
        assert(u[m] == prev[m]);
        assert(title_keys(u)[m] == key);
    } else {
        assert(ps.last() == ps[k]);
        if title_keys(prev).contains(key) {
            let m = choose|m: int| 0 <= m < title_keys(prev).len() && title_keys(prev)[m] == key;
            assert(u[m] == prev[m]);
            assert(title_keys(u)[m] == key);
        } else {
            assert(u[u.len() - 1] == parsed_title(ps[k].show.title@));
            assert(title_keys(u)[u.len() - 1] == key);
        }
    }
}

} // verus!

verus! {

/// Whether `s` neither begins nor ends with white space.
pub open spec fn is_trimmed(s: Seq<char>) -> bool {
    s.len() > 0 ==> !is_white_space(s[0]) && !is_white_space(s.last())
}

/// `trim_end` keeps a prefix of `s` that does not end with white space.
proof fn lemma_trim_end_prefix(s: Seq<char>)
    ensures
        trim_end(s) =~= s.take(trim_end(s).len() as int),
        trim_end(s).len() <= s.len(),
        trim_end(s).len() > 0 ==> !is_white_space(trim_end(s).last()),
    decreases s.len(),
{
    if s.len() > 0 && is_white_space(s.last()) {
        lemma_trim_end_prefix(s.drop_last());
    }
}

/// `trim_start` keeps a suffix of `s` that does not begin with white space.
proof fn lemma_trim_start_suffix(s: Seq<char>)
    ensures
        trim_start(s) =~= s.skip(s.len() - trim_start(s).len()),
        trim_start(s).len() <= s.len(),
        trim_start(s).len() > 0 ==> !is_white_space(trim_start(s)[0]),
    decreases s.len(),
{
    if s.len() > 0 && is_white_space(s[0]) {
        lemma_trim_start_suffix(s.drop_first());
    }
}

/// Trimming the end of a sequence that does not begin with white space leaves it trimmed.
proof fn lemma_trim_end_trimmed(s: Seq<char>)
    requires
        s.len() > 0 ==> !is_white_space(s[0]),
    ensures
        is_trimmed(trim_end(s)),
{
    lemma_trim_end_prefix(s);
    if trim_end(s).len() > 0 {
        assert(trim_end(s)[0] == s[0]);
    }
}

/// A trimmed sequence is left as it is by trimming.
proof fn lemma_trimmed_trim(s: Seq<char>)
    requires
        is_trimmed(s),
    ensures
        trim_start(s) == s,
        trim_end(s) == s,
        trim(s) == s,
{
}

/// Removing known suffixes from a trimmed sequence leaves it trimmed.
proof fn lemma_strip_known_suffixes_trimmed(s: Seq<char>)
    requires
        is_trimmed(s),
    ensures
        is_trimmed(strip_known_suffixes(s)),
    decreases s.len(),
{
    lemma_find_suffix_sound(title_suffixes(), s);
    match find_suffix(title_suffixes(), s) {
        Some(x) => if x.len() > 0 {
            let t = s.take(s.len() - x.len());
            lemma_trim_end_len(t);
            if t.len() > 0 {
                assert(t[0] == s[0]);
            }
            lemma_trim_end_trimmed(t);
            lemma_strip_known_suffixes_trimmed(trim_end(t));
        },
        None => {},
    }
}

/// The first of `prefixes` that begins `s` is reported, if any does.
proof fn lemma_find_prefix_none(prefixes: Seq<Seq<char>>, s: Seq<char>)
    requires
        forall|k: int| 0 <= k < prefixes.len() ==> !(#[trigger] prefixes[k]).is_prefix_of(s),
    ensures
        find_prefix(prefixes, s) is None,
    decreases prefixes.len(),
{
    if prefixes.len() > 0 {
        assert(!prefixes[0].is_prefix_of(s));
        assert forall|k: int| 0 <= k < prefixes.drop_first().len() implies !(
        #[trigger] prefixes.drop_first()[k]).is_prefix_of(s) by {
            assert(prefixes.drop_first()[k] == prefixes[k + 1]);
        }
        lemma_find_prefix_none(prefixes.drop_first(), s);
    }
}

/// A prefix that `find_prefix` reports does begin `s`.
proof fn lemma_find_prefix_sound(prefixes: Seq<Seq<char>>, s: Seq<char>)
    ensures
        find_prefix(prefixes, s) matches Some(p) ==> p.is_prefix_of(s),
    decreases prefixes.len(),
{
    if prefixes.len() > 0 && !prefixes[0].is_prefix_of(s) {
        lemma_find_prefix_sound(prefixes.drop_first(), s);
    }
}

/// `find_suffix` reports nothing where none of `suffixes` ends `s`.
proof fn lemma_find_suffix_none(suffixes: Seq<Seq<char>>, s: Seq<char>)
    requires
        forall|k: int| 0 <= k < suffixes.len() ==> !(#[trigger] suffixes[k]).is_suffix_of(s),
    ensures
        find_suffix(suffixes, s) is None,
    decreases suffixes.len(),
{
    if suffixes.len() > 0 {
        assert(!suffixes[0].is_suffix_of(s));
        assert forall|k: int| 0 <= k < suffixes.drop_first().len() implies !(
        #[trigger] suffixes.drop_first()[k]).is_suffix_of(s) by {
            assert(suffixes.drop_first()[k] == suffixes[k + 1]);
        }
        lemma_find_suffix_none(suffixes.drop_first(), s);
    }
}

/// The normalized title is always trimmed: whichever of the event prefix, the known labels and
/// the release year were removed, it neither begins nor ends with white space.
pub proof fn lemma_parsed_title_trimmed(s: Seq<char>)
    ensures
        is_trimmed(parsed_title(s).0),
        trim(parsed_title(s).0) == parsed_title(s).0,
{
    // `trim(s)` is trimmed.
    let a0 = trim_start(s);
    lemma_trim_start_suffix(s);
    lemma_trim_end_trimmed(a0);
    let a = trim(s);
    // Removing the event prefix keeps it trimmed.
    let b = strip_event_prefix(a);
    lemma_find_prefix_sound(title_prefixes(), a);
    match find_prefix(title_prefixes(), a) {
        Some(p) => {
            let rest = a.skip(p.len() as int);
            lemma_trim_start_suffix(rest);
            if b.len() > 0 {
                assert(b.last() == rest.last());
                assert(rest.last() == a.last());
            }
        },
        None => {},
    }
    assert(is_trimmed(b));
    let c = strip_known_suffixes(b);
    lemma_strip_known_suffixes_trimmed(b);
    let d = split_year(c).0;
    if has_year_suffix(c) {
        let t = c.take(c.len() - 7);
        if t.len() > 0 {
            assert(t[0] == c[0]);
        }
        lemma_trim_end_trimmed(t);
    }
    assert(is_trimmed(d));
    lemma_strip_known_suffixes_trimmed(d);
    lemma_trimmed_trim(parsed_title(s).0);
}

/// The four characters of a release year.
pub open spec fn all_ascii_digits(ds: Seq<char>) -> bool {
    forall|i: int| 0 <= i < ds.len() ==> is_ascii_digit(#[trigger] ds[i])
}

/// The number that four ASCII digits write.
pub open spec fn four_digit_value(ds: Seq<char>) -> int {
    1000 * digit_value(ds[0]) + 100 * digit_value(ds[1]) + 10 * digit_value(ds[2]) + digit_value(
        ds[3],
    )
}

/// Whether `t` is already a normalized title: trimmed, with no known event prefix and no known
/// label at its end.
pub open spec fn is_clean_title(t: Seq<char>) -> bool {
    &&& is_trimmed(t)
    &&& forall|k: int|
        0 <= k < title_prefixes().len() ==> !(#[trigger] title_prefixes()[k]).is_prefix_of(t)
    &&& forall|k: int|
        0 <= k < title_suffixes().len() ==> !(#[trigger] title_suffixes()[k]).is_suffix_of(t)
}

/// An already clean title that does not end with `)` is its own normalized title, with no year.
pub proof fn lemma_clean_title_fixed_point(t: Seq<char>)
    requires
        is_clean_title(t),
        t.len() == 0 || t.last() != ')',
    ensures
        parsed_title(t) == (t, None::<u32>),
{
    lemma_trimmed_trim(t);
    lemma_find_prefix_none(title_prefixes(), t);
    lemma_find_suffix_none(title_suffixes(), t);
    assert(strip_known_suffixes(t) == t);
    assert(!has_year_suffix(t));
}

/// Appending ` (YYYY)` to a clean, non-empty title is undone exactly: the title comes back
/// with the year that the four digits write.
pub proof fn lemma_year_suffix_round_trip(t: Seq<char>, ds: Seq<char>)
    requires
        is_clean_title(t),
        t.len() > 0,
        ds.len() == 4,
        all_ascii_digits(ds),
        forall|k: int|
            0 <= k < title_prefixes().len() ==> !(#[trigger] title_prefixes()[k]).is_prefix_of(
                t + seq![' ', '('] + ds + seq![')'],
            ),
    ensures
        parsed_title(t + seq![' ', '('] + ds + seq![')']) == (
            t,
            Some(four_digit_value(ds) as u32),
        ),
{
    let s = t + seq![' ', '('] + ds + seq![')'];
    let n = s.len() as int;
    assert(s[0] == t[0]);
    assert(s.last() == ')');
    assert(is_trimmed(s));
    lemma_trimmed_trim(s);
    lemma_find_prefix_none(title_prefixes(), s);
    assert(strip_event_prefix(trim(s)) == s);
    // No known label ends with a digit and `)`.
    reveal_strlit(" (Dubbed)");
    reveal_strlit(" (Subtitled)");
    reveal_strlit(" (4K Restoration)");
    reveal_strlit(" - 4K RESTORATION");
    reveal_strlit(" (Director's Cut)");
    reveal_strlit(": The Final Cut");
    reveal_strlit(" 35th Anniversary");
    assert(s[n - 2] == ds[3]);
    assert(is_ascii_digit(ds[3]));
    assert forall|k: int| 0 <= k < title_suffixes().len() implies !(
    #[trigger] title_suffixes()[k]).is_suffix_of(s) by {
        let x = title_suffixes()[k];
        if x.is_suffix_of(s) {
            assert(s.subrange(n - x.len(), n) == x);
            assert(x[x.len() - 1] == s[n - 1]);
            assert(x[x.len() - 2] == s[n - 2]);
        }
    }
    lemma_find_suffix_none(title_suffixes(), s);
    assert(strip_known_suffixes(s) == s);
    assert(s[n - 7] == ' ' && s[n - 6] == '(');
    assert(s[n - 5] == ds[0] && s[n - 4] == ds[1] && s[n - 3] == ds[2]);
    assert(has_year_suffix(s));
    assert(s.take(n - 7) =~= t);
    lemma_trimmed_trim(t);
    lemma_find_suffix_none(title_suffixes(), t);
    assert(year_suffix_value(s) == four_digit_value(ds));
}

} // verus!

verus! {

/// Presentations whose titles are all represented already add no title.
proof fn lemma_unique_titles_extend(ps: Seq<Presentation>, qs: Seq<Presentation>)
    requires
        forall|k: int|
            0 <= k < qs.len() && is_target(#[trigger] qs[k]) && parsed_title(qs[k].show.title@).0.len()
                > 0 ==> title_keys(unique_title_views(ps)).contains(
                title_key(parsed_title(qs[k].show.title@)),
            ),
    ensures
        unique_title_views(ps + qs) == unique_title_views(ps),
    decreases qs.len(),
{
    if qs.len() == 0 {
        assert(ps + qs =~= ps);
    } else {
        let init = qs.drop_last();
        assert forall|k: int|
            0 <= k < init.len() && is_target(#[trigger] init[k]) && parsed_title(
                init[k].show.title@,
            ).0.len() > 0 implies title_keys(unique_title_views(ps)).contains(
            title_key(parsed_title(init[k].show.title@)),
        ) by {
            assert(init[k] == qs[k]);
        }
        lemma_unique_titles_extend(ps, init);
        assert((ps + qs).drop_last() =~= ps + init);
        assert((ps + qs).last() == qs[qs.len() - 1]);
    }
}

/// The same schedule seen a second time adds no title: a movie shown in several markets is
/// kept once.
pub proof fn lemma_unique_titles_repeat(ps: Seq<Presentation>)
    ensures
        unique_title_views(ps + ps) == unique_title_views(ps),
{
    assert forall|k: int|
        0 <= k < ps.len() && is_target(#[trigger] ps[k]) && parsed_title(ps[k].show.title@).0.len()
            > 0 implies title_keys(unique_title_views(ps)).contains(
        title_key(parsed_title(ps[k].show.title@)),
    ) by {
        lemma_unique_titles_complete(ps, k);
    }
    lemma_unique_titles_extend(ps, ps);
}

} // verus!

verus! {

/// Whether `c` is an ASCII letter.
pub open spec fn is_ascii_letter(c: char) -> bool {
    ('a' <= c <= 'z') || ('A' <= c <= 'Z')
}

/// Whether `t` is a plain title: ASCII letters and spaces only, beginning and ending with a
/// letter.
pub open spec fn is_plain_title(t: Seq<char>) -> bool {
    &&& t.len() > 0
    &&& is_ascii_letter(t[0])
    &&& is_ascii_letter(t.last())
    &&& forall|i: int| 0 <= i < t.len() ==> is_ascii_letter(#[trigger] t[i]) || t[i] == ' '
}

/// The eight Alamo event labels, each followed by `: `.
pub open spec fn alamo_event_labels() -> Seq<Seq<char>> {
    seq![
        "TERROR TUESDAY: "@,
        "WEIRD WEDNESDAY: "@,
        "VIDEO VORTEX: "@,
        "HORROR SHOW: "@,
        "FILM CLUB: "@,
        "WORLD OF ANIMATION: "@,
        "GRAVEYARD SHIFT: "@,
        "PSYCHO CINEMA: "@,
    ]
}

/// `find_prefix` reports the first of `prefixes` that begins `s`.
proof fn lemma_find_prefix_at(prefixes: Seq<Seq<char>>, s: Seq<char>, k: int)
    requires
        0 <= k < prefixes.len(),
        prefixes[k].is_prefix_of(s),
        forall|j: int| 0 <= j < k ==> !(#[trigger] prefixes[j]).is_prefix_of(s),
    ensures
        find_prefix(prefixes, s) == Some(prefixes[k]),
    decreases k,
{
    if k > 0 {
        assert(!prefixes[0].is_prefix_of(s));
        assert forall|j: int| 0 <= j < k - 1 implies !(#[trigger] prefixes.drop_first()[j]).is_prefix_of(
            s,
        ) by {
            assert(prefixes.drop_first()[j] == prefixes[j + 1]);
        }
        lemma_find_prefix_at(prefixes.drop_first(), s, k - 1);
    }
}

/// No known label after a title ends a plain title: each holds a character other than an
/// ASCII letter or a space.
proof fn lemma_plain_title_has_no_suffix(t: Seq<char>)
    requires
        is_plain_title(t),
    ensures
        find_suffix(title_suffixes(), t) is None,
{
    reveal_strlit(" (Dubbed)");
    reveal_strlit(" (Subtitled)");
    reveal_strlit(" (4K Restoration)");
    reveal_strlit(" - 4K RESTORATION");
    reveal_strlit(" (Director's Cut)");
    reveal_strlit(": The Final Cut");
    reveal_strlit(" 35th Anniversary");
    assert forall|k: int| 0 <= k < title_suffixes().len() implies !(
    #[trigger] title_suffixes()[k]).is_suffix_of(t) by {
        let x = title_suffixes()[k];
        if x.is_suffix_of(t) {
            let d = t.len() - x.len();
            assert(t.subrange(d, t.len() as int) == x);
            if k == 5 {
                assert(x[0] == t[d]);
            } else {
                assert(x[1] == t[d + 1]);
            }
        }
    }
    lemma_find_suffix_none(title_suffixes(), t);
}

/// Each of the eight Alamo event labels in front of a plain title is removed, and nothing else
/// is: the normalized title is the plain title, with no year.
pub proof fn lemma_event_labels_removed(t: Seq<char>, k: int)
    requires
        is_plain_title(t),
        0 <= k < 8,
    ensures
        parsed_title(alamo_event_labels()[k] + t) == (t, None::<u32>),
{
    reveal_strlit("TERROR TUESDAY: ");
    reveal_strlit("WEIRD WEDNESDAY: ");
    reveal_strlit("VIDEO VORTEX: ");
    reveal_strlit("HORROR SHOW: ");
    reveal_strlit("FILM CLUB: ");
    reveal_strlit("WORLD OF ANIMATION: ");
    reveal_strlit("GRAVEYARD SHIFT: ");
    reveal_strlit("PSYCHO CINEMA: ");
    let p = alamo_event_labels()[k];
    let s = p + t;
    assert(title_prefixes() =~= alamo_event_labels());
    // `s` is trimmed: it begins with a capital letter and ends with a letter.
    assert(s[0] == p[0]);
    assert(s.last() == t.last());
    assert(is_trimmed(s));
    lemma_trimmed_trim(s);
    // The label is the first known prefix that begins `s`.
    assert(p.is_prefix_of(s)) by {
        assert(s.subrange(0, p.len() as int) =~= p);
    }
    assert forall|j: int| 0 <= j < k implies !(#[trigger] title_prefixes()[j]).is_prefix_of(s) by {
        let q = title_prefixes()[j];
        if q.is_prefix_of(s) {
            assert(s.subrange(0, q.len() as int) == q);
            assert(q[0] == s[0]);
            assert(q[1] == s[1]);
        }
    }
    lemma_find_prefix_at(title_prefixes(), s, k);
    assert(s.skip(p.len() as int) =~= t);
    assert(is_trimmed(t));
    lemma_trimmed_trim(t);
    assert(strip_event_prefix(trim(s)) == t);
    lemma_plain_title_has_no_suffix(t);
    assert(strip_known_suffixes(t) == t);
    assert(!has_year_suffix(t));
}

/// The slugs of the eight Alamo collections that a run takes movies from.
pub open spec fn alamo_collections() -> Seq<Seq<char>> {
    seq![
        "terror-tuesday"@,
        "weird-wednesday"@,
        "video-vortex"@,
        "horror-show"@,
        "film-club"@,
        "world-of-animation"@,
        "graveyard-shift"@,
        "psycho-cinema"@,
    ]
}

/// A presentation is eligible exactly when its primary collection is one of the eight Alamo
/// collections: Terror Tuesday, Weird Wednesday, Video Vortex, Horror Show, Film Club, World of
/// Animation, Graveyard Shift and Psycho Cinema.
pub proof fn lemma_target_collections()
    ensures
        forall|p: Presentation|
            #[trigger] is_target(p) <==> (p.primary_collection_slug matches Some(slug)
                && alamo_collections().contains(slug@)),
        forall|k: int|
            0 <= k < 8 ==> #[trigger] TARGET_COLLECTIONS@[k]@ == alamo_collections()[k],
{
    assert(target_collections() =~= alamo_collections());
    assert(TARGET_COLLECTIONS@.len() == 8);
    assert forall|k: int| 0 <= k < 8 implies #[trigger] TARGET_COLLECTIONS@[k]@
        == alamo_collections()[k] by {
        assert(TARGET_COLLECTIONS@.map_values(|s: &str| s@) =~= alamo_collections());
        assert(TARGET_COLLECTIONS@.map_values(|s: &str| s@)[k] == TARGET_COLLECTIONS@[k]@);
    }
}

} // verus!
